//! Volumes: the targets that boards in their boot loaders offer, and what may be written there.

use vstd::prelude::*;

use crate::path::{join, joined};
use crate::providers::{named_properties, offered_properties};
use crate::registry::{properties_match, Properties, PROVIDER, PROVIDER_NAME};
use crate::status::{is_status, Code, Status};
use crate::text::{str_eq, trim_end, trimmed_end};
use crate::udev::{item_properties, Device};
use crate::volume_io::VolumeTarget;

verus! {

/// Why an operation on a volume failed.
#[derive(Debug)]
pub enum VolumeError {
    /// There is no such target.
    UnknownTargetRequested,
    /// The volume cannot do that.
    NotImplemented,
    /// Something is broken.
    Internal(String),
    /// The device refused.
    Failure(String),
}

/// The text of an error.
pub open spec fn volume_error_text(e: VolumeError) -> Seq<char> {
    match e {
        VolumeError::UnknownTargetRequested => "Unknown target requested"@,
        VolumeError::NotImplemented => "Operation not implemented for this volume"@,
        VolumeError::Internal(m) => "Internal error: "@ + m@,
        VolumeError::Failure(m) => "Volume failure: "@ + m@,
    }
}

/// What a request is answered with.
pub open spec fn volume_error_status(e: VolumeError, status: Status) -> bool {
    match e {
        VolumeError::UnknownTargetRequested => is_status(
            status,
            Code::NotFound,
            volume_error_text(e),
        ),
        VolumeError::NotImplemented => is_status(
            status,
            Code::Unimplemented,
            volume_error_text(e),
        ),
        VolumeError::Internal(m) => is_status(status, Code::Internal, m@),
        VolumeError::Failure(m) => is_status(status, Code::Aborted, m@),
    }
}

/// A text with another in front.
fn prefixed(prefix: &str, rest: &str) -> (r: String)
    ensures
        r@ == prefix@ + rest@,
{
    let mut r = prefix.to_owned();
    r.append(rest);
    r
}

impl VolumeError {
    /// The text of the error.
    pub fn message(&self) -> (r: String)
        ensures
            r@ == volume_error_text(*self),
    {
        match self {
            VolumeError::UnknownTargetRequested => "Unknown target requested".to_owned(),
            VolumeError::NotImplemented => "Operation not implemented for this volume".to_owned(),
            VolumeError::Internal(m) => prefixed("Internal error: ", m.as_str()),
            VolumeError::Failure(m) => prefixed("Volume failure: ", m.as_str()),
        }
    }

    /// What a request is answered with.
    pub fn into_status(self) -> (r: Status)
        ensures
            volume_error_status(self, r),
    {
        match self {
            VolumeError::UnknownTargetRequested => Status::new(
                Code::NotFound,
                "Unknown target requested",
            ),
            VolumeError::NotImplemented => Status::new(
                Code::Unimplemented,
                "Operation not implemented for this volume",
            ),
            VolumeError::Internal(message) => Status { code: Code::Internal, message },
            VolumeError::Failure(message) => Status { code: Code::Aborted, message },
        }
    }
}

/// A target as a server tells of it.
pub open spec fn is_target(
    target: VolumeTarget,
    name: Seq<char>,
    readable: bool,
    seekable: bool,
    size: Option<u64>,
    blocksize: Option<u32>,
) -> bool {
    &&& target.name@ == name
    &&& target.readable == readable
    &&& target.writable
    &&& target.seekable == seekable
    &&& target.size == size
    &&& target.blocksize == blocksize
}

/// A target that can only be written from its start to its end.
fn write_only(name: &str) -> (r: VolumeTarget)
    ensures
        is_target(r, name@, false, false, None, None),
{
    VolumeTarget {
        name: name.to_owned(),
        readable: false,
        writable: true,
        seekable: false,
        size: None,
        blocksize: None,
    }
}

/// The first target of this name.
pub open spec fn is_first_named(targets: Seq<VolumeTarget>, name: Seq<char>, at: int) -> bool {
    &&& 0 <= at < targets.len()
    &&& targets[at].name@ == name
    &&& forall|i: int| 0 <= i < at ==> (#[trigger] targets[i]).name@ != name
}

/// Where among the targets the first one of this name is.
pub fn find_target(targets: &Vec<VolumeTarget>, name: &str) -> (r: Result<usize, VolumeError>)
    ensures
        match r {
            Ok(at) => is_first_named(targets@, name@, at as int),
            Err(e) => e is UnknownTargetRequested && forall|i: int|
                0 <= i < targets@.len() ==> (#[trigger] targets@[i]).name@ != name@,
        },
{
    for i in 0..targets.len()
        invariant
            forall|j: int| 0 <= j < i ==> (#[trigger] targets@[j]).name@ != name@,
    {
        if str_eq(targets[i].name.as_str(), name) {
            return Ok(i);
        }
    }
    Err(VolumeError::UnknownTargetRequested)
}

/// A target whose data is collected before it is sent to the device in one go.
#[derive(Debug)]
pub struct BufferedTarget {
    data: Vec<u8>,
    limit: usize,
}

/// How much a boot rom takes at most: what was announced, but no more than 8 MB; 1 MB where
/// nothing was announced.
pub open spec fn brom_limit(size_hint: Option<u64>) -> u64 {
    match size_hint {
        Some(n) => if n < 8388608 {
            n
        } else {
            8388608
        },
        None => 1048576,
    }
}

/// What is collected after a write, or why the write is refused: data has to follow what was
/// collected, within the room for it.
pub open spec fn collected_after(
    collected: Seq<u8>,
    room: nat,
    data: Seq<u8>,
    offset: nat,
) -> Result<Seq<u8>, Seq<char>> {
    if offset != collected.len() {
        Err("Invalid offset"@)
    } else if data.len() + collected.len() > room {
        Err("No more capacity"@)
    } else {
        Ok(collected + data)
    }
}

impl BufferedTarget {
    /// The data that was collected.
    pub closed spec fn collected(self) -> Seq<u8> {
        self.data@
    }

    /// How much can be collected.
    pub closed spec fn room(self) -> nat {
        self.limit as nat
    }

    /// What was collected is within the limit.
    pub open spec fn wf(self) -> bool {
        self.collected().len() <= self.room()
    }

    /// A target for a blob in mask rom mode, where 1 MB is the maximum.
    pub fn maskrom() -> (r: Self)
        ensures
            r.wf(),
            r.collected() == Seq::<u8>::empty(),
            r.room() == 1048576,
    {
        BufferedTarget { data: Vec::new(), limit: 1048576 }
    }

    /// A target for a download agent.
    pub fn brom(size_hint: Option<u64>) -> (r: Self)
        ensures
            r.wf(),
            r.collected() == Seq::<u8>::empty(),
            r.room() == brom_limit(size_hint),
    {
        let limit: u64 = match size_hint {
            Some(n) => if n < 8388608 {
                n
            } else {
                8388608
            },
            None => 1048576,
        };
        BufferedTarget { data: Vec::new(), limit: limit as usize }
    }

    /// Takes data in that follows what was collected. Returned is how much was taken.
    pub fn write(&mut self, data: &Vec<u8>, offset: u64) -> (r: Result<u64, Status>)
        requires
            old(self).wf(),
        ensures
            final(self).wf(),
            final(self).room() == old(self).room(),
            match collected_after(
                old(self).collected(),
                old(self).room(),
                data@,
                offset as nat,
            ) {
                Ok(after) => {
                    &&& r == Ok::<u64, Status>(data@.len() as u64)
                    &&& final(self).collected() == after
                },
                Err(text) => {
                    &&& r is Err
                    &&& is_status(r->Err_0, Code::OutOfRange, text)
                    &&& final(self).collected() == old(self).collected()
                },
            },
    {
        if offset != self.data.len() as u64 {
            return Err(Status::new(Code::OutOfRange, "Invalid offset"));
        }
        if data.len() > self.limit - self.data.len() {
            return Err(Status::new(Code::OutOfRange, "No more capacity"));
        }
        for i in 0..data.len()
            invariant
                self.limit == old(self).limit,
                self.data@ == old(self).data@ + data@.take(i as int),
        {
            self.data.push(data[i]);
            assert(self.data@ =~= old(self).data@ + data@.take(i + 1));
        }
        assert(data@.take(data@.len() as int) =~= data@);
        Ok(data.len() as u64)
    }

    /// Hands out what was collected. Nothing can be collected afterwards.
    pub fn finish(&mut self) -> (r: Vec<u8>)
        ensures
            r@ == old(self).collected(),
            final(self).wf(),
            final(self).collected() == Seq::<u8>::empty(),
            final(self).room() == 0,
    {
        let mut data: Vec<u8> = Vec::new();
        std::mem::swap(&mut data, &mut self.data);
        self.limit = 0;
        data
    }

    /// Hands out what was collected. The room that was not used is left.
    pub fn split(&mut self) -> (r: Vec<u8>)
        requires
            old(self).wf(),
        ensures
            r@ == old(self).collected(),
            final(self).wf(),
            final(self).collected() == Seq::<u8>::empty(),
            final(self).room() == old(self).room() - old(self).collected().len(),
    {
        let mut data: Vec<u8> = Vec::new();
        std::mem::swap(&mut data, &mut self.data);
        self.limit = self.limit - data.len();
        data
    }
}

/// Two writes that follow one another collect what one write of both collects.
pub proof fn law_writes_are_collected(collected: Seq<u8>, room: nat, a: Seq<u8>, b: Seq<u8>)
    requires
        collected.len() + a.len() <= room,
    ensures
        ({
            let n = collected.len();
            let first = collected_after(collected, room, a, n);
            &&& first is Ok
            &&& collected_after(first->Ok_0, room, b, n + a.len()) == collected_after(
                collected,
                room,
                a + b,
                n,
            )
        }),
{
    assert((collected + a) + b =~= collected + (a + b));
}

/// What a Rockchip board in USB mode offers.
#[derive(Debug)]
pub enum RockUsbMode {
    /// The mask rom: takes the first two blobs of a boot.
    MaskRom,
    /// A loader with a flash of this name and size.
    Loader(String, u64),
}

/// The areas of the mask rom that blobs go to.
pub open spec fn maskrom_area(target: Seq<char>) -> Option<u16> {
    if target == "471"@ {
        Some(0x471)
    } else if target == "472"@ {
        Some(0x472)
    } else {
        None
    }
}

/// What opening a target of a Rockchip board leads to.
#[derive(Copy, Clone, Debug, PartialEq, Eq, Structural)]
pub enum RockUsbOpen {
    /// Collect a blob for this area.
    Maskrom(u16),
    /// Read and write the flash.
    Flash,
}

impl RockUsbMode {
    /// The mode of a board: only a loader tells the size of the flash, and maybe its name.
    pub fn determine(size: Option<u64>, flash: Option<&str>) -> (r: RockUsbMode)
        ensures
            match size {
                None => r is MaskRom,
                Some(size) => r is Loader && r->Loader_1 == size && r->Loader_0@ == match flash {
                    Some(name) => trimmed_end(name@),
                    None => "unknown"@,
                },
            },
    {
        match size {
            None => RockUsbMode::MaskRom,
            Some(size) => RockUsbMode::Loader(
                match flash {
                    Some(name) => trim_end(name),
                    None => "unknown".to_owned(),
                },
                size,
            ),
        }
    }

    /// The targets in this mode.
    pub fn targets(&self) -> (r: Vec<VolumeTarget>)
        ensures
            match self {
                RockUsbMode::MaskRom => r@.len() == 2 && is_target(
                    r@[0],
                    "471"@,
                    false,
                    false,
                    None,
                    None,
                ) && is_target(r@[1], "472"@, false, false, None, None),
                RockUsbMode::Loader(name, size) => r@.len() == 1 && is_target(
                    r@[0],
                    name@,
                    true,
                    true,
                    Some(*size),
                    Some(512u32),
                ),
            },
    {
        let mut r: Vec<VolumeTarget> = Vec::new();
        match self {
            RockUsbMode::MaskRom => {
                r.push(write_only("471"));
                r.push(write_only("472"));
            },
            RockUsbMode::Loader(name, size) => {
                r.push(
                    VolumeTarget {
                        name: name.clone(),
                        readable: true,
                        writable: true,
                        seekable: true,
                        size: Some(*size),
                        blocksize: Some(512),
                    },
                );
            },
        }
        r
    }

    /// What opening a target leads to.
    pub fn open(&self, target: &str) -> (r: Result<RockUsbOpen, VolumeError>)
        ensures
            match r {
                Ok(RockUsbOpen::Maskrom(area)) => self is MaskRom && maskrom_area(target@)
                    == Some(area),
                Ok(RockUsbOpen::Flash) => self is Loader && self->Loader_0@ == target@,
                Err(e) => e is UnknownTargetRequested && match self {
                    RockUsbMode::MaskRom => maskrom_area(target@) is None,
                    RockUsbMode::Loader(name, _) => name@ != target@,
                },
            },
    {
        match self {
            RockUsbMode::MaskRom => if str_eq(target, "471") {
                Ok(RockUsbOpen::Maskrom(0x471))
            } else if str_eq(target, "472") {
                Ok(RockUsbOpen::Maskrom(0x472))
            } else {
                Err(VolumeError::UnknownTargetRequested)
            },
            RockUsbMode::Loader(name, _) => if str_eq(name.as_str(), target) {
                Ok(RockUsbOpen::Flash)
            } else {
                Err(VolumeError::UnknownTargetRequested)
            },
        }
    }
}

/// Why an operation on a Rockchip board failed.
#[derive(Debug)]
pub enum RockUsbError {
    /// The thread that drives the board is gone.
    CommandsSend,
    /// The thread that drives the board gave no answer.
    CommandsRecv(String),
    /// The USB transfer failed.
    RockUsb(String),
    /// The board is gone.
    RockDeviceUnavailable(String),
}

/// The text of an error.
pub open spec fn rockusb_error_text(e: RockUsbError) -> Seq<char> {
    match e {
        RockUsbError::CommandsSend => "Failed to send command to rockusb thread"@,
        RockUsbError::CommandsRecv(m) => "Failed to getting reply from rockusb thread: "@ + m@,
        RockUsbError::RockUsb(m) => "Rockusb usb error: "@ + m@,
        RockUsbError::RockDeviceUnavailable(m) => "Rockusb device not available: "@ + m@,
    }
}

impl RockUsbError {
    /// The text of the error.
    pub fn message(&self) -> (r: String)
        ensures
            r@ == rockusb_error_text(*self),
    {
        match self {
            RockUsbError::CommandsSend => "Failed to send command to rockusb thread".to_owned(),
            RockUsbError::CommandsRecv(m) => prefixed(
                "Failed to getting reply from rockusb thread: ",
                m.as_str(),
            ),
            RockUsbError::RockUsb(m) => prefixed("Rockusb usb error: ", m.as_str()),
            RockUsbError::RockDeviceUnavailable(m) => prefixed(
                "Rockusb device not available: ",
                m.as_str(),
            ),
        }
    }

    /// What a request is answered with.
    pub fn into_status(self) -> (r: Status)
        ensures
            is_status(
                r,
                match self {
                    RockUsbError::CommandsSend => Code::Internal,
                    RockUsbError::CommandsRecv(_) => Code::Internal,
                    RockUsbError::RockUsb(_) => Code::Aborted,
                    RockUsbError::RockDeviceUnavailable(_) => Code::Unavailable,
                },
                rockusb_error_text(self),
            ),
    {
        let message = self.message();
        let code = match self {
            RockUsbError::CommandsSend => Code::Internal,
            RockUsbError::CommandsRecv(_) => Code::Internal,
            RockUsbError::RockUsb(_) => Code::Aborted,
            RockUsbError::RockDeviceUnavailable(_) => Code::Unavailable,
        };
        Status { code, message }
    }

    /// The error as one of the volume.
    pub fn into_volume_error(self) -> (r: VolumeError)
        ensures
            match self {
                RockUsbError::CommandsSend => r is Internal && r->Internal_0@
                    == rockusb_error_text(self),
                RockUsbError::CommandsRecv(_) => r is Internal && r->Internal_0@
                    == rockusb_error_text(self),
                _ => r is Failure && r->Failure_0@ == rockusb_error_text(self),
            },
    {
        let message = self.message();
        match self {
            RockUsbError::CommandsSend => VolumeError::Internal(message),
            RockUsbError::CommandsRecv(_) => VolumeError::Internal(message),
            _ => VolumeError::Failure(message),
        }
    }
}

/// The targets of a board in its MediaTek boot rom.
pub fn brom_targets() -> (r: Vec<VolumeTarget>)
    ensures
        r@.len() == 1,
        is_target(r@[0], "brom"@, false, false, None, None),
{
    let mut r: Vec<VolumeTarget> = Vec::new();
    r.push(write_only("brom"));
    r
}

/// The targets of a board in device firmware upgrade mode.
pub fn dfu_targets(names: &Vec<String>) -> (r: Vec<VolumeTarget>)
    ensures
        r@.len() == names@.len(),
        forall|i: int|
            0 <= i < r@.len() ==> is_target(
                #[trigger] r@[i],
                names@[i]@,
                false,
                false,
                None,
                None,
            ),
{
    let mut r: Vec<VolumeTarget> = Vec::new();
    for i in 0..names.len()
        invariant
            r@.len() == i,
            forall|j: int|
                0 <= j < i ==> is_target(#[trigger] r@[j], names@[j]@, false, false, None, None),
    {
        r.push(write_only(names[i].as_str()));
    }
    r
}

/// What became of something that a board was told.
#[derive(Debug)]
pub enum Told {
    /// The board did it.
    Done,
    /// The board refused, or was not reached.
    Refused(String),
    /// Nobody is left to tell the board.
    Gone(String),
}

impl Told {
    /// How a target is closed whose data the board was told to load.
    pub fn into_reply(self) -> (r: Result<(), Status>)
        ensures
            match self {
                Told::Done => r is Ok,
                Told::Refused(text) => r is Err && is_status(
                    r->Err_0,
                    Code::FailedPrecondition,
                    text@,
                ),
                Told::Gone(text) => r is Err && is_status(r->Err_0, Code::Internal, text@),
            },
    {
        match self {
            Told::Done => Ok(()),
            Told::Refused(message) => Err(Status { code: Code::FailedPrecondition, message }),
            Told::Gone(message) => Err(Status { code: Code::Internal, message }),
        }
    }

    /// How a volume is committed whose board was told to run what it loaded.
    pub fn into_commit(self) -> (r: Result<(), VolumeError>)
        ensures
            r == match self {
                Told::Done => Ok::<(), VolumeError>(()),
                Told::Refused(text) => Err::<(), VolumeError>(VolumeError::Failure(text)),
                Told::Gone(text) => Err::<(), VolumeError>(VolumeError::Internal(text)),
            },
    {
        match self {
            Told::Done => Ok(()),
            Told::Refused(text) => Err(VolumeError::Failure(text)),
            Told::Gone(text) => Err(VolumeError::Internal(text)),
        }
    }
}

/// The file that the boot loader of an ESWIN board is written to.
pub const BOOTLOADER_FILE: &'static str = "bootloader_ddr5_secboot.bin";

/// The targets of an ESWIN board that shows up as a disk.
pub fn eswin_targets() -> (r: Vec<VolumeTarget>)
    ensures
        r@.len() == 1,
        is_target(r@[0], "bootloader"@, false, true, None, None),
{
    let mut r: Vec<VolumeTarget> = Vec::new();
    r.push(
        VolumeTarget {
            name: "bootloader".to_owned(),
            readable: false,
            writable: true,
            seekable: true,
            size: None,
            blocksize: None,
        },
    );
    r
}

/// What opening a target of an ESWIN board writes to: the file of its boot loader, below where
/// the disk is mounted.
pub fn eswin_open(targets: &Vec<VolumeTarget>, target: &str, path: &str) -> (r: Result<
    (usize, String),
    VolumeError,
>)
    ensures
        match r {
            Ok((at, file)) => {
                &&& is_first_named(targets@, target@, at as int)
                &&& file@ == joined(path@, BOOTLOADER_FILE@)
            },
            Err(e) => e is UnknownTargetRequested && forall|i: int|
                0 <= i < targets@.len() ==> (#[trigger] targets@[i]).name@ != target@,
        },
{
    match find_target(targets, target) {
        Ok(at) => Ok((at, join(path, BOOTLOADER_FILE))),
        Err(e) => Err(e),
    }
}

/// The property of a disk that tells its node.
pub const DEVNAME: &'static str = "udev.DEVNAME";

/// The property of a disk that tells where it is attached.
pub const ID_PATH: &'static str = "udev.ID_PATH";

/// The properties of an ESWIN board that shows up as a disk, where they are those that are wanted.
/// The disk comes first, its parents behind it. The board has the name of its provider.
pub fn eswin_device(chain: &Vec<Device>, wanted: &Vec<(String, String)>, provider_name: &str) -> (r:
    Option<Properties>)
    ensures
        if properties_match(named_properties(provider_name@, chain@), wanted@) {
            &&& r is Some
            &&& r->0.wf()
            &&& r->0@ == offered_properties(
                provider_name@,
                chain@,
                provider_name@,
                "eswin-eic7700-storage"@,
            )
        } else {
            r is None
        },
{
    let mut properties = item_properties(provider_name, chain);
    if !properties.matches(wanted) {
        return None;
    }
    properties.insert(PROVIDER_NAME, provider_name);
    properties.insert(PROVIDER, "eswin-eic7700-storage");
    Some(properties)
}

/// The node of an ESWIN board that shows up as a disk, and where that is mounted below the place
/// for mounts.
pub fn eswin_mount(properties: &Properties, mountpoint: &str) -> (r: Result<
    (String, String),
    &'static str,
>)
    requires
        properties.wf(),
    ensures
        if !properties@.contains_key(DEVNAME@) {
            r is Err && r->Err_0@ == "Failed to read udev property DEVNAME"@
        } else if !properties@.contains_key(ID_PATH@) {
            r is Err && r->Err_0@ == "Failed to read udev property ID_PATH"@
        } else {
            &&& r is Ok
            &&& r->Ok_0.0@ == properties@[DEVNAME@]
            &&& r->Ok_0.1@ == joined(mountpoint@, properties@[ID_PATH@])
        },
{
    match properties.get(DEVNAME) {
        None => Err("Failed to read udev property DEVNAME"),
        Some(devname) => match properties.get(ID_PATH) {
            None => Err("Failed to read udev property ID_PATH"),
            Some(id) => Ok((devname.to_owned(), join(mountpoint, id))),
        },
    }
}

/// Where among the mounts, as pairs of source and destination, this one is.
pub fn find_mount(mounts: &Vec<(String, String)>, source: &str, dest: &str) -> (r: Option<usize>)
    ensures
        match r {
            Some(at) => at < mounts@.len() && mounts@[at as int].0@ == source@
                && mounts@[at as int].1@ == dest@ && forall|i: int|
                0 <= i < at ==> (#[trigger] mounts@[i]).0@ != source@ || mounts@[i].1@ != dest@,
            None => forall|i: int|
                0 <= i < mounts@.len() ==> (#[trigger] mounts@[i]).0@ != source@
                    || mounts@[i].1@ != dest@,
        },
{
    for i in 0..mounts.len()
        invariant
            forall|j: int|
                0 <= j < i ==> (#[trigger] mounts@[j]).0@ != source@ || mounts@[j].1@ != dest@,
    {
        if str_eq(mounts[i].0.as_str(), source) && str_eq(mounts[i].1.as_str(), dest) {
            return Some(i);
        }
    }
    None
}

/// An alternate setting of an interface of a USB device.
#[derive(Copy, Clone, Debug, PartialEq, Eq, Structural)]
pub struct AltSetting {
    /// Number of the interface.
    pub interface: u8,
    /// Number of the setting.
    pub alt: u8,
    /// Class of the interface.
    pub class: u8,
    /// Class within the class.
    pub subclass: u8,
    /// Protocol.
    pub protocol: u8,
}

impl AltSetting {
    /// Whether firmware can be written over this setting: device firmware upgrade, in upgrade
    /// rather than application mode.
    pub fn is_dfu(&self) -> (r: bool)
        ensures
            r == (self.class == 0xfe && self.subclass == 1 && self.protocol == 2),
    {
        self.class == 0xfe && self.subclass == 0x1 && self.protocol == 0x2
    }
}

/// Where a target of a board in device firmware upgrade mode is written to.
#[derive(Copy, Clone, Debug, PartialEq, Eq, Structural)]
pub struct DfuInterface {
    /// Number of the interface.
    pub interface: u8,
    /// Number of the setting.
    pub alt: u8,
}

/// The targets of a board with where each is written to: the settings for device firmware upgrade
/// that have a name. Of several of one name the last counts.
pub open spec fn dfu_map(settings: Seq<(AltSetting, Option<String>)>) -> Map<
    Seq<char>,
    DfuInterface,
>
    decreases settings.len(),
{
    if settings.len() == 0 {
        Map::empty()
    } else {
        let rest = dfu_map(settings.drop_last());
        let (setting, name) = settings.last();
        match name {
            Some(name) => if setting.class == 0xfe && setting.subclass == 1 && setting.protocol
                == 2 {
                rest.insert(
                    name@,
                    DfuInterface { interface: setting.interface, alt: setting.alt },
                )
            } else {
                rest
            },
            None => rest,
        }
    }
}

/// Whether the entries are those of the map, each once.
pub open spec fn are_entries(
    entries: Seq<(String, DfuInterface)>,
    map: Map<Seq<char>, DfuInterface>,
) -> bool {
    &&& forall|i: int|
        0 <= i < entries.len() ==> map.contains_key((#[trigger] entries[i]).0@)
            && map[entries[i].0@] == entries[i].1
    &&& forall|k: Seq<char>|
        map.contains_key(k) ==> exists|i: int|
            0 <= i < entries.len() && (#[trigger] entries[i]).0@ == k
    &&& forall|i: int, j: int|
        #![trigger entries[i], entries[j]]
        0 <= i < j < entries.len() ==> entries[i].0@ != entries[j].0@
}

/// The targets of a board in device firmware upgrade mode, with where each is written to.
pub fn dfu_interfaces(settings: &Vec<(AltSetting, Option<String>)>) -> (r: Vec<
    (String, DfuInterface),
>)
    ensures
        are_entries(r@, dfu_map(settings@)),
{
    let mut r: Vec<(String, DfuInterface)> = Vec::new();
    assert(settings@.take(0) =~= Seq::empty());
    for i in 0..settings.len()
        invariant
            are_entries(r@, dfu_map(settings@.take(i as int))),
    {
        proof {
            assert(settings@.take(i + 1).drop_last() =~= settings@.take(i as int));
            assert(settings@.take(i + 1).last() == settings@[i as int]);
        }
        if let Some(name) = &settings[i].1 {
            let setting = settings[i].0;
            if setting.is_dfu() {
                let interface = DfuInterface { interface: setting.interface, alt: setting.alt };
                insert_interface(
                    &mut r,
                    name.clone(),
                    interface,
                    Ghost(dfu_map(settings@.take(i as int))),
                );
            }
        }
    }
    assert(settings@.take(settings@.len() as int) =~= settings@);
    r
}

fn insert_interface(
    entries: &mut Vec<(String, DfuInterface)>,
    name: String,
    interface: DfuInterface,
    map: Ghost<Map<Seq<char>, DfuInterface>>,
)
    requires
        are_entries(old(entries)@, map@),
    ensures
        are_entries(final(entries)@, map@.insert(name@, interface)),
{
    let ghost before = entries@;
    let ghost key = name@;
    let ghost after_map = map@.insert(key, interface);
    match interface_at(entries, name.as_str()) {
        Some(at) => {
            entries.set(at, (name, interface));
            proof {
                let after = entries@;
                assert forall|i: int| 0 <= i < after.len() implies after_map.contains_key(
                    (#[trigger] after[i]).0@,
                ) && after_map[after[i].0@] == after[i].1 by {
                    if i != at {
                        assert(after[i] == before[i]);
                        assert(before[i].0@ != before[at as int].0@);
                    }
                }
                assert forall|k: Seq<char>| after_map.contains_key(k) implies exists|i: int|
                    0 <= i < after.len() && (#[trigger] after[i]).0@ == k by {
                    if k == key {
                        assert(after[at as int].0@ == k);
                    } else {
                        let i = choose|i: int|
                            0 <= i < before.len() && (#[trigger] before[i]).0@ == k;
                        assert(after[i].0@ == k);
                    }
                }
                assert forall|i: int, j: int| #![trigger after[i], after[j]]
                    0 <= i < j < after.len() implies after[i].0@ != after[j].0@ by {
                    assert(before[i].0@ != before[j].0@);
                }
            }
        },
        None => {
            entries.push((name, interface));
            proof {
                let after = entries@;
                assert forall|i: int| 0 <= i < after.len() implies after_map.contains_key(
                    (#[trigger] after[i]).0@,
                ) && after_map[after[i].0@] == after[i].1 by {
                    if i < before.len() {
                        assert(after[i] == before[i]);
                    }
                }
                assert forall|k: Seq<char>| after_map.contains_key(k) implies exists|i: int|
                    0 <= i < after.len() && (#[trigger] after[i]).0@ == k by {
                    if k == key {
                        assert(after[before.len() as int].0@ == k);
                    } else {
                        let i = choose|i: int|
                            0 <= i < before.len() && (#[trigger] before[i]).0@ == k;
                        assert(after[i].0@ == k);
                    }
                }
                assert forall|i: int, j: int| #![trigger after[i], after[j]]
                    0 <= i < j < after.len() implies after[i].0@ != after[j].0@ by {
                    if j < before.len() {
                        assert(before[i].0@ != before[j].0@);
                    } else {
                        assert(after[i] == before[i]);
                    }
                }
            }
        },
    }
}

fn interface_at(entries: &Vec<(String, DfuInterface)>, name: &str) -> (r: Option<usize>)
    ensures
        match r {
            Some(at) => at < entries@.len() && entries@[at as int].0@ == name@,
            None => forall|i: int| 0 <= i < entries@.len() ==> (#[trigger] entries@[i]).0@ != name@,
        },
{
    for i in 0..entries.len()
        invariant
            forall|j: int| 0 <= j < i ==> (#[trigger] entries@[j]).0@ != name@,
    {
        if str_eq(entries[i].0.as_str(), name) {
            return Some(i);
        }
    }
    None
}

/// Where a target is written to, and how many bytes the board is told to expect.
pub fn dfu_download(
    entries: &Vec<(String, DfuInterface)>,
    target: &str,
    length: Option<u64>,
) -> (r: Option<(DfuInterface, u32)>)
    ensures
        match r {
            Some((interface, expected)) => {
                &&& exists|i: int|
                    0 <= i < entries@.len() && (#[trigger] entries@[i]).0@ == target@
                        && entries@[i].1 == interface
                &&& expected == match length {
                    Some(length) => length % 0x1_0000_0000,
                    None => 0,
                }
            },
            None => forall|i: int|
                0 <= i < entries@.len() ==> (#[trigger] entries@[i]).0@ != target@,
        },
{
    let expected: u32 = match length {
        Some(length) => (length % 0x1_0000_0000) as u32,
        None => 0,
    };
    match interface_at(entries, target) {
        Some(at) => {
            let interface = entries[at].1;
            assert(entries@[at as int].1 == interface);
            Some((interface, expected))
        },
        None => None,
    }
}

/// Over which setting the board is reset: any will do.
pub fn dfu_reset(entries: &Vec<(String, DfuInterface)>) -> (r: Option<DfuInterface>)
    ensures
        match r {
            Some(interface) => exists|i: int|
                0 <= i < entries@.len() && (#[trigger] entries@[i]).1 == interface,
            None => entries@.len() == 0,
        },
{
    if entries.len() == 0 {
        None
    } else {
        let interface = entries[0].1;
        assert(entries@[0].1 == interface);
        Some(interface)
    }
}

/// A write is taken exactly if it goes on where the last one stopped and all of it fits; then all
/// of it is collected behind what was there.
pub proof fn law_collecting(collected: Seq<u8>, room: nat, data: Seq<u8>, offset: nat, i: int)
    ensures
        collected_after(collected, room, data, offset) is Ok <==> offset == collected.len()
            && collected.len() + data.len() <= room,
        collected_after(collected, room, data, offset) matches Ok(after) ==> {
            &&& after.len() == collected.len() + data.len()
            &&& 0 <= i < collected.len() ==> after[i] == collected[i]
            &&& 0 <= i < data.len() ==> after[offset + i] == data[i]
        },
        offset != collected.len() ==> collected_after(collected, room, data, offset) == Err::<
            Seq<u8>,
            Seq<char>,
        >("Invalid offset"@),
{
}

/// A boot rom takes what was announced where that is no more than eight megabytes, eight megabytes
/// where it is more, and one where nothing was announced.
pub proof fn law_boot_rom_limits(n: u64)
    ensures
        brom_limit(Some(n)) <= n,
        brom_limit(Some(n)) <= 8 * 1024 * 1024,
        brom_limit(Some(n)) == n || brom_limit(Some(n)) == 8 * 1024 * 1024,
        brom_limit(None) == 1024 * 1024,
{
}

/// A name is a target of a board in device firmware upgrade mode exactly if one of the settings for
/// that has it, and it is written to over the last of them.
pub proof fn law_last_setting_counts(
    settings: Seq<(AltSetting, Option<String>)>,
    name: Seq<char>,
    i: int,
)
    ensures
        0 <= i < settings.len() && upgrades(settings[i], name) && (forall|j: int|
            i < j < settings.len() ==> !upgrades(#[trigger] settings[j], name)) ==> dfu_map(
            settings,
        ).contains_pair(
            name,
            DfuInterface { interface: settings[i].0.interface, alt: settings[i].0.alt },
        ),
        (forall|j: int| 0 <= j < settings.len() ==> !upgrades(#[trigger] settings[j], name))
            ==> !dfu_map(settings).contains_key(name),
    decreases settings.len(),
{
    if settings.len() > 0 {
        let rest = settings.drop_last();
        law_last_setting_counts(rest, name, i);
        let last = settings[settings.len() - 1];
        assert(last == settings.last());
        if forall|j: int| 0 <= j < settings.len() ==> !upgrades(#[trigger] settings[j], name) {
            assert forall|j: int| 0 <= j < rest.len() implies !upgrades(
                #[trigger] rest[j],
                name,
            ) by {
                assert(rest[j] == settings[j]);
            }
            assert(!upgrades(last, name));
        }
        if 0 <= i < rest.len() && upgrades(settings[i], name) && (forall|j: int|
            i < j < settings.len() ==> !upgrades(#[trigger] settings[j], name)) {
            assert forall|j: int| i < j < rest.len() implies !upgrades(#[trigger] rest[j], name) by {
                assert(rest[j] == settings[j]);
            }
            assert(!upgrades(last, name));
        }
    }
}

/// Whether a setting is one for device firmware upgrade with the name, in upgrade mode.
pub open spec fn upgrades(setting: (AltSetting, Option<String>), name: Seq<char>) -> bool {
    &&& setting.0.class == 254
    &&& setting.0.subclass == 1
    &&& setting.0.protocol == 2
    &&& setting.1 is Some
    &&& setting.1->0@ == name
}

} // verus!
