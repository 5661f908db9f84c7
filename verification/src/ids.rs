//! Ids of the items of a server, one type for each kind.

use vstd::prelude::*;

use crate::registry::RegistryIndex;
use crate::text::{append_decimal, decimal};

verus! {

/// An index whose number clients know an item by.
pub trait ItemId: RegistryIndex {
    /// The number.
    fn value(&self) -> (r: u64)
        ensures
            r as nat == self.position(),
    ;
}

/// Index of the actuators.
#[derive(Copy, Clone, Debug, PartialEq, Eq, Structural)]
pub struct ActuatorId(pub u64);

impl RegistryIndex for ActuatorId {
    open spec fn position(self) -> nat {
        self.0 as nat
    }

    proof fn same_position(a: Self, b: Self) {
    }

    fn first() -> (r: Self) {
        ActuatorId(0)
    }

    fn next(&self) -> (r: Self) {
        ActuatorId(self.0 + 1)
    }

    fn same(&self, other: &Self) -> (r: bool) {
        self.0 == other.0
    }
}

impl ItemId for ActuatorId {
    fn value(&self) -> (r: u64) {
        self.0
    }
}

impl ActuatorId {
    /// How the id is shown.
    pub fn display(&self) -> (r: String)
        ensures
            r@ == "Actuator "@ + decimal(self.0 as nat),
    {
        let mut r = "Actuator ".to_owned();
        append_decimal(&mut r, self.0);
        r
    }
}

/// Index of the consoles.
#[derive(Copy, Clone, Debug, PartialEq, Eq, Structural)]
pub struct ConsoleId(pub u64);

impl RegistryIndex for ConsoleId {
    open spec fn position(self) -> nat {
        self.0 as nat
    }

    proof fn same_position(a: Self, b: Self) {
    }

    fn first() -> (r: Self) {
        ConsoleId(0)
    }

    fn next(&self) -> (r: Self) {
        ConsoleId(self.0 + 1)
    }

    fn same(&self, other: &Self) -> (r: bool) {
        self.0 == other.0
    }
}

impl ItemId for ConsoleId {
    fn value(&self) -> (r: u64) {
        self.0
    }
}

impl ConsoleId {
    /// How the id is shown.
    pub fn display(&self) -> (r: String)
        ensures
            r@ == "Console "@ + decimal(self.0 as nat),
    {
        let mut r = "Console ".to_owned();
        append_decimal(&mut r, self.0);
        r
    }
}

/// Index of the devices.
#[derive(Copy, Clone, Debug, PartialEq, Eq, Structural)]
pub struct DeviceId(pub u64);

impl RegistryIndex for DeviceId {
    open spec fn position(self) -> nat {
        self.0 as nat
    }

    proof fn same_position(a: Self, b: Self) {
    }

    fn first() -> (r: Self) {
        DeviceId(0)
    }

    fn next(&self) -> (r: Self) {
        DeviceId(self.0 + 1)
    }

    fn same(&self, other: &Self) -> (r: bool) {
        self.0 == other.0
    }
}

impl ItemId for DeviceId {
    fn value(&self) -> (r: u64) {
        self.0
    }
}

impl DeviceId {
    /// How the id is shown.
    pub fn display(&self) -> (r: String)
        ensures
            r@ == "Device "@ + decimal(self.0 as nat),
    {
        let mut r = "Device ".to_owned();
        append_decimal(&mut r, self.0);
        r
    }
}

/// Index of the volumes.
#[derive(Copy, Clone, Debug, PartialEq, Eq, Structural)]
pub struct VolumeId(pub u64);

impl RegistryIndex for VolumeId {
    open spec fn position(self) -> nat {
        self.0 as nat
    }

    proof fn same_position(a: Self, b: Self) {
    }

    fn first() -> (r: Self) {
        VolumeId(0)
    }

    fn next(&self) -> (r: Self) {
        VolumeId(self.0 + 1)
    }

    fn same(&self, other: &Self) -> (r: bool) {
        self.0 == other.0
    }
}

impl ItemId for VolumeId {
    fn value(&self) -> (r: u64) {
        self.0
    }
}

impl VolumeId {
    /// How the id is shown.
    pub fn display(&self) -> (r: String)
        ensures
            r@ == "Volume "@ + decimal(self.0 as nat),
    {
        let mut r = "Volume ".to_owned();
        append_decimal(&mut r, self.0);
        r
    }
}

/// Index of the media.
#[derive(Copy, Clone, Debug, PartialEq, Eq, Structural)]
pub struct MediaId(pub u64);

impl RegistryIndex for MediaId {
    open spec fn position(self) -> nat {
        self.0 as nat
    }

    proof fn same_position(a: Self, b: Self) {
    }

    fn first() -> (r: Self) {
        MediaId(0)
    }

    fn next(&self) -> (r: Self) {
        MediaId(self.0 + 1)
    }

    fn same(&self, other: &Self) -> (r: bool) {
        self.0 == other.0
    }
}

impl ItemId for MediaId {
    fn value(&self) -> (r: u64) {
        self.0
    }
}

impl MediaId {
    /// How the id is shown.
    pub fn display(&self) -> (r: String)
        ensures
            r@ == "Media "@ + decimal(self.0 as nat),
    {
        let mut r = "Media ".to_owned();
        append_decimal(&mut r, self.0);
        r
    }
}

/// Index of the keyboards.
#[derive(Copy, Clone, Debug, PartialEq, Eq, Structural)]
pub struct KeyboardId(pub u64);

impl RegistryIndex for KeyboardId {
    open spec fn position(self) -> nat {
        self.0 as nat
    }

    proof fn same_position(a: Self, b: Self) {
    }

    fn first() -> (r: Self) {
        KeyboardId(0)
    }

    fn next(&self) -> (r: Self) {
        KeyboardId(self.0 + 1)
    }

    fn same(&self, other: &Self) -> (r: bool) {
        self.0 == other.0
    }
}

impl ItemId for KeyboardId {
    fn value(&self) -> (r: u64) {
        self.0
    }
}

impl KeyboardId {
    /// How the id is shown.
    pub fn display(&self) -> (r: String)
        ensures
            r@ == "Keyboard "@ + decimal(self.0 as nat),
    {
        let mut r = "Keyboard ".to_owned();
        append_decimal(&mut r, self.0);
        r
    }
}

/// Index of the mice.
#[derive(Copy, Clone, Debug, PartialEq, Eq, Structural)]
pub struct MouseId(pub u64);

impl RegistryIndex for MouseId {
    open spec fn position(self) -> nat {
        self.0 as nat
    }

    proof fn same_position(a: Self, b: Self) {
    }

    fn first() -> (r: Self) {
        MouseId(0)
    }

    fn next(&self) -> (r: Self) {
        MouseId(self.0 + 1)
    }

    fn same(&self, other: &Self) -> (r: bool) {
        self.0 == other.0
    }
}

impl ItemId for MouseId {
    fn value(&self) -> (r: u64) {
        self.0
    }
}

impl MouseId {
    /// How the id is shown.
    pub fn display(&self) -> (r: String)
        ensures
            r@ == "Mouse "@ + decimal(self.0 as nat),
    {
        let mut r = "Mouse ".to_owned();
        append_decimal(&mut r, self.0);
        r
    }
}

} // verus!
