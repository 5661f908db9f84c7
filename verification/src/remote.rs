//! Items of another server, offered as items of this one.

use vstd::prelude::*;

use crate::device::{same_text, DeviceSetModeError};
use crate::registry::{Properties, INSTANCE};
use crate::status::{is_status, Code, Status};
use crate::volume_io::VolumeIoNoMoreRequests;
use crate::volumes::VolumeError;

verus! {

/// The kinds of item.
#[derive(Copy, Clone, Debug, PartialEq, Eq, Structural)]
pub enum ItemType {
    /// Actuators.
    Actuator,
    /// Devices.
    Device,
    /// Consoles.
    Console,
    /// Volumes.
    Volume,
    /// Media.
    Media,
    /// Keyboards.
    Keyboard,
    /// Mice.
    Mouse,
}

/// Ids of items of another server, each with the id that the item has here.
#[derive(Debug)]
pub struct IdMap {
    entries: Vec<(u64, u64)>,
}

/// What a list of pairs stands for: of several values for one key the last counts.
pub open spec fn id_map(entries: Seq<(u64, u64)>) -> Map<u64, u64>
    decreases entries.len(),
{
    if entries.len() == 0 {
        Map::empty()
    } else {
        id_map(entries.drop_last()).insert(entries.last().0, entries.last().1)
    }
}

/// No key occurs twice.
pub open spec fn distinct_ids(entries: Seq<(u64, u64)>) -> bool {
    forall|i: int, j: int|
        #![trigger entries[i], entries[j]]
        0 <= i < j < entries.len() ==> entries[i].0 != entries[j].0
}

impl View for IdMap {
    type V = Map<u64, u64>;

    closed spec fn view(&self) -> Map<u64, u64> {
        id_map(self.entries@)
    }
}

proof fn lemma_id_absent(entries: Seq<(u64, u64)>, id: u64)
    requires
        forall|i: int| 0 <= i < entries.len() ==> (#[trigger] entries[i]).0 != id,
    ensures
        !id_map(entries).contains_key(id),
    decreases entries.len(),
{
    if entries.len() > 0 {
        let rest = entries.drop_last();
        assert forall|i: int| 0 <= i < rest.len() implies (#[trigger] rest[i]).0 != id by {
            assert(rest[i] == entries[i]);
        }
        lemma_id_absent(rest, id);
        assert(entries[entries.len() - 1].0 != id);
    }
}

proof fn lemma_id_at(entries: Seq<(u64, u64)>, at: int)
    requires
        distinct_ids(entries),
        0 <= at < entries.len(),
    ensures
        distinct_ids(entries.remove(at)),
        id_map(entries).contains_key(entries[at].0),
        id_map(entries)[entries[at].0] == entries[at].1,
        id_map(entries.remove(at)) == id_map(entries).remove(entries[at].0),
    decreases entries.len(),
{
    let id = entries[at].0;
    let after = entries.remove(at);
    let rest = entries.drop_last();
    assert forall|i: int, j: int| #![trigger after[i], after[j]]
        0 <= i < j < after.len() implies after[i].0 != after[j].0 by {
        let x = if i < at { i } else { i + 1 };
        let y = if j < at { j } else { j + 1 };
        assert(entries[x].0 != entries[y].0);
    }
    assert forall|i: int, j: int| #![trigger rest[i], rest[j]]
        0 <= i < j < rest.len() implies rest[i].0 != rest[j].0 by {
        assert(entries[i].0 != entries[j].0);
    }
    if at == rest.len() {
        assert(after =~= rest);
        assert forall|i: int| 0 <= i < rest.len() implies (#[trigger] rest[i]).0 != id by {
            assert(entries[i].0 != entries[at].0);
        }
        lemma_id_absent(rest, id);
        assert(id_map(after) =~= id_map(entries).remove(id));
    } else {
        assert(rest[at] == entries[at]);
        lemma_id_at(rest, at);
        assert(after.drop_last() =~= rest.remove(at));
        assert(entries[at].0 != entries[entries.len() - 1].0);
        assert(id_map(after) =~= id_map(entries).remove(id));
    }
}

impl IdMap {
    /// Each key is held once.
    pub closed spec fn wf(self) -> bool {
        distinct_ids(self.entries@)
    }

    /// No ids.
    pub fn new() -> (r: Self)
        ensures
            r.wf(),
            r@ == Map::<u64, u64>::empty(),
    {
        IdMap { entries: Vec::new() }
    }

    /// The id here of an item of the other server.
    pub fn get(&self, remote: u64) -> (r: Option<u64>)
        requires
            self.wf(),
        ensures
            r == if self@.contains_key(remote) {
                Some(self@[remote])
            } else {
                None
            },
    {
        for i in 0..self.entries.len()
            invariant
                self.wf(),
                forall|j: int| 0 <= j < i ==> (#[trigger] self.entries@[j]).0 != remote,
        {
            if self.entries[i].0 == remote {
                proof {
                    lemma_id_at(self.entries@, i as int);
                }
                return Some(self.entries[i].1);
            }
        }
        proof {
            lemma_id_absent(self.entries@, remote);
        }
        None
    }

    /// Forgets an item of the other server.
    pub fn remove(&mut self, remote: u64) -> (r: Option<u64>)
        requires
            old(self).wf(),
        ensures
            final(self).wf(),
            final(self)@ == old(self)@.remove(remote),
            r == if old(self)@.contains_key(remote) {
                Some(old(self)@[remote])
            } else {
                None
            },
    {
        let ghost before = self.entries@;
        let n: usize = self.entries.len();
        for i in 0..n
            invariant
                n == before.len(),
                before == self.entries@,
                before == old(self).entries@,
                distinct_ids(before),
                forall|j: int| 0 <= j < i ==> (#[trigger] before[j]).0 != remote,
        {
            if self.entries[i].0 == remote {
                proof {
                    lemma_id_at(before, i as int);
                }
                let (_, local) = self.entries.remove(i);
                return Some(local);
            }
        }
        proof {
            lemma_id_absent(before, remote);
            assert(self@.remove(remote) =~= self@);
        }
        None
    }

    /// Notes the id here of an item of the other server.
    pub fn insert(&mut self, remote: u64, local: u64)
        requires
            old(self).wf(),
        ensures
            final(self).wf(),
            final(self)@ == old(self)@.insert(remote, local),
    {
        self.remove(remote);
        let ghost before = self.entries@;
        proof {
            assert forall|i: int| 0 <= i < before.len() implies (#[trigger] before[i]).0
                != remote by {
                if before[i].0 == remote {
                    lemma_id_at(before, i);
                }
            }
        }
        self.entries.push((remote, local));
        proof {
            let after = self.entries@;
            assert(after.drop_last() =~= before);
            assert forall|i: int, j: int| #![trigger after[i], after[j]]
                0 <= i < j < after.len() implies after[i].0 != after[j].0 by {
                if j < before.len() {
                    assert(before[i].0 != before[j].0);
                }
            }
            assert(self@ =~= old(self)@.insert(remote, local));
        }
    }

    /// Forgets all, and hands out the ids here.
    pub fn drain(&mut self) -> (r: Vec<u64>)
        requires
            old(self).wf(),
        ensures
            final(self).wf(),
            final(self)@ == Map::<u64, u64>::empty(),
            forall|local: u64|
                #[trigger] r@.contains(local) <==> old(self)@.contains_value(local),
            r@.len() == old(self)@.dom().len(),
    {
        let mut r: Vec<u64> = Vec::new();
        let ghost all = self.entries@;
        let n: usize = self.entries.len();
        for i in 0..n
            invariant
                n == all.len(),
                all == self.entries@,
                r@.len() == i,
                forall|j: int| 0 <= j < i ==> r@[j] == (#[trigger] all[j]).1,
        {
            r.push(self.entries[i].1);
        }
        proof {
            lemma_id_size(all);
            assert forall|local: u64|
                #[trigger] r@.contains(local) <==> id_map(all).contains_value(local) by {
                if r@.contains(local) {
                    let i = choose|i: int| 0 <= i < r@.len() && r@[i] == local;
                    assert(all[i].1 == local);
                    lemma_id_at(all, i);
                    assert(id_map(all).contains_key(all[i].0));
                }
                if id_map(all).contains_value(local) {
                    let k = choose|k: u64|
                        id_map(all).contains_key(k) && id_map(all)[k] == local;
                    if forall|i: int| 0 <= i < all.len() ==> (#[trigger] all[i]).0 != k {
                        lemma_id_absent(all, k);
                    }
                    let i = choose|i: int| 0 <= i < all.len() && (#[trigger] all[i]).0 == k;
                    lemma_id_at(all, i);
                    assert(r@[i] == local);
                }
            }
        }
        self.entries = Vec::new();
        r
    }
}

proof fn lemma_id_size(entries: Seq<(u64, u64)>)
    requires
        distinct_ids(entries),
    ensures
        id_map(entries).dom().finite(),
        id_map(entries).dom().len() == entries.len(),
    decreases entries.len(),
{
    if entries.len() > 0 {
        let rest = entries.drop_last();
        assert forall|i: int, j: int| #![trigger rest[i], rest[j]]
            0 <= i < j < rest.len() implies rest[i].0 != rest[j].0 by {
            assert(entries[i].0 != entries[j].0);
        }
        lemma_id_size(rest);
        let id = entries.last().0;
        assert forall|i: int| 0 <= i < rest.len() implies (#[trigger] rest[i]).0 != id by {
            assert(entries[i].0 != entries[entries.len() - 1].0);
        }
        lemma_id_absent(rest, id);
        assert(id_map(entries).dom() =~= id_map(rest).dom().insert(id));
    } else {
        assert(id_map(entries).dom() =~= Set::<u64>::empty());
    }
}

/// The items of another server that are offered here.
#[derive(Debug)]
pub struct BsProvider {
    /// The actuators.
    pub actuators: IdMap,
    /// The devices.
    pub devices: IdMap,
    /// The consoles.
    pub consoles: IdMap,
    /// The volumes.
    pub volumes: IdMap,
    /// The media.
    pub media: IdMap,
    /// The keyboards.
    pub keyboards: IdMap,
    /// The mice.
    pub mice: IdMap,
}

impl BsProvider {
    /// The ids of one kind.
    pub open spec fn ids(self, type_: ItemType) -> IdMap {
        match type_ {
            ItemType::Actuator => self.actuators,
            ItemType::Device => self.devices,
            ItemType::Console => self.consoles,
            ItemType::Volume => self.volumes,
            ItemType::Media => self.media,
            ItemType::Keyboard => self.keyboards,
            ItemType::Mouse => self.mice,
        }
    }

    /// All maps are well formed.
    pub open spec fn wf(self) -> bool {
        forall|type_: ItemType| (#[trigger] self.ids(type_)).wf()
    }

    /// The ids of all other kinds are as before.
    pub open spec fn same_others(self, before: Self, type_: ItemType) -> bool {
        forall|other: ItemType| other != type_ ==> #[trigger] self.ids(other) == before.ids(other)
    }

    /// No items.
    pub fn new() -> (r: Self)
        ensures
            r.wf(),
            forall|type_: ItemType| (#[trigger] r.ids(type_))@ == Map::<u64, u64>::empty(),
    {
        BsProvider {
            actuators: IdMap::new(),
            devices: IdMap::new(),
            consoles: IdMap::new(),
            volumes: IdMap::new(),
            media: IdMap::new(),
            keyboards: IdMap::new(),
            mice: IdMap::new(),
        }
    }

    fn map_mut(&mut self, type_: ItemType) -> (r: &mut IdMap)
        ensures
            *r == old(self).ids(type_),
            final(self).ids(type_) == *final(r),
            final(self).same_others(*old(self), type_),
    {
        match type_ {
            ItemType::Actuator => &mut self.actuators,
            ItemType::Device => &mut self.devices,
            ItemType::Console => &mut self.consoles,
            ItemType::Volume => &mut self.volumes,
            ItemType::Media => &mut self.media,
            ItemType::Keyboard => &mut self.keyboards,
            ItemType::Mouse => &mut self.mice,
        }
    }

    fn map(&self, type_: ItemType) -> (r: &IdMap)
        ensures
            *r == self.ids(type_),
    {
        match type_ {
            ItemType::Actuator => &self.actuators,
            ItemType::Device => &self.devices,
            ItemType::Console => &self.consoles,
            ItemType::Volume => &self.volumes,
            ItemType::Media => &self.media,
            ItemType::Keyboard => &self.keyboards,
            ItemType::Mouse => &self.mice,
        }
    }

    /// The id here of an item of the other server.
    pub fn local_id(&self, type_: ItemType, remote: u64) -> (r: Option<u64>)
        requires
            self.wf(),
        ensures
            r == if self.ids(type_)@.contains_key(remote) {
                Some(self.ids(type_)@[remote])
            } else {
                None
            },
    {
        let map = self.map(type_);
        assert(self.ids(type_).wf());
        map.get(remote)
    }

    /// Notes that an item of the other server was registered here.
    pub fn add_item(&mut self, type_: ItemType, remote: u64, local: u64)
        requires
            old(self).wf(),
        ensures
            final(self).wf(),
            final(self).same_others(*old(self), type_),
            final(self).ids(type_)@ == old(self).ids(type_)@.insert(remote, local),
    {
        assert(self.ids(type_).wf());
        let map = self.map_mut(type_);
        map.insert(remote, local);
        assert forall|other: ItemType| (#[trigger] self.ids(other)).wf() by {
            if other != type_ {
                assert(old(self).ids(other).wf());
            }
        }
    }

    /// Forgets an item that is gone on the other server. Returned is the id under which it is
    /// to be unregistered here.
    pub fn remove_item(&mut self, type_: ItemType, remote: u64) -> (r: Option<u64>)
        requires
            old(self).wf(),
        ensures
            final(self).wf(),
            final(self).same_others(*old(self), type_),
            final(self).ids(type_)@ == old(self).ids(type_)@.remove(remote),
            r == if old(self).ids(type_)@.contains_key(remote) {
                Some(old(self).ids(type_)@[remote])
            } else {
                None
            },
    {
        assert(self.ids(type_).wf());
        let map = self.map_mut(type_);
        let r = map.remove(remote);
        assert forall|other: ItemType| (#[trigger] self.ids(other)).wf() by {
            if other != type_ {
                assert(old(self).ids(other).wf());
            }
        }
        r
    }

    /// Forgets all items of a kind because the connection is gone. Returned are the ids under
    /// which they are to be unregistered here.
    pub fn drop_items(&mut self, type_: ItemType) -> (r: Vec<u64>)
        requires
            old(self).wf(),
        ensures
            final(self).wf(),
            final(self).same_others(*old(self), type_),
            final(self).ids(type_)@ == Map::<u64, u64>::empty(),
            forall|local: u64|
                #[trigger] r@.contains(local) <==> old(self).ids(type_)@.contains_value(local),
            r@.len() == old(self).ids(type_)@.dom().len(),
    {
        assert(self.ids(type_).wf());
        let map = self.map_mut(type_);
        let r = map.drain();
        assert forall|other: ItemType| (#[trigger] self.ids(other)).wf() by {
            if other != type_ {
                assert(old(self).ids(other).wf());
            }
        }
        r
    }
}

/// The properties here of an item of the other server.
pub fn remote_properties(pairs: &Vec<(String, String)>, instance: &str) -> (r: Properties)
    ensures
        r.wf(),
        r@ == crate::registry::pairs_map(pairs@).insert(INSTANCE@, instance@),
{
    let mut properties = Properties::from_pairs(pairs);
    properties.insert(INSTANCE, instance);
    properties
}

/// A part of a device, with the id of its item while that is there.
#[derive(Debug)]
pub struct DevicePart {
    /// Name of the part.
    pub name: String,
    /// Id of the item.
    pub id: Option<u64>,
}

/// A mode of a device.
#[derive(Debug)]
pub struct DeviceModeInfo {
    /// Name of the mode.
    pub name: String,
    /// The mode that the device has to be in before.
    pub depends: Option<String>,
    /// Whether all that is needed is there.
    pub available: bool,
}

/// What a server tells of a device.
#[derive(Debug)]
pub struct DeviceInfo {
    /// The consoles.
    pub consoles: Vec<DevicePart>,
    /// The volumes.
    pub volumes: Vec<DevicePart>,
    /// The media.
    pub media: Vec<DevicePart>,
    /// The keyboards.
    pub keyboards: Vec<DevicePart>,
    /// The mice.
    pub mice: Vec<DevicePart>,
    /// The modes.
    pub modes: Vec<DeviceModeInfo>,
    /// The mode that the device is in.
    pub current_mode: Option<String>,
}

/// Whether one of the parts stands for the item.
pub open spec fn has_item(parts: Seq<DevicePart>, id: u64) -> bool {
    exists|i: int| 0 <= i < parts.len() && (#[trigger] parts[i]).id == Some(id)
}

/// The ids here of the parts' items, as far as they are offered here.
pub open spec fn mapped(parts: Seq<DevicePart>, ids: Map<u64, u64>) -> Map<u64, u64> {
    ids.restrict(Set::new(|id: u64| has_item(parts, id)))
}

/// The ids here of the items of a kind of part.
fn map_parts(parts: &Vec<DevicePart>, ids: &IdMap) -> (r: IdMap)
    requires
        ids.wf(),
    ensures
        r.wf(),
        r@ == mapped(parts@, ids@),
{
    let mut r = IdMap::new();
    assert(r@ =~= mapped(parts@.take(0), ids@));
    for i in 0..parts.len()
        invariant
            ids.wf(),
            r.wf(),
            r@ == mapped(parts@.take(i as int), ids@),
    {
        let ghost before = parts@.take(i as int);
        let ghost after = parts@.take(i + 1);
        proof {
            assert(after =~= before.push(parts@[i as int]));
            assert forall|id: u64| has_item(after, id) <==> has_item(before, id)
                || parts@[i as int].id == Some(id) by {
                if has_item(before, id) {
                    let x = choose|x: int| 0 <= x < before.len() && (#[trigger] before[x]).id
                        == Some(id);
                    assert(after[x].id == Some(id));
                }
                assert(after[i as int] == parts@[i as int]);
                if has_item(after, id) {
                    let x = choose|x: int| 0 <= x < after.len() && (#[trigger] after[x]).id
                        == Some(id);
                    if x < before.len() {
                        assert(before[x].id == Some(id));
                    }
                }
            }
        }
        if let Some(remote) = parts[i].id {
            if let Some(local) = ids.get(remote) {
                r.insert(remote, local);
            }
        }
        assert(r@ =~= mapped(after, ids@));
    }
    assert(parts@.take(parts@.len() as int) =~= parts@);
    r
}

/// Whether the ids of one of the parts are not those that are offered.
pub open spec fn out_of_date(
    parts: Seq<DevicePart>,
    mapping: Map<u64, u64>,
    ids: Map<u64, u64>,
) -> bool {
    exists|i: int|
        0 <= i < parts.len() && (#[trigger] parts[i]).id is Some && looked_up(
            ids,
            parts[i].id->0,
        ) != looked_up(mapping, parts[i].id->0)
}

/// The value of a key.
pub open spec fn looked_up(ids: Map<u64, u64>, id: u64) -> Option<u64> {
    if ids.contains_key(id) {
        Some(ids[id])
    } else {
        None
    }
}

fn is_out_of_date(parts: &Vec<DevicePart>, mapping: &IdMap, ids: &IdMap) -> (r: bool)
    requires
        mapping.wf(),
        ids.wf(),
    ensures
        r == out_of_date(parts@, mapping@, ids@),
{
    for i in 0..parts.len()
        invariant
            mapping.wf(),
            ids.wf(),
            forall|j: int|
                0 <= j < i && (#[trigger] parts@[j]).id is Some ==> looked_up(
                    ids@,
                    parts@[j].id->0,
                ) == looked_up(mapping@, parts@[j].id->0),
    {
        if let Some(remote) = parts[i].id {
            let differs = match (ids.get(remote), mapping.get(remote)) {
                (Some(a), Some(b)) => a != b,
                (None, None) => false,
                _ => true,
            };
            if differs {
                assert(parts@[i as int].id == Some(remote));
                return true;
            }
        }
    }
    false
}

/// What happens while a device of another server is watched.
#[derive(Debug)]
pub enum DeviceEvent {
    /// The other server tells of the device anew.
    Update(DeviceInfo),
    /// The items that are offered here have changed.
    ItemsChanged,
    /// The other server tells no more, or failed to.
    Ended,
}

/// What to do then.
#[derive(Copy, Clone, Debug, PartialEq, Eq, Structural)]
pub enum DeviceStep {
    /// Tell those who watch the device here.
    Notify,
    /// Nothing.
    Wait,
    /// Watch no longer.
    Stop,
}

/// A device of another server.
#[derive(Debug)]
pub struct RemoteDevice {
    /// What the other server tells of it.
    pub info: DeviceInfo,
    /// The ids here of its consoles.
    pub consoles: IdMap,
    /// The ids here of its volumes.
    pub volumes: IdMap,
    /// The ids here of its media.
    pub media: IdMap,
    /// The ids here of its keyboards.
    pub keyboards: IdMap,
    /// The ids here of its mice.
    pub mice: IdMap,
}

impl RemoteDevice {
    /// All maps are well formed.
    pub open spec fn wf(self) -> bool {
        &&& self.consoles.wf()
        &&& self.volumes.wf()
        &&& self.media.wf()
        &&& self.keyboards.wf()
        &&& self.mice.wf()
    }

    /// The ids are those of the items that are offered.
    pub open spec fn in_sync(self, provider: BsProvider) -> bool {
        &&& self.consoles@ == mapped(self.info.consoles@, provider.consoles@)
        &&& self.volumes@ == mapped(self.info.volumes@, provider.volumes@)
        &&& self.media@ == mapped(self.info.media@, provider.media@)
        &&& self.keyboards@ == mapped(self.info.keyboards@, provider.keyboards@)
        &&& self.mice@ == mapped(self.info.mice@, provider.mice@)
    }

    /// One of the ids is not the one that is offered.
    pub open spec fn changed(self, provider: BsProvider) -> bool {
        ||| out_of_date(self.info.consoles@, self.consoles@, provider.consoles@)
        ||| out_of_date(self.info.volumes@, self.volumes@, provider.volumes@)
        ||| out_of_date(self.info.media@, self.media@, provider.media@)
        ||| out_of_date(self.info.keyboards@, self.keyboards@, provider.keyboards@)
        ||| out_of_date(self.info.mice@, self.mice@, provider.mice@)
    }

    /// A device, with the ids that its items have here.
    pub fn new(info: DeviceInfo, provider: &BsProvider) -> (r: Self)
        requires
            provider.wf(),
        ensures
            r.wf(),
            r.info == info,
            r.in_sync(*provider),
    {
        let mut r = RemoteDevice {
            info,
            consoles: IdMap::new(),
            volumes: IdMap::new(),
            media: IdMap::new(),
            keyboards: IdMap::new(),
            mice: IdMap::new(),
        };
        r.update_mappings(provider);
        r
    }

    /// A device with what the other server tells of it first.
    pub fn watch(first: Option<Result<DeviceInfo, Status>>, provider: &BsProvider) -> (r: Result<
        Self,
        Status,
    >)
        requires
            provider.wf(),
        ensures
            match first {
                Some(Ok(info)) => {
                    &&& r is Ok
                    &&& r->Ok_0.wf()
                    &&& r->Ok_0.info == info
                    &&& r->Ok_0.in_sync(*provider)
                },
                Some(Err(status)) => r == Err::<Self, Status>(status),
                None => r is Err && is_status(
                    r->Err_0,
                    Code::Unavailable,
                    "Device not available"@,
                ),
            },
    {
        match first {
            Some(Ok(info)) => Ok(RemoteDevice::new(info, provider)),
            Some(Err(status)) => Err(status),
            None => Err(Status::new(Code::Unavailable, "Device not available")),
        }
    }

    /// Looks the ids of all items up anew.
    pub fn update_mappings(&mut self, provider: &BsProvider)
        requires
            provider.wf(),
        ensures
            final(self).wf(),
            final(self).info == old(self).info,
            final(self).in_sync(*provider),
    {
        proof {
            assert(provider.ids(ItemType::Console).wf());
            assert(provider.ids(ItemType::Volume).wf());
            assert(provider.ids(ItemType::Media).wf());
            assert(provider.ids(ItemType::Keyboard).wf());
            assert(provider.ids(ItemType::Mouse).wf());
        }
        self.consoles = map_parts(&self.info.consoles, &provider.consoles);
        self.volumes = map_parts(&self.info.volumes, &provider.volumes);
        self.media = map_parts(&self.info.media, &provider.media);
        self.keyboards = map_parts(&self.info.keyboards, &provider.keyboards);
        self.mice = map_parts(&self.info.mice, &provider.mice);
    }

    /// Looks whether the items that are offered have changed in a way that matters, and takes
    /// the change over.
    pub fn provider_sync(&mut self, provider: &BsProvider) -> (changed: bool)
        requires
            old(self).wf(),
            provider.wf(),
        ensures
            final(self).wf(),
            final(self).info == old(self).info,
            changed == old(self).changed(*provider),
            if changed {
                final(self).in_sync(*provider)
            } else {
                *final(self) == *old(self)
            },
    {
        proof {
            assert(provider.ids(ItemType::Console).wf());
            assert(provider.ids(ItemType::Volume).wf());
            assert(provider.ids(ItemType::Media).wf());
            assert(provider.ids(ItemType::Keyboard).wf());
            assert(provider.ids(ItemType::Mouse).wf());
        }
        let changed = is_out_of_date(&self.info.consoles, &self.consoles, &provider.consoles)
            || is_out_of_date(&self.info.volumes, &self.volumes, &provider.volumes)
            || is_out_of_date(&self.info.media, &self.media, &provider.media)
            || is_out_of_date(&self.info.keyboards, &self.keyboards, &provider.keyboards)
            || is_out_of_date(&self.info.mice, &self.mice, &provider.mice);
        if changed {
            self.update_mappings(provider);
        }
        changed
    }

    /// Takes over what the other server tells anew.
    pub fn update(&mut self, info: DeviceInfo, provider: &BsProvider)
        requires
            provider.wf(),
        ensures
            final(self).wf(),
            final(self).info == info,
            final(self).in_sync(*provider),
    {
        self.info = info;
        self.update_mappings(provider);
    }

    /// What happens to a device of another server while it is watched.
    pub fn on_event(&mut self, event: DeviceEvent, provider: &BsProvider) -> (r: DeviceStep)
        requires
            old(self).wf(),
            provider.wf(),
        ensures
            final(self).wf(),
            match event {
                DeviceEvent::Update(info) => {
                    &&& r == DeviceStep::Notify
                    &&& final(self).info == info
                    &&& final(self).in_sync(*provider)
                },
                DeviceEvent::ItemsChanged => if old(self).changed(*provider) {
                    &&& r == DeviceStep::Notify
                    &&& final(self).info == old(self).info
                    &&& final(self).in_sync(*provider)
                } else {
                    r == DeviceStep::Wait && *final(self) == *old(self)
                },
                DeviceEvent::Ended => r == DeviceStep::Stop && *final(self) == *old(self),
            },
    {
        match event {
            DeviceEvent::Update(info) => {
                self.update(info, provider);
                DeviceStep::Notify
            },
            DeviceEvent::ItemsChanged => if self.provider_sync(provider) {
                DeviceStep::Notify
            } else {
                DeviceStep::Wait
            },
            DeviceEvent::Ended => DeviceStep::Stop,
        }
    }

    /// The consoles with their ids here.
    pub fn consoles(&self) -> (r: Vec<DevicePart>)
        requires
            self.wf(),
        ensures
            local_parts(self.info.consoles@, self.consoles@, r@),
    {
        make_local(&self.info.consoles, &self.consoles)
    }

    /// The volumes with their ids here.
    pub fn volumes(&self) -> (r: Vec<DevicePart>)
        requires
            self.wf(),
        ensures
            local_parts(self.info.volumes@, self.volumes@, r@),
    {
        make_local(&self.info.volumes, &self.volumes)
    }

    /// The media with their ids here.
    pub fn media(&self) -> (r: Vec<DevicePart>)
        requires
            self.wf(),
        ensures
            local_parts(self.info.media@, self.media@, r@),
    {
        make_local(&self.info.media, &self.media)
    }

    /// The keyboards with their ids here.
    pub fn keyboards(&self) -> (r: Vec<DevicePart>)
        requires
            self.wf(),
        ensures
            local_parts(self.info.keyboards@, self.keyboards@, r@),
    {
        make_local(&self.info.keyboards, &self.keyboards)
    }

    /// The mice with their ids here.
    pub fn mice(&self) -> (r: Vec<DevicePart>)
        requires
            self.wf(),
        ensures
            local_parts(self.info.mice@, self.mice@, r@),
    {
        make_local(&self.info.mice, &self.mice)
    }

    /// The modes, as the other server tells of them.
    pub fn modes(&self) -> (r: Vec<DeviceModeInfo>)
        ensures
            same_modes(r@, self.info.modes@),
    {
        let mut r: Vec<DeviceModeInfo> = Vec::new();
        for i in 0..self.info.modes.len()
            invariant
                r@.len() == i,
                forall|j: int| 0 <= j < i ==> same_mode(#[trigger] r@[j], self.info.modes@[j]),
        {
            let mode = &self.info.modes[i];
            r.push(
                DeviceModeInfo {
                    name: mode.name.clone(),
                    depends: copy_text(&mode.depends),
                    available: mode.available,
                },
            );
        }
        r
    }

    /// The mode that the device is in, as the other server tells.
    pub fn current_mode(&self) -> (r: Option<String>)
        ensures
            same_text(r, text_of(self.info.current_mode)),
    {
        copy_text(&self.info.current_mode)
    }

    /// What this server tells of the device: what the other server does, with the ids that the
    /// items have here.
    pub fn device_info(&self) -> (r: DeviceInfo)
        requires
            self.wf(),
        ensures
            local_parts(self.info.consoles@, self.consoles@, r.consoles@),
            local_parts(self.info.volumes@, self.volumes@, r.volumes@),
            local_parts(self.info.media@, self.media@, r.media@),
            local_parts(self.info.keyboards@, self.keyboards@, r.keyboards@),
            local_parts(self.info.mice@, self.mice@, r.mice@),
            same_modes(r.modes@, self.info.modes@),
            same_text(r.current_mode, text_of(self.info.current_mode)),
    {
        DeviceInfo {
            consoles: self.consoles(),
            volumes: self.volumes(),
            media: self.media(),
            keyboards: self.keyboards(),
            mice: self.mice(),
            modes: self.modes(),
            current_mode: self.current_mode(),
        }
    }
}

/// A text, where there is one.
pub open spec fn text_of(text: Option<String>) -> Option<Seq<char>> {
    match text {
        Some(text) => Some(text@),
        None => None,
    }
}

fn copy_text(text: &Option<String>) -> (r: Option<String>)
    ensures
        same_text(r, text_of(*text)),
{
    match text {
        Some(text) => Some(text.clone()),
        None => None,
    }
}

/// Whether both tell of a mode in the same way.
pub open spec fn same_mode(a: DeviceModeInfo, b: DeviceModeInfo) -> bool {
    &&& a.name@ == b.name@
    &&& same_text(a.depends, text_of(b.depends))
    &&& a.available == b.available
}

/// Whether both tell of the same modes in the same order.
pub open spec fn same_modes(a: Seq<DeviceModeInfo>, b: Seq<DeviceModeInfo>) -> bool {
    &&& a.len() == b.len()
    &&& forall|i: int| 0 <= i < a.len() ==> same_mode(#[trigger] a[i], b[i])
}

/// The parts with the ids of the mapping in place of their own.
pub open spec fn local_parts(
    parts: Seq<DevicePart>,
    mapping: Map<u64, u64>,
    local: Seq<DevicePart>,
) -> bool {
    &&& local.len() == parts.len()
    &&& forall|i: int|
        0 <= i < parts.len() ==> (#[trigger] local[i]).name@ == parts[i].name@ && local[i].id
            == match parts[i].id {
            Some(id) => looked_up(mapping, id),
            None => None,
        }
}

fn make_local(parts: &Vec<DevicePart>, mapping: &IdMap) -> (r: Vec<DevicePart>)
    requires
        mapping.wf(),
    ensures
        local_parts(parts@, mapping@, r@),
{
    let mut r: Vec<DevicePart> = Vec::new();
    for i in 0..parts.len()
        invariant
            mapping.wf(),
            r@.len() == i,
            forall|j: int|
                0 <= j < i ==> (#[trigger] r@[j]).name@ == parts@[j].name@ && r@[j].id
                    == match parts@[j].id {
                    Some(id) => looked_up(mapping@, id),
                    None => None,
                },
    {
        let id = match parts[i].id {
            Some(id) => mapping.get(id),
            None => None,
        };
        r.push(DevicePart { name: parts[i].name.clone(), id });
    }
    r
}

/// Whether a device is in sync is exactly what the search for changes finds out, for the ids
/// of its own items.
pub proof fn law_in_sync_means_unchanged(
    parts: Seq<DevicePart>,
    mapping: Map<u64, u64>,
    ids: Map<u64, u64>,
)
    requires
        forall|id: u64| #[trigger] mapping.contains_key(id) ==> has_item(parts, id),
    ensures
        out_of_date(parts, mapping, ids) <==> mapping != mapped(parts, ids),
{
    let right = mapped(parts, ids);
    if !out_of_date(parts, mapping, ids) {
        assert forall|id: u64| mapping.contains_key(id) == right.contains_key(id) && (
        mapping.contains_key(id) ==> mapping[id] == right[id]) by {
            if has_item(parts, id) {
                let i = choose|i: int| 0 <= i < parts.len() && (#[trigger] parts[i]).id == Some(id);
                assert(looked_up(ids, id) == looked_up(mapping, id));
            }
        }
        assert(mapping =~= right);
    }
    if mapping == right {
        assert forall|i: int|
            0 <= i < parts.len() && (#[trigger] parts[i]).id is Some implies looked_up(
            ids,
            parts[i].id->0,
        ) == looked_up(mapping, parts[i].id->0) by {
            assert(has_item(parts, parts[i].id->0));
        }
    }
}

/// What another server's refusal to change a mode means.
pub open spec fn remote_refusal(code: Code) -> DeviceSetModeError {
    match code {
        Code::NotFound => DeviceSetModeError::ModeNotFound,
        Code::FailedPrecondition => DeviceSetModeError::WrongCurrentMode,
        _ => DeviceSetModeError::ActuatorFailed,
    }
}

/// What another server's refusal to change a mode means.
pub fn set_mode_error(code: Code) -> (r: DeviceSetModeError)
    ensures
        r == remote_refusal(code),
{
    match code {
        Code::NotFound => DeviceSetModeError::ModeNotFound,
        Code::FailedPrecondition => DeviceSetModeError::WrongCurrentMode,
        _ => DeviceSetModeError::ActuatorFailed,
    }
}

/// What another server's refusal to commit a volume means.
pub fn commit_error(code: Code, text: String) -> (r: VolumeError)
    ensures
        r == match code {
            Code::NotFound => VolumeError::UnknownTargetRequested,
            Code::Aborted => VolumeError::Failure(text),
            _ => VolumeError::Internal(text),
        },
{
    match code {
        Code::NotFound => VolumeError::UnknownTargetRequested,
        Code::Aborted => VolumeError::Failure(text),
        _ => VolumeError::Internal(text),
    }
}

/// What the caller of a target of another server is told once the session with it is over.
pub fn target_gone(error: &VolumeIoNoMoreRequests) -> (r: Status)
    ensures
        is_status(
            r,
            Code::Unavailable,
            "Target no longer available: "@ + "No more requests can be send"@,
        ),
{
    let mut text = "Target no longer available: ".to_owned();
    text.append(error.message());
    Status { code: Code::Unavailable, message: text }
}

/// What happens between a client here and an item of another server. `U` goes to the item, `D`
/// comes from it.
#[derive(Debug)]
pub enum BridgeEvent<U, D> {
    /// The other server refused the session.
    Refused(Status),
    /// The client sent something, or is gone.
    Client(Option<U>),
    /// What was sent last did not reach the other server.
    NotSent,
    /// The item sent something, failed to, or is gone.
    Item(Option<Result<D, Status>>),
}

/// What to do then.
#[derive(Debug)]
pub enum BridgeStep<U, D> {
    /// Hand this to the other server.
    ToItem(U),
    /// Hand this to the client; it does not matter whether it is still there.
    ToClient(D),
    /// Listen to the item alone from now on.
    ItemOnly,
    /// End the session.
    Stop,
}

/// What to do between a client here and an item of another server. Both ways are kept as they
/// are; the session ends with either end, but for an item that `stays` after its client.
pub fn bridge<U, D>(event: BridgeEvent<U, D>, stays: bool) -> (r: BridgeStep<U, D>)
    ensures
        r == match event {
            BridgeEvent::Client(Some(up)) => BridgeStep::<U, D>::ToItem(up),
            BridgeEvent::Client(None) => if stays {
                BridgeStep::<U, D>::ItemOnly
            } else {
                BridgeStep::<U, D>::Stop
            },
            BridgeEvent::Item(Some(Ok(down))) => BridgeStep::<U, D>::ToClient(down),
            _ => BridgeStep::<U, D>::Stop,
        },
{
    match event {
        BridgeEvent::Client(Some(up)) => BridgeStep::ToItem(up),
        BridgeEvent::Client(None) => if stays {
            BridgeStep::ItemOnly
        } else {
            BridgeStep::Stop
        },
        BridgeEvent::Item(Some(Ok(down))) => BridgeStep::ToClient(down),
        _ => BridgeStep::Stop,
    }
}

/// The numbers of the lights that are on, without those that stand for no light.
pub fn known_leds(leds: &Vec<i32>, known: &Vec<i32>) -> (r: Vec<i32>)
    ensures
        r@ == leds@.filter(|led: i32| known@.contains(led)),
{
    let mut r: Vec<i32> = Vec::new();
    let ghost on = |led: i32| known@.contains(led);
    for i in 0..leds.len()
        invariant
            on == |led: i32| known@.contains(led),
            r@ == leds@.take(i as int).filter(on),
    {
        let led: i32 = leds[i];
        proof {
            reveal(Seq::filter);
            assert(leds@.take(i + 1).drop_last() =~= leds@.take(i as int));
        }
        if has_number(known, led) {
            r.push(led);
        }
    }
    proof {
        assert(leds@.take(leds@.len() as int) =~= leds@);
    }
    r
}

fn has_number(numbers: &Vec<i32>, n: i32) -> (r: bool)
    ensures
        r == numbers@.contains(n),
{
    for i in 0..numbers.len()
        invariant
            forall|j: int| 0 <= j < i ==> numbers@[j] != n,
    {
        if numbers[i] == n {
            assert(numbers@[i as int] == n);
            return true;
        }
    }
    false
}

/// A part of a device of another server has an id here exactly if its item is offered here, and
/// then the one that the item has here. Items that are no part of the device have none.
pub proof fn law_parts_have_local_ids(
    parts: Seq<DevicePart>,
    ids: Map<u64, u64>,
    local: Seq<DevicePart>,
    i: int,
    other: u64,
)
    requires
        local_parts(parts, mapped(parts, ids), local),
        0 <= i < parts.len(),
    ensures
        local.len() == parts.len(),
        local[i].name@ == parts[i].name@,
        parts[i].id is None ==> local[i].id is None,
        parts[i].id matches Some(id) ==> (if ids.contains_key(id) {
            local[i].id == Some(ids[id])
        } else {
            local[i].id is None
        }),
        mapped(parts, ids).contains_key(other) ==> ids.contains_key(other) && exists|k: int|
            0 <= k < parts.len() && (#[trigger] parts[k]).id == Some(other),
{
    if let Some(id) = parts[i].id {
        assert(has_item(parts, id));
    }
    assert(local[i].name@ == parts[i].name@);
}

/// A device has changed exactly if one of its parts has got or lost its item here, or has another.
pub proof fn law_changes_are_noticed(
    parts: Seq<DevicePart>,
    before: Map<u64, u64>,
    after: Map<u64, u64>,
    i: int,
)
    ensures
        0 <= i < parts.len() && parts[i].id is Some && before.contains_key(parts[i].id->0)
            != after.contains_key(parts[i].id->0) ==> out_of_date(
            parts,
            mapped(parts, before),
            after,
        ),
        0 <= i < parts.len() && parts[i].id is Some && before.contains_key(parts[i].id->0)
            && after.contains_key(parts[i].id->0) && before[parts[i].id->0]
            != after[parts[i].id->0] ==> out_of_date(parts, mapped(parts, before), after),
        !out_of_date(parts, mapped(parts, before), before),
{
    if 0 <= i < parts.len() && parts[i].id is Some {
        assert(has_item(parts, parts[i].id->0));
    }
    assert forall|k: int| 0 <= k < parts.len() && (#[trigger] parts[k]).id is Some implies looked_up(
        before,
        parts[k].id->0,
    ) == looked_up(mapped(parts, before), parts[k].id->0) by {
        assert(has_item(parts, parts[k].id->0));
    }
}

} // verus!
