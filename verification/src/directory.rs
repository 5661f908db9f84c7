//! All items of a server: how they come and go, and how clients find them.

use vstd::prelude::*;

use crate::ids::{
    ActuatorId, ConsoleId, DeviceId, ItemId, KeyboardId, MediaId, MouseId, VolumeId,
};
use crate::registry::{
    distinct_keys, found, has_id, heard, law_only_allowed_is_visible, law_removed_is_gone,
    lemma_same_pairs, lemma_visible, pairs_map, visible, without_id, Item, Properties, Registry,
    RegistryChange, RegistryChangeInternal, RegistryIndex, Verifier,
};
use crate::remote::ItemType;
use crate::server::{all_listed, list_item, to_item_list, ListedItem};
use crate::status::{is_status, Code, Status};
use crate::text::copy_pairs;

verus! {

/// All items of a server.
pub struct Server<V: Verifier, A, D, C, L, M, K, P> {
    /// Its actuators.
    pub actuators: Registry<V, ActuatorId, A>,
    /// Its devices.
    pub devices: Registry<V, DeviceId, D>,
    /// Its consoles.
    pub consoles: Registry<V, ConsoleId, C>,
    /// Its volumes.
    pub volumes: Registry<V, VolumeId, L>,
    /// Its media.
    pub media: Registry<V, MediaId, M>,
    /// Its keyboards.
    pub keyboards: Registry<V, KeyboardId, K>,
    /// Its mice.
    pub mice: Registry<V, MouseId, P>,
}

/// Whether an item was added to a registry, under the next id.
pub open spec fn is_registered<V: Verifier, I: RegistryIndex, T: Clone>(
    before: Registry<V, I, T>,
    after: Registry<V, I, T>,
    acl: V::Acl,
    properties: Properties,
    item: T,
    id: I,
) -> bool {
    &&& id == before.next_id()
    &&& after.wf()
    &&& after.next_id().position() == before.next_id().position() + 1
    &&& after.verifier_spec() == before.verifier_spec()
    &&& after.entries().len() == before.entries().len() + 1
    &&& after.entries().drop_last() == before.entries()
    &&& after.entries().last().0 == id
    &&& after.entries().last().1.acl_spec() == acl
    &&& after.entries().last().1.properties_spec()@ == properties@
    &&& vstd::pervasive::cloned(item, after.entries().last().1.inner_spec())
}

/// Whether an item was taken out of a registry. Only those who may see an item can do that.
pub open spec fn is_unregistered<V: Verifier, I: RegistryIndex, T: Clone>(
    before: Registry<V, I, T>,
    after: Registry<V, I, T>,
    id: I,
    cred: V::Credential,
    told: Option<RegistryChangeInternal<I, V::Acl, T>>,
) -> bool {
    if has_id(visible(before.verifier_spec(), before.entries(), cred), id) {
        &&& after.wf()
        &&& after.next_id() == before.next_id()
        &&& after.verifier_spec() == before.verifier_spec()
        &&& after.entries() == without_id(before.entries(), id)
        &&& told is Some
        &&& told->0.public() == RegistryChange::<I, V::Acl, T>::Removed(id)
        &&& heard(before.verifier_spec(), cred, told->0) is Some
    } else {
        &&& after == before
        &&& told is None
    }
}

/// Whether this is what the registry has under an id, for those who may see it.
pub open spec fn is_got<V: Verifier, I: RegistryIndex, T: Clone>(
    registry: Registry<V, I, T>,
    id: I,
    cred: V::Credential,
    got: Option<&T>,
) -> bool {
    let seen = visible(registry.verifier_spec(), registry.entries(), cred);
    match got {
        Some(inner) => exists|i: int|
            0 <= i < seen.len() && (#[trigger] seen[i]).0 == id && seen[i].1.inner_spec()
                == *inner,
        None => !has_id(seen, id),
    }
}

/// Adds an item to a registry.
fn register<V: Verifier, I: RegistryIndex, T: Clone>(
    registry: &mut Registry<V, I, T>,
    acl: V::Acl,
    properties: Properties,
    item: T,
) -> (r: I)
    requires
        old(registry).wf(),
        properties.wf(),
        old(registry).next_id().position() < u64::MAX,
    ensures
        is_registered(*old(registry), *final(registry), acl, properties, item, r),
{
    let (id, _) = registry.add(acl, properties, item);
    id
}

/// Takes an item out of a registry.
fn unregister<V: Verifier, I: RegistryIndex, T: Clone>(
    registry: &mut Registry<V, I, T>,
    id: I,
    cred: &V::Credential,
) -> (r: Option<RegistryChangeInternal<I, V::Acl, T>>)
    requires
        old(registry).wf(),
    ensures
        is_unregistered(*old(registry), *final(registry), id, *cred, r),
{
    let ghost entries = registry.entries();
    let ghost verifier = registry.verifier_spec();
    let ghost seen = visible(verifier, entries, *cred);
    let shown = registry.lookup(id, cred);
    match shown {
        Some(item) => {
            let ghost entry = (id, *item);
            proof {
                let x = choose|x: int| 0 <= x < seen.len() && seen[x] == entry;
                assert(seen[x].0 == id);
                lemma_visible(verifier, entries, *cred, entry);
            }
            let r = registry.remove(id);
            proof {
                let i = choose|i: int| 0 <= i < entries.len() && entries[i] == entry;
                assert(entries[i].0 == id);
                assert(r is Some);
                let j = choose|j: int|
                    0 <= j < entries.len() && (#[trigger] entries[j]).0 == id && r->0.acl_spec()
                        == entries[j].1.acl_spec() && r->0.public()
                        == RegistryChange::<I, V::Acl, T>::Removed(id);
                if i < j {
                    assert(entries[i].0.position() < entries[j].0.position());
                } else if j < i {
                    assert(entries[j].0.position() < entries[i].0.position());
                }
            }
            r
        },
        None => None,
    }
}

/// The item under an id, for those who may see it.
fn get<'a, V: Verifier, I: RegistryIndex, T: Clone>(
    registry: &'a Registry<V, I, T>,
    id: I,
    cred: &V::Credential,
) -> (r: Option<&'a T>)
    requires
        registry.wf(),
    ensures
        is_got(*registry, id, *cred, r),
{
    let ghost seen = visible(registry.verifier_spec(), registry.entries(), *cred);
    match registry.lookup(id, cred) {
        Some(item) => {
            proof {
                let x = choose|x: int| 0 <= x < seen.len() && seen[x] == (id, *item);
                assert(seen[x].0 == id);
            }
            Some(item.inner())
        },
        None => None,
    }
}

/// Whether these are the properties of the item under an id, or whether there is none for those
/// who ask.
pub open spec fn are_properties<V: Verifier, I: RegistryIndex, T: Clone>(
    registry: Registry<V, I, T>,
    id: I,
    cred: V::Credential,
    answer: Result<Vec<(String, String)>, Status>,
) -> bool {
    let seen = visible(registry.verifier_spec(), registry.entries(), cred);
    match answer {
        Ok(pairs) => exists|i: int|
            0 <= i < seen.len() && (#[trigger] seen[i]).0 == id && distinct_keys(pairs@)
                && pairs_map(pairs@) == seen[i].1.properties_spec()@,
        Err(status) => !has_id(seen, id) && is_status(status, Code::NotFound, "Item not found"@),
    }
}

/// The properties of the item under an id.
fn properties<V: Verifier, I: RegistryIndex, T: Clone>(
    registry: &Registry<V, I, T>,
    id: I,
    cred: &V::Credential,
) -> (r: Result<Vec<(String, String)>, Status>)
    requires
        registry.wf(),
    ensures
        are_properties(*registry, id, *cred, r),
{
    let ghost seen = visible(registry.verifier_spec(), registry.entries(), *cred);
    match registry.lookup(id, cred) {
        Some(item) => {
            proof {
                let x = choose|x: int| 0 <= x < seen.len() && seen[x] == (id, *item);
                assert(seen[x].0 == id);
            }
            let shared = item.properties();
            let pairs = shared.iter();
            let r = copy_pairs(pairs);
            proof {
                lemma_same_pairs(r@, pairs@);
            }
            Ok(r)
        },
        None => Err(Status::new(Code::NotFound, "Item not found")),
    }
}

impl<V: Verifier, A: Clone, D: Clone, C: Clone, L: Clone, M: Clone, K: Clone, P: Clone> Server<
    V,
    A,
    D,
    C,
    L,
    M,
    K,
    P,
> {
    /// All registries are well formed.
    pub open spec fn wf(self) -> bool {
        &&& self.actuators.wf()
        &&& self.devices.wf()
        &&& self.consoles.wf()
        &&& self.volumes.wf()
        &&& self.media.wf()
        &&& self.keyboards.wf()
        &&& self.mice.wf()
    }

    /// Adds an actuator.
    pub fn register_actuator(&mut self, acl: V::Acl, properties: Properties, item: A) -> (r: ActuatorId)
        requires
            old(self).wf(),
            properties.wf(),
            old(self).actuators.next_id().position() < u64::MAX,
        ensures
            final(self).wf(),
            is_registered(old(self).actuators, final(self).actuators, acl, properties, item, r),
            *final(self) == (Server { actuators: final(self).actuators, ..*old(self) }),
    {
        register(&mut self.actuators, acl, properties, item)
    }

    /// Takes an actuator out. What there is to tell is returned.
    pub fn unregister_actuator(&mut self, id: ActuatorId, cred: &V::Credential) -> (r: Option<
        RegistryChangeInternal<ActuatorId, V::Acl, A>,
    >)
        requires
            old(self).wf(),
        ensures
            final(self).wf(),
            is_unregistered(old(self).actuators, final(self).actuators, id, *cred, r),
            *final(self) == (Server { actuators: final(self).actuators, ..*old(self) }),
    {
        unregister(&mut self.actuators, id, cred)
    }

    /// The actuator with the id, for those who may see it.
    pub fn get_actuator(&self, id: ActuatorId, cred: &V::Credential) -> (r: Option<&A>)
        requires
            self.wf(),
        ensures
            is_got(self.actuators, id, *cred, r),
    {
        get(&self.actuators, id, cred)
    }

    /// Adds a device.
    pub fn register_device(&mut self, acl: V::Acl, properties: Properties, item: D) -> (r: DeviceId)
        requires
            old(self).wf(),
            properties.wf(),
            old(self).devices.next_id().position() < u64::MAX,
        ensures
            final(self).wf(),
            is_registered(old(self).devices, final(self).devices, acl, properties, item, r),
            *final(self) == (Server { devices: final(self).devices, ..*old(self) }),
    {
        register(&mut self.devices, acl, properties, item)
    }

    /// Takes a device out. What there is to tell is returned.
    pub fn unregister_device(&mut self, id: DeviceId, cred: &V::Credential) -> (r: Option<
        RegistryChangeInternal<DeviceId, V::Acl, D>,
    >)
        requires
            old(self).wf(),
        ensures
            final(self).wf(),
            is_unregistered(old(self).devices, final(self).devices, id, *cred, r),
            *final(self) == (Server { devices: final(self).devices, ..*old(self) }),
    {
        unregister(&mut self.devices, id, cred)
    }

    /// The device with the id, for those who may see it.
    pub fn get_device(&self, id: DeviceId, cred: &V::Credential) -> (r: Option<&D>)
        requires
            self.wf(),
        ensures
            is_got(self.devices, id, *cred, r),
    {
        get(&self.devices, id, cred)
    }

    /// Adds a console.
    pub fn register_console(&mut self, acl: V::Acl, properties: Properties, item: C) -> (r: ConsoleId)
        requires
            old(self).wf(),
            properties.wf(),
            old(self).consoles.next_id().position() < u64::MAX,
        ensures
            final(self).wf(),
            is_registered(old(self).consoles, final(self).consoles, acl, properties, item, r),
            *final(self) == (Server { consoles: final(self).consoles, ..*old(self) }),
    {
        register(&mut self.consoles, acl, properties, item)
    }

    /// Takes a console out. What there is to tell is returned.
    pub fn unregister_console(&mut self, id: ConsoleId, cred: &V::Credential) -> (r: Option<
        RegistryChangeInternal<ConsoleId, V::Acl, C>,
    >)
        requires
            old(self).wf(),
        ensures
            final(self).wf(),
            is_unregistered(old(self).consoles, final(self).consoles, id, *cred, r),
            *final(self) == (Server { consoles: final(self).consoles, ..*old(self) }),
    {
        unregister(&mut self.consoles, id, cred)
    }

    /// The console with the id, for those who may see it.
    pub fn get_console(&self, id: ConsoleId, cred: &V::Credential) -> (r: Option<&C>)
        requires
            self.wf(),
        ensures
            is_got(self.consoles, id, *cred, r),
    {
        get(&self.consoles, id, cred)
    }

    /// Adds a volume.
    pub fn register_volume(&mut self, acl: V::Acl, properties: Properties, item: L) -> (r: VolumeId)
        requires
            old(self).wf(),
            properties.wf(),
            old(self).volumes.next_id().position() < u64::MAX,
        ensures
            final(self).wf(),
            is_registered(old(self).volumes, final(self).volumes, acl, properties, item, r),
            *final(self) == (Server { volumes: final(self).volumes, ..*old(self) }),
    {
        register(&mut self.volumes, acl, properties, item)
    }

    /// Takes a volume out. What there is to tell is returned.
    pub fn unregister_volume(&mut self, id: VolumeId, cred: &V::Credential) -> (r: Option<
        RegistryChangeInternal<VolumeId, V::Acl, L>,
    >)
        requires
            old(self).wf(),
        ensures
            final(self).wf(),
            is_unregistered(old(self).volumes, final(self).volumes, id, *cred, r),
            *final(self) == (Server { volumes: final(self).volumes, ..*old(self) }),
    {
        unregister(&mut self.volumes, id, cred)
    }

    /// The volume with the id, for those who may see it.
    pub fn get_volume(&self, id: VolumeId, cred: &V::Credential) -> (r: Option<&L>)
        requires
            self.wf(),
        ensures
            is_got(self.volumes, id, *cred, r),
    {
        get(&self.volumes, id, cred)
    }

    /// Adds a medium.
    pub fn register_media(&mut self, acl: V::Acl, properties: Properties, item: M) -> (r: MediaId)
        requires
            old(self).wf(),
            properties.wf(),
            old(self).media.next_id().position() < u64::MAX,
        ensures
            final(self).wf(),
            is_registered(old(self).media, final(self).media, acl, properties, item, r),
            *final(self) == (Server { media: final(self).media, ..*old(self) }),
    {
        register(&mut self.media, acl, properties, item)
    }

    /// Takes a medium out. What there is to tell is returned.
    pub fn unregister_media(&mut self, id: MediaId, cred: &V::Credential) -> (r: Option<
        RegistryChangeInternal<MediaId, V::Acl, M>,
    >)
        requires
            old(self).wf(),
        ensures
            final(self).wf(),
            is_unregistered(old(self).media, final(self).media, id, *cred, r),
            *final(self) == (Server { media: final(self).media, ..*old(self) }),
    {
        unregister(&mut self.media, id, cred)
    }

    /// The medium with the id, for those who may see it.
    pub fn get_media(&self, id: MediaId, cred: &V::Credential) -> (r: Option<&M>)
        requires
            self.wf(),
        ensures
            is_got(self.media, id, *cred, r),
    {
        get(&self.media, id, cred)
    }

    /// Adds a keyboard.
    pub fn register_keyboard(&mut self, acl: V::Acl, properties: Properties, item: K) -> (r: KeyboardId)
        requires
            old(self).wf(),
            properties.wf(),
            old(self).keyboards.next_id().position() < u64::MAX,
        ensures
            final(self).wf(),
            is_registered(old(self).keyboards, final(self).keyboards, acl, properties, item, r),
            *final(self) == (Server { keyboards: final(self).keyboards, ..*old(self) }),
    {
        register(&mut self.keyboards, acl, properties, item)
    }

    /// Takes a keyboard out. What there is to tell is returned.
    pub fn unregister_keyboard(&mut self, id: KeyboardId, cred: &V::Credential) -> (r: Option<
        RegistryChangeInternal<KeyboardId, V::Acl, K>,
    >)
        requires
            old(self).wf(),
        ensures
            final(self).wf(),
            is_unregistered(old(self).keyboards, final(self).keyboards, id, *cred, r),
            *final(self) == (Server { keyboards: final(self).keyboards, ..*old(self) }),
    {
        unregister(&mut self.keyboards, id, cred)
    }

    /// The keyboard with the id, for those who may see it.
    pub fn get_keyboard(&self, id: KeyboardId, cred: &V::Credential) -> (r: Option<&K>)
        requires
            self.wf(),
        ensures
            is_got(self.keyboards, id, *cred, r),
    {
        get(&self.keyboards, id, cred)
    }

    /// Adds a mouse.
    pub fn register_mouse(&mut self, acl: V::Acl, properties: Properties, item: P) -> (r: MouseId)
        requires
            old(self).wf(),
            properties.wf(),
            old(self).mice.next_id().position() < u64::MAX,
        ensures
            final(self).wf(),
            is_registered(old(self).mice, final(self).mice, acl, properties, item, r),
            *final(self) == (Server { mice: final(self).mice, ..*old(self) }),
    {
        register(&mut self.mice, acl, properties, item)
    }

    /// Takes a mouse out. What there is to tell is returned.
    pub fn unregister_mouse(&mut self, id: MouseId, cred: &V::Credential) -> (r: Option<
        RegistryChangeInternal<MouseId, V::Acl, P>,
    >)
        requires
            old(self).wf(),
        ensures
            final(self).wf(),
            is_unregistered(old(self).mice, final(self).mice, id, *cred, r),
            *final(self) == (Server { mice: final(self).mice, ..*old(self) }),
    {
        unregister(&mut self.mice, id, cred)
    }

    /// The mouse with the id, for those who may see it.
    pub fn get_mouse(&self, id: MouseId, cred: &V::Credential) -> (r: Option<&P>)
        requires
            self.wf(),
        ensures
            is_got(self.mice, id, *cred, r),
    {
        get(&self.mice, id, cred)
    }

    /// The first actuator, in the order of the ids, that matches and may be seen.
    pub fn find_actuator(&self, wanted: &Vec<(String, String)>, cred: &V::Credential) -> (r: Option<
        &A,
    >)
        requires
            self.wf(),
        ensures
            ({
                let entries = self.actuators.entries();
                let verifier = self.actuators.verifier_spec();
                match r {
                    Some(inner) => exists|i: int|
                        {
                            &&& 0 <= i < entries.len()
                            &&& (#[trigger] entries[i]).1.inner_spec() == *inner
                            &&& found(verifier, entries[i], wanted@, *cred)
                            &&& forall|j: int|
                                0 <= j < i ==> !found(
                                    verifier,
                                    #[trigger] entries[j],
                                    wanted@,
                                    *cred,
                                )
                        },
                    None => forall|j: int|
                        0 <= j < entries.len() ==> !found(
                            verifier,
                            #[trigger] entries[j],
                            wanted@,
                            *cred,
                        ),
                }
            }),
    {
        match self.actuators.find(wanted, cred) {
            Some((_, item)) => Some(item.inner()),
            None => None,
        }
    }

    /// How the items of a kind are listed for those who may see them, in the order of their ids.
    pub fn item_list_for(&self, type_: ItemType, cred: &V::Credential) -> (r: Vec<ListedItem>)
        requires
            self.wf(),
        ensures
            match type_ {
                ItemType::Actuator => all_listed(
                    r@,
                    visible(self.actuators.verifier_spec(), self.actuators.entries(), *cred),
                ),
                ItemType::Device => all_listed(
                    r@,
                    visible(self.devices.verifier_spec(), self.devices.entries(), *cred),
                ),
                ItemType::Console => all_listed(
                    r@,
                    visible(self.consoles.verifier_spec(), self.consoles.entries(), *cred),
                ),
                ItemType::Volume => all_listed(
                    r@,
                    visible(self.volumes.verifier_spec(), self.volumes.entries(), *cred),
                ),
                ItemType::Media => all_listed(
                    r@,
                    visible(self.media.verifier_spec(), self.media.entries(), *cred),
                ),
                ItemType::Keyboard => all_listed(
                    r@,
                    visible(self.keyboards.verifier_spec(), self.keyboards.entries(), *cred),
                ),
                ItemType::Mouse => all_listed(
                    r@,
                    visible(self.mice.verifier_spec(), self.mice.entries(), *cred),
                ),
            },
    {
        match type_ {
            ItemType::Actuator => to_item_list(&self.actuators, cred),
            ItemType::Device => to_item_list(&self.devices, cred),
            ItemType::Console => to_item_list(&self.consoles, cred),
            ItemType::Volume => to_item_list(&self.volumes, cred),
            ItemType::Media => to_item_list(&self.media, cred),
            ItemType::Keyboard => to_item_list(&self.keyboards, cred),
            ItemType::Mouse => to_item_list(&self.mice, cred),
        }
    }

    /// The properties of an item, for those who may see it.
    pub fn item_properties(&self, type_: ItemType, id: u64, cred: &V::Credential) -> (r: Result<
        Vec<(String, String)>,
        Status,
    >)
        requires
            self.wf(),
        ensures
            match type_ {
                ItemType::Actuator => are_properties(self.actuators, ActuatorId(id), *cred, r),
                ItemType::Device => are_properties(self.devices, DeviceId(id), *cred, r),
                ItemType::Console => are_properties(self.consoles, ConsoleId(id), *cred, r),
                ItemType::Volume => are_properties(self.volumes, VolumeId(id), *cred, r),
                ItemType::Media => are_properties(self.media, MediaId(id), *cred, r),
                ItemType::Keyboard => are_properties(self.keyboards, KeyboardId(id), *cred, r),
                ItemType::Mouse => are_properties(self.mice, MouseId(id), *cred, r),
            },
    {
        match type_ {
            ItemType::Actuator => properties(&self.actuators, ActuatorId(id), cred),
            ItemType::Device => properties(&self.devices, DeviceId(id), cred),
            ItemType::Console => properties(&self.consoles, ConsoleId(id), cred),
            ItemType::Volume => properties(&self.volumes, VolumeId(id), cred),
            ItemType::Media => properties(&self.media, MediaId(id), cred),
            ItemType::Keyboard => properties(&self.keyboards, KeyboardId(id), cred),
            ItemType::Mouse => properties(&self.mice, MouseId(id), cred),
        }
    }
}

/// What clients hear of changes.
#[derive(Debug)]
pub enum ItemEvent {
    /// Items were added.
    Added(Vec<ListedItem>),
    /// The item with this id was removed.
    Removed(u64),
}

/// What a client that starts to listen hears first: all items of the registry that it may see.
pub fn first_event<V: Verifier, I: ItemId, T: Clone>(
    registry: &Registry<V, I, T>,
    cred: &V::Credential,
) -> (r: ItemEvent)
    requires
        registry.wf(),
    ensures
        r is Added,
        all_listed(
            r->Added_0@,
            visible(registry.verifier_spec(), registry.entries(), *cred),
        ),
{
    ItemEvent::Added(to_item_list(registry, cred))
}

/// What a client hears of a change.
pub fn next_event<I: ItemId, A, T>(change: &RegistryChange<I, A, T>) -> (r: ItemEvent)
    requires
        change matches RegistryChange::Added { id, item } ==> item.wf(),
    ensures
        match *change {
            RegistryChange::Added { id, item } => r is Added && all_listed(
                r->Added_0@,
                seq![(id, item)],
            ),
            RegistryChange::Removed(id) => r is Removed && r->Removed_0 as nat == id.position(),
        },
{
    match change {
        RegistryChange::Added { id, item } => {
            let mut list: Vec<ListedItem> = Vec::new();
            list.push(list_item(id.value(), item));
            ItemEvent::Added(list)
        },
        RegistryChange::Removed(id) => ItemEvent::Removed(id.value()),
    }
}

/// What is asked of a kind of item that does not exist.
pub fn known_type(type_: Option<ItemType>) -> (r: Result<ItemType, Status>)
    ensures
        match type_ {
            Some(t) => r == Ok::<ItemType, Status>(t),
            None => r is Err && is_status(
                r->Err_0,
                Code::InvalidArgument,
                "Unknown item type "@,
            ),
        },
{
    match type_ {
        Some(t) => Ok(t),
        None => Err(Status::new(Code::InvalidArgument, "Unknown item type ")),
    }
}

/// What was registered is found under its id by those who may see it, and by no one else.
pub proof fn law_registered_is_found<V: Verifier, I: RegistryIndex, T: Clone>(
    before: Registry<V, I, T>,
    after: Registry<V, I, T>,
    acl: V::Acl,
    properties: Properties,
    item: T,
    id: I,
    cred: V::Credential,
    got: Option<&T>,
)
    requires
        before.wf(),
        is_registered(before, after, acl, properties, item, id),
        is_got(after, id, cred, got),
    ensures
        got is Some <==> before.verifier_spec().allows(&cred, &acl),
        got matches Some(inner) ==> vstd::pervasive::cloned(item, *inner),
{
    let last = after.entries().len() - 1;
    let seen = visible(after.verifier_spec(), after.entries(), cred);
    law_only_allowed_is_visible(after.verifier_spec(), after.entries(), cred, last);
    assert(after.entries()[last] == after.entries().last());
    if let Some(inner) = got {
        let i = choose|i: int|
            0 <= i < seen.len() && (#[trigger] seen[i]).0 == id && seen[i].1.inner_spec() == *inner;
        assert(seen.contains(seen[i]));
        lemma_visible(after.verifier_spec(), after.entries(), cred, seen[i]);
        let k = choose|k: int| 0 <= k < after.entries().len() && after.entries()[k] == seen[i];
        assert(after.entries()[k].0 == after.entries()[last].0);
    }
}

/// Registering an item leaves all others in their places.
pub proof fn law_registering_leaves_others<V: Verifier, I: RegistryIndex, T: Clone>(
    before: Registry<V, I, T>,
    after: Registry<V, I, T>,
    acl: V::Acl,
    properties: Properties,
    item: T,
    id: I,
    i: int,
)
    requires
        before.wf(),
        is_registered(before, after, acl, properties, item, id),
        0 <= i < before.entries().len(),
    ensures
        after.entries()[i] == before.entries()[i],
        before.entries()[i].0 != id,
{
    assert(after.entries().drop_last()[i] == after.entries()[i]);
    assert(after.entries()[i].0.position() < after.entries().last().0.position());
}

/// What was taken out is not found any more, whoever asks; who may not see an item cannot take it
/// out.
pub proof fn law_unregistered_is_not_found<V: Verifier, I: RegistryIndex, T: Clone>(
    before: Registry<V, I, T>,
    after: Registry<V, I, T>,
    id: I,
    cred: V::Credential,
    told: Option<RegistryChangeInternal<I, V::Acl, T>>,
    other: V::Credential,
    got: Option<&T>,
    i: int,
)
    requires
        before.wf(),
        is_unregistered(before, after, id, cred, told),
        is_got(after, id, other, got),
        0 <= i < before.entries().len(),
    ensures
        told is Some ==> got is None,
        before.entries()[i].0 == id ==> (told is Some <==> before.verifier_spec().allows(
            &cred,
            &before.entries()[i].1.acl_spec(),
        )),
        before.entries()[i].0 != id || told is None ==> after.entries().contains(
            before.entries()[i],
        ),
        told is Some ==> !after.entries().contains(before.entries()[i]) || before.entries()[i].0
            != id,
{
    law_only_allowed_is_visible(before.verifier_spec(), before.entries(), cred, i);
    law_removed_is_gone(before.entries(), id, before.entries()[i]);
    assert(before.entries().contains(before.entries()[i]));
    let seen = visible(after.verifier_spec(), after.entries(), other);
    if told is Some && got is Some {
        let k = choose|k: int|
            0 <= k < seen.len() && (#[trigger] seen[k]).0 == id && seen[k].1.inner_spec() == *(
            got->0);
        assert(seen.contains(seen[k]));
        lemma_visible(after.verifier_spec(), after.entries(), other, seen[k]);
        let j = choose|j: int| 0 <= j < after.entries().len() && after.entries()[j] == seen[k];
        assert(after.entries()[j].0 == id);
    }
    if told is Some && after.entries().contains(before.entries()[i]) {
        let j = choose|j: int|
            0 <= j < after.entries().len() && after.entries()[j] == before.entries()[i];
        assert(after.entries()[j].0 != id);
    }
}

/// An item that is not there or not to be seen has no properties to tell.
pub proof fn law_properties_of_seen_items<V: Verifier, I: RegistryIndex, T: Clone>(
    registry: Registry<V, I, T>,
    id: I,
    cred: V::Credential,
    answer: Result<Vec<(String, String)>, Status>,
    i: int,
)
    requires
        registry.wf(),
        are_properties(registry, id, cred, answer),
        0 <= i < registry.entries().len(),
        registry.entries()[i].0 == id,
    ensures
        answer is Ok <==> registry.verifier_spec().allows(
            &cred,
            &registry.entries()[i].1.acl_spec(),
        ),
        answer matches Ok(pairs) ==> pairs_map(pairs@)
            == registry.entries()[i].1.properties_spec()@,
{
    let entries = registry.entries();
    let seen = visible(registry.verifier_spec(), entries, cred);
    law_only_allowed_is_visible(registry.verifier_spec(), entries, cred, i);
    if let Ok(pairs) = answer {
        let k = choose|k: int|
            0 <= k < seen.len() && (#[trigger] seen[k]).0 == id && distinct_keys(pairs@)
                && pairs_map(pairs@) == seen[k].1.properties_spec()@;
        assert(seen.contains(seen[k]));
        lemma_visible(registry.verifier_spec(), entries, cred, seen[k]);
        let j = choose|j: int| 0 <= j < entries.len() && entries[j] == seen[k];
        assert(entries[j].0 == entries[i].0);
    }
}

} // verus!
