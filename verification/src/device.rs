//! Devices: what the configuration says belongs to a board, tied to the items that are there,
//! and the modes that a board can be switched to.

use std::time::Duration;

use vstd::prelude::*;

use crate::registry::{properties_match, Properties, RegistryIndex};
use crate::text::str_eq;

verus! {

/// A part of a device's configuration that stands for an item.
pub trait DeviceConfigItem {
    /// Whether an item with these properties is the one that is meant.
    spec fn is_meant(&self, properties: Map<Seq<char>, Seq<char>>) -> bool;

    /// Whether an item with these properties is the one that is meant.
    fn matches(&self, properties: &Properties) -> (r: bool)
        requires
            properties.wf(),
        ensures
            r == self.is_meant(properties@),
    ;
}

/// A console of a device, with parameters to configure it with.
pub struct Console<P> {
    /// Name of the console.
    pub name: String,
    /// What to configure the console with.
    pub parameters: P,
    /// Properties by which the console is found; none match any console.
    pub match_: Vec<(String, String)>,
}

/// A volume of a device.
pub struct Volume {
    /// Name of the volume.
    pub name: String,
    /// Properties by which the volume is found; none match any volume.
    pub match_: Vec<(String, String)>,
}

/// One step on the way to a mode.
pub struct ModeStep<P> {
    /// Properties by which the actuator is found; none match any actuator.
    pub match_: Vec<(String, String)>,
    /// What to set the actuator to.
    pub parameters: P,
    /// How long to wait afterwards.
    pub stabilisation: Option<Duration>,
}

impl<P> DeviceConfigItem for Console<P> {
    open spec fn is_meant(&self, properties: Map<Seq<char>, Seq<char>>) -> bool {
        properties_match(properties, self.match_@)
    }

    fn matches(&self, properties: &Properties) -> (r: bool) {
        properties.matches(&self.match_)
    }
}

impl DeviceConfigItem for Volume {
    open spec fn is_meant(&self, properties: Map<Seq<char>, Seq<char>>) -> bool {
        properties_match(properties, self.match_@)
    }

    fn matches(&self, properties: &Properties) -> (r: bool) {
        properties.matches(&self.match_)
    }
}

impl<P> DeviceConfigItem for ModeStep<P> {
    open spec fn is_meant(&self, properties: Map<Seq<char>, Seq<char>>) -> bool {
        properties_match(properties, self.match_@)
    }

    fn matches(&self, properties: &Properties) -> (r: bool) {
        properties.matches(&self.match_)
    }
}

/// A part of a device with the id of the item that it stands for, while that is there.
pub struct DeviceItem<I, C> {
    id: Option<I>,
    config: C,
}

impl<I: RegistryIndex, C: DeviceConfigItem> DeviceItem<I, C> {
    /// The id of the item.
    pub closed spec fn id_spec(self) -> Option<I> {
        self.id
    }

    /// What the configuration says.
    pub closed spec fn config_spec(self) -> C {
        self.config
    }

    /// Nothing is known of the item yet.
    pub fn new(config: C) -> (r: Self)
        ensures
            r.id_spec() is None,
            r.config_spec() == config,
    {
        DeviceItem { id: None, config }
    }

    /// What the configuration says.
    pub fn config(&self) -> (r: &C)
        ensures
            *r == self.config_spec(),
    {
        &self.config
    }

    /// Sets the id of the item.
    pub fn set(&mut self, id: Option<I>)
        ensures
            final(self).id_spec() == id,
            final(self).config_spec() == old(self).config_spec(),
    {
        self.id = id;
    }

    /// The id of the item.
    pub fn get(&self) -> (r: Option<I>)
        ensures
            r == self.id_spec(),
    {
        self.id
    }

    /// Forgets the item if it is the one with this id.
    pub fn unset_if_matches(&mut self, id: I) -> (r: bool)
        ensures
            r == (old(self).id_spec() == Some(id)),
            final(self).id_spec() == after_removed(old(self).id_spec(), id),
            final(self).config_spec() == old(self).config_spec(),
    {
        match self.id {
            Some(item_id) => {
                if item_id.same(&id) {
                    self.id = None;
                    true
                } else {
                    false
                }
            },
            None => false,
        }
    }

    /// Takes the item with this id if it is the one that is meant.
    pub fn set_if_matches(&mut self, id: I, properties: &Properties) -> (r: bool)
        requires
            properties.wf(),
        ensures
            r == old(self).config_spec().is_meant(properties@),
            final(self).id_spec() == after_added(*old(self), id, properties@),
            final(self).config_spec() == old(self).config_spec(),
    {
        if self.config.matches(properties) {
            self.id = Some(id);
            true
        } else {
            false
        }
    }
}

/// The id that a part of a device stands for after an item was removed.
pub open spec fn after_removed<I>(current: Option<I>, id: I) -> Option<I> {
    if current == Some(id) {
        None
    } else {
        current
    }
}

/// The id that a part of a device stands for after an item was added.
pub open spec fn after_added<I: RegistryIndex, C: DeviceConfigItem>(
    item: DeviceItem<I, C>,
    id: I,
    properties: Map<Seq<char>, Seq<char>>,
) -> Option<I> {
    if item.config_spec().is_meant(properties) {
        Some(id)
    } else {
        item.id_spec()
    }
}

/// A change among the items of one kind.
pub enum ItemChange<'a, I> {
    /// An item with these properties came.
    Added(I, &'a Properties),
    /// An item went.
    Removed(I),
}

/// Whether the change is about the item that the part of a device stands for.
pub open spec fn concerns<I: RegistryIndex, C: DeviceConfigItem>(
    item: DeviceItem<I, C>,
    change: ItemChange<I>,
) -> bool {
    match change {
        ItemChange::Added(id, properties) => item.config_spec().is_meant(properties@),
        ItemChange::Removed(id) => item.id_spec() == Some(id),
    }
}

/// The id that a part of a device stands for after a change.
pub open spec fn id_after<I: RegistryIndex, C: DeviceConfigItem>(
    item: DeviceItem<I, C>,
    change: ItemChange<I>,
) -> Option<I> {
    match change {
        ItemChange::Added(id, properties) => after_added(item, id, properties@),
        ItemChange::Removed(id) => after_removed(item.id_spec(), id),
    }
}

/// The parts of a device after a change.
pub open spec fn items_after<I: RegistryIndex, C: DeviceConfigItem>(
    before: Seq<DeviceItem<I, C>>,
    after: Seq<DeviceItem<I, C>>,
    change: ItemChange<I>,
) -> bool {
    &&& after.len() == before.len()
    &&& forall|i: int|
        0 <= i < before.len() ==> (#[trigger] after[i]).id_spec() == id_after(before[i], change)
            && after[i].config_spec() == before[i].config_spec()
}

/// The places of the parts that a change is about.
pub open spec fn concerned<I: RegistryIndex, C: DeviceConfigItem>(
    items: Seq<DeviceItem<I, C>>,
    change: ItemChange<I>,
    n: int,
) -> Seq<usize>
    decreases n,
{
    if n <= 0 {
        Seq::empty()
    } else if concerns(items[n - 1], change) {
        concerned(items, change, n - 1).push((n - 1) as usize)
    } else {
        concerned(items, change, n - 1)
    }
}

/// Takes a change of the items in. Returned are the places of the parts that it is about; that
/// there are any means that the device has changed.
pub fn change_items<I: RegistryIndex, C: DeviceConfigItem>(
    items: &mut Vec<DeviceItem<I, C>>,
    change: &ItemChange<I>,
) -> (r: Vec<usize>)
    requires
        change matches ItemChange::Added(_, properties) ==> properties.wf(),
    ensures
        items_after(old(items)@, final(items)@, *change),
        r@ == concerned(old(items)@, *change, old(items)@.len() as int),
{
    let ghost before = items@;
    let mut places: Vec<usize> = Vec::new();
    let n: usize = items.len();
    for i in 0..n
        invariant
            change matches ItemChange::Added(_, properties) ==> properties.wf(),
            n == before.len(),
            items@.len() == n,
            forall|j: int| i <= j < n ==> items@[j] == before[j],
            forall|j: int|
                0 <= j < i ==> (#[trigger] items@[j]).id_spec() == id_after(before[j], *change)
                    && items@[j].config_spec() == before[j].config_spec(),
            places@ == concerned(before, *change, i as int),
    {
        let item = &mut items[i];
        let hit = match change {
            ItemChange::Added(id, properties) => item.set_if_matches(*id, properties),
            ItemChange::Removed(id) => item.unset_if_matches(*id),
        };
        if hit {
            places.push(i);
        }
    }
    places
}

/// A mode that a device can be switched to.
pub struct DeviceMode<I, P> {
    /// Name of the mode.
    pub name: String,
    /// The mode that the device has to be in before.
    pub depends: Option<String>,
    /// How to get there.
    pub sequence: Vec<DeviceItem<I, ModeStep<P>>>,
}

impl<I: RegistryIndex, P> DeviceMode<I, P> {
    /// All actuators that are needed are there.
    pub open spec fn available(self) -> bool {
        forall|i: int|
            0 <= i < self.sequence@.len() ==> (#[trigger] self.sequence@[i]).id_spec() is Some
    }

    /// Whether all actuators that are needed are there.
    pub fn is_available(&self) -> (r: bool)
        ensures
            r == self.available(),
    {
        for i in 0..self.sequence.len()
            invariant
                forall|j: int| 0 <= j < i ==> (#[trigger] self.sequence@[j]).id_spec() is Some,
        {
            if self.sequence[i].get().is_none() {
                assert(self.sequence@[i as int].id_spec() is None);
                return false;
            }
        }
        true
    }
}

/// Why a device does not change its mode.
#[derive(Copy, Clone, Debug, PartialEq, Eq, Structural)]
pub enum DeviceSetModeError {
    /// There is no such mode.
    ModeNotFound,
    /// The device is in the wrong mode for that.
    WrongCurrentMode,
    /// An actuator failed.
    ActuatorFailed,
}

/// A board as the configuration describes it.
pub struct Device<I, P> {
    /// Name of the device.
    pub name: String,
    /// The consoles.
    pub consoles: Vec<DeviceItem<I, Console<P>>>,
    /// The volumes.
    pub volumes: Vec<DeviceItem<I, Volume>>,
    /// The modes.
    pub modes: Vec<DeviceMode<I, P>>,
    /// The mode that the device is in, where that is known.
    pub current_mode: Option<String>,
}

/// A change of mode that is under way.
#[derive(Copy, Clone, Debug, PartialEq, Eq, Structural)]
pub struct ModeRun {
    /// Which of the modes it leads to.
    pub mode: usize,
    /// Which of the steps it is at.
    pub step: usize,
}

/// What came of the last action on the way to a mode.
#[derive(Copy, Clone, Debug, PartialEq, Eq, Structural)]
pub enum ModeEvent {
    /// Nothing yet.
    Begin,
    /// No actuator was found for the step.
    ActuatorMissing,
    /// The actuator failed.
    ActuatorFailed,
    /// The actuator did what it was told.
    ActuatorDone,
    /// The wait is over.
    Slept,
}

/// What to do next on the way to a mode.
pub enum ModeAction {
    /// Find the actuator of this step and set it to the step's parameters.
    UseActuator(usize),
    /// Wait.
    Sleep(Duration),
    /// The device is in the mode: tell everyone.
    Finished,
    /// The mode was not reached.
    Failed(DeviceSetModeError),
}

/// Where among the modes the first one of this name is.
pub open spec fn mode_named<I, P>(modes: Seq<DeviceMode<I, P>>, name: Seq<char>, at: int) -> bool {
    &&& 0 <= at < modes.len()
    &&& modes[at].name@ == name
    &&& forall|i: int| 0 <= i < at ==> (#[trigger] modes[i]).name@ != name
}

/// Whether both are missing, or both the same text.
pub open spec fn same_text(a: Option<String>, b: Option<Seq<char>>) -> bool {
    match (a, b) {
        (Some(a), Some(b)) => a@ == b,
        (None, None) => true,
        _ => false,
    }
}

impl<I: RegistryIndex, P> Device<I, P> {
    /// The mode that the device is in, where that is known.
    pub open spec fn mode(self) -> Option<String> {
        self.current_mode
    }

    /// All but the mode is as before.
    pub open spec fn same_parts(self, before: Self) -> bool {
        &&& self.name == before.name
        &&& self.consoles == before.consoles
        &&& self.volumes == before.volumes
        &&& self.modes == before.modes
    }

    /// A device whose items and mode are not known yet.
    pub fn new(
        name: String,
        consoles: Vec<Console<P>>,
        volumes: Vec<Volume>,
        modes: Vec<(String, Option<String>, Vec<ModeStep<P>>)>,
    ) -> (r: Self)
        ensures
            r.name == name,
            r.mode() is None,
            configured(r.consoles@, consoles@),
            configured(r.volumes@, volumes@),
            r.modes@.len() == modes@.len(),
            forall|i: int|
                0 <= i < modes@.len() ==> (#[trigger] r.modes@[i]).name == modes@[i].0
                    && r.modes@[i].depends == modes@[i].1 && configured(
                    r.modes@[i].sequence@,
                    modes@[i].2@,
                ),
    {
        let mut list: Vec<DeviceMode<I, P>> = Vec::new();
        for mode in it: modes
            invariant
                it.seq() == modes@,
                list@.len() == it.index(),
                forall|i: int|
                    0 <= i < list@.len() ==> (#[trigger] list@[i]).name == modes@[i].0
                        && list@[i].depends == modes@[i].1 && configured(
                        list@[i].sequence@,
                        modes@[i].2@,
                    ),
        {
            let (name, depends, sequence) = mode;
            list.push(DeviceMode { name, depends, sequence: unknown(sequence) });
        }
        Device {
            name,
            consoles: unknown(consoles),
            volumes: unknown(volumes),
            modes: list,
            current_mode: None,
        }
    }

    /// The mode that the device is in, where that is known.
    pub fn current_mode(&self) -> (r: Option<&str>)
        ensures
            same_text(self.mode(), match r {
                Some(s) => Some(s@),
                None => None,
            }),
    {
        match &self.current_mode {
            Some(mode) => Some(mode.as_str()),
            None => None,
        }
    }

    /// Takes a change among the consoles in. Returned are the places of the consoles that it
    /// is about; where one was added, they are to be configured.
    pub fn console_change(&mut self, change: &ItemChange<I>) -> (r: Vec<usize>)
        requires
            change matches ItemChange::Added(_, properties) ==> properties.wf(),
        ensures
            items_after(old(self).consoles@, final(self).consoles@, *change),
            r@ == concerned(old(self).consoles@, *change, old(self).consoles@.len() as int),
            final(self).name == old(self).name,
            final(self).volumes == old(self).volumes,
            final(self).modes == old(self).modes,
            final(self).mode() == old(self).mode(),
    {
        change_items(&mut self.consoles, change)
    }

    /// Takes a change among the volumes in. Returned are the places of the volumes that it is
    /// about.
    pub fn volume_change(&mut self, change: &ItemChange<I>) -> (r: Vec<usize>)
        requires
            change matches ItemChange::Added(_, properties) ==> properties.wf(),
        ensures
            items_after(old(self).volumes@, final(self).volumes@, *change),
            r@ == concerned(old(self).volumes@, *change, old(self).volumes@.len() as int),
            final(self).name == old(self).name,
            final(self).consoles == old(self).consoles,
            final(self).modes == old(self).modes,
            final(self).mode() == old(self).mode(),
    {
        change_items(&mut self.volumes, change)
    }

    /// Takes a change among the actuators in, for the steps of all modes. Returned is whether
    /// it is about any of them.
    pub fn actuator_change(&mut self, change: &ItemChange<I>) -> (changed: bool)
        requires
            change matches ItemChange::Added(_, properties) ==> properties.wf(),
        ensures
            final(self).modes@.len() == old(self).modes@.len(),
            forall|m: int|
                0 <= m < old(self).modes@.len() ==> {
                    &&& (#[trigger] final(self).modes@[m]).name == old(self).modes@[m].name
                    &&& final(self).modes@[m].depends == old(self).modes@[m].depends
                    &&& items_after(
                        old(self).modes@[m].sequence@,
                        final(self).modes@[m].sequence@,
                        *change,
                    )
                },
            changed <==> exists|m: int|
                0 <= m < old(self).modes@.len() && concerns_mode(
                    #[trigger] old(self).modes@[m],
                    *change,
                ),
            final(self).name == old(self).name,
            final(self).consoles == old(self).consoles,
            final(self).volumes == old(self).volumes,
            final(self).mode() == old(self).mode(),
    {
        let ghost before = self.modes@;
        let mut changed = false;
        let n: usize = self.modes.len();
        for m in 0..n
            invariant
                change matches ItemChange::Added(_, properties) ==> properties.wf(),
                n == before.len(),
                self.modes@.len() == n,
                self.name == old(self).name,
                self.consoles == old(self).consoles,
                self.volumes == old(self).volumes,
                self.current_mode == old(self).current_mode,
                forall|i: int| m <= i < n ==> self.modes@[i] == before[i],
                forall|i: int|
                    0 <= i < m ==> {
                        &&& (#[trigger] self.modes@[i]).name == before[i].name
                        &&& self.modes@[i].depends == before[i].depends
                        &&& items_after(before[i].sequence@, self.modes@[i].sequence@, *change)
                    },
                changed <==> exists|i: int| 0 <= i < m && concerns_mode(
                    #[trigger] before[i],
                    *change,
                ),
        {
            let mode = &mut self.modes[m];
            let places = change_items(&mut mode.sequence, change);
            proof {
                lemma_concerned(before[m as int].sequence@, *change);
            }
            if places.len() > 0 {
                assert(concerns_mode(before[m as int], *change));
                changed = true;
            }
        }
        changed
    }

    /// Starts to switch to a mode. Until that is reached, the mode of the device is not known.
    pub fn start_mode(&mut self, mode: &str) -> (r: Result<ModeRun, DeviceSetModeError>)
        ensures
            final(self).same_parts(*old(self)),
            match r {
                Ok(run) => {
                    &&& mode_named(old(self).modes@, mode@, run.mode as int)
                    &&& run.step == 0
                    &&& allowed_from(old(self).modes@[run.mode as int], old(self).mode())
                    &&& final(self).mode() is None
                },
                Err(DeviceSetModeError::ModeNotFound) => {
                    &&& forall|i: int|
                        0 <= i < old(self).modes@.len() ==> (#[trigger] old(self).modes@[i]).name@ != mode@
                    &&& final(self).mode() == old(self).mode()
                },
                Err(DeviceSetModeError::WrongCurrentMode) => {
                    &&& exists|at: int|
                        #[trigger] mode_named(old(self).modes@, mode@, at) && !allowed_from(
                            old(self).modes@[at],
                            old(self).mode(),
                        )
                    &&& final(self).mode() == old(self).mode()
                },
                Err(DeviceSetModeError::ActuatorFailed) => false,
            },
    {
        let n: usize = self.modes.len();
        for i in 0..n
            invariant
                n == self.modes@.len(),
                *self == *old(self),
                forall|j: int| 0 <= j < i ==> (#[trigger] self.modes@[j]).name@ != mode@,
        {
            if str_eq(self.modes[i].name.as_str(), mode) {
                assert(mode_named(self.modes@, mode@, i as int));
                if let Some(depend) = &self.modes[i].depends {
                    let right = match &self.current_mode {
                        Some(current) => str_eq(current.as_str(), depend.as_str()),
                        None => false,
                    };
                    if !right {
                        return Err(DeviceSetModeError::WrongCurrentMode);
                    }
                }
                self.current_mode = None;
                return Ok(ModeRun { mode: i, step: 0 });
            }
        }
        Err(DeviceSetModeError::ModeNotFound)
    }

    /// Takes one step on the way to a mode: from what came of the last action to the next one.
    pub fn mode_step(&mut self, run: &mut ModeRun, event: ModeEvent) -> (r: ModeAction)
        requires
            old(run).mode < old(self).modes@.len(),
            event != ModeEvent::Begin ==> old(run).step < old(self).modes@[old(run).mode as int].sequence@.len(),
            event == ModeEvent::Begin ==> old(run).step == 0,
        ensures
            final(self).same_parts(*old(self)),
            final(run).mode == old(run).mode,
            ({
                let target = old(self).modes@[old(run).mode as int];
                mode_next(
                    target,
                    *old(run),
                    event,
                    r,
                    *final(run),
                    old(self).mode(),
                    final(self).mode(),
                )
            }),
    {
        match event {
            ModeEvent::Begin => self.mode_advance(run, 0),
            ModeEvent::ActuatorMissing => ModeAction::Failed(DeviceSetModeError::ActuatorFailed),
            ModeEvent::ActuatorFailed => ModeAction::Failed(DeviceSetModeError::ActuatorFailed),
            ModeEvent::ActuatorDone => {
                match &self.modes[run.mode].sequence[run.step].config.stabilisation {
                    Some(duration) => ModeAction::Sleep(*duration),
                    None => self.mode_past(run),
                }
            },
            ModeEvent::Slept => self.mode_past(run),
        }
    }

    fn mode_past(&mut self, run: &mut ModeRun) -> (r: ModeAction)
        requires
            old(run).mode < old(self).modes@.len(),
            old(run).step < old(self).modes@[old(run).mode as int].sequence@.len(),
        ensures
            final(self).same_parts(*old(self)),
            final(run).mode == old(run).mode,
            final(run).step == old(run).step + 1,
            advanced(
                old(self).modes@[old(run).mode as int],
                old(run).step + 1,
                r,
                old(self).mode(),
                final(self).mode(),
            ),
    {
        let steps: usize = self.modes[run.mode].sequence.len();
        assert(run.step < steps);
        let next: usize = run.step + 1;
        self.mode_advance(run, next)
    }

    fn mode_advance(&mut self, run: &mut ModeRun, step: usize) -> (r: ModeAction)
        requires
            old(run).mode < old(self).modes@.len(),
            step <= old(self).modes@[old(run).mode as int].sequence@.len(),
        ensures
            final(self).same_parts(*old(self)),
            *final(run) == (ModeRun { mode: old(run).mode, step }),
            advanced(
                old(self).modes@[old(run).mode as int],
                step as int,
                r,
                old(self).mode(),
                final(self).mode(),
            ),
    {
        run.step = step;
        if step < self.modes[run.mode].sequence.len() {
            ModeAction::UseActuator(step)
        } else {
            let name = self.modes[run.mode].name.clone();
            self.current_mode = Some(name);
            ModeAction::Finished
        }
    }
}

/// Whether a device may be switched to the mode from its current one.
pub open spec fn allowed_from<I, P>(target: DeviceMode<I, P>, current: Option<String>) -> bool {
    match target.depends {
        Some(depend) => same_text(current, Some(depend@)),
        None => true,
    }
}

/// What comes once a number of steps are done: the next step, or the end.
pub open spec fn advanced<I, P>(
    target: DeviceMode<I, P>,
    step: int,
    action: ModeAction,
    before: Option<String>,
    after: Option<String>,
) -> bool {
    if step < target.sequence@.len() {
        action == ModeAction::UseActuator(step as usize) && after == before
    } else {
        action == ModeAction::Finished && same_text(after, Some(target.name@))
    }
}

/// What follows an event on the way to a mode.
pub open spec fn mode_next<I: RegistryIndex, P>(
    target: DeviceMode<I, P>,
    run: ModeRun,
    event: ModeEvent,
    action: ModeAction,
    run_after: ModeRun,
    before: Option<String>,
    after: Option<String>,
) -> bool {
    match event {
        ModeEvent::Begin => run_after.step == 0 && advanced(target, 0, action, before, after),
        ModeEvent::ActuatorMissing => {
            &&& action == ModeAction::Failed(DeviceSetModeError::ActuatorFailed)
            &&& run_after == run
            &&& after == before
        },
        ModeEvent::ActuatorFailed => {
            &&& action == ModeAction::Failed(DeviceSetModeError::ActuatorFailed)
            &&& run_after == run
            &&& after == before
        },
        ModeEvent::ActuatorDone => match target.sequence@[run.step as int].config_spec(
        ).stabilisation {
            Some(duration) => {
                &&& action == ModeAction::Sleep(duration)
                &&& run_after == run
                &&& after == before
            },
            None => run_after.step == run.step + 1 && advanced(
                target,
                run.step + 1,
                action,
                before,
                after,
            ),
        },
        ModeEvent::Slept => run_after.step == run.step + 1 && advanced(
            target,
            run.step + 1,
            action,
            before,
            after,
        ),
    }
}

/// Whether the change is about one of the steps of the mode.
pub open spec fn concerns_mode<I: RegistryIndex, P>(
    mode: DeviceMode<I, P>,
    change: ItemChange<I>,
) -> bool {
    exists|i: int| 0 <= i < mode.sequence@.len() && concerns(
        #[trigger] mode.sequence@[i],
        change,
    )
}

proof fn lemma_concerned<I: RegistryIndex, C: DeviceConfigItem>(
    items: Seq<DeviceItem<I, C>>,
    change: ItemChange<I>,
)
    ensures
        concerned(items, change, items.len() as int).len() > 0 <==> exists|i: int|
            0 <= i < items.len() && concerns(#[trigger] items[i], change),
{
    lemma_concerned_part(items, change, items.len() as int);
}

proof fn lemma_concerned_part<I: RegistryIndex, C: DeviceConfigItem>(
    items: Seq<DeviceItem<I, C>>,
    change: ItemChange<I>,
    n: int,
)
    requires
        0 <= n <= items.len(),
    ensures
        concerned(items, change, n).len() > 0 <==> exists|i: int|
            0 <= i < n && concerns(#[trigger] items[i], change),
    decreases n,
{
    if n > 0 {
        lemma_concerned_part(items, change, n - 1);
        if concerns(items[n - 1], change) {
            assert(concerned(items, change, n).len() > 0);
        }
    }
}

/// The parts of a device as they are configured, with no item known.
pub open spec fn configured<I: RegistryIndex, C: DeviceConfigItem>(
    items: Seq<DeviceItem<I, C>>,
    configs: Seq<C>,
) -> bool {
    &&& items.len() == configs.len()
    &&& forall|i: int|
        0 <= i < items.len() ==> (#[trigger] items[i]).config_spec() == configs[i]
            && items[i].id_spec() is None
}

fn unknown<I: RegistryIndex, C: DeviceConfigItem>(configs: Vec<C>) -> (r: Vec<DeviceItem<I, C>>)
    ensures
        configured(r@, configs@),
{
    let mut r: Vec<DeviceItem<I, C>> = Vec::new();
    for config in it: configs
        invariant
            it.seq() == configs@,
            r@.len() == it.index(),
            forall|i: int|
                0 <= i < r@.len() ==> (#[trigger] r@[i]).config_spec() == configs@[i]
                    && r@[i].id_spec() is None,
    {
        r.push(DeviceItem::new(config));
    }
    r
}

/// A part of a device stands for the last item that came and was meant, until that goes.
pub proof fn law_item_follows_changes<I: RegistryIndex, C: DeviceConfigItem>(
    item: DeviceItem<I, C>,
    id: I,
    properties: &Properties,
    other: I,
)
    requires
        item.config_spec().is_meant(properties@),
        other != id,
    ensures
        id_after(item, ItemChange::Added(id, properties)) == Some(id),
        after_removed(Some(id), id) is None,
        after_removed(Some(id), other) == Some(id),
{
}

/// A mode is no longer available once an actuator of one of its steps is gone.
pub proof fn law_mode_needs_actuators<I: RegistryIndex, P>(
    before: DeviceMode<I, P>,
    after: DeviceMode<I, P>,
    id: I,
    step: int,
)
    requires
        0 <= step < before.sequence@.len(),
        before.sequence@[step].id_spec() == Some(id),
        items_after(before.sequence@, after.sequence@, ItemChange::Removed(id)),
    ensures
        !after.available(),
{
    assert(after.sequence@[step].id_spec() is None);
}

/// On the way to a mode the device is in no known mode, and it is in the new one exactly when
/// the change is finished.
pub proof fn law_mode_known_only_when_finished<I: RegistryIndex, P>(
    target: DeviceMode<I, P>,
    run: ModeRun,
    event: ModeEvent,
    action: ModeAction,
    run_after: ModeRun,
    after: Option<String>,
)
    requires
        mode_next(target, run, event, action, run_after, None, after),
    ensures
        action is Finished <==> after is Some,
        after is Some ==> after->0@ == target.name@,
{
}

/// A change among the items changes the id of a part of a device only where it is about the part:
/// an item that came and is meant is taken, an item that went is forgotten, and in all other cases
/// the id is as it was.
pub proof fn law_other_parts_are_left_alone<I: RegistryIndex, C: DeviceConfigItem>(
    before: Seq<DeviceItem<I, C>>,
    after: Seq<DeviceItem<I, C>>,
    change: ItemChange<I>,
    i: int,
)
    requires
        items_after(before, after, change),
        0 <= i < before.len(),
    ensures
        after.len() == before.len(),
        after[i].config_spec() == before[i].config_spec(),
        change matches ItemChange::Added(id, properties) ==> {
            &&& before[i].config_spec().is_meant(properties@) ==> after[i].id_spec() == Some(id)
            &&& !before[i].config_spec().is_meant(properties@) ==> after[i].id_spec()
                == before[i].id_spec()
        },
        change matches ItemChange::Removed(id) ==> {
            &&& after[i].id_spec() != Some(id)
            &&& before[i].id_spec() != Some(id) ==> after[i].id_spec() == before[i].id_spec()
            &&& after[i].id_spec() is Some ==> after[i].id_spec() == before[i].id_spec()
        },
{
}

/// The places that are told of a change are those of the parts that it is about, each once and in
/// their order. A part whose id changes is always among them.
pub proof fn law_changed_parts_are_told<I: RegistryIndex, C: DeviceConfigItem>(
    before: Seq<DeviceItem<I, C>>,
    after: Seq<DeviceItem<I, C>>,
    change: ItemChange<I>,
    i: int,
)
    requires
        items_after(before, after, change),
        0 <= i < before.len() <= usize::MAX,
    ensures
        ({
            let told = concerned(before, change, before.len() as int);
            &&& forall|a: int, b: int|
                #![trigger told[a], told[b]]
                0 <= a < b < told.len() ==> told[a] < told[b]
            &&& forall|a: int| 0 <= a < told.len() ==> (#[trigger] told[a]) < before.len()
            &&& after[i].id_spec() != before[i].id_spec() ==> told.contains(i as usize)
            &&& told.contains(i as usize) <==> match change {
                ItemChange::Added(id, properties) => before[i].config_spec().is_meant(properties@),
                ItemChange::Removed(id) => before[i].id_spec() == Some(id),
            }
        }),
{
    lemma_places(before, change, before.len() as int);
    let told = concerned(before, change, before.len() as int);
    assert(concerns(before[i], change) <==> told.contains(i as usize));
    assert(after[i].id_spec() == id_after(before[i], change));
}

proof fn lemma_places<I: RegistryIndex, C: DeviceConfigItem>(
    items: Seq<DeviceItem<I, C>>,
    change: ItemChange<I>,
    n: int,
)
    requires
        0 <= n <= items.len() <= usize::MAX,
    ensures
        forall|a: int, b: int|
            #![trigger concerned(items, change, n)[a], concerned(items, change, n)[b]]
            0 <= a < b < concerned(items, change, n).len() ==> concerned(items, change, n)[a]
                < concerned(items, change, n)[b],
        forall|a: int|
            0 <= a < concerned(items, change, n).len() ==> (#[trigger] concerned(
                items,
                change,
                n,
            )[a]) < n,
        forall|i: int|
            0 <= i < n ==> (#[trigger] concerns(items[i], change) <==> concerned(
                items,
                change,
                n,
            ).contains(i as usize)),
    decreases n,
{
    if n > 0 {
        lemma_places(items, change, n - 1);
        let rest = concerned(items, change, n - 1);
        let all = concerned(items, change, n);
        assert forall|i: int| 0 <= i < n implies (#[trigger] concerns(items[i], change)
            <==> all.contains(i as usize)) by {
            if concerns(items[n - 1], change) {
                assert(all[rest.len() as int] == (n - 1) as usize);
                if rest.contains(i as usize) {
                    let a = choose|a: int| 0 <= a < rest.len() && rest[a] == i as usize;
                    assert(all[a] == i as usize);
                }
            }
            if all.contains(i as usize) && i < n - 1 {
                let a = choose|a: int| 0 <= a < all.len() && all[a] == i as usize;
                assert(a < rest.len());
                assert(rest[a] == i as usize);
            }
            if i == n - 1 && !concerns(items[i], change) && all.contains(i as usize) {
                let a = choose|a: int| 0 <= a < all.len() && all[a] == i as usize;
                assert(rest[a] < n - 1);
            }
        }
    }
}

/// A part of a device means the items whose properties match what is configured for it: each
/// property that is asked for has to be there.
pub proof fn law_parts_mean_by_properties<P>(
    console: Console<P>,
    volume: Volume,
    step: ModeStep<P>,
    properties: Map<Seq<char>, Seq<char>>,
    i: int,
)
    ensures
        0 <= i < console.match_@.len() && !(properties.contains_key(console.match_@[i].0@)
            && properties[console.match_@[i].0@] == console.match_@[i].1@)
            ==> !console.is_meant(properties),
        0 <= i < volume.match_@.len() && !(properties.contains_key(volume.match_@[i].0@)
            && properties[volume.match_@[i].0@] == volume.match_@[i].1@) ==> !volume.is_meant(
            properties,
        ),
        0 <= i < step.match_@.len() && !(properties.contains_key(step.match_@[i].0@)
            && properties[step.match_@[i].0@] == step.match_@[i].1@) ==> !step.is_meant(properties),
        console.is_meant(properties) == properties_match(properties, console.match_@),
        volume.is_meant(properties) == properties_match(properties, volume.match_@),
        step.is_meant(properties) == properties_match(properties, step.match_@),
{
}

/// What comes of an action on the way to a mode where every actuator does what it is told.
pub open spec fn answer_to(action: ModeAction) -> ModeEvent {
    if action is Sleep {
        ModeEvent::Slept
    } else {
        ModeEvent::ActuatorDone
    }
}

/// Whether the change of mode is not over before an action.
pub open spec fn goes_on(actions: Seq<ModeAction>, i: int) -> bool {
    !(actions[i - 1] is Finished || actions[i - 1] is Failed)
}

/// Whether these are the actions of a change of mode in which every actuator does what it is
/// told, from its begin to its end: each action comes of the one before by a step.
pub open spec fn is_mode_run<I: RegistryIndex, P>(
    target: DeviceMode<I, P>,
    runs: Seq<ModeRun>,
    actions: Seq<ModeAction>,
    modes: Seq<Option<String>>,
) -> bool {
    &&& actions.len() > 0
    &&& runs.len() == actions.len()
    &&& modes.len() == actions.len() + 1
    &&& modes[0] is None
    &&& exists|start: ModeRun|
        start.step == 0 && #[trigger] mode_next(
            target,
            start,
            ModeEvent::Begin,
            actions[0],
            runs[0],
            modes[0],
            modes[1],
        )
    &&& forall|i: int|
        0 < i < actions.len() ==> {
            &&& #[trigger] goes_on(actions, i)
            &&& mode_next(
                target,
                runs[i - 1],
                answer_to(actions[i - 1]),
                actions[i],
                runs[i],
                modes[i],
                modes[i + 1],
            )
        }
}

/// The steps whose actuators are used, in the order in which they are.
pub open spec fn used(actions: Seq<ModeAction>) -> Seq<usize>
    decreases actions.len(),
{
    if actions.len() == 0 {
        Seq::empty()
    } else {
        let before = used(actions.drop_last());
        match actions.last() {
            ModeAction::UseActuator(step) => before.push(step),
            _ => before,
        }
    }
}

/// A change of mode that finishes has used the actuators of all steps of the mode, each once and
/// in the order of the sequence. It comes to rest in the mode, and never fails while every
/// actuator does what it is told.
pub proof fn law_finished_means_all_steps<I: RegistryIndex, P>(
    target: DeviceMode<I, P>,
    runs: Seq<ModeRun>,
    actions: Seq<ModeAction>,
    modes: Seq<Option<String>>,
)
    requires
        is_mode_run(target, runs, actions, modes),
    ensures
        forall|i: int| 0 <= i < used(actions).len() ==> (#[trigger] used(actions)[i]) == i,
        used(actions).len() <= target.sequence@.len(),
        !(actions.last() is Failed),
        actions.last() is Finished ==> {
            &&& used(actions).len() == target.sequence@.len()
            &&& modes.last() is Some
            &&& modes.last()->0@ == target.name@
        },
        !(actions.last() is Finished) ==> modes.last() is None && used(actions).len() > 0,
        actions.last() is Sleep ==> target.sequence@[used(actions).len()
            - 1].config_spec().stabilisation == Some(actions.last()->Sleep_0),
        actions.last() is UseActuator ==> actions.last()->UseActuator_0 == used(actions).len() - 1,
{
    lemma_mode_run(target, runs, actions, modes);
}

proof fn lemma_mode_run<I: RegistryIndex, P>(
    target: DeviceMode<I, P>,
    runs: Seq<ModeRun>,
    actions: Seq<ModeAction>,
    modes: Seq<Option<String>>,
)
    requires
        is_mode_run(target, runs, actions, modes),
    ensures
        forall|i: int| 0 <= i < used(actions).len() ==> (#[trigger] used(actions)[i]) == i,
        used(actions).len() <= target.sequence@.len(),
        !(actions.last() is Failed),
        actions.last() is Finished ==> {
            &&& used(actions).len() == target.sequence@.len()
            &&& modes.last() is Some
            &&& modes.last()->0@ == target.name@
        },
        !(actions.last() is Finished) ==> {
            &&& modes.last() is None
            &&& used(actions).len() == runs.last().step + 1
            &&& runs.last().step < target.sequence@.len()
        },
        actions.last() is Sleep ==> target.sequence@[used(actions).len()
            - 1].config_spec().stabilisation == Some(actions.last()->Sleep_0),
        actions.last() is UseActuator ==> actions.last()->UseActuator_0 == used(actions).len() - 1,
    decreases actions.len(),
{
    let n = actions.len() as int;
    let rest = actions.drop_last();
    assert(used(actions) == match actions.last() {
        ModeAction::UseActuator(step) => used(rest).push(step),
        _ => used(rest),
    });
    if n == 1 {
        assert(used(rest) =~= Seq::<usize>::empty());
    } else {
        let before = modes.drop_last();
        assert(rest[0] == actions[0]);
        assert(before[0] == modes[0] && before[1] == modes[1]);
        assert(runs.drop_last()[0] == runs[0]);
        assert forall|i: int| 0 < i < rest.len() implies {
            &&& #[trigger] goes_on(rest, i)
            &&& mode_next(
                target,
                runs.drop_last()[i - 1],
                answer_to(rest[i - 1]),
                rest[i],
                runs.drop_last()[i],
                before[i],
                before[i + 1],
            )
        } by {
            assert(goes_on(actions, i));
            assert(mode_next(
                target,
                runs[i - 1],
                answer_to(actions[i - 1]),
                actions[i],
                runs[i],
                modes[i],
                modes[i + 1],
            ));
        }
        lemma_mode_run(target, runs.drop_last(), rest, before);
        assert(goes_on(actions, n - 1));
        assert(mode_next(
            target,
            runs[n - 2],
            answer_to(actions[n - 2]),
            actions[n - 1],
            runs[n - 1],
            modes[n - 1],
            modes[n],
        ));
        assert(rest.last() == actions[n - 2]);
        assert(before.last() == modes[n - 1]);
        assert(runs.drop_last().last() == runs[n - 2]);
    }
}

/// An actuator that is missing or fails ends a change of mode, whatever step it is at: the mode of
/// the device stays unknown. An actuator that needs time to settle is given that before the next.
pub proof fn law_failed_steps_end_it<I: RegistryIndex, P>(
    target: DeviceMode<I, P>,
    run: ModeRun,
    event: ModeEvent,
    action: ModeAction,
    run_after: ModeRun,
    before: Option<String>,
    after: Option<String>,
)
    requires
        mode_next(target, run, event, action, run_after, before, after),
    ensures
        event == ModeEvent::ActuatorMissing || event == ModeEvent::ActuatorFailed <==> action
            is Failed,
        action matches ModeAction::Failed(e) ==> e == DeviceSetModeError::ActuatorFailed && after
            == before,
        event == ModeEvent::ActuatorDone
            && target.sequence@[run.step as int].config_spec().stabilisation is Some ==> action
            == ModeAction::Sleep(
            target.sequence@[run.step as int].config_spec().stabilisation->0,
        ),
        action is Sleep ==> event == ModeEvent::ActuatorDone,
        action is Finished ==> event == ModeEvent::Begin && target.sequence@.len() == 0 || event
            != ModeEvent::Begin && run.step + 1 >= target.sequence@.len(),
        action matches ModeAction::UseActuator(step) ==> step == if event == ModeEvent::Begin {
            0int
        } else {
            run.step + 1
        },
{
}

/// A mode that depends on another can be left for from that one alone, and a mode that depends on
/// none from everywhere.
pub proof fn law_modes_depend<I, P>(target: DeviceMode<I, P>, current: Option<String>)
    ensures
        target.depends is None ==> allowed_from(target, current),
        target.depends is Some && current is None ==> !allowed_from(target, current),
        target.depends is Some && current is Some ==> (allowed_from(target, current)
            <==> target.depends->0@ == current->0@),
{
}

/// A mode is available exactly if no actuator of its steps is missing.
pub proof fn law_available_modes<I: RegistryIndex, P>(mode: DeviceMode<I, P>, step: int)
    requires
        0 <= step < mode.sequence@.len(),
    ensures
        mode.sequence@[step].id_spec() is None ==> !mode.available(),
        !mode.available() ==> exists|i: int|
            0 <= i < mode.sequence@.len() && (#[trigger] mode.sequence@[i]).id_spec() is None,
{
}

} // verus!
