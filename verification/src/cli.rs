//! The command line: how items are named, which of them is meant, and how things are shown.

use vstd::prelude::*;

use crate::client::{part_by_name, Device, DevicePartHandle, PartKind};
use crate::registry::Properties;
use crate::remote::{DeviceInfo, DeviceModeInfo, DevicePart};
use crate::server::ListedItem;
use crate::text::{
    append_decimal, chars_of, decimal, is_before, law_precedes, law_precedes_is_transitive,
    parse_number, parsed_number, precedes, str_eq, string_of, texts,
};
use crate::volume_io::VolumeTarget;

verus! {

/// The kinds of items that can be asked for.
#[derive(Copy, Clone, Debug, PartialEq, Eq, Structural)]
pub enum ItemTypes {
    /// Actuators.
    Actuator,
    /// Consoles.
    Console,
    /// Devices.
    Device,
    /// Volumes.
    Volume,
}

impl ItemTypes {
    /// What one such item is called.
    pub open spec fn word(self) -> Seq<char> {
        match self {
            ItemTypes::Actuator => "actuator"@,
            ItemTypes::Console => "console"@,
            ItemTypes::Device => "device"@,
            ItemTypes::Volume => "volume"@,
        }
    }

    /// What one such item is called at the start of a sentence.
    pub open spec fn capital_word(self) -> Seq<char> {
        match self {
            ItemTypes::Actuator => "Actuator"@,
            ItemTypes::Console => "Console"@,
            ItemTypes::Device => "Device"@,
            ItemTypes::Volume => "Volume"@,
        }
    }

    /// What one such item is called.
    pub fn name(&self) -> (r: &'static str)
        ensures
            r@ == self.word(),
    {
        match self {
            ItemTypes::Actuator => "actuator",
            ItemTypes::Console => "console",
            ItemTypes::Device => "device",
            ItemTypes::Volume => "volume",
        }
    }

    /// What one such item is called at the start of a sentence.
    pub fn capital_name(&self) -> (r: &'static str)
        ensures
            r@ == self.capital_word(),
    {
        match self {
            ItemTypes::Actuator => "Actuator",
            ItemTypes::Console => "Console",
            ItemTypes::Device => "Device",
            ItemTypes::Volume => "Volume",
        }
    }
}

/// The kind that a word of the command line stands for.
pub open spec fn item_types(item: Seq<char>) -> Option<ItemTypes> {
    if item == "actuators"@ {
        Some(ItemTypes::Actuator)
    } else if item == "consoles"@ {
        Some(ItemTypes::Console)
    } else if item == "devices"@ {
        Some(ItemTypes::Device)
    } else if item == "volumes"@ {
        Some(ItemTypes::Volume)
    } else {
        None
    }
}

/// The kind that a word of the command line stands for.
pub fn parse_item(item: &str) -> (r: Result<ItemTypes, &'static str>)
    ensures
        match item_types(item@) {
            Some(types) => r == Ok::<ItemTypes, &'static str>(types),
            None => r is Err && r->Err_0@
                == "Unknown item type; known types: [\"actuators\", \"consoles\", \"devices\", \"volumes\"]"@,
        },
{
    if str_eq(item, "actuators") {
        Ok(ItemTypes::Actuator)
    } else if str_eq(item, "consoles") {
        Ok(ItemTypes::Console)
    } else if str_eq(item, "devices") {
        Ok(ItemTypes::Device)
    } else if str_eq(item, "volumes") {
        Ok(ItemTypes::Volume)
    } else {
        Err(
            "Unknown item type; known types: [\"actuators\", \"consoles\", \"devices\", \"volumes\"]",
        )
    }
}

/// How an item is named on the command line.
#[derive(Debug)]
pub enum ItemArg {
    /// By its id.
    Id(u64),
    /// By its name.
    Name(String),
}

/// Whether this is what a word of the command line names: a number is an id.
pub open spec fn is_item_arg(arg: ItemArg, word: Seq<char>) -> bool {
    match parsed_number(word, 10, u64::MAX as nat) {
        Some(id) => arg == ItemArg::Id(id as u64),
        None => arg is Name && arg->Name_0@ == word,
    }
}

fn parse_arg(word: &str) -> (r: ItemArg)
    ensures
        is_item_arg(r, word@),
{
    match parse_number(word, 10, u64::MAX) {
        Some(id) => ItemArg::Id(id),
        None => ItemArg::Name(word.to_owned()),
    }
}

/// The actuator that a word of the command line names.
pub fn parse_actuator(device: &str) -> (r: ItemArg)
    ensures
        is_item_arg(r, device@),
{
    parse_arg(device)
}

/// The console that a word of the command line names.
pub fn parse_console(device: &str) -> (r: ItemArg)
    ensures
        is_item_arg(r, device@),
{
    parse_arg(device)
}

/// The volume that a word of the command line names.
pub fn parse_volume(device: &str) -> (r: ItemArg)
    ensures
        is_item_arg(r, device@),
{
    parse_arg(device)
}

/// The device that a word of the command line names.
pub fn parse_device(device: &str) -> (r: ItemArg)
    ensures
        is_item_arg(r, device@),
{
    parse_arg(device)
}

/// The place of the last at sign.
pub open spec fn last_at(name: Seq<char>) -> Option<int>
    decreases name.len(),
{
    if name.len() == 0 {
        None
    } else if name.last() == '@' {
        Some(name.len() - 1)
    } else {
        last_at(name.drop_last())
    }
}

/// The name of an item and its instance, which stands behind the last at sign.
pub open spec fn name_and_instance(name: Seq<char>) -> (Seq<char>, Option<Seq<char>>) {
    match last_at(name) {
        Some(at) => (name.take(at), Some(name.skip(at + 1))),
        None => (name, None),
    }
}

fn split_name(name: &str) -> (r: (String, Option<String>))
    ensures
        r.0@ == name_and_instance(name@).0,
        match name_and_instance(name@).1 {
            Some(instance) => r.1 is Some && r.1->0@ == instance,
            None => r.1 is None,
        },
{
    let chars = chars_of(name);
    let n: usize = chars.len();
    let mut i: usize = n;
    assert(name@.take(n as int) =~= name@);
    while i > 0
        invariant
            chars@ == name@,
            i <= n == name@.len(),
            last_at(name@) == last_at(name@.take(i as int)),
        decreases i,
    {
        proof {
            assert(name@.take(i as int).last() == name@[i - 1]);
            assert(name@.take(i as int).drop_last() =~= name@.take(i - 1));
        }
        if chars[i - 1] == '@' {
            proof {
                assert(name@.subrange(0, i - 1) =~= name@.take(i - 1));
                assert(name@.subrange(i as int, n as int) =~= name@.skip(i as int));
            }
            return (string_of(&chars, 0, i - 1), Some(string_of(&chars, i, n)));
        }
        i -= 1;
    }
    (name.to_owned(), None)
}

/// A name without an at sign is that of an item of the server itself. One with an instance behind
/// it stands for the item of that name there.
pub proof fn law_names_have_instances(name: Seq<char>, instance: Seq<char>)
    requires
        !instance.contains('@'),
    ensures
        !name.contains('@') ==> name_and_instance(name) == (name, None::<Seq<char>>),
        name_and_instance(name.push('@') + instance) == (name, Some(instance)),
{
    let full = name.push('@') + instance;
    lemma_last_at(full, name.len() as int);
    assert(full.take(name.len() as int) =~= name);
    assert(full.skip(name.len() as int + 1) =~= instance);
    if !name.contains('@') {
        lemma_no_at(name);
    }
}

proof fn lemma_no_at(name: Seq<char>)
    requires
        !name.contains('@'),
    ensures
        last_at(name) is None,
    decreases name.len(),
{
    if name.len() > 0 {
        assert(name.contains(name.last()));
        let rest = name.drop_last();
        assert forall|i: int| 0 <= i < rest.len() implies #[trigger] rest[i] != '@' by {
            assert(name.contains(name[i]));
        }
        lemma_no_at(rest);
    }
}

proof fn lemma_last_at(name: Seq<char>, at: int)
    requires
        0 <= at < name.len(),
        name[at] == '@',
        !name.skip(at + 1).contains('@'),
    ensures
        last_at(name) == Some(at),
    decreases name.len(),
{
    if at < name.len() - 1 {
        let rest = name.drop_last();
        let tail = name.skip(at + 1);
        assert(tail.contains(tail.last()));
        let shorter = rest.skip(at + 1);
        assert forall|i: int| 0 <= i < shorter.len() implies #[trigger] shorter[i] != '@' by {
            assert(tail[i] == shorter[i]);
            assert(tail.contains(tail[i]));
        }
        lemma_last_at(rest, at);
    }
}

/// Whether the item has the name and the instance.
pub open spec fn is_named(item: ListedItem, name: Seq<char>, instance: Option<Seq<char>>) -> bool {
    &&& item.name@ == name
    &&& match (item.instance, instance) {
        (Some(a), Some(b)) => a@ == b,
        (None, None) => true,
        _ => false,
    }
}

/// The ids of the items with the name and the instance.
pub open spec fn named_ids(
    items: Seq<ListedItem>,
    name: Seq<char>,
    instance: Option<Seq<char>>,
) -> Seq<u64>
    decreases items.len(),
{
    if items.len() == 0 {
        Seq::empty()
    } else {
        let rest = named_ids(items.drop_last(), name, instance);
        if is_named(items.last(), name, instance) {
            rest.push(items.last().id)
        } else {
            rest
        }
    }
}

/// The id of the one item that a name stands for. Items are told apart by their ids alone, so a
/// name may stand for several.
pub fn item_lookup(name: &str, item_type: ItemTypes, items: &Vec<ListedItem>) -> (r: Result<
    u64,
    String,
>)
    ensures
        ({
            let (short, instance) = name_and_instance(name@);
            let ids = named_ids(items@, short, instance);
            if ids.len() == 0 {
                r is Err && r->Err_0@ == item_type.capital_word() + " not found"@
            } else if ids.len() == 1 {
                r == Ok::<u64, String>(ids[0])
            } else {
                r is Err && r->Err_0@ == "Duplicate "@ + item_type.word() + " name "@ + short
            }
        }),
{
    let (short, instance) = split_name(name);
    let ghost wanted = name_and_instance(name@).1;
    let mut ids: Vec<u64> = Vec::new();
    assert(items@.take(0) =~= Seq::empty());
    for i in 0..items.len()
        invariant
            match wanted {
                Some(text) => instance is Some && instance->0@ == text,
                None => instance is None,
            },
            ids@ == named_ids(items@.take(i as int), short@, wanted),
    {
        let item = &items[i];
        proof {
            assert(items@.take(i + 1).drop_last() =~= items@.take(i as int));
            assert(items@.take(i + 1).last() == *item);
        }
        let same_instance = match (&item.instance, &instance) {
            (Some(a), Some(b)) => str_eq(a.as_str(), b.as_str()),
            (None, None) => true,
            _ => false,
        };
        if str_eq(item.name.as_str(), short.as_str()) && same_instance {
            ids.push(item.id);
        }
    }
    assert(items@.take(items@.len() as int) =~= items@);
    if ids.len() == 0 {
        let mut text = item_type.capital_name().to_owned();
        text.append(" not found");
        Err(text)
    } else if ids.len() == 1 {
        Ok(ids[0])
    } else {
        let mut text = "Duplicate ".to_owned();
        text.append(item_type.name());
        text.append(" name ");
        text.append(short.as_str());
        Err(text)
    }
}

/// The line that shows an item.
pub open spec fn item_line(item: ListedItem) -> Seq<char> {
    let line = decimal(item.id as nat) + " "@ + item.name@;
    match item.instance {
        Some(instance) => line + " on "@ + instance@,
        None => line,
    }
}

/// The line that shows an item.
pub fn print_item(item: &ListedItem) -> (r: String)
    ensures
        r@ == item_line(*item),
{
    let mut r = crate::text::decimal_string(item.id);
    r.append(" ");
    r.append(item.name.as_str());
    if let Some(instance) = &item.instance {
        r.append(" on ");
        r.append(instance.as_str());
    }
    r
}

/// The line that shows a property.
pub open spec fn property_line(key: Seq<char>, value: Seq<char>) -> Seq<char> {
    "\""@ + key + "\" => \""@ + value + "\""@
}

/// Keys in their order.
pub open spec fn in_order(keys: Seq<Seq<char>>) -> bool {
    forall|i: int, j: int|
        #![trigger keys[i], keys[j]]
        0 <= i < j < keys.len() ==> precedes(keys[i], keys[j])
}

/// The keys of pairs at places.
pub open spec fn keys_at(pairs: Seq<(String, String)>, places: Seq<usize>) -> Seq<Seq<char>> {
    places.map_values(|k: usize| pairs[k as int].0@)
}

/// Whether these are the places of the first `n` pairs, in the order of their keys.
spec fn sorts(pairs: Seq<(String, String)>, places: Seq<usize>, n: int) -> bool {
    &&& forall|x: int| 0 <= x < places.len() ==> (#[trigger] places[x]) < n
    &&& forall|k: int| 0 <= k < n ==> #[trigger] places.contains(k as usize)
    &&& in_order(keys_at(pairs, places))
}

/// The lines that show properties, in the order of their keys.
pub fn property_lines(properties: &Properties) -> (r: Vec<String>)
    requires
        properties.wf(),
    ensures
        exists|keys: Seq<Seq<char>>| #[trigger]
            in_order(keys) && keys.to_set() == properties@.dom() && texts(r@)
                == keys.map_values(|k: Seq<char>| property_line(k, properties@[k])),
{
    let pairs = properties.iter();
    let mut sorted: Vec<usize> = Vec::new();
    let n: usize = pairs.len();
    for i in 0..n
        invariant
            n == pairs@.len(),
            crate::registry::distinct_keys(pairs@),
            sorts(pairs@, sorted@, i as int),
    {
        let ghost before = sorted@;
        let mut at: usize = sorted.len();
        while at > 0 && is_before(pairs[i].0.as_str(), pairs[sorted[at - 1]].0.as_str())
            invariant
                i < n == pairs@.len(),
                sorted@ == before,
                forall|x: int| 0 <= x < before.len() ==> (#[trigger] before[x]) < i,
                at <= before.len(),
                at < before.len() ==> precedes(
                    pairs@[i as int].0@,
                    pairs@[before[at as int] as int].0@,
                ),
            decreases at,
        {
            at -= 1;
        }
        sorted.insert(at, i);
        proof {
            lemma_inserted(pairs@, before, at as int, i);
        }
    }
    let mut r: Vec<String> = Vec::new();
    for i in 0..sorted.len()
        invariant
            n == pairs@.len(),
            forall|x: int| 0 <= x < sorted@.len() ==> (#[trigger] sorted@[x]) < n,
            r@.len() == i,
            forall|j: int|
                0 <= j < i ==> (#[trigger] r@[j])@ == property_line(
                    pairs@[sorted@[j] as int].0@,
                    pairs@[sorted@[j] as int].1@,
                ),
    {
        let pair = &pairs[sorted[i]];
        let mut line = "\"".to_owned();
        line.append(pair.0.as_str());
        line.append("\" => \"");
        line.append(pair.1.as_str());
        line.append("\"");
        r.push(line);
    }
    proof {
        lemma_lines(*properties, pairs@, sorted@, r@);
    }
    r
}

proof fn lemma_inserted(pairs: Seq<(String, String)>, before: Seq<usize>, at: int, i: usize)
    requires
        crate::registry::distinct_keys(pairs),
        i < pairs.len(),
        sorts(pairs, before, i as int),
        0 <= at <= before.len(),
        at < before.len() ==> precedes(pairs[i as int].0@, pairs[before[at] as int].0@),
        at > 0 ==> !precedes(pairs[i as int].0@, pairs[before[at - 1] as int].0@),
    ensures
        sorts(pairs, before.insert(at, i), i + 1),
{
    let after = before.insert(at, i);
    let key = pairs[i as int].0@;
    let old_keys = keys_at(pairs, before);
    let keys = keys_at(pairs, after);
    assert forall|x: int| 0 <= x < after.len() implies (#[trigger] after[x]) < i + 1 by {
        if x < at {
            assert(after[x] == before[x]);
        } else if x > at {
            assert(after[x] == before[x - 1]);
        }
    }
    assert forall|k: int| 0 <= k < i + 1 implies #[trigger] after.contains(k as usize) by {
        if k == i {
            assert(after[at] == k as usize);
        } else {
            assert(before.contains(k as usize));
            let x = choose|x: int| 0 <= x < before.len() && before[x] == k as usize;
            if x < at {
                assert(after[x] == k as usize);
            } else {
                assert(after[x + 1] == k as usize);
            }
        }
    }
    assert forall|x: int| 0 <= x < before.len() implies #[trigger] old_keys[x] != key by {
        assert(before[x] < i);
        assert(pairs[before[x] as int].0@ != pairs[i as int].0@);
    }
    if at > 0 {
        law_precedes(key, old_keys[at - 1]);
    }
    assert forall|a: int, b: int| #![trigger keys[a], keys[b]]
        0 <= a < b < keys.len() implies precedes(keys[a], keys[b]) by {
        if a < at && b < at {
            assert(keys[a] == old_keys[a] && keys[b] == old_keys[b]);
        } else if a > at {
            assert(keys[a] == old_keys[a - 1] && keys[b] == old_keys[b - 1]);
        } else if a < at && b > at {
            assert(keys[a] == old_keys[a] && keys[b] == old_keys[b - 1]);
        } else if a == at {
            assert(keys[b] == old_keys[b - 1]);
            if b - 1 > at {
                assert(precedes(old_keys[at], old_keys[b - 1]));
                law_precedes_is_transitive(key, old_keys[at], old_keys[b - 1]);
            }
        } else {
            assert(keys[a] == old_keys[a]);
            assert(precedes(old_keys[at - 1], key));
            if a < at - 1 {
                assert(precedes(old_keys[a], old_keys[at - 1]));
                law_precedes_is_transitive(old_keys[a], old_keys[at - 1], key);
            }
        }
    }
}

proof fn lemma_lines(
    properties: Properties,
    pairs: Seq<(String, String)>,
    sorted: Seq<usize>,
    lines: Seq<String>,
)
    requires
        properties@ == crate::registry::pairs_map(pairs),
        crate::registry::distinct_keys(pairs),
        pairs.len() <= usize::MAX,
        sorts(pairs, sorted, pairs.len() as int),
        lines.len() == sorted.len(),
        forall|j: int|
            0 <= j < lines.len() ==> (#[trigger] lines[j])@ == property_line(
                pairs[sorted[j] as int].0@,
                pairs[sorted[j] as int].1@,
            ),
    ensures
        exists|keys: Seq<Seq<char>>| #[trigger]
            in_order(keys) && keys.to_set() == properties@.dom() && texts(lines)
                == keys.map_values(|k: Seq<char>| property_line(k, properties@[k])),
{
    let keys = keys_at(pairs, sorted);
    let shown = keys.map_values(|k: Seq<char>| property_line(k, properties@[k]));
    assert forall|x: int| 0 <= x < sorted.len() implies properties@.contains_key(
        #[trigger] keys[x],
    ) && properties@[keys[x]] == pairs[sorted[x] as int].1@ by {
        crate::registry::lemma_pairs_map_at(pairs, sorted[x] as int);
    }
    assert(keys.to_set() =~= properties@.dom()) by {
        assert forall|k: Seq<char>| properties@.contains_key(k) implies keys.to_set().contains(
            k,
        ) by {
            crate::registry::lemma_pairs_map(pairs, k);
            let y = choose|y: int| 0 <= y < pairs.len() && (#[trigger] pairs[y]).0@ == k;
            assert(sorted.contains(y as usize));
            let x = choose|x: int| 0 <= x < sorted.len() && sorted[x] == y as usize;
            assert(keys[x] == k);
        }
        assert forall|k: Seq<char>| keys.to_set().contains(k) implies properties@.contains_key(
            k,
        ) by {
            let x = choose|x: int| 0 <= x < keys.len() && keys[x] == k;
            assert(properties@.contains_key(keys[x]));
        }
    }
    assert forall|j: int| 0 <= j < lines.len() implies texts(lines)[j] == shown[j] by {
        assert(properties@[keys[j]] == pairs[sorted[j] as int].1@);
        assert(lines[j]@ == property_line(
            pairs[sorted[j] as int].0@,
            pairs[sorted[j] as int].1@,
        ));
    }
    assert(texts(lines) =~= shown);
    assert(in_order(keys));
}

/// What a server tells of a volume.
#[derive(Debug)]
pub struct VolumeInfo {
    /// The targets.
    pub targets: Vec<VolumeTarget>,
    /// Whether there are no others.
    pub exhaustive: bool,
}

/// The line that shows a mode of a device.
pub open spec fn mode_line(mode: DeviceModeInfo) -> Seq<char> {
    let name = "- "@ + mode.name@;
    let line = match mode.depends {
        Some(depends) => name + " (depends on "@ + depends@ + ")"@,
        None => name,
    };
    if mode.available {
        line
    } else {
        line + " (Not available)"@
    }
}

fn show_mode(mode: &DeviceModeInfo) -> (r: String)
    ensures
        r@ == mode_line(*mode),
{
    let mut r = "- ".to_owned();
    r.append(mode.name.as_str());
    if let Some(depends) = &mode.depends {
        r.append(" (depends on ");
        r.append(depends.as_str());
        r.append(")");
    }
    if !mode.available {
        r.append(" (Not available)");
    }
    r
}

/// The line that shows a console of a device.
pub open spec fn console_line(console: DevicePart) -> Seq<char> {
    match console.id {
        Some(id) => "- "@ + console.name@ + " - id: "@ + decimal(id as nat),
        None => "- "@ + console.name@ + " - not available"@,
    }
}

fn show_console(console: &DevicePart) -> (r: String)
    ensures
        r@ == console_line(*console),
{
    let mut r = "- ".to_owned();
    r.append(console.name.as_str());
    match console.id {
        Some(id) => {
            r.append(" - id: ");
            append_decimal(&mut r, id);
        },
        None => {
            r.append(" - not available");
        },
    }
    r
}

/// What a target can do, in words.
pub open spec fn caps_text(target: VolumeTarget) -> Seq<char> {
    let none = Seq::<char>::empty();
    let readable = if target.readable {
        "readable"@
    } else {
        none
    };
    let writable = if !target.writable {
        readable
    } else if target.readable {
        readable + ", "@ + "writable"@
    } else {
        "writable"@
    };
    if !target.seekable {
        writable
    } else if target.readable || target.writable {
        writable + ", "@ + "seekable"@
    } else {
        "seekable"@
    }
}

fn show_caps(target: &VolumeTarget) -> (r: String)
    ensures
        r@ == caps_text(*target),
{
    proof {
        reveal_strlit("");
    }
    let mut r = "".to_owned();
    assert(r@ =~= Seq::<char>::empty());
    if target.readable {
        r = "readable".to_owned();
    }
    if target.writable {
        if target.readable {
            r.append(", ");
            r.append("writable");
        } else {
            r = "writable".to_owned();
        }
    }
    if target.seekable {
        if target.readable || target.writable {
            r.append(", ");
            r.append("seekable");
        } else {
            r = "seekable".to_owned();
        }
    }
    r
}

/// The line that shows a target of a volume.
pub open spec fn target_line(target: VolumeTarget) -> Seq<char> {
    let line = "  + "@ + target.name@ + " ("@ + caps_text(target) + ")"@;
    let sized = match target.size {
        Some(size) => line + " size: "@ + decimal(size as nat),
        None => line,
    };
    match target.blocksize {
        Some(blocksize) => sized + " blocksize: "@ + decimal(blocksize as nat),
        None => sized,
    }
}

fn show_target(target: &VolumeTarget) -> (r: String)
    ensures
        r@ == target_line(*target),
{
    let mut r = "  + ".to_owned();
    r.append(target.name.as_str());
    r.append(" (");
    r.append(show_caps(target).as_str());
    r.append(")");
    if let Some(size) = target.size {
        r.append(" size: ");
        append_decimal(&mut r, size);
    }
    if let Some(blocksize) = target.blocksize {
        r.append(" blocksize: ");
        append_decimal(&mut r, blocksize as u64);
    }
    r
}

/// The lines that show a volume of a device, with what the server tells of it while it is there.
pub open spec fn volume_lines(volume: DevicePart, info: Option<VolumeInfo>) -> Seq<Seq<char>> {
    match (volume.id, info) {
        (Some(id), Some(info)) => {
            let head = "- "@ + volume.name@ + " - id: "@ + decimal(id as nat) + ", targets"@ + (
            if info.exhaustive {
                ""@
            } else {
                " (non-exhaustive)"@
            }) + ":"@;
            seq![head] + info.targets@.map_values(|t: VolumeTarget| target_line(t))
        },
        _ => seq![" * "@ + volume.name@ + " - not available"@],
    }
}

/// The lines that show volumes of a device.
pub open spec fn all_volume_lines(
    volumes: Seq<DevicePart>,
    infos: Seq<Option<VolumeInfo>>,
) -> Seq<Seq<char>>
    decreases volumes.len(),
{
    if volumes.len() == 0 {
        Seq::empty()
    } else {
        all_volume_lines(volumes.drop_last(), infos.drop_last()) + volume_lines(
            volumes.last(),
            infos.last(),
        )
    }
}

fn show_volume(volume: &DevicePart, info: &Option<VolumeInfo>, lines: &mut Vec<String>)
    ensures
        texts(final(lines)@) == texts(old(lines)@) + volume_lines(*volume, *info),
{
    let ghost before = lines@;
    match (volume.id, info) {
        (Some(id), Some(info)) => {
            let mut head = "- ".to_owned();
            head.append(volume.name.as_str());
            head.append(" - id: ");
            append_decimal(&mut head, id);
            head.append(", targets");
            if info.exhaustive {
                head.append("");
            } else {
                head.append(" (non-exhaustive)");
            }
            head.append(":");
            let ghost first = head@;
            lines.push(head);
            let ghost shown = info.targets@.map_values(|t: VolumeTarget| target_line(t));
            assert(texts(lines@) =~= texts(before) + (seq![first] + shown.take(0)));
            for i in 0..info.targets.len()
                invariant
                    shown == info.targets@.map_values(|t: VolumeTarget| target_line(t)),
                    texts(lines@) == texts(before) + (seq![first] + shown.take(i as int)),
            {
                let ghost so_far = lines@;
                lines.push(show_target(&info.targets[i]));
                proof {
                    assert(shown.take(i + 1) =~= shown.take(i as int).push(shown[i as int]));
                    assert(texts(lines@) =~= texts(so_far).push(shown[i as int]));
                    assert(texts(lines@) =~= texts(before) + (seq![first] + shown.take(i + 1)));
                }
            }
            assert(shown.take(shown.len() as int) =~= shown);
        },
        _ => {
            let mut line = " * ".to_owned();
            line.append(volume.name.as_str());
            line.append(" - not available");
            lines.push(line);
            assert(texts(lines@) =~= texts(before) + volume_lines(*volume, *info));
        },
    }
}

/// The lines that show a device.
pub open spec fn device_lines(info: DeviceInfo, infos: Seq<Option<VolumeInfo>>) -> Seq<
    Seq<char>,
> {
    let mode = "Current mode: "@ + (match info.current_mode {
        Some(mode) => mode@,
        None => "Unknown"@,
    });
    seq![mode, "Modes:"@] + info.modes@.map_values(|m: DeviceModeInfo| mode_line(m)) + seq![
        "Consoles:"@,
    ] + info.consoles@.map_values(|c: DevicePart| console_line(c)) + seq!["Volumes:"@]
        + all_volume_lines(info.volumes@, infos)
}

/// The lines that show a device, with what the server tells of its volumes that are there.
pub fn print_device(info: &DeviceInfo, infos: &Vec<Option<VolumeInfo>>) -> (r: Vec<String>)
    requires
        infos@.len() == info.volumes@.len(),
        forall|i: int|
            0 <= i < infos@.len() ==> (#[trigger] infos@[i] is Some <==> info.volumes@[i].id
                is Some),
    ensures
        texts(r@) == device_lines(*info, infos@),
{
    let mut r: Vec<String> = Vec::new();
    let mut mode = "Current mode: ".to_owned();
    match &info.current_mode {
        Some(name) => {
            mode.append(name.as_str());
        },
        None => {
            mode.append("Unknown");
        },
    }
    let ghost first = mode@;
    r.push(mode);
    r.push("Modes:".to_owned());
    let ghost modes = info.modes@.map_values(|m: DeviceModeInfo| mode_line(m));
    let ghost head = seq![first, "Modes:"@];
    assert(texts(r@) =~= head + modes.take(0));
    for i in 0..info.modes.len()
        invariant
            modes == info.modes@.map_values(|m: DeviceModeInfo| mode_line(m)),
            texts(r@) == head + modes.take(i as int),
    {
        let ghost so_far = r@;
        r.push(show_mode(&info.modes[i]));
        proof {
            assert(modes.take(i + 1) =~= modes.take(i as int).push(modes[i as int]));
            assert(texts(r@) =~= texts(so_far).push(modes[i as int]));
            assert(texts(r@) =~= head + modes.take(i + 1));
        }
    }
    assert(modes.take(modes.len() as int) =~= modes);
    let ghost so_far = r@;
    r.push("Consoles:".to_owned());
    let ghost head = head + modes + seq!["Consoles:"@];
    let ghost consoles = info.consoles@.map_values(|c: DevicePart| console_line(c));
    assert(texts(r@) =~= head + consoles.take(0));
    for i in 0..info.consoles.len()
        invariant
            consoles == info.consoles@.map_values(|c: DevicePart| console_line(c)),
            texts(r@) == head + consoles.take(i as int),
    {
        let ghost so_far = r@;
        r.push(show_console(&info.consoles[i]));
        proof {
            assert(consoles.take(i + 1) =~= consoles.take(i as int).push(consoles[i as int]));
            assert(texts(r@) =~= texts(so_far).push(consoles[i as int]));
            assert(texts(r@) =~= head + consoles.take(i + 1));
        }
    }
    assert(consoles.take(consoles.len() as int) =~= consoles);
    r.push("Volumes:".to_owned());
    let ghost head = head + consoles + seq!["Volumes:"@];
    assert(texts(r@) =~= head + all_volume_lines(info.volumes@.take(0), infos@.take(0)));
    for i in 0..info.volumes.len()
        invariant
            infos@.len() == info.volumes@.len(),
            texts(r@) == head + all_volume_lines(
                info.volumes@.take(i as int),
                infos@.take(i as int),
            ),
    {
        let ghost so_far = texts(r@);
        show_volume(&info.volumes[i], &infos[i], &mut r);
        proof {
            let volumes = info.volumes@.take(i + 1);
            let told = infos@.take(i + 1);
            assert(volumes.drop_last() =~= info.volumes@.take(i as int));
            assert(told.drop_last() =~= infos@.take(i as int));
            assert(texts(r@) =~= head + all_volume_lines(volumes, told));
        }
    }
    proof {
        assert(info.volumes@.take(info.volumes@.len() as int) =~= info.volumes@);
        assert(infos@.take(infos@.len() as int) =~= infos@);
    }
    r
}

/// Yes or no, in a word.
pub open spec fn bool_text(b: bool) -> Seq<char> {
    if b {
        "true"@
    } else {
        "false"@
    }
}

fn show_bool(b: bool) -> (r: &'static str)
    ensures
        r@ == bool_text(b),
{
    if b {
        "true"
    } else {
        "false"
    }
}

/// The line that tells all of a target.
pub open spec fn target_info_line(target: VolumeTarget) -> Seq<char> {
    "* "@ + target.name@ + ": size: "@ + (match target.size {
        Some(size) => decimal(size as nat),
        None => "unknown"@,
    }) + ", blocksize: "@ + (match target.blocksize {
        Some(blocksize) => decimal(blocksize as nat),
        None => "unknown"@,
    }) + ", readable: "@ + bool_text(target.readable) + ", writable: "@ + bool_text(
        target.writable,
    ) + ", seekable: "@ + bool_text(target.seekable)
}

/// The line that tells all of a target.
pub fn print_target(target: &VolumeTarget) -> (r: String)
    ensures
        r@ == target_info_line(*target),
{
    let mut r = "* ".to_owned();
    r.append(target.name.as_str());
    r.append(": size: ");
    match target.size {
        Some(size) => append_decimal(&mut r, size),
        None => r.append("unknown"),
    }
    r.append(", blocksize: ");
    match target.blocksize {
        Some(blocksize) => append_decimal(&mut r, blocksize as u64),
        None => r.append("unknown"),
    }
    r.append(", readable: ");
    r.append(show_bool(target.readable));
    r.append(", writable: ");
    r.append(show_bool(target.writable));
    r.append(", seekable: ");
    r.append(show_bool(target.seekable));
    r
}

/// The line above the targets of a volume.
pub fn targets_heading(info: &VolumeInfo) -> (r: &'static str)
    ensures
        r@ == if info.exhaustive {
            "Volume targets:"@
        } else {
            "Volume targets (non-exhaustive):"@
        },
{
    if info.exhaustive {
        "Volume targets:"
    } else {
        "Volume targets (non-exhaustive):"
    }
}

/// What to do with a volume that is asked for.
#[derive(Debug)]
pub enum VolumeChoice {
    /// Use it.
    Use(DevicePartHandle),
    /// Wait until it is there.
    Wait(DevicePartHandle),
    /// Give up with this text.
    Fail(&'static str),
}

/// Whether this is what to do with a volume: one that is not there is waited for, if so asked.
pub open spec fn is_choice(
    choice: VolumeChoice,
    info: DeviceInfo,
    name: Seq<char>,
    wait: bool,
) -> bool {
    match part_by_name(info.volumes@, name) {
        Some(part) => if part.id is Some {
            choice is Use && choice->Use_0.kind == PartKind::Volume && choice->Use_0.name@ == name
        } else if wait {
            choice is Wait && choice->Wait_0.kind == PartKind::Volume && choice->Wait_0.name@
                == name
        } else {
            choice is Fail && choice->Fail_0@ == "volume not available"@
        },
        None => false,
    }
}

fn use_or_wait(device: &Device, volume: DevicePartHandle, wait: bool) -> (r: VolumeChoice)
    requires
        volume.kind == PartKind::Volume,
        part_by_name(device.latest().volumes@, volume.name@) is Some,
    ensures
        is_choice(r, device.latest(), volume.name@, wait),
{
    if volume.available(device) {
        VolumeChoice::Use(volume)
    } else if wait {
        VolumeChoice::Wait(volume)
    } else {
        VolumeChoice::Fail("volume not available")
    }
}

/// The volume of a device with the name.
pub fn open_volume(device: &Device, name: &str, wait: bool) -> (r: VolumeChoice)
    ensures
        match part_by_name(device.latest().volumes@, name@) {
            Some(_) => is_choice(r, device.latest(), name@, wait),
            None => r is Fail && r->Fail_0@ == "Volume not available for device"@,
        },
{
    match device.by_name(PartKind::Volume, name) {
        Some(volume) => use_or_wait(device, volume, wait),
        None => VolumeChoice::Fail("Volume not available for device"),
    }
}

/// The volume to transfer a boot file to: the one with the name, or the only one.
pub fn boot_volume(device: &Device, name: Option<String>, wait: bool) -> (r: VolumeChoice)
    ensures
        ({
            let volumes = device.latest().volumes@;
            match name {
                Some(name) => match part_by_name(volumes, name@) {
                    Some(_) => is_choice(r, device.latest(), name@, wait),
                    None => r is Fail && r->Fail_0@ == "Volume not found"@,
                },
                None => if volumes.len() == 1 {
                    is_choice(r, device.latest(), volumes[0].name@, wait)
                } else if volumes.len() > 1 {
                    r is Fail && r->Fail_0@ == "More then one volume, please specify one"@
                } else {
                    r is Fail && r->Fail_0@ == "No volumes for this device"@
                },
            }
        }),
{
    match name {
        Some(name) => match device.by_name(PartKind::Volume, name.as_str()) {
            Some(volume) => use_or_wait(device, volume, wait),
            None => VolumeChoice::Fail("Volume not found"),
        },
        None => {
            let mut volumes = device.all(PartKind::Volume);
            if volumes.len() == 1 {
                let volume = volumes.remove(0);
                assert(part_by_name(device.latest().volumes@, volume.name@) is Some);
                use_or_wait(device, volume, wait)
            } else if volumes.len() > 1 {
                VolumeChoice::Fail("More then one volume, please specify one")
            } else {
                VolumeChoice::Fail("No volumes for this device")
            }
        },
    }
}

/// Whether this is the console of a device to connect to: the one with the name, or the default
/// one. Where there is none, `missing` is told.
pub open spec fn is_console_choice(
    r: Result<DevicePartHandle, &'static str>,
    info: DeviceInfo,
    name: Option<String>,
    missing: Seq<char>,
) -> bool {
    let found = match name {
        Some(name) => part_by_name(info.consoles@, name@) is Some,
        None => info.consoles@.len() > 0,
    };
    if found {
        &&& r is Ok
        &&& r->Ok_0.kind == PartKind::Console
        &&& r->Ok_0.name@ == match name {
            Some(name) => name@,
            None => info.consoles@[0].name@,
        }
    } else {
        r is Err && r->Err_0@ == missing
    }
}

/// The console of a device to connect to.
pub fn choose_console(device: &Device, name: Option<String>) -> (r: Result<
    DevicePartHandle,
    &'static str,
>)
    ensures
        is_console_choice(r, device.latest(), name, "Console not found"@),
{
    let console = match name {
        Some(name) => device.by_name(PartKind::Console, name.as_str()),
        None => device.console(),
    };
    match console {
        Some(console) => Ok(console),
        None => Err("Console not found"),
    }
}

/// The modes that turn a device off and on again.
pub fn reset_modes() -> (r: [&'static str; 2])
    ensures
        r@[0]@ == "off"@,
        r@[1]@ == "on"@,
{
    ["off", "on"]
}

/// The items that are meant are those of the name and the instance, in their order.
pub proof fn law_named_items(
    items: Seq<ListedItem>,
    name: Seq<char>,
    instance: Option<Seq<char>>,
)
    ensures
        named_ids(items, name, instance) == items.filter(
            |item: ListedItem|
                item.name@ == name && (item.instance is Some <==> instance is Some) && (instance
                    is Some ==> item.instance->0@ == instance->0),
        ).map_values(|item: ListedItem| item.id),
    decreases items.len(),
{
    let p = |item: ListedItem|
        item.name@ == name && (item.instance is Some <==> instance is Some) && (instance is Some
            ==> item.instance->0@ == instance->0);
    let id = |item: ListedItem| item.id;
    reveal(Seq::filter);
    if items.len() > 0 {
        let rest = items.drop_last();
        law_named_items(rest, name, instance);
        assert(p(items.last()) == is_named(items.last(), name, instance));
        if p(items.last()) {
            assert(rest.filter(p).push(items.last()).map_values(id) =~= rest.filter(p).map_values(
                id,
            ).push(items.last().id));
        }
    } else {
        assert(items.filter(p).map_values(id) =~= Seq::<u64>::empty());
    }
}

/// A number names an item by its id, and everything else by its name.
pub proof fn law_numbers_are_ids(arg: ItemArg, word: Seq<char>, id: u64)
    requires
        is_item_arg(arg, word),
    ensures
        word == decimal(id as nat) ==> arg == ItemArg::Id(id),
        arg matches ItemArg::Id(n) ==> parsed_number(word, 10, u64::MAX as nat) == Some(n as nat),
        arg matches ItemArg::Name(name) ==> name@ == word,
        word.len() == 0 ==> arg is Name,
{
    crate::text::law_decimal_parses_back(id as nat, u64::MAX as nat);
}

/// Each kind of item is asked for by the plural of its word.
pub proof fn law_plurals_name_kinds(item: Seq<char>)
    ensures
        item_types(item) matches Some(kind) ==> item == kind.word() + "s"@,
        item_types("actuators"@) == Some(ItemTypes::Actuator),
        item_types("consoles"@) == Some(ItemTypes::Console),
        item_types("devices"@) == Some(ItemTypes::Device),
        item_types("volumes"@) == Some(ItemTypes::Volume),
{
    reveal_strlit("actuators");
    reveal_strlit("consoles");
    reveal_strlit("devices");
    reveal_strlit("volumes");
    reveal_strlit("actuator");
    reveal_strlit("console");
    reveal_strlit("device");
    reveal_strlit("volume");
    reveal_strlit("s");
    assert("actuators"@ =~= "actuator"@ + "s"@);
    assert("consoles"@ =~= "console"@ + "s"@);
    assert("devices"@ =~= "device"@ + "s"@);
    assert("volumes"@ =~= "volume"@ + "s"@);
    assert("consoles"@[0] == 'c' && "actuators"@[0] == 'a' && "devices"@[0] == 'd'
        && "volumes"@[0] == 'v');
}

/// The line of an item starts with its id and its name, and ends with its instance where it has
/// one. The line of a property has the key first.
pub proof fn law_lines_of_items(item: ListedItem, key: Seq<char>, value: Seq<char>)
    ensures
        (decimal(item.id as nat) + " "@ + item.name@).is_prefix_of(item_line(item)),
        item.instance is None ==> item_line(item).len() == (decimal(item.id as nat) + " "@
            + item.name@).len(),
        item.instance matches Some(instance) ==> item_line(item).skip(
            item_line(item).len() - instance@.len(),
        ) == instance@,
        property_line(key, value).subrange(1, 1 + key.len() as int) == key,
        property_line(key, value).subrange(
            property_line(key, value).len() - 1 - value.len(),
            property_line(key, value).len() - 1,
        ) == value,
{
    reveal_strlit("\"");
    reveal_strlit("\" => \"");
    let start = decimal(item.id as nat) + " "@ + item.name@;
    assert(start.is_prefix_of(item_line(item))) by {
        assert(item_line(item).take(start.len() as int) =~= start);
    }
    if let Some(instance) = item.instance {
        assert(item_line(item).skip(item_line(item).len() - instance@.len()) =~= instance@);
    }
    assert(property_line(key, value).subrange(1, 1 + key.len() as int) =~= key);
    assert(property_line(key, value).subrange(
        property_line(key, value).len() - 1 - value.len(),
        property_line(key, value).len() - 1,
    ) =~= value);
}

/// A mode that cannot be reached is marked, and no other is; a console that is there is shown with
/// its id, and one that is not is marked.
pub proof fn law_marks_of_lines(mode: DeviceModeInfo, console: DevicePart)
    ensures
        ("- "@ + mode.name@).is_prefix_of(mode_line(mode)),
        !mode.available ==> mode_line(mode).skip(
            mode_line(mode).len() - " (Not available)"@.len(),
        ) == " (Not available)"@,
        mode.available && mode.depends is None ==> mode_line(mode) == "- "@ + mode.name@,
        mode.available && mode.depends is Some ==> mode_line(mode) == "- "@ + mode.name@
            + " (depends on "@ + mode.depends->0@ + ")"@,
        ("- "@ + console.name@ + " - "@).is_prefix_of(console_line(console)),
        console.id matches Some(id) ==> console_line(console).skip(
            console_line(console).len() - decimal(id as nat).len(),
        ) == decimal(id as nat),
        console.id is None ==> console_line(console) == "- "@ + console.name@
            + " - not available"@,
{
    reveal_strlit(" - ");
    reveal_strlit(" - id: ");
    reveal_strlit(" - not available");
    let start = "- "@ + mode.name@;
    assert(mode_line(mode).take(start.len() as int) =~= start);
    if !mode.available {
        assert(mode_line(mode).skip(mode_line(mode).len() - " (Not available)"@.len())
            =~= " (Not available)"@);
    }
    let start = "- "@ + console.name@ + " - "@;
    assert(console_line(console).take(start.len() as int) =~= start);
    if let Some(id) = console.id {
        assert(console_line(console).skip(console_line(console).len() - decimal(id as nat).len())
            =~= decimal(id as nat));
    }
}

} // verus!
