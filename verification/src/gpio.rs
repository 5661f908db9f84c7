//! GPIO lines: which chip they are on, and which of its lines are actuators.

use vstd::prelude::*;

use crate::providers::{named_properties, offered_properties};
use crate::registry::{properties_match, Properties, NAME, PROVIDER, PROVIDER_NAME};
use crate::serial::{find_port_name, port_name};
use crate::text::{decimal, decimal_string, str_eq};
use crate::udev::{item_properties, Device};

verus! {

/// Finds the chip whose lines are actuators.
#[derive(Debug)]
pub struct GpioProvider {
    name: String,
    match_: Vec<(String, String)>,
    registration: Option<(String, Vec<u64>)>,
}

/// The chip whose lines are actuators: where it is, and the ids of the actuators.
pub type GpioChip = (Seq<char>, Seq<u64>);

impl GpioProvider {
    /// Name of this provider.
    pub closed spec fn provider_name(self) -> Seq<char> {
        self.name@
    }

    /// The properties that a chip has to have.
    pub closed spec fn wanted(self) -> Seq<(String, String)> {
        self.match_@
    }

    /// The chip whose lines are actuators now.
    pub closed spec fn chip(self) -> Option<GpioChip> {
        match self.registration {
            Some((path, ids)) => Some((path@, ids@)),
            None => None,
        }
    }

    /// All but the chip is as before.
    pub open spec fn same_setup(self, before: Self) -> bool {
        &&& self.provider_name() == before.provider_name()
        &&& self.wanted() == before.wanted()
    }

    /// A provider that has found no chip yet.
    pub fn new(name: String, match_: Vec<(String, String)>) -> (r: Self)
        ensures
            r.provider_name() == name@,
            r.wanted() == match_@,
            r.chip() is None,
    {
        GpioProvider { name, match_, registration: None }
    }

    /// The properties of a chip that came, where its lines are to be actuators: there is no other
    /// chip now, it has a node with a name, and its properties are those that are wanted. The chip
    /// comes first, its parents behind it.
    pub fn handle(&self, chain: &Vec<Device>, node: Option<&str>) -> (r: Option<Properties>)
        ensures
            match r {
                Some(properties) => {
                    &&& self.chip() is None
                    &&& port_name(node) is Some
                    &&& properties_match(
                        named_properties(port_name(node)->0, chain@),
                        self.wanted(),
                    )
                    &&& properties.wf()
                    &&& properties@ == offered_properties(
                        port_name(node)->0,
                        chain@,
                        self.provider_name(),
                        "gpio"@,
                    )
                },
                None => {
                    ||| self.chip() is Some
                    ||| port_name(node) is None
                    ||| !properties_match(
                        named_properties(port_name(node)->0, chain@),
                        self.wanted(),
                    )
                },
            },
    {
        if self.registration.is_some() {
            return None;
        }
        match find_port_name(node) {
            Some(name) => {
                let mut properties = item_properties(name.as_str(), chain);
                if !properties.matches(&self.match_) {
                    return None;
                }
                properties.insert(PROVIDER_NAME, self.name.as_str());
                properties.insert(PROVIDER, "gpio");
                Some(properties)
            },
            None => None,
        }
    }

    /// Notes the chip whose lines have become actuators, with their ids. A chip that could not be
    /// opened is not noted.
    pub fn registered(&mut self, syspath: &str, ids: Vec<u64>)
        requires
            old(self).chip() is None,
        ensures
            final(self).same_setup(*old(self)),
            final(self).chip() == Some((syspath@, ids@)),
    {
        self.registration = Some((syspath.to_owned(), ids));
    }

    /// The actuators to unregister because their chip went; then another chip can come.
    pub fn remove(&mut self, syspath: &str) -> (r: Vec<u64>)
        ensures
            final(self).same_setup(*old(self)),
            match old(self).chip() {
                Some((path, ids)) => if path == syspath@ {
                    r@ == ids && final(self).chip() is None
                } else {
                    r@ == Seq::<u64>::empty() && final(self).chip() == old(self).chip()
                },
                None => r@ == Seq::<u64>::empty() && final(self).chip() is None,
            },
    {
        let gone = match &self.registration {
            Some((path, _)) => str_eq(path.as_str(), syspath),
            None => false,
        };
        if gone {
            match self.registration.take() {
                Some((_, ids)) => ids,
                None => Vec::new(),
            }
        } else {
            Vec::new()
        }
    }
}

/// Adds what a chip is labelled to its properties.
pub fn add_chip_label(properties: &mut Properties, label: &str)
    requires
        old(properties).wf(),
    ensures
        final(properties).wf(),
        final(properties)@ == old(properties)@.insert("gpio.chip_label"@, label@),
{
    properties.insert("gpio.chip_label", label);
}

/// A GPIO line that is to be an actuator.
#[derive(Debug)]
pub struct GpioLine {
    /// Name of the line on the chip.
    pub line_name: Option<String>,
    /// Number of the line on the chip.
    pub line_number: Option<u32>,
    /// Name of the actuator.
    pub name: String,
}

/// The lines that are given by number, with the names of the actuators.
pub open spec fn numbered_lines(lines: Seq<GpioLine>) -> Seq<(u32, Seq<char>)>
    decreases lines.len(),
{
    if lines.len() == 0 {
        Seq::empty()
    } else {
        let before = numbered_lines(lines.drop_last());
        match lines.last().line_number {
            Some(n) => before.push((n, lines.last().name@)),
            None => before,
        }
    }
}

/// The name of the actuator for the first line that is given by this name.
pub open spec fn line_named(lines: Seq<GpioLine>, name: Seq<char>) -> Option<Seq<char>>
    decreases lines.len(),
{
    if lines.len() == 0 {
        None
    } else if lines[0].line_name is Some && lines[0].line_name->0@ == name {
        Some(lines[0].name@)
    } else {
        line_named(lines.skip(1), name)
    }
}

/// The lines of a chip, from the second on, that are given by name, with the names of the
/// actuators. `chip` holds the names of the first `n` lines.
pub open spec fn named_lines(lines: Seq<GpioLine>, chip: Seq<String>, n: int) -> Seq<
    (u32, Seq<char>),
>
    decreases n,
{
    if n <= 1 {
        Seq::empty()
    } else {
        let before = named_lines(lines, chip, n - 1);
        match line_named(lines, chip[n - 1]@) {
            Some(name) => before.push(((n - 1) as u32, name)),
            None => before,
        }
    }
}

/// The texts of a list of lines.
pub open spec fn line_views(lines: Seq<(u32, String)>) -> Seq<(u32, Seq<char>)> {
    lines.map_values(|l: (u32, String)| (l.0, l.1@))
}

fn find_named(lines: &Vec<GpioLine>, name: &str) -> (r: Option<String>)
    ensures
        match r {
            Some(s) => line_named(lines@, name@) == Some(s@),
            None => line_named(lines@, name@) is None,
        },
{
    let ghost all = lines@;
    assert(all.skip(0) =~= all);
    for i in 0..lines.len()
        invariant
            all == lines@,
            line_named(all, name@) == line_named(all.skip(i as int), name@),
    {
        assert(all.skip(i as int)[0] == all[i as int]);
        assert(all.skip(i as int).skip(1) =~= all.skip(i + 1));
        if let Some(line_name) = &lines[i].line_name {
            if str_eq(line_name.as_str(), name) {
                return Some(lines[i].name.clone());
            }
        }
    }
    None
}

/// The lines of a chip that become actuators, with the names of those: first the lines that
/// are given by number, in the order of the configuration, then those that are given by name,
/// in the order of the chip. `chip` holds the names of all lines of the chip.
pub fn gpio_lines(lines: &Vec<GpioLine>, chip: &Vec<String>) -> (r: Vec<(u32, String)>)
    requires
        chip@.len() <= u32::MAX,
    ensures
        line_views(r@) == numbered_lines(lines@) + named_lines(
            lines@,
            chip@,
            chip@.len() as int,
        ),
{
    let mut r: Vec<(u32, String)> = Vec::new();
    let ghost all = lines@;
    assert(line_views(r@) =~= numbered_lines(all.take(0)));
    for i in 0..lines.len()
        invariant
            all == lines@,
            line_views(r@) == numbered_lines(all.take(i as int)),
    {
        proof {
            assert(all.take(i + 1).drop_last() =~= all.take(i as int));
            assert(all.take(i + 1).last() == all[i as int]);
        }
        if let Some(n) = lines[i].line_number {
            let ghost before = r@;
            r.push((n, lines[i].name.clone()));
            assert(line_views(r@) =~= line_views(before).push((n, all[i as int].name@)));
        }
    }
    assert(all.take(all.len() as int) =~= all);
    let ghost numbered = numbered_lines(all);
    let n: usize = chip.len();
    assert(line_views(r@) =~= numbered + named_lines(all, chip@, 1));
    let mut i: usize = 1;
    while i < n
        invariant
            n == chip@.len(),
            n <= u32::MAX,
            1 <= i,
            i <= n || i == 1,
            all == lines@,
            line_views(r@) == numbered + named_lines(all, chip@, i as int),
        decreases n - i,
    {
        if let Some(name) = find_named(lines, chip[i].as_str()) {
            let ghost before = r@;
            let ghost view = name@;
            r.push((i as u32, name));
            assert(line_views(r@) =~= line_views(before).push((i as u32, view)));
            assert(line_views(r@) =~= numbered + named_lines(all, chip@, i as int).push(
                (i as u32, view),
            ));
        }
        i += 1;
    }
    proof {
        if n == 0 {
            assert(named_lines(all, chip@, 0) =~= named_lines(all, chip@, 1));
        }
    }
    r
}

/// Adds the properties of a GPIO line to those of its chip.
pub fn gpio_line_properties(properties: &mut Properties, name: &str, line: u32, line_name: &str)
    requires
        old(properties).wf(),
    ensures
        final(properties).wf(),
        ({
            let named = old(properties)@.insert(NAME@, name@);
            let labelled = if line_name@.len() > 0 {
                named.insert("gpio.line_name"@, line_name@)
            } else {
                named
            };
            final(properties)@ == labelled.insert("gpio.line_number"@, decimal(line as nat))
        }),
{
    properties.insert(NAME, name);
    if !line_name.is_empty() {
        properties.insert("gpio.line_name", line_name);
    }
    let number = decimal_string(line as u64);
    properties.insert("gpio.line_number", number.as_str());
}

/// The lines that are given by number are all there, with their numbers and names, and no others.
pub proof fn law_numbered_lines(lines: Seq<GpioLine>, line: (u32, Seq<char>))
    ensures
        numbered_lines(lines).contains(line) <==> exists|i: int|
            0 <= i < lines.len() && (#[trigger] lines[i]).line_number == Some(line.0)
                && lines[i].name@ == line.1,
        numbered_lines(lines).len() <= lines.len(),
    decreases lines.len(),
{
    if lines.len() > 0 {
        let rest = lines.drop_last();
        law_numbered_lines(rest, line);
        let before = numbered_lines(rest);
        let all = numbered_lines(lines);
        assert(lines[lines.len() - 1] == lines.last());
        if before.contains(line) {
            let i = choose|i: int|
                0 <= i < rest.len() && (#[trigger] rest[i]).line_number == Some(line.0)
                    && rest[i].name@ == line.1;
            assert(lines[i] == rest[i]);
            let x = choose|x: int| 0 <= x < before.len() && before[x] == line;
            assert(all[x] == line);
        }
        if lines.last().line_number is Some {
            assert(all[before.len() as int] == (lines.last().line_number->0, lines.last().name@));
        }
        if all.contains(line) && !before.contains(line) {
            let x = choose|x: int| 0 <= x < all.len() && all[x] == line;
            if x < before.len() {
                assert(before[x] == line);
            }
        }
        if exists|i: int|
            0 <= i < lines.len() && (#[trigger] lines[i]).line_number == Some(line.0)
                && lines[i].name@ == line.1 {
            let i = choose|i: int|
                0 <= i < lines.len() && (#[trigger] lines[i]).line_number == Some(line.0)
                    && lines[i].name@ == line.1;
            if i < rest.len() {
                assert(rest[i] == lines[i]);
            }
        }
    }
}

/// Of several lines that are given by one name the first counts.
pub proof fn law_first_line_of_name_counts(lines: Seq<GpioLine>, name: Seq<char>, i: int)
    ensures
        0 <= i < lines.len() && is_line_of(lines[i], name) && (forall|j: int|
            0 <= j < i ==> !is_line_of(#[trigger] lines[j], name)) ==> line_named(lines, name)
            == Some(lines[i].name@),
        (forall|j: int| 0 <= j < lines.len() ==> !is_line_of(#[trigger] lines[j], name))
            ==> line_named(lines, name) is None,
    decreases lines.len(),
{
    if lines.len() > 0 && !is_line_of(lines[0], name) {
        let rest = lines.skip(1);
        law_first_line_of_name_counts(rest, name, i - 1);
        if forall|j: int| 0 <= j < lines.len() ==> !is_line_of(#[trigger] lines[j], name) {
            assert forall|j: int| 0 <= j < rest.len() implies !is_line_of(
                #[trigger] rest[j],
                name,
            ) by {
                assert(!is_line_of(lines[j + 1], name));
            }
        }
        if 0 < i < lines.len() && (forall|j: int|
            0 <= j < i ==> !is_line_of(#[trigger] lines[j], name)) {
            assert forall|j: int| 0 <= j < i - 1 implies !is_line_of(#[trigger] rest[j], name) by {
                assert(!is_line_of(lines[j + 1], name));
            }
        }
    }
}

/// Whether a line is given by the name.
pub open spec fn is_line_of(line: GpioLine, name: Seq<char>) -> bool {
    line.line_name is Some && line.line_name->0@ == name
}

/// The lines of a chip that are given by name are there in the order of the chip, each under its
/// number.
pub proof fn law_named_lines(lines: Seq<GpioLine>, chip: Seq<String>, n: int, k: int)
    requires
        0 <= n <= chip.len() <= u32::MAX,
    ensures
        forall|x: int, y: int|
            #![trigger named_lines(lines, chip, n)[x], named_lines(lines, chip, n)[y]]
            0 <= x < y < named_lines(lines, chip, n).len() ==> named_lines(lines, chip, n)[x].0
                < named_lines(lines, chip, n)[y].0,
        forall|x: int|
            0 <= x < named_lines(lines, chip, n).len() ==> 1 <= (#[trigger] named_lines(
                lines,
                chip,
                n,
            )[x]).0 < n,
        1 <= k < n && line_named(lines, chip[k]@) is Some ==> named_lines(lines, chip, n).contains(
            (k as u32, line_named(lines, chip[k]@)->0),
        ),
        forall|x: int|
            0 <= x < named_lines(lines, chip, n).len() ==> {
                let line = #[trigger] named_lines(lines, chip, n)[x];
                line_named(lines, chip[line.0 as int]@) == Some(line.1)
            },
    decreases n,
{
    if n > 1 {
        law_named_lines(lines, chip, n - 1, k);
        let before = named_lines(lines, chip, n - 1);
        let all = named_lines(lines, chip, n);
        if 1 <= k < n - 1 && line_named(lines, chip[k]@) is Some {
            let line = (k as u32, line_named(lines, chip[k]@)->0);
            let x = choose|x: int| 0 <= x < before.len() && before[x] == line;
            assert(all[x] == line);
        }
        if line_named(lines, chip[n - 1]@) is Some {
            assert(all[before.len() as int].0 == n - 1);
        }
    }
}

} // verus!
