//! The test automation interface of TI boards: a prompt on a serial line that switches power
//! and boot modes.

use vstd::prelude::*;

use crate::providers::named_properties;
use crate::registry::{properties_match, Properties};
use crate::text::{
    chars_of, contains, find, first_occurrence, is_at, occurs, occurs_at, pair_texts, str_eq,
    string_of, strip_prefix,
};
use crate::udev::{item_properties, Device};

verus! {

/// Name of the provider.
pub const PROVIDER: &'static str = "ti-xds-tai";

/// Finds the interfaces among the serial ports.
#[derive(Debug)]
pub struct TiXdsProvider {
    name: String,
    match_: Vec<(String, String)>,
    model: Option<String>,
}

/// The model that a serial number tells of.
pub open spec fn model_of_serial(serial: Seq<char>) -> Option<Seq<char>> {
    if "S62A"@.is_prefix_of(serial) {
        Some("am62xx-evm"@)
    } else if "S62G"@.is_prefix_of(serial) {
        Some("am62pxx-sk"@)
    } else {
        None
    }
}

/// The model of the board: as it is configured, or as the serial number tells.
pub open spec fn board_model(
    configured: Option<String>,
    properties: Map<Seq<char>, Seq<char>>,
) -> Option<Seq<char>> {
    match configured {
        Some(model) => Some(model@),
        None => if properties.contains_key("udev.ID_SERIAL_SHORT"@) {
            model_of_serial(properties["udev.ID_SERIAL_SHORT"@])
        } else {
            None
        },
    }
}

impl TiXdsProvider {
    /// Name of this provider.
    pub closed spec fn provider_name(self) -> Seq<char> {
        self.name@
    }

    /// The properties that a board has to have.
    pub closed spec fn wanted(self) -> Seq<(String, String)> {
        self.match_@
    }

    /// The model that is configured.
    pub closed spec fn configured(self) -> Option<String> {
        self.model
    }

    /// A provider for boards with these properties.
    pub fn new(name: String, match_: Vec<(String, String)>, model: Option<String>) -> (r: Self)
        ensures
            r.provider_name() == name@,
            r.wanted() == match_@,
            r.configured() == model,
    {
        TiXdsProvider { name, match_, model }
    }

    /// Name of the items of this provider.
    pub fn item_name(&self) -> (r: String)
        ensures
            r@ == PROVIDER@ + "."@ + self.provider_name(),
    {
        let mut r = PROVIDER.to_owned();
        r.append(".");
        r.append(self.name.as_str());
        r
    }

    /// The properties that a device has as an item of this provider, before its model is known.
    pub open spec fn properties_of(self, chain: Seq<Device>) -> Map<Seq<char>, Seq<char>> {
        named_properties(PROVIDER@ + "."@ + self.provider_name(), chain)
    }

    /// Whether a device is a board that is wanted and whose model is known.
    pub open spec fn takes(self, chain: Seq<Device>) -> bool {
        &&& properties_match(self.properties_of(chain), self.wanted())
        &&& board_model(self.configured(), self.properties_of(chain)) is Some
    }

    /// The properties of a board, with its model among them, where the device is a board that is
    /// wanted, whose model is known and that has a node. The device comes first, its parents
    /// behind it.
    pub fn handle(&self, chain: &Vec<Device>, node: Option<&str>) -> (r: Option<Properties>)
        ensures
            match r {
                Some(properties) => {
                    &&& self.takes(chain@)
                    &&& node is Some
                    &&& properties.wf()
                    &&& properties@ == self.properties_of(chain@).insert(
                        "model"@,
                        board_model(self.configured(), self.properties_of(chain@))->0,
                    )
                },
                None => !self.takes(chain@) || node is None,
            },
    {
        let name = self.item_name();
        let mut properties = item_properties(name.as_str(), chain);
        if !properties.matches(&self.match_) {
            return None;
        }
        let model: String = match &self.model {
            Some(value) => value.clone(),
            None => match properties.get("udev.ID_SERIAL_SHORT") {
                None => {
                    return None;
                },
                Some(serial) => {
                    if strip_prefix(serial, "S62A").is_some() {
                        "am62xx-evm".to_owned()
                    } else if strip_prefix(serial, "S62G").is_some() {
                        "am62pxx-sk".to_owned()
                    } else {
                        return None;
                    }
                },
            },
        };
        properties.insert("model", model.as_str());
        if node.is_some() {
            Some(properties)
        } else {
            None
        }
    }
}

/// What came of reading from the serial line.
#[derive(Debug)]
pub enum LineRead<'a> {
    /// This was received; it may be empty.
    Text(&'a str),
    /// There was nothing to receive yet.
    Nothing,
    /// The line failed.
    Failed,
}

/// What to do while a text is waited for.
#[derive(Debug)]
pub enum ExpectStep {
    /// The text came; this is all up to and with it.
    Match(String),
    /// Read on.
    GoOn,
    /// Wait no longer.
    GiveUp,
}

/// How many whole seconds are waited for a text at most.
pub const EXPECT_SECONDS: u64 = 1;

/// What was received and not yet handed out.
#[derive(Debug)]
pub struct TiXdsBuffer {
    buf: String,
}

impl TiXdsBuffer {
    /// What was received and not yet handed out.
    pub closed spec fn pending(self) -> Seq<char> {
        self.buf@
    }

    /// Nothing was received.
    pub fn new() -> (r: Self)
        ensures
            r.pending() == Seq::<char>::empty(),
    {
        TiXdsBuffer { buf: String::new() }
    }

    /// Takes in what was received, and hands out all up to and with the expected text once that
    /// is there.
    pub fn expect(&mut self, data: &str, expect: &str) -> (r: Option<String>)
        ensures
            ({
                let all = old(self).pending() + data@;
                match first_occurrence(all, expect@) {
                    Some(at) => {
                        &&& r is Some
                        &&& r->0@ == all.take(at + expect@.len())
                        &&& final(self).pending() == all.skip(at + expect@.len())
                    },
                    None => r is None && final(self).pending() == all,
                }
            }),
    {
        self.buf.append(data);
        let chars = chars_of(self.buf.as_str());
        let wanted = chars_of(expect);
        let n: usize = chars.len();
        match find(&chars, &wanted) {
            Some(at) => {
                let end: usize = at + wanted.len();
                let r = string_of(&chars, 0, end);
                let rest = string_of(&chars, end, n);
                assert(r@ =~= chars@.take(end as int));
                assert(rest@ =~= chars@.skip(end as int));
                self.buf = rest;
                Some(r)
            },
            None => None,
        }
    }

    /// What to do after a read while a text is waited for, `elapsed` whole seconds after the
    /// wait began. What is received is never thrown away. How long it took matters only once
    /// something was received without the text.
    pub fn expect_step(&mut self, read: LineRead<'_>, expect: &str, elapsed: u64) -> (r: ExpectStep)
        ensures
            match read {
                LineRead::Text(data) => {
                    let all = old(self).pending() + data@;
                    match first_occurrence(all, expect@) {
                        Some(at) => {
                            &&& r is Match
                            &&& r->Match_0@ == all.take(at + expect@.len())
                            &&& final(self).pending() == all.skip(at + expect@.len())
                        },
                        None => {
                            &&& r == if elapsed > EXPECT_SECONDS {
                                ExpectStep::GiveUp
                            } else {
                                ExpectStep::GoOn
                            }
                            &&& final(self).pending() == all
                        },
                    }
                },
                LineRead::Nothing => r is GoOn && *final(self) == *old(self),
                LineRead::Failed => r is GiveUp && *final(self) == *old(self),
            },
    {
        match read {
            LineRead::Text(data) => match self.expect(data, expect) {
                Some(text) => ExpectStep::Match(text),
                None => if elapsed > EXPECT_SECONDS {
                    ExpectStep::GiveUp
                } else {
                    ExpectStep::GoOn
                },
            },
            LineRead::Nothing => ExpectStep::GoOn,
            LineRead::Failed => ExpectStep::GiveUp,
        }
    }
}

/// What is handed out and what is kept make up what was received, in order.
pub proof fn law_expect_keeps_text(all: Seq<char>, expect: Seq<char>, at: int)
    requires
        occurs_at(all, expect, at),
    ensures
        all.take(at + expect.len()) + all.skip(at + expect.len()) == all,
        all.take(at + expect.len()).skip(at) == expect,
{
    assert(all.take(at + expect.len()) + all.skip(at + expect.len()) =~= all);
    assert(all.take(at + expect.len()).skip(at) =~= all.subrange(at, at + expect.len()));
}

/// A lower case ASCII letter.
pub open spec fn is_lower(c: char) -> bool {
    'a' <= c <= 'z'
}

/// An ASCII letter or digit.
pub open spec fn is_alnum(c: char) -> bool {
    'a' <= c <= 'z' || 'A' <= c <= 'Z' || '0' <= c <= '9'
}

/// Where the lower case letters from here on end.
pub open spec fn lower_end(s: Seq<char>, i: int) -> int
    decreases s.len() - i,
{
    if 0 <= i < s.len() && is_lower(s[i]) {
        lower_end(s, i + 1)
    } else {
        i
    }
}

/// Where the letters and digits from here on end.
pub open spec fn alnum_end(s: Seq<char>, i: int) -> int
    decreases s.len() - i,
{
    if 0 <= i < s.len() && is_alnum(s[i]) {
        alnum_end(s, i + 1)
    } else {
        i
    }
}

proof fn lemma_ends(s: Seq<char>, i: int)
    requires
        0 <= i <= s.len(),
    ensures
        i <= lower_end(s, i) <= s.len(),
        i <= alnum_end(s, i) <= s.len(),
        i < s.len() && is_lower(s[i]) ==> i < lower_end(s, i),
        i < s.len() && is_alnum(s[i]) ==> i < alnum_end(s, i),
    decreases s.len() - i,
{
    if i < s.len() {
        lemma_ends(s, i + 1);
    }
}

/// The boot modes in a listing from here on: names of lower case letters, each with a code of
/// letters and digits behind a dash.
pub open spec fn modes_from(s: Seq<char>, i: int) -> Seq<(Seq<char>, Seq<char>)>
    decreases s.len() - i,
{
    if i < 0 || i >= s.len() {
        Seq::empty()
    } else if !is_lower(s[i]) {
        modes_from(s, i + 1)
    } else {
        let j = lower_end(s, i);
        let k = alnum_end(s, j + 3);
        if occurs_at(s, " - "@, j) && j + 3 < k {
            if i < k <= s.len() {
                seq![(s.subrange(i, j), s.subrange(j + 3, k))] + modes_from(s, k)
            } else {
                Seq::empty()
            }
        } else if i < j <= s.len() {
            modes_from(s, j)
        } else {
            Seq::empty()
        }
    }
}

/// The boot modes in a listing.
pub open spec fn listed_modes(s: Seq<char>) -> Seq<(Seq<char>, Seq<char>)> {
    modes_from(s, 0)
}

fn end_of_lower(s: &Vec<char>, from: usize) -> (r: usize)
    requires
        from <= s@.len(),
    ensures
        r == lower_end(s@, from as int),
        from <= r <= s@.len(),
{
    let mut i: usize = from;
    while i < s.len() && 'a' <= s[i] && s[i] <= 'z'
        invariant
            from <= i <= s@.len(),
            lower_end(s@, from as int) == lower_end(s@, i as int),
        decreases s@.len() - i,
    {
        i += 1;
    }
    i
}

fn alnum(c: char) -> (r: bool)
    ensures
        r == is_alnum(c),
{
    ('a' <= c && c <= 'z') || ('A' <= c && c <= 'Z') || ('0' <= c && c <= '9')
}

fn end_of_alnum(s: &Vec<char>, from: usize) -> (r: usize)
    requires
        from <= s@.len(),
    ensures
        r == alnum_end(s@, from as int),
        from <= r <= s@.len(),
{
    let mut i: usize = from;
    while i < s.len() && alnum(s[i])
        invariant
            from <= i <= s@.len(),
            alnum_end(s@, from as int) == alnum_end(s@, i as int),
        decreases s@.len() - i,
    {
        i += 1;
    }
    i
}

/// The boot modes in a listing, with their codes.
pub fn boot_modes(output: &str) -> (r: Vec<(String, String)>)
    ensures
        pair_texts(r@) == listed_modes(output@),
{
    let s = chars_of(output);
    let dash = chars_of(" - ");
    proof {
        reveal_strlit(" - ");
    }
    let mut r: Vec<(String, String)> = Vec::new();
    let n: usize = s.len();
    let mut i: usize = 0;
    assert(pair_texts(r@) + modes_from(s@, 0) =~= modes_from(s@, 0));
    while i < n
        invariant
            n == s@.len(),
            i <= n,
            dash@ == " - "@,
            dash@.len() == 3,
            pair_texts(r@) + modes_from(s@, i as int) == modes_from(s@, 0),
        decreases n - i,
    {
        let ghost so_far = pair_texts(r@);
        if !('a' <= s[i] && s[i] <= 'z') {
            i += 1;
        } else {
            proof {
                lemma_ends(s@, i as int);
            }
            let j: usize = end_of_lower(&s, i);
            if is_at(&s, &dash, j) && j + 3 < n && alnum(s[j + 3]) {
                proof {
                    lemma_ends(s@, j + 3);
                }
                let k: usize = end_of_alnum(&s, j + 3);
                let name = string_of(&s, i, j);
                let code = string_of(&s, j + 3, k);
                let ghost one = seq![(name@, code@)];
                r.push((name, code));
                proof {
                    assert(pair_texts(r@) =~= so_far + one);
                    assert(so_far + (one + modes_from(s@, k as int)) =~= (so_far + one)
                        + modes_from(s@, k as int));
                }
                i = k;
            } else {
                proof {
                    if occurs_at(s@, " - "@, j as int) {
                        assert(alnum_end(s@, j + 3) == j + 3);
                    }
                }
                i = j;
            }
        }
    }
    assert(pair_texts(r@) + modes_from(s@, n as int) =~= pair_texts(r@));
    r
}

/// The code of a mode in the list: of several the last counts.
pub open spec fn mode_code(modes: Seq<(String, String)>, mode: Seq<char>) -> Option<Seq<char>>
    decreases modes.len(),
{
    if modes.len() == 0 {
        None
    } else if modes.last().0@ == mode {
        Some(modes.last().1@)
    } else {
        mode_code(modes.drop_last(), mode)
    }
}

/// Checks on the way to a board that can be controlled.
#[derive(Copy, Clone, Debug, PartialEq, Eq, Structural)]
pub enum SetupStage {
    /// Ask for the version.
    Version,
    /// Set the model of the board.
    Model,
    /// Ask for the boot modes.
    Modes,
}

/// The command of a stage.
pub open spec fn setup_command_text(stage: SetupStage, model: Seq<char>) -> Seq<char> {
    match stage {
        SetupStage::Version => "version\n"@,
        SetupStage::Model => "auto set dut "@ + model + "\n"@,
        SetupStage::Modes => "auto boot list\n"@,
    }
}

/// The command of a stage.
pub fn setup_command(stage: SetupStage, model: &str) -> (r: String)
    ensures
        r@ == setup_command_text(stage, model@),
{
    match stage {
        SetupStage::Version => "version\n".to_owned(),
        SetupStage::Model => {
            let mut r = "auto set dut ".to_owned();
            r.append(model);
            r.append("\n");
            r
        },
        SetupStage::Modes => "auto boot list\n".to_owned(),
    }
}

/// Whether the setup goes on after a stage. `output` is what came up to the prompt, if the
/// prompt came.
pub fn setup_goes_on(stage: SetupStage, output: Option<&str>) -> (r: bool)
    ensures
        r == match (stage, output) {
            (SetupStage::Version, Some(text)) => occurs(text@, "Test Automation Interface"@),
            (SetupStage::Version, None) => false,
            (SetupStage::Model, Some(text)) => !occurs(text@, "Error setting dut"@),
            (SetupStage::Model, None) => true,
            (SetupStage::Modes, Some(_)) => true,
            (SetupStage::Modes, None) => false,
        },
{
    match (stage, output) {
        (SetupStage::Version, Some(text)) => contains(text, "Test Automation Interface"),
        (SetupStage::Version, None) => false,
        (SetupStage::Model, Some(text)) => !contains(text, "Error setting dut"),
        (SetupStage::Model, None) => true,
        (SetupStage::Modes, Some(_)) => true,
        (SetupStage::Modes, None) => false,
    }
}

/// A command, and the text that shows that it was done.
pub struct TiXdsCommand {
    /// What to send.
    pub send: String,
    /// What to find in the answer.
    pub expect: &'static str,
}

/// What to do to get a board into a mode.
pub struct TiXdsPlan {
    /// Set the boot mode first; whether that works does not matter.
    pub boot: Option<TiXdsCommand>,
    /// Then switch the power; the answer decides.
    pub power: TiXdsCommand,
}

/// The command that switches the power.
pub open spec fn power_command_is(command: TiXdsCommand, on: bool) -> bool {
    if on {
        command.send@ == "auto power on\n"@ && command.expect@ == "Powering On DUT"@
    } else {
        command.send@ == "auto power off\n"@ && command.expect@ == "Powering Off DUT"@
    }
}

/// The command that sets the boot mode with this code.
pub open spec fn boot_command_is(command: TiXdsCommand, code: Seq<char>) -> bool {
    command.send@ == "auto sysboot "@ + code + "\n"@ && command.expect@ == "Sysboot set on DUT"@
}

/// What to do to get a board into a mode, and nothing where it has no such boot mode. An empty
/// mode leaves the boot mode as it is.
pub fn mode_plan(modes: &Vec<(String, String)>, power: bool, mode: &str) -> (r: Option<TiXdsPlan>)
    ensures
        match r {
            Some(plan) => {
                &&& power_command_is(plan.power, power)
                &&& match plan.boot {
                    Some(command) => mode@.len() > 0 && mode_code(modes@, mode@) is Some
                        && boot_command_is(command, mode_code(modes@, mode@)->0),
                    None => mode@.len() == 0,
                }
            },
            None => mode@.len() > 0 && mode_code(modes@, mode@) is None,
        },
{
    let mut boot: Option<TiXdsCommand> = None;
    if !mode.is_empty() {
        match find_code(modes, mode) {
            Some(code) => {
                let mut send = "auto sysboot ".to_owned();
                send.append(code.as_str());
                send.append("\n");
                boot = Some(TiXdsCommand { send, expect: "Sysboot set on DUT" });
            },
            None => {
                return None;
            },
        }
    }
    let power = if power {
        TiXdsCommand { send: "auto power on\n".to_owned(), expect: "Powering On DUT" }
    } else {
        TiXdsCommand { send: "auto power off\n".to_owned(), expect: "Powering Off DUT" }
    };
    Some(TiXdsPlan { boot, power })
}

fn find_code(modes: &Vec<(String, String)>, mode: &str) -> (r: Option<String>)
    ensures
        match r {
            Some(code) => mode_code(modes@, mode@) == Some(code@),
            None => mode_code(modes@, mode@) is None,
        },
{
    let ghost all = modes@;
    let mut i: usize = modes.len();
    assert(all.take(i as int) =~= all);
    while i > 0
        invariant
            i <= all.len(),
            all == modes@,
            mode_code(all, mode@) == mode_code(all.take(i as int), mode@),
        decreases i,
    {
        i -= 1;
        assert(all.take(i + 1).last() == all[i as int]);
        assert(all.take(i + 1).drop_last() =~= all.take(i as int));
        if str_eq(modes[i].0.as_str(), mode) {
            return Some(modes[i].1.clone());
        }
    }
    None
}

/// Of several codes of one boot mode the last counts.
pub proof fn law_last_code_counts(modes: Seq<(String, String)>, mode: Seq<char>, i: int)
    ensures
        0 <= i < modes.len() && modes[i].0@ == mode && (forall|j: int|
            i < j < modes.len() ==> (#[trigger] modes[j]).0@ != mode) ==> mode_code(modes, mode)
            == Some(modes[i].1@),
        (forall|j: int| 0 <= j < modes.len() ==> (#[trigger] modes[j]).0@ != mode) ==> mode_code(
            modes,
            mode,
        ) is None,
    decreases modes.len(),
{
    if modes.len() > 0 {
        let rest = modes.drop_last();
        assert(modes[modes.len() - 1] == modes.last());
        law_last_code_counts(rest, mode, i);
        if forall|j: int| 0 <= j < modes.len() ==> (#[trigger] modes[j]).0@ != mode {
            assert forall|j: int| 0 <= j < rest.len() implies (#[trigger] rest[j]).0@ != mode by {
                assert(modes[j].0@ != mode);
            }
        }
        if 0 <= i < rest.len() && (forall|j: int|
            i < j < modes.len() ==> (#[trigger] modes[j]).0@ != mode) {
            assert forall|j: int| i < j < rest.len() implies (#[trigger] rest[j]).0@ != mode by {
                assert(modes[j].0@ != mode);
            }
        }
    }
}

/// A listing with a line for each boot mode.
pub open spec fn listing(modes: Seq<(Seq<char>, Seq<char>)>) -> Seq<char>
    decreases modes.len(),
{
    if modes.len() == 0 {
        Seq::empty()
    } else {
        modes[0].0 + " - "@ + modes[0].1 + seq!['\n'] + listing(modes.skip(1))
    }
}

proof fn lemma_ends_shift(s: Seq<char>, d: int, i: int)
    requires
        0 <= d <= s.len(),
        0 <= i,
    ensures
        lower_end(s, d + i) == d + lower_end(s.skip(d), i),
        alnum_end(s, d + i) == d + alnum_end(s.skip(d), i),
    decreases s.len() - d - i,
{
    if d + i < s.len() {
        assert(s.skip(d)[i] == s[d + i]);
        lemma_ends_shift(s, d, i + 1);
    }
}

proof fn lemma_modes_shift(s: Seq<char>, d: int, i: int)
    requires
        0 <= d <= s.len(),
        0 <= i,
    ensures
        modes_from(s, d + i) == modes_from(s.skip(d), i),
    decreases s.len() - d - i,
{
    let t = s.skip(d);
    if d + i < s.len() {
        assert(t[i] == s[d + i]);
        if !is_lower(s[d + i]) {
            lemma_modes_shift(s, d, i + 1);
        } else {
            lemma_ends_shift(s, d, i);
            lemma_ends(t, i);
            let j = lower_end(t, i);
            lemma_ends_shift(s, d, j + 3);
            let k = alnum_end(t, j + 3);
            if j + 3 <= t.len() {
                assert(s.subrange(d + j, d + j + 3) =~= t.subrange(j, j + 3));
            }
            reveal_strlit(" - ");
            assert(occurs_at(s, " - "@, d + j) == occurs_at(t, " - "@, j));
            if occurs_at(t, " - "@, j) && j + 3 < k {
                lemma_ends(t, j + 3);
                assert(s.subrange(d + i, d + j) =~= t.subrange(i, j));
                assert(s.subrange(d + j + 3, d + k) =~= t.subrange(j + 3, k));
                lemma_modes_shift(s, d, k);
            } else {
                lemma_modes_shift(s, d, j);
            }
        }
    }
}

proof fn lemma_ends_at(s: Seq<char>, i: int, end: int)
    requires
        0 <= i <= end < s.len(),
    ensures
        (forall|k: int| i <= k < end ==> is_lower(#[trigger] s[k])) && !is_lower(s[end])
            ==> lower_end(s, i) == end,
        (forall|k: int| i <= k < end ==> is_alnum(#[trigger] s[k])) && !is_alnum(s[end])
            ==> alnum_end(s, i) == end,
    decreases end - i,
{
    if i < end {
        lemma_ends_at(s, i + 1, end);
    }
}

proof fn lemma_line_is_read(name: Seq<char>, code: Seq<char>, tail: Seq<char>)
    requires
        name.len() > 0,
        code.len() > 0,
        forall|c: int| 0 <= c < name.len() ==> is_lower(#[trigger] name[c]),
        forall|c: int| 0 <= c < code.len() ==> is_alnum(#[trigger] code[c]),
    ensures
        modes_from(name + " - "@ + code + seq!['\n'] + tail, 0) == seq![(name, code)]
            + modes_from(tail, 0),
{
    let s = name + " - "@ + code + seq!['\n'] + tail;
    let j = name.len() as int;
    let k = (name.len() + 3 + code.len()) as int;
    reveal_strlit(" - ");
    assert forall|c: int| 0 <= c < j implies is_lower(#[trigger] s[c]) by {
        assert(s[c] == name[c]);
    }
    assert forall|c: int| j + 3 <= c < k implies is_alnum(#[trigger] s[c]) by {
        assert(s[c] == code[c - j - 3]);
    }
    assert(s[j] == ' ');
    assert(s[k] == '\n');
    lemma_ends_at(s, 0, j);
    lemma_ends_at(s, j + 3, k);
    assert(s.subrange(j, j + 3) =~= " - "@);
    assert(s.subrange(0, j) =~= name);
    assert(s.subrange(j + 3, k) =~= code);
    assert(is_lower(s[0]));
    assert(modes_from(s, 0) == seq![(name, code)] + modes_from(s, k));
    assert(modes_from(s, k) == modes_from(s, k + 1));
    lemma_modes_shift(s, k + 1, 0);
    assert(s.skip(k + 1) =~= tail);
}

/// Whether a boot mode has a name of lower case letters and a code of letters and digits.
pub open spec fn is_listable(mode: (Seq<char>, Seq<char>)) -> bool {
    &&& mode.0.len() > 0
    &&& mode.1.len() > 0
    &&& forall|c: int| 0 <= c < mode.0.len() ==> 'a' <= #[trigger] mode.0[c] && mode.0[c] <= 'z'
    &&& forall|c: int|
        0 <= c < mode.1.len() ==> ('a' <= #[trigger] mode.1[c] && mode.1[c] <= 'z') || ('A'
            <= mode.1[c] && mode.1[c] <= 'Z') || ('0' <= mode.1[c] && mode.1[c] <= '9')
}

/// A listing is read back as the boot modes that were written into it, all of them and in order.
pub proof fn law_listing_is_read_back(modes: Seq<(Seq<char>, Seq<char>)>)
    requires
        forall|m: int| 0 <= m < modes.len() ==> is_listable(#[trigger] modes[m]),
    ensures
        listed_modes(listing(modes)) == modes,
    decreases modes.len(),
{
    if modes.len() > 0 {
        let rest = modes.skip(1);
        assert forall|m: int| 0 <= m < rest.len() implies is_listable(#[trigger] rest[m]) by {
            assert(rest[m] == modes[m + 1]);
        }
        law_listing_is_read_back(rest);
        assert(is_listable(modes[0]));
        lemma_line_is_read(modes[0].0, modes[0].1, listing(rest));
        assert(seq![(modes[0].0, modes[0].1)] + rest =~= modes);
    } else {
        assert(listed_modes(listing(modes)) =~= modes);
    }
}

/// A board is of the model that is configured, and otherwise of the one that its serial number
/// starts with.
pub proof fn law_models(
    configured: Option<String>,
    properties: Map<Seq<char>, Seq<char>>,
    serial: Seq<char>,
)
    ensures
        configured matches Some(model) ==> board_model(configured, properties) == Some(model@),
        model_of_serial("S62A"@ + serial) == Some("am62xx-evm"@),
        model_of_serial("S62G"@ + serial) == Some("am62pxx-sk"@),
        serial.len() < 4 || (serial.take(4) != "S62A"@ && serial.take(4) != "S62G"@)
            ==> model_of_serial(serial) is None,
        configured is None ==> board_model(
            configured,
            properties.insert("udev.ID_SERIAL_SHORT"@, serial),
        ) == model_of_serial(serial) && board_model(
            configured,
            properties.remove("udev.ID_SERIAL_SHORT"@),
        ) is None,
{
    reveal_strlit("S62A");
    reveal_strlit("S62G");
    assert(("S62A"@ + serial).take(4) =~= "S62A"@);
    assert(("S62G"@ + serial).take(4) =~= "S62G"@);
    assert("S62A"@[3] == 'A' && "S62G"@[3] == 'G');
    assert(("S62G"@ + serial)[3] == 'G');
    if "S62A"@.is_prefix_of(serial) {
        assert(serial.take(4) =~= "S62A"@);
    }
    if "S62G"@.is_prefix_of(serial) {
        assert(serial.take(4) =~= "S62G"@);
    }
}

/// The commands name what is asked for: the power to switch to, the code of the boot mode and the
/// model of the board.
pub proof fn law_commands_name_their_subject(
    power: TiXdsCommand,
    on: bool,
    boot: TiXdsCommand,
    code: Seq<char>,
    stage: SetupStage,
    model: Seq<char>,
)
    requires
        power_command_is(power, on),
        boot_command_is(boot, code),
    ensures
        power.send@ == "auto power "@ + (if on {
            "on"@
        } else {
            "off"@
        }) + "\n"@,
        power.expect@ == "Powering "@ + (if on {
            "On"@
        } else {
            "Off"@
        }) + " DUT"@,
        boot.send@.subrange(13, boot.send@.len() - 1) == code,
        boot.send@.take(13) == "auto sysboot "@,
        boot.send@.last() == '\n',
        setup_command_text(stage, model).last() == '\n',
        stage is Model ==> setup_command_text(stage, model).subrange(
            13,
            setup_command_text(stage, model).len() - 1,
        ) == model,
{
    reveal_strlit("auto power ");
    reveal_strlit("auto power on\n");
    reveal_strlit("auto power off\n");
    reveal_strlit("on");
    reveal_strlit("off");
    reveal_strlit("On");
    reveal_strlit("Off");
    reveal_strlit("\n");
    reveal_strlit("Powering ");
    reveal_strlit(" DUT");
    reveal_strlit("Powering On DUT");
    reveal_strlit("Powering Off DUT");
    reveal_strlit("auto sysboot ");
    reveal_strlit("auto set dut ");
    reveal_strlit("version\n");
    reveal_strlit("auto boot list\n");
    assert("auto power on\n"@ =~= "auto power "@ + "on"@ + "\n"@);
    assert("auto power off\n"@ =~= "auto power "@ + "off"@ + "\n"@);
    assert("Powering On DUT"@ =~= "Powering "@ + "On"@ + " DUT"@);
    assert("Powering Off DUT"@ =~= "Powering "@ + "Off"@ + " DUT"@);
    assert(boot.send@.subrange(13, boot.send@.len() - 1) =~= code);
    assert(boot.send@.take(13) =~= "auto sysboot "@);
    let text = setup_command_text(stage, model);
    if stage is Model {
        assert(text.subrange(13, text.len() - 1) =~= model);
    }
}

} // verus!
