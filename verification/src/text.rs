//! Strings as sequences of characters.

use vstd::prelude::*;

verus! {

/// `String::push` appends the character at the end of the string.
pub assume_specification[ String::push ](s: &mut String, c: char)
    ensures
        final(s)@ == old(s)@.push(c),
;

/// `==` on string slices holds exactly if both hold the same characters.
pub assume_specification[ <str as PartialEq>::eq ](a: &str, b: &str) -> (equal: bool)
    ensures
        equal == (a@ == b@),
;

/// `char::from_u32` gives the character of this number, unless the number is that of a surrogate
/// or above all characters.
pub assume_specification[ char::from_u32 ](i: u32) -> (r: Option<char>)
    ensures
        r == if i <= 0xd7ff || 0xe000 <= i <= 0x10ffff {
            Some(i as char)
        } else {
            None
        },
;

/// Whether both strings hold the same characters.
pub fn str_eq(a: &str, b: &str) -> (equal: bool)
    ensures
        equal == (a@ == b@),
{
    *a == *b
}

/// The characters of a string.
pub fn chars_of(s: &str) -> (chars: Vec<char>)
    ensures
        chars@ == s@,
{
    let mut chars: Vec<char> = Vec::new();
    for c in it: s.chars()
        invariant
            it.seq() == s@,
            chars@ == s@.take(it.index()),
    {
        chars.push(c);
    }
    chars
}

/// The string made of the characters `from..to`.
pub fn string_of(chars: &Vec<char>, from: usize, to: usize) -> (s: String)
    requires
        from <= to <= chars@.len(),
    ensures
        s@ == chars@.subrange(from as int, to as int),
{
    let mut s = String::new();
    for i in from..to
        invariant
            from <= to <= chars@.len(),
            s@ == chars@.subrange(from as int, i as int),
    {
        s.push(chars[i]);
    }
    s
}

/// The value of a digit in the given radix (at most 36), digits beyond nine being letters of
/// either case.
pub open spec fn digit_value(c: char, radix: nat) -> Option<nat> {
    let v: nat = if '0' <= c <= '9' {
        (c as nat - '0' as nat) as nat
    } else if 'a' <= c <= 'z' {
        (c as nat - 'a' as nat + 10) as nat
    } else if 'A' <= c <= 'Z' {
        (c as nat - 'A' as nat + 10) as nat
    } else {
        radix
    };
    if v < radix {
        Some(v)
    } else {
        None
    }
}

/// The number that a row of digits stands for, most significant first, or nothing where one
/// of them is no digit. The empty row stands for zero.
pub open spec fn digits_value(s: Seq<char>, radix: nat) -> Option<nat>
    decreases s.len(),
{
    if s.len() == 0 {
        Some(0)
    } else {
        match (digits_value(s.drop_last(), radix), digit_value(s.last(), radix)) {
            (Some(high), Some(low)) => Some(high * radix + low),
            _ => None,
        }
    }
}

/// The number that a text stands for, at most `max`: at least one digit, behind an optional
/// plus sign.
pub open spec fn parsed_number(s: Seq<char>, radix: nat, max: nat) -> Option<nat> {
    let digits = if s.len() > 0 && s[0] == '+' {
        s.skip(1)
    } else {
        s
    };
    if digits.len() == 0 {
        None
    } else {
        match digits_value(digits, radix) {
            Some(n) if n <= max => Some(n),
            _ => None,
        }
    }
}

/// The decimal digits of a number, without leading zeros.
pub open spec fn decimal(n: nat) -> Seq<char>
    decreases n,
{
    if n < 10 {
        seq![decimal_digit(n)]
    } else {
        decimal(n / 10).push(decimal_digit(n % 10))
    }
}

/// The digit for a number below ten.
pub open spec fn decimal_digit(n: nat) -> char {
    ('0' as nat + n) as char
}

fn digit(c: char, radix: u32) -> (v: Option<u32>)
    requires
        radix <= 36,
    ensures
        match v {
            Some(v) => digit_value(c, radix as nat) == Some(v as nat),
            None => digit_value(c, radix as nat) is None,
        },
{
    let v: u32 = if '0' <= c && c <= '9' {
        c as u32 - '0' as u32
    } else if 'a' <= c && c <= 'z' {
        c as u32 - 'a' as u32 + 10
    } else if 'A' <= c && c <= 'Z' {
        c as u32 - 'A' as u32 + 10
    } else {
        radix
    };
    if v < radix {
        Some(v)
    } else {
        None
    }
}

proof fn lemma_digits_value_monotonic(s: Seq<char>, radix: nat, i: int)
    requires
        0 <= i <= s.len(),
        radix > 0,
        digits_value(s, radix) is Some,
    ensures
        digits_value(s.take(i), radix) is Some,
        digits_value(s.take(i), radix)->0 <= digits_value(s, radix)->0,
    decreases s.len(),
{
    if i == s.len() {
        assert(s.take(i) =~= s);
    } else {
        lemma_digits_value_monotonic(s.drop_last(), radix, i);
        assert(s.drop_last().take(i) =~= s.take(i));
        let high = digits_value(s.drop_last(), radix)->0;
        assert(high <= high * radix) by (nonlinear_arith)
            requires
                radix > 0,
        ;
    }
}

/// Reads a number out of the characters from `from` on.
fn parse_digits(chars: &Vec<char>, from: usize, radix: u32, max: u64) -> (n: Option<u64>)
    requires
        from <= chars@.len(),
        2 <= radix <= 36,
    ensures
        ({
            let digits = chars@.skip(from as int);
            let value = digits_value(digits, radix as nat);
            match n {
                Some(n) => digits.len() > 0 && value == Some(n as nat) && n <= max,
                None => digits.len() == 0 || value is None || value->0 > max,
            }
        }),
{
    let ghost digits = chars@.skip(from as int);
    if from == chars.len() {
        return None;
    }
    let mut n: u64 = 0;
    let mut i: usize = from;
    while i < chars.len()
        invariant
            from <= i <= chars@.len(),
            digits == chars@.skip(from as int),
            2 <= radix <= 36,
            digits_value(digits.take(i - from), radix as nat) == Some(n as nat),
            n <= max,
        decreases chars@.len() - i,
    {
        let ghost taken = digits.take(i + 1 - from);
        proof {
            assert(taken.drop_last() =~= digits.take(i - from));
            assert(taken.last() == chars@[i as int]);
        }
        match digit(chars[i], radix) {
            None => {
                proof {
                    if digits_value(digits, radix as nat) is Some {
                        lemma_digits_value_monotonic(digits, radix as nat, i + 1 - from);
                    }
                }
                return None;
            },
            Some(d) => {
                assert(0 <= n * radix <= 0xffff_ffff_ffff_ffff * 36) by (nonlinear_arith)
                    requires
                        0 <= n <= 0xffff_ffff_ffff_ffff,
                        0 <= radix <= 36,
                ;
                let next: u128 = n as u128 * radix as u128 + d as u128;
                if next > max as u128 {
                    proof {
                        if digits_value(digits, radix as nat) is Some {
                            lemma_digits_value_monotonic(digits, radix as nat, i + 1 - from);
                        }
                    }
                    return None;
                }
                n = next as u64;
            },
        }
        i += 1;
    }
    assert(digits.take(chars@.len() - from) =~= digits);
    Some(n)
}

/// Reads a number of at most `max` in the given radix, as the integer types of the standard
/// library do.
pub fn parse_number(s: &str, radix: u32, max: u64) -> (n: Option<u64>)
    requires
        2 <= radix <= 36,
    ensures
        match n {
            Some(n) => parsed_number(s@, radix as nat, max as nat) == Some(n as nat),
            None => parsed_number(s@, radix as nat, max as nat) is None,
        },
{
    let chars = chars_of(s);
    let from: usize = if chars.len() > 0 && chars[0] == '+' {
        1
    } else {
        0
    };
    assert(s@.skip(0) =~= s@);
    parse_digits(&chars, from, radix, max)
}

/// The decimal text of a number.
pub fn decimal_string(n: u64) -> (s: String)
    ensures
        s@ == decimal(n as nat),
    decreases n,
{
    let mut s = if n < 10 {
        String::new()
    } else {
        decimal_string(n / 10)
    };
    let d: u8 = (n % 10) as u8;
    s.push((48u8 + d) as char);
    proof {
        assert(s@ =~= decimal(n as nat));
    }
    s
}

proof fn lemma_decimal_value(n: nat)
    ensures
        decimal(n).len() > 0,
        digits_value(decimal(n), 10) == Some(n),
        decimal(n)[0] != '+',
    decreases n,
{
    reveal_with_fuel(digits_value, 2);
    if n < 10 {
        assert(decimal(n).drop_last() =~= Seq::<char>::empty());
    } else {
        lemma_decimal_value(n / 10);
        assert(decimal(n).drop_last() =~= decimal(n / 10));
    }
}

/// Reading the decimal text of a number gives the number back.
pub proof fn law_decimal_parses_back(n: nat, max: nat)
    requires
        n <= max,
    ensures
        parsed_number(decimal(n), 10, max) == Some(n),
{
    lemma_decimal_value(n);
}

/// Appends the decimal text of a number.
pub fn append_decimal(s: &mut String, n: u64)
    ensures
        final(s)@ == old(s)@ + decimal(n as nat),
{
    let d = decimal_string(n);
    s.append(d.as_str());
}

/// What follows a prefix.
pub fn strip_prefix(s: &str, prefix: &str) -> (r: Option<String>)
    ensures
        match r {
            Some(rest) => prefix@.is_prefix_of(s@) && rest@ == s@.skip(prefix@.len() as int),
            None => !prefix@.is_prefix_of(s@),
        },
{
    let chars = chars_of(s);
    let wanted = chars_of(prefix);
    if wanted.len() > chars.len() {
        return None;
    }
    for i in 0..wanted.len()
        invariant
            chars@ == s@,
            wanted@ == prefix@,
            wanted@.len() <= chars@.len(),
            forall|j: int| 0 <= j < i ==> wanted@[j] == chars@[j],
    {
        if wanted[i] != chars[i] {
            assert(s@.take(prefix@.len() as int)[i as int] != prefix@[i as int]);
            return None;
        }
    }
    assert(prefix@ =~= s@.take(prefix@.len() as int));
    let rest = string_of(&chars, wanted.len(), chars.len());
    assert(rest@ =~= s@.skip(prefix@.len() as int));
    Some(rest)
}

/// Whether the pattern stands at this place.
pub open spec fn occurs_at(s: Seq<char>, pattern: Seq<char>, at: int) -> bool {
    &&& 0 <= at
    &&& at + pattern.len() <= s.len()
    &&& s.subrange(at, at + pattern.len()) == pattern
}

/// Whether the pattern stands anywhere.
pub open spec fn occurs(s: Seq<char>, pattern: Seq<char>) -> bool {
    exists|at: int| #[trigger] occurs_at(s, pattern, at)
}

/// Whether the pattern stands at this place.
pub fn is_at(s: &Vec<char>, pattern: &Vec<char>, at: usize) -> (r: bool)
    ensures
        r == occurs_at(s@, pattern@, at as int),
{
    if pattern.len() > s.len() || at > s.len() - pattern.len() {
        return false;
    }
    let n: usize = s.len();
    for i in 0..pattern.len()
        invariant
            n == s@.len(),
            at + pattern@.len() <= n,
            forall|j: int| 0 <= j < i ==> s@[at + j] == pattern@[j],
    {
        if s[at + i] != pattern[i] {
            assert(s@.subrange(at as int, at + pattern@.len())[i as int] != pattern@[i as int]);
            return false;
        }
    }
    assert(s@.subrange(at as int, at + pattern@.len()) =~= pattern@);
    true
}

/// Whether the text starts with the prefix.
pub fn starts_with(s: &str, prefix: &str) -> (r: bool)
    ensures
        r == occurs_at(s@, prefix@, 0),
{
    is_at(&chars_of(s), &chars_of(prefix), 0)
}

/// The first place at or behind `from` at which the pattern stands.
pub open spec fn first_from(s: Seq<char>, pattern: Seq<char>, from: int) -> Option<int>
    decreases s.len() - from + 1,
{
    if from > s.len() {
        None
    } else if occurs_at(s, pattern, from) {
        Some(from)
    } else {
        first_from(s, pattern, from + 1)
    }
}

/// The last place at or before `from` at which the pattern stands.
pub open spec fn last_from(s: Seq<char>, pattern: Seq<char>, from: int) -> Option<int>
    decreases from + 1,
{
    if from < 0 {
        None
    } else if occurs_at(s, pattern, from) {
        Some(from)
    } else {
        last_from(s, pattern, from - 1)
    }
}

/// The first place at which the pattern stands.
pub open spec fn first_occurrence(s: Seq<char>, pattern: Seq<char>) -> Option<int> {
    first_from(s, pattern, 0)
}

/// The last place at which the pattern stands.
pub open spec fn last_occurrence(s: Seq<char>, pattern: Seq<char>) -> Option<int> {
    last_from(s, pattern, s.len() as int)
}

proof fn lemma_first_from(s: Seq<char>, pattern: Seq<char>, from: int)
    requires
        0 <= from,
    ensures
        match first_from(s, pattern, from) {
            Some(at) => from <= at && occurs_at(s, pattern, at),
            None => forall|at: int| from <= at ==> !occurs_at(s, pattern, at),
        },
    decreases s.len() - from + 1,
{
    if from <= s.len() && !occurs_at(s, pattern, from) {
        lemma_first_from(s, pattern, from + 1);
    }
}

/// The pattern stands at its first place, and nowhere where there is none.
pub proof fn lemma_first_occurrence(s: Seq<char>, pattern: Seq<char>)
    ensures
        match first_occurrence(s, pattern) {
            Some(at) => occurs_at(s, pattern, at),
            None => !occurs(s, pattern),
        },
{
    lemma_first_from(s, pattern, 0);
}

/// The first place at which the pattern stands.
pub fn find(s: &Vec<char>, pattern: &Vec<char>) -> (r: Option<usize>)
    ensures
        match r {
            Some(at) => first_occurrence(s@, pattern@) == Some(at as int) && occurs_at(
                s@,
                pattern@,
                at as int,
            ) && occurs(s@, pattern@),
            None => first_occurrence(s@, pattern@) is None && !occurs(s@, pattern@),
        },
{
    let mut i: usize = 0;
    proof {
        lemma_first_from(s@, pattern@, 0);
    }
    loop
        invariant
            i <= s@.len(),
            first_occurrence(s@, pattern@) == first_from(s@, pattern@, i as int),
            forall|j: int| 0 <= j < i ==> !occurs_at(s@, pattern@, j),
        decreases s@.len() - i,
    {
        if is_at(s, pattern, i) {
            return Some(i);
        }
        if i == s.len() {
            proof {
                reveal_with_fuel(first_from, 3);
            }
            return None;
        }
        i += 1;
    }
}

/// The last place at which the pattern stands.
pub fn rfind(s: &Vec<char>, pattern: &Vec<char>) -> (r: Option<usize>)
    ensures
        match r {
            Some(at) => last_occurrence(s@, pattern@) == Some(at as int) && occurs_at(
                s@,
                pattern@,
                at as int,
            ),
            None => last_occurrence(s@, pattern@) is None && !occurs(s@, pattern@),
        },
{
    let mut i: usize = s.len();
    loop
        invariant
            i <= s@.len(),
            last_occurrence(s@, pattern@) == last_from(s@, pattern@, i as int),
            forall|j: int| i < j ==> !occurs_at(s@, pattern@, j),
        decreases i,
    {
        if is_at(s, pattern, i) {
            return Some(i);
        }
        if i == 0 {
            proof {
                reveal_with_fuel(last_from, 3);
            }
            return None;
        }
        i -= 1;
    }
}

/// Whether the pattern stands anywhere in the text.
pub fn contains(s: &str, pattern: &str) -> (r: bool)
    ensures
        r == occurs(s@, pattern@),
{
    let chars = chars_of(s);
    let wanted = chars_of(pattern);
    find(&chars, &wanted).is_some()
}

/// The text with each occurrence of a pattern replaced, from the left.
pub open spec fn replaced(s: Seq<char>, from: Seq<char>, to: Seq<char>) -> Seq<char>
    decreases s.len(),
{
    if s.len() == 0 || from.len() == 0 {
        s
    } else if occurs_at(s, from, 0) {
        to + replaced(s.skip(from.len() as int), from, to)
    } else {
        seq![s[0]] + replaced(s.skip(1), from, to)
    }
}

/// The text with each occurrence of a pattern replaced, from the left.
pub fn replace(s: &str, from: &str, to: &str) -> (r: String)
    requires
        from@.len() > 0,
    ensures
        r@ == replaced(s@, from@, to@),
{
    let chars = chars_of(s);
    let pattern = chars_of(from);
    let n: usize = chars.len();
    let mut r = "".to_owned();
    let mut i: usize = 0;
    proof {
        reveal_strlit("");
        assert(s@.skip(0) =~= s@);
        assert(r@ + replaced(s@, from@, to@) =~= replaced(s@, from@, to@));
    }
    while i < n
        invariant
            chars@ == s@,
            pattern@ == from@,
            from@.len() > 0,
            n == chars@.len(),
            i <= n,
            r@ + replaced(s@.skip(i as int), from@, to@) == replaced(s@, from@, to@),
        decreases n - i,
    {
        let ghost rest = s@.skip(i as int);
        let ghost done = r@;
        let here = is_at(&chars, &pattern, i);
        proof {
            assert(rest.len() > 0);
            if i + from@.len() <= n {
                assert(s@.subrange(i as int, i + from@.len()) =~= rest.subrange(
                    0,
                    from@.len() as int,
                ));
            }
            assert(here == occurs_at(rest, from@, 0));
        }
        if here {
            r.append(to);
            i = i + pattern.len();
            proof {
                assert(rest.skip(from@.len() as int) =~= s@.skip(i as int));
                assert(r@ + replaced(s@.skip(i as int), from@, to@) =~= done + (to@ + replaced(
                    rest.skip(from@.len() as int),
                    from@,
                    to@,
                )));
            }
        } else {
            r.push(chars[i]);
            i = i + 1;
            proof {
                assert(rest.skip(1) =~= s@.skip(i as int));
                assert(r@ + replaced(s@.skip(i as int), from@, to@) =~= done + (seq![rest[0]]
                    + replaced(rest.skip(1), from@, to@)));
            }
        }
    }
    proof {
        assert(s@.skip(n as int) =~= Seq::empty());
        assert(r@ + replaced(s@.skip(n as int), from@, to@) =~= r@);
    }
    r
}

/// A pattern that does not occur is not replaced.
pub proof fn law_replaced_absent(s: Seq<char>, from: Seq<char>, to: Seq<char>)
    requires
        !occurs(s, from),
    ensures
        replaced(s, from, to) == s,
    decreases s.len(),
{
    if s.len() > 0 && from.len() > 0 {
        if occurs(s.skip(1), from) {
            let at = choose|at: int| occurs_at(s.skip(1), from, at);
            assert(s.skip(1).subrange(at, at + from.len()) =~= s.subrange(
                at + 1,
                at + 1 + from.len(),
            ));
            assert(occurs_at(s, from, at + 1));
        }
        law_replaced_absent(s.skip(1), from, to);
        assert(seq![s[0]] + s.skip(1) =~= s);
    }
}

/// Whether the character is white space.
pub open spec fn is_space(c: char) -> bool {
    ||| 0x9 <= c as u32 <= 0xd
    ||| c as u32 == 0x20
    ||| c as u32 == 0x85
    ||| c as u32 == 0xa0
    ||| c as u32 == 0x1680
    ||| 0x2000 <= c as u32 <= 0x200a
    ||| c as u32 == 0x2028
    ||| c as u32 == 0x2029
    ||| c as u32 == 0x202f
    ||| c as u32 == 0x205f
    ||| c as u32 == 0x3000
}

fn is_white(c: char) -> (r: bool)
    ensures
        r == is_space(c),
{
    let n: u32 = c as u32;
    (0x9 <= n && n <= 0xd) || n == 0x20 || n == 0x85 || n == 0xa0 || n == 0x1680 || (0x2000 <= n
        && n <= 0x200a) || n == 0x2028 || n == 0x2029 || n == 0x202f || n == 0x205f || n == 0x3000
}

/// A text without white space at its start.
pub open spec fn trimmed_start(s: Seq<char>) -> Seq<char>
    decreases s.len(),
{
    if s.len() > 0 && is_space(s[0]) {
        trimmed_start(s.skip(1))
    } else {
        s
    }
}

/// A text without white space at its end.
pub open spec fn trimmed_end(s: Seq<char>) -> Seq<char>
    decreases s.len(),
{
    if s.len() > 0 && is_space(s.last()) {
        trimmed_end(s.drop_last())
    } else {
        s
    }
}

/// A text without white space at its start and end.
pub open spec fn trimmed(s: Seq<char>) -> Seq<char> {
    trimmed_end(trimmed_start(s))
}

/// The text without white space at its start and end.
pub fn trim(s: &str) -> (r: String)
    ensures
        r@ == trimmed(s@),
{
    let chars = chars_of(s);
    let ghost all = chars@;
    let mut from: usize = 0;
    assert(all.skip(0) =~= all);
    while from < chars.len() && is_white(chars[from])
        invariant
            all == chars@,
            from <= all.len(),
            trimmed_start(all) == trimmed_start(all.skip(from as int)),
        decreases all.len() - from,
    {
        assert(all.skip(from as int).skip(1) =~= all.skip(from + 1));
        from += 1;
    }
    let ghost rest = all.skip(from as int);
    assert(trimmed_start(all) == rest);
    let mut to: usize = chars.len();
    assert(all.subrange(from as int, to as int) =~= rest);
    while from < to && is_white(chars[to - 1])
        invariant
            all == chars@,
            from <= to <= all.len(),
            trimmed_end(rest) == trimmed_end(all.subrange(from as int, to as int)),
        decreases to,
    {
        assert(all.subrange(from as int, to as int).drop_last() =~= all.subrange(
            from as int,
            to - 1,
        ));
        to -= 1;
    }
    string_of(&chars, from, to)
}

/// The text without white space at its end.
pub fn trim_end(s: &str) -> (r: String)
    ensures
        r@ == trimmed_end(s@),
{
    let chars = chars_of(s);
    let ghost all = chars@;
    let mut to: usize = chars.len();
    assert(all.take(to as int) =~= all);
    while to > 0 && is_white(chars[to - 1])
        invariant
            all == chars@,
            to <= all.len(),
            trimmed_end(all) == trimmed_end(all.take(to as int)),
        decreases to,
    {
        assert(all.take(to as int).drop_last() =~= all.take(to - 1));
        to -= 1;
    }
    assert(all.subrange(0, to as int) =~= all.take(to as int));
    string_of(&chars, 0, to)
}

/// Whether the first text comes before the second, by their first characters that differ.
pub open spec fn precedes(a: Seq<char>, b: Seq<char>) -> bool
    decreases a.len(),
{
    if b.len() == 0 {
        false
    } else if a.len() == 0 {
        true
    } else if a[0] != b[0] {
        a[0] < b[0]
    } else {
        precedes(a.skip(1), b.skip(1))
    }
}

/// Whether the first text comes before the second.
pub fn is_before(a: &str, b: &str) -> (r: bool)
    ensures
        r == precedes(a@, b@),
{
    let x = chars_of(a);
    let y = chars_of(b);
    let mut i: usize = 0;
    proof {
        assert(a@.skip(0) =~= a@);
        assert(b@.skip(0) =~= b@);
    }
    loop
        invariant
            x@ == a@,
            y@ == b@,
            i <= a@.len(),
            i <= b@.len(),
            precedes(a@, b@) == precedes(a@.skip(i as int), b@.skip(i as int)),
        decreases a@.len() - i,
    {
        if i == y.len() {
            return false;
        }
        if i == x.len() {
            return true;
        }
        if x[i] != y[i] {
            return x[i] < y[i];
        }
        proof {
            assert(a@.skip(i as int).skip(1) =~= a@.skip(i + 1));
            assert(b@.skip(i as int).skip(1) =~= b@.skip(i + 1));
        }
        i += 1;
    }
}

/// Of two texts that differ, one comes before the other, and not the other way round.
pub proof fn law_precedes(a: Seq<char>, b: Seq<char>)
    ensures
        a != b ==> (precedes(a, b) <==> !precedes(b, a)),
        a == b ==> !precedes(a, b),
    decreases a.len(),
{
    if a.len() > 0 && b.len() > 0 && a[0] == b[0] {
        law_precedes(a.skip(1), b.skip(1));
        if a.skip(1) == b.skip(1) {
            assert(a =~= seq![a[0]] + a.skip(1));
            assert(b =~= seq![b[0]] + b.skip(1));
        }
    } else if a.len() == 0 && b.len() == 0 {
        assert(a =~= b);
    }
}

/// What comes before what comes before a text comes before it.
pub proof fn law_precedes_is_transitive(a: Seq<char>, b: Seq<char>, c: Seq<char>)
    requires
        precedes(a, b),
        precedes(b, c),
    ensures
        precedes(a, c),
    decreases a.len(),
{
    if a.len() > 0 && a[0] == b[0] && b[0] == c[0] {
        law_precedes_is_transitive(a.skip(1), b.skip(1), c.skip(1));
    }
}

/// A text has no white space at its ends after trimming, and trimming once is enough.
pub proof fn law_trim(s: Seq<char>)
    ensures
        trimmed(s).len() > 0 ==> !is_space(trimmed(s)[0]) && !is_space(trimmed(s).last()),
        trimmed(trimmed(s)) == trimmed(s),
{
    lemma_trimmed_start(s);
    lemma_trimmed_end(trimmed_start(s));
}

proof fn lemma_trimmed_start(s: Seq<char>)
    ensures
        trimmed_start(s).len() > 0 ==> !is_space(trimmed_start(s)[0]),
    decreases s.len(),
{
    if s.len() > 0 && is_space(s[0]) {
        lemma_trimmed_start(s.skip(1));
    }
}

proof fn lemma_trimmed_end(s: Seq<char>)
    ensures
        trimmed_end(s).len() > 0 ==> !is_space(trimmed_end(s).last()) && trimmed_end(s)[0] == s[0],
    decreases s.len(),
{
    if s.len() > 0 && is_space(s.last()) {
        lemma_trimmed_end(s.drop_last());
    }
}

/// The lower case of an ASCII letter, and any other character itself.
pub open spec fn ascii_lower(c: char) -> char {
    if 'A' <= c <= 'Z' {
        ((c as u32) + 32) as char
    } else {
        c
    }
}

/// Whether the texts are the same but for the case of ASCII letters.
pub open spec fn same_but_case(a: Seq<char>, b: Seq<char>) -> bool {
    &&& a.len() == b.len()
    &&& forall|i: int|
        0 <= i < a.len() ==> ascii_lower(#[trigger] a[i]) == ascii_lower(b[i])
}

fn lower(c: char) -> (r: char)
    ensures
        r == ascii_lower(c),
{
    if 'A' <= c && c <= 'Z' {
        (c as u8 + 32) as char
    } else {
        c
    }
}

/// Whether the texts are the same but for the case of ASCII letters.
pub fn eq_ignore_case(a: &str, b: &str) -> (r: bool)
    ensures
        r == same_but_case(a@, b@),
{
    let x = chars_of(a);
    let y = chars_of(b);
    if x.len() != y.len() {
        return false;
    }
    for i in 0..x.len()
        invariant
            x@ == a@,
            y@ == b@,
            x@.len() == y@.len(),
            forall|j: int| 0 <= j < i ==> ascii_lower(#[trigger] x@[j]) == ascii_lower(y@[j]),
    {
        if lower(x[i]) != lower(y[i]) {
            assert(ascii_lower(a@[i as int]) != ascii_lower(b@[i as int]));
            return false;
        }
    }
    true
}

/// The texts of a list of strings.
pub open spec fn texts(strings: Seq<String>) -> Seq<Seq<char>> {
    strings.map_values(|s: String| s@)
}

/// The texts of a list of pairs of strings.
pub open spec fn pair_texts(pairs: Seq<(String, String)>) -> Seq<(Seq<char>, Seq<char>)> {
    pairs.map_values(|p: (String, String)| (p.0@, p.1@))
}

/// A copy of the pairs.
pub fn copy_pairs(pairs: &Vec<(String, String)>) -> (r: Vec<(String, String)>)
    ensures
        pair_texts(r@) == pair_texts(pairs@),
{
    let mut r: Vec<(String, String)> = Vec::new();
    for i in 0..pairs.len()
        invariant
            r@.len() == i,
            forall|j: int|
                0 <= j < i ==> (#[trigger] r@[j]).0@ == pairs@[j].0@ && r@[j].1@ == pairs@[j].1@,
    {
        r.push((pairs[i].0.clone(), pairs[i].1.clone()));
    }
    assert(pair_texts(r@) =~= pair_texts(pairs@));
    r
}

/// A copy of the strings.
pub fn copy_strings(strings: &Vec<String>) -> (r: Vec<String>)
    ensures
        texts(r@) == texts(strings@),
{
    let mut r: Vec<String> = Vec::new();
    for i in 0..strings.len()
        invariant
            r@.len() == i,
            forall|j: int| 0 <= j < i ==> (#[trigger] r@[j])@ == strings@[j]@,
    {
        r.push(strings[i].clone());
    }
    assert(texts(r@) =~= texts(strings@));
    r
}

/// Whether the text is among the strings.
pub fn has_string(strings: &Vec<String>, s: &str) -> (r: bool)
    ensures
        r == texts(strings@).contains(s@),
{
    let ghost views = texts(strings@);
    for i in 0..strings.len()
        invariant
            views == texts(strings@),
            forall|j: int| 0 <= j < i ==> views[j] != s@,
    {
        if str_eq(strings[i].as_str(), s) {
            assert(views[i as int] == s@);
            return true;
        }
    }
    false
}

/// A pattern that stands at a place and at none before is found there, and a pattern that is found
/// stands there and nowhere before.
pub proof fn law_first_occurrence_is_first(s: Seq<char>, pattern: Seq<char>, at: int)
    ensures
        first_occurrence(s, pattern) == Some(at) <==> occurs_at(s, pattern, at) && forall|j: int|
            0 <= j < at ==> !occurs_at(s, pattern, j),
        first_occurrence(s, pattern) is None ==> !occurs_at(s, pattern, at),
{
    lemma_first_from_is_first(s, pattern, 0, at);
    lemma_first_from(s, pattern, 0);
}

proof fn lemma_first_from_is_first(s: Seq<char>, pattern: Seq<char>, from: int, at: int)
    requires
        0 <= from,
    ensures
        from <= at ==> (first_from(s, pattern, from) == Some(at) <==> occurs_at(s, pattern, at)
            && forall|j: int| from <= j < at ==> !occurs_at(s, pattern, j)),
        first_from(s, pattern, from) matches Some(x) ==> from <= x,
    decreases s.len() - from + 1,
{
    if from <= s.len() && !occurs_at(s, pattern, from) {
        lemma_first_from_is_first(s, pattern, from + 1, at);
    }
}

/// A pattern that stands at a place and at none behind it is found there from the end, and a
/// pattern that is found so stands there and nowhere behind.
pub proof fn law_last_occurrence_is_last(s: Seq<char>, pattern: Seq<char>, at: int)
    ensures
        last_occurrence(s, pattern) == Some(at) <==> occurs_at(s, pattern, at) && forall|j: int|
            at < j <= s.len() ==> !occurs_at(s, pattern, j),
        last_occurrence(s, pattern) is None ==> !occurs_at(s, pattern, at),
{
    lemma_last_from_is_last(s, pattern, s.len() as int, at);
}

proof fn lemma_last_from_is_last(s: Seq<char>, pattern: Seq<char>, from: int, at: int)
    requires
        from <= s.len(),
    ensures
        at <= from ==> (last_from(s, pattern, from) == Some(at) <==> occurs_at(s, pattern, at)
            && forall|j: int| at < j <= from ==> !occurs_at(s, pattern, j)),
        last_from(s, pattern, from) is None && at <= from ==> !occurs_at(s, pattern, at),
        last_from(s, pattern, from) matches Some(x) ==> x <= from,
    decreases from + 1,
{
    if from >= 0 && !occurs_at(s, pattern, from) {
        lemma_last_from_is_last(s, pattern, from - 1, at);
    }
}

/// A pattern stands at a place exactly if the text has its characters from there on.
pub proof fn law_patterns_stand_by_characters(
    before: Seq<char>,
    pattern: Seq<char>,
    after: Seq<char>,
    i: int,
)
    ensures
        occurs_at(before + pattern + after, pattern, before.len() as int),
        occurs(before + pattern + after, pattern),
        0 <= i < pattern.len() && occurs_at(after, pattern, 0) ==> after[i] == pattern[i],
{
    let all = before + pattern + after;
    let at = before.len() as int;
    assert(all.subrange(at, at + pattern.len()) =~= pattern);
    assert(occurs_at(all, pattern, at));
    if 0 <= i < pattern.len() && occurs_at(after, pattern, 0) {
        assert(after.subrange(0, pattern.len() as int)[i] == after[i]);
    }
}

/// The first occurrence of a pattern is replaced, and then those behind it.
pub proof fn law_replaced_one_by_one(
    before: Seq<char>,
    from: Seq<char>,
    to: Seq<char>,
    after: Seq<char>,
)
    requires
        from.len() > 0,
        first_occurrence(before + from + after, from) == Some(before.len() as int),
    ensures
        replaced(before + from + after, from, to) == before + to + replaced(after, from, to),
    decreases before.len(),
{
    let all = before + from + after;
    law_first_occurrence_is_first(all, from, before.len() as int);
    if before.len() == 0 {
        assert(all.skip(from.len() as int) =~= after);
        assert(to + replaced(after, from, to) =~= before + to + replaced(after, from, to));
    } else {
        let rest = before.skip(1);
        assert(!occurs_at(all, from, 0));
        assert(all.skip(1) =~= rest + from + after);
        let shorter = rest + from + after;
        assert(shorter.subrange(rest.len() as int, (rest.len() + from.len()) as int) =~= from);
        assert forall|j: int| 0 <= j < rest.len() implies !occurs_at(shorter, from, j) by {
            if occurs_at(shorter, from, j) {
                assert(all.subrange(j + 1, j + 1 + from.len()) =~= shorter.subrange(
                    j,
                    j + from.len(),
                ));
                assert(occurs_at(all, from, j + 1));
            }
        }
        law_first_occurrence_is_first(shorter, from, rest.len() as int);
        law_replaced_one_by_one(rest, from, to, after);
        assert(seq![all[0]] + (rest + to + replaced(after, from, to)) =~= before + to + replaced(
            after,
            from,
            to,
        ));
    }
}

/// Trimming takes nothing but white space away, and only at the ends.
pub proof fn law_trim_takes_white_space(s: Seq<char>)
    ensures
        exists|k: int|
            0 <= k <= s.len() && trimmed_end(s) == #[trigger] s.take(k) && forall|j: int|
                k <= j < s.len() ==> is_space(#[trigger] s[j]),
        trimmed_end(s).len() > 0 ==> !is_space(trimmed_end(s).last()),
        exists|k: int|
            0 <= k <= s.len() && trimmed_start(s) == #[trigger] s.skip(k) && forall|j: int|
                0 <= j < k ==> is_space(#[trigger] s[j]),
        trimmed_start(s).len() > 0 ==> !is_space(trimmed_start(s)[0]),
        trimmed(s) == trimmed_end(trimmed_start(s)),
    decreases s.len(),
{
    assert(s.take(s.len() as int) =~= s);
    assert(s.skip(0) =~= s);
    if s.len() > 0 && is_space(s.last()) {
        let rest = s.drop_last();
        law_trim_takes_white_space(rest);
        let k = choose|k: int|
            0 <= k <= rest.len() && trimmed_end(rest) == #[trigger] rest.take(k) && forall|j: int|
                k <= j < rest.len() ==> is_space(#[trigger] rest[j]);
        assert(s.take(k) =~= rest.take(k));
        assert forall|j: int| k <= j < s.len() implies is_space(#[trigger] s[j]) by {
            if j < rest.len() {
                assert(rest[j] == s[j]);
            }
        }
    }
    if s.len() > 0 && is_space(s[0]) {
        let rest = s.skip(1);
        law_trim_takes_white_space(rest);
        let k = choose|k: int|
            0 <= k <= rest.len() && trimmed_start(rest) == #[trigger] rest.skip(k) && forall|j: int|
                0 <= j < k ==> is_space(#[trigger] rest[j]);
        assert(s.skip(k + 1) =~= rest.skip(k));
        assert forall|j: int| 0 <= j < k + 1 implies is_space(#[trigger] s[j]) by {
            if j > 0 {
                assert(rest[j - 1] == s[j]);
            }
        }
    }
}

/// A number is read digit by digit, most significant first, and a text with anything else in it is
/// no number.
pub proof fn law_numbers_are_read_by_digits(s: Seq<char>, c: char, radix: nat, max: nat)
    requires
        2 <= radix <= 36,
    ensures
        parsed_number(Seq::empty(), radix, max) is None,
        parsed_number(seq!['+'], radix, max) is None,
        digit_value(c, radix) is None && s.len() > 0 ==> parsed_number(s.push(c), radix, max)
            is None,
        parsed_number(s, radix, max) matches Some(high) ==> (digit_value(c, radix) matches Some(
            low,
        ) ==> parsed_number(s.push(c), radix, max) == if high * radix + low <= max {
            Some(high * radix + low)
        } else {
            None
        }),
        parsed_number(s, radix, max) matches Some(n) ==> n <= max,
        s.len() > 0 && s[0] != '+' ==> parsed_number(seq!['+'] + s, radix, max) == parsed_number(
            s,
            radix,
            max,
        ),
{
    let plus = seq!['+'];
    assert(plus.skip(1) =~= Seq::<char>::empty());
    assert((plus + s).skip(1) =~= s);
    if s.len() > 0 {
        let digits = if s[0] == '+' {
            s.skip(1)
        } else {
            s
        };
        let more = if s[0] == '+' {
            s.push(c).skip(1)
        } else {
            s.push(c)
        };
        assert(s.push(c)[0] == s[0]);
        assert(more =~= digits.push(c));
        assert(more.drop_last() =~= digits);
    }
}

/// The digits are those of the ten figures and, beyond nine, of the letters of either case.
pub proof fn law_digits(c: char, radix: nat)
    requires
        2 <= radix <= 36,
    ensures
        digit_value(c, radix) matches Some(v) ==> v < radix,
        digit_value('0', radix) == Some(0nat),
        digit_value('1', radix) == Some(1nat),
        radix >= 10 && '0' <= c <= '9' ==> digit_value(c, radix) == Some(
            (c as int - 0x30) as nat,
        ),
        'a' <= c <= 'z' && c as int - 0x61 + 10 < radix ==> digit_value(c, radix) == Some(
            (c as int - 0x61 + 10) as nat,
        ),
        'A' <= c <= 'Z' && c as int - 0x41 + 10 < radix ==> digit_value(c, radix) == Some(
            (c as int - 0x41 + 10) as nat,
        ),
        !('0' <= c <= '9' || 'a' <= c <= 'z' || 'A' <= c <= 'Z') ==> digit_value(c, radix) is None,
{
}

/// Texts are ordered by the first character in which they differ, and a text comes before all that
/// go on from it.
pub proof fn law_order_by_first_difference(
    common: Seq<char>,
    a: char,
    b: char,
    x: Seq<char>,
    y: Seq<char>,
)
    requires
        a < b,
    ensures
        precedes(common + seq![a] + x, common + seq![b] + y),
        precedes(common, common + seq![a] + x),
    decreases common.len(),
{
    let left = common + seq![a] + x;
    let right = common + seq![b] + y;
    if common.len() > 0 {
        let rest = common.skip(1);
        assert(left.skip(1) =~= rest + seq![a] + x);
        assert(right.skip(1) =~= rest + seq![b] + y);
        law_order_by_first_difference(rest, a, b, x, y);
    }
}

/// Letters that differ by their case alone are taken for the same, and no other characters are.
pub proof fn law_case_is_ignored(a: char, b: char)
    ensures
        same_but_case(seq![a], seq![b]) <==> {
            ||| a == b
            ||| 'a' <= a <= 'z' && b as int == a as int - 32
            ||| 'A' <= a <= 'Z' && b as int == a as int + 32
        },
{
    assert(seq![a][0] == a && seq![b][0] == b);
    if ascii_lower(a) == ascii_lower(b) {
        assert forall|i: int| 0 <= i < 1 implies ascii_lower(#[trigger] seq![a][i]) == ascii_lower(
            seq![b][i],
        ) by {}
    }
}

/// The decimal text of a number has digits alone.
pub proof fn law_decimal_has_digits(n: nat, i: int)
    requires
        0 <= i < decimal(n).len(),
    ensures
        '0' <= decimal(n)[i],
        decimal(n)[i] <= '9',
    decreases n,
{
    if n >= 10 && i < decimal(n).len() - 1 {
        law_decimal_has_digits(n / 10, i);
    }
}

} // verus!
