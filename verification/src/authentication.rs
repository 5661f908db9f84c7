//! Who may see what: roles that are read out of a token's claims and held against access lists.

use std::sync::Arc;

use vstd::prelude::*;

use crate::registry::{share, Verifier};
use crate::text::{
    first_occurrence, has_string, law_first_occurrence_is_first, law_replaced_absent, lemma_first_occurrence, occurs, occurs_at,
    parsed_number, replaced, str_eq, texts,
};

verus! {

/// `serde_json::Value`: a tree of JSON values.
#[verifier::external_type_specification]
#[verifier::external_body]
pub struct ExJsonValue(serde_json::Value);

/// A number in the forms in which it can be compared.
#[derive(Copy, Clone, Debug, PartialEq, Eq, Structural)]
pub struct Number {
    /// The number, where it is a whole one that 64 bits without sign hold.
    pub unsigned: Option<u64>,
    /// The number, where it is a whole one that 64 bits with sign hold.
    pub signed: Option<i64>,
    /// The bits of the number as an IEEE 754 double, where it can be one.
    pub bits: Option<u64>,
}

/// A tree of JSON values.
pub enum JsonView {
    /// Nothing.
    Null,
    /// True or false.
    Bool(bool),
    /// A number.
    Number(Number),
    /// A text.
    Text(Seq<char>),
    /// A list.
    Array(Seq<JsonView>),
    /// Values by their names.
    Object(Map<Seq<char>, JsonView>),
}

/// What a tree of JSON values holds.
pub uninterp spec fn json_view(value: serde_json::Value) -> JsonView;

/// The place in a list that a token of a JSON pointer stands for: a decimal number without a
/// sign and without zeros in front.
pub open spec fn token_index(token: Seq<char>) -> Option<nat> {
    if token.len() > 0 && (token[0] == '+' || (token[0] == '0' && token.len() != 1)) {
        None
    } else {
        parsed_number(token, 10, usize::MAX as nat)
    }
}

/// The value that a token of a JSON pointer leads to.
pub open spec fn member(value: JsonView, token: Seq<char>) -> Option<JsonView> {
    match value {
        JsonView::Object(fields) => if fields.contains_key(token) {
            Some(fields[token])
        } else {
            None
        },
        JsonView::Array(list) => match token_index(token) {
            Some(i) => if i < list.len() {
                Some(list[i as int])
            } else {
                None
            },
            None => None,
        },
        _ => None,
    }
}

/// A token of a JSON pointer, with `~1` standing for a slash and `~0` for a tilde.
pub open spec fn unescaped(token: Seq<char>) -> Seq<char> {
    replaced(replaced(token, "~1"@, "/"@), "~0"@, "~"@)
}

/// The value that tokens with slashes between them lead to, one after the other.
pub open spec fn followed(value: JsonView, tokens: Seq<char>) -> Option<JsonView>
    decreases tokens.len(),
{
    match first_occurrence(tokens, seq!['/']) {
        Some(at) => if 0 <= at < tokens.len() {
            match member(value, unescaped(tokens.take(at))) {
                Some(next) => followed(next, tokens.skip(at + 1)),
                None => None,
            }
        } else {
            None
        },
        None => member(value, unescaped(tokens)),
    }
}

/// The value that a JSON pointer leads to: the whole document for an empty one, else what the
/// tokens behind its first slash lead to.
pub open spec fn pointed_at(document: JsonView, pointer: Seq<char>) -> Option<JsonView> {
    if pointer.len() == 0 {
        Some(document)
    } else if pointer[0] != '/' {
        None
    } else {
        followed(document, pointer.skip(1))
    }
}

/// A slash and the name of a field lead to the field, where the name has no slash and no tilde.
pub proof fn law_pointer_to_field(fields: Map<Seq<char>, JsonView>, name: Seq<char>)
    requires
        !name.contains('/'),
        !name.contains('~'),
    ensures
        pointed_at(JsonView::Object(fields), seq!['/'] + name) == if fields.contains_key(name) {
            Some(fields[name])
        } else {
            None
        },
{
    assert((seq!['/'] + name).skip(1) =~= name);
    reveal_strlit("~1");
    reveal_strlit("~0");
    lemma_absent(name, seq!['/'], '/');
    lemma_absent(name, "~1"@, '~');
    lemma_absent(name, "~0"@, '~');
    law_replaced_absent(name, "~1"@, "/"@);
    law_replaced_absent(name, "~0"@, "~"@);
}

proof fn lemma_absent(s: Seq<char>, pattern: Seq<char>, c: char)
    requires
        pattern.len() > 0,
        pattern[0] == c,
        !s.contains(c),
    ensures
        !occurs(s, pattern),
        first_occurrence(s, pattern) is None,
{
    assert forall|at: int| !occurs_at(s, pattern, at) by {
        if occurs_at(s, pattern, at) {
            assert(s.subrange(at, at + pattern.len())[0] == s[at]);
            assert(s.contains(s[at]));
        }
    }
    lemma_first_occurrence(s, pattern);
}

/// `serde_json::Value::pointer` gives the value that a JSON pointer leads to, if there is one.
#[verifier::external_body]
fn pointer<'a>(value: &'a serde_json::Value, path: &str) -> (r: Option<&'a serde_json::Value>)
    ensures
        match r {
            Some(found) => pointed_at(json_view(*value), path@) == Some(json_view(*found)),
            None => pointed_at(json_view(*value), path@) is None,
        },
{
    value.pointer(path)
}

/// `serde_json::Value::as_array` gives the elements of a list, and nothing for all else.
#[verifier::external_body]
fn elements(value: &serde_json::Value) -> (r: Option<&Vec<serde_json::Value>>)
    ensures
        match r {
            Some(list) => json_view(*value) == JsonView::Array(
                list@.map_values(|v: serde_json::Value| json_view(v)),
            ),
            None => !(json_view(*value) is Array),
        },
{
    value.as_array()
}

/// The variants of `serde_json::Value` that hold one value, with a number in all forms that
/// `as_u64`, `as_i64` and `as_f64` of `serde_json::Number` give.
#[verifier::external_body]
fn scalar(value: &serde_json::Value) -> (r: ClaimScalar)
    ensures
        r@ == scalar_of(json_view(*value)),
{
    match value {
        serde_json::Value::Bool(b) => ClaimScalar::Bool(*b),
        serde_json::Value::Number(n) => ClaimScalar::Number(Number {
            unsigned: n.as_u64(),
            signed: n.as_i64(),
            bits: n.as_f64().map(|f| f.to_bits()),
        }),
        serde_json::Value::String(s) => ClaimScalar::Text(s.clone()),
        _ => ClaimScalar::Other,
    }
}

/// The tree cut down to one value, with nothing in place of a list or an object.
pub open spec fn scalar_of(value: JsonView) -> JsonView {
    match value {
        JsonView::Array(_) => JsonView::Null,
        JsonView::Object(_) => JsonView::Null,
        _ => value,
    }
}

/// One value of a claim.
#[derive(Debug)]
pub enum ClaimScalar {
    /// True or false.
    Bool(bool),
    /// A number.
    Number(Number),
    /// A text.
    Text(String),
    /// Something that is compared with nothing.
    Other,
}

impl View for ClaimScalar {
    type V = JsonView;

    open spec fn view(&self) -> JsonView {
        match *self {
            ClaimScalar::Bool(b) => JsonView::Bool(b),
            ClaimScalar::Number(n) => JsonView::Number(n),
            ClaimScalar::Text(s) => JsonView::Text(s@),
            ClaimScalar::Other => JsonView::Null,
        }
    }
}

/// The value of a claim.
#[derive(Debug)]
pub enum ClaimValue {
    /// One value.
    One(ClaimScalar),
    /// A list of values.
    List(Vec<ClaimScalar>),
}

/// A value that a claim is expected to have.
#[derive(Debug)]
pub enum Scalar {
    /// True or false.
    Bool(bool),
    /// A number.
    Number(Number),
    /// A text.
    Text(String),
}

/// The number without its sign bit.
pub open spec fn magnitude(bits: u64) -> int {
    bits as int % 0x8000_0000_0000_0000
}

/// Whether two doubles are equal: none is a NaN, and they have the same bits or are both zero.
pub open spec fn same_double(a: u64, b: u64) -> bool {
    &&& magnitude(a) <= 0x7ff0_0000_0000_0000
    &&& magnitude(b) <= 0x7ff0_0000_0000_0000
    &&& a == b || (magnitude(a) == 0 && magnitude(b) == 0)
}

/// Whether two numbers are equal, in the first form that both have.
pub open spec fn same_number(a: Number, b: Number) -> bool {
    if a.unsigned is Some && b.unsigned is Some {
        a.unsigned == b.unsigned
    } else if a.signed is Some && b.signed is Some {
        a.signed == b.signed
    } else if a.bits is Some && b.bits is Some {
        same_double(a.bits->0, b.bits->0)
    } else {
        false
    }
}

/// Whether a value is the expected one.
pub open spec fn is_expected(value: JsonView, expected: Scalar) -> bool {
    match (value, expected) {
        (JsonView::Bool(a), Scalar::Bool(b)) => a == b,
        (JsonView::Number(a), Scalar::Number(b)) => same_number(a, b),
        (JsonView::Text(a), Scalar::Text(b)) => a == b@,
        _ => false,
    }
}

/// Whether a claim has the expected value: a list has it if one of its elements is it.
pub open spec fn claim_has(value: JsonView, expected: Scalar) -> bool {
    match value {
        JsonView::Array(list) => list_has(list, expected),
        _ => is_expected(value, expected),
    }
}

/// Whether one of the values is the expected one.
pub open spec fn list_has(list: Seq<JsonView>, expected: Scalar) -> bool {
    exists|i: int| 0 <= i < list.len() && is_expected(#[trigger] list[i], expected)
}

/// The tree that the value of a claim stands for.
pub open spec fn claim_view(value: ClaimValue) -> JsonView {
    match value {
        ClaimValue::One(scalar) => scalar@,
        ClaimValue::List(list) => JsonView::Array(list@.map_values(|s: ClaimScalar| s@)),
    }
}

impl Number {
    /// Whether two numbers are equal, in the first form that both have.
    pub fn same(&self, other: &Number) -> (r: bool)
        ensures
            r == same_number(*self, *other),
    {
        if let (Some(a), Some(b)) = (self.unsigned, other.unsigned) {
            return a == b;
        }
        if let (Some(a), Some(b)) = (self.signed, other.signed) {
            return a == b;
        }
        if let (Some(a), Some(b)) = (self.bits, other.bits) {
            let x: u64 = a % 0x8000_0000_0000_0000;
            let y: u64 = b % 0x8000_0000_0000_0000;
            return x <= 0x7ff0_0000_0000_0000 && y <= 0x7ff0_0000_0000_0000 && (a == b || (x == 0
                && y == 0));
        }
        false
    }
}

impl ClaimScalar {
    /// Whether the value is the expected one.
    pub fn equals(&self, expected: &Scalar) -> (r: bool)
        ensures
            r == is_expected(self@, *expected),
    {
        match (self, expected) {
            (ClaimScalar::Bool(a), Scalar::Bool(b)) => *a == *b,
            (ClaimScalar::Number(a), Scalar::Number(b)) => a.same(b),
            (ClaimScalar::Text(a), Scalar::Text(b)) => str_eq(a.as_str(), b.as_str()),
            _ => false,
        }
    }
}

/// Whether a claim has the expected value.
pub fn claim_matches(value: &ClaimValue, expected: &Scalar) -> (r: bool)
    ensures
        r == claim_has(claim_view(*value), *expected),
{
    match value {
        ClaimValue::One(scalar) => scalar.equals(expected),
        ClaimValue::List(list) => {
            let ghost views = list@.map_values(|s: ClaimScalar| s@);
            for i in 0..list.len()
                invariant
                    *value == ClaimValue::List(*list),
                    views == list@.map_values(|s: ClaimScalar| s@),
                    forall|j: int| 0 <= j < i ==> !is_expected(#[trigger] views[j], *expected),
            {
                assert(views[i as int] == list@[i as int]@);
                if list[i].equals(expected) {
                    return true;
                }
            }
            false
        },
    }
}

/// The claims of a token.
pub struct Claims {
    /// The claims as one JSON object.
    pub values: serde_json::Value,
}

impl Claims {
    /// The value of the claim that a JSON pointer leads to.
    pub fn claim(&self, path: &str) -> (r: Option<ClaimValue>)
        ensures
            match r {
                Some(value) => {
                    let found = pointed_at(json_view(self.values), path@);
                    &&& found is Some
                    &&& claim_view(value) == flattened(found->0)
                },
                None => pointed_at(json_view(self.values), path@) is None,
            },
    {
        match pointer(&self.values, path) {
            None => None,
            Some(value) => match elements(value) {
                None => Some(ClaimValue::One(scalar(value))),
                Some(list) => {
                    let mut scalars: Vec<ClaimScalar> = Vec::new();
                    let ghost views = list@.map_values(|v: serde_json::Value| json_view(v));
                    for i in 0..list.len()
                        invariant
                            views == list@.map_values(|v: serde_json::Value| json_view(v)),
                            scalars@.len() == i,
                            forall|j: int|
                                0 <= j < i ==> (#[trigger] scalars@[j])@ == scalar_of(views[j]),
                    {
                        scalars.push(scalar(&list[i]));
                    }
                    proof {
                        assert(scalars@.map_values(|s: ClaimScalar| s@) =~= flat_list(views));
                    }
                    Some(ClaimValue::List(scalars))
                },
            },
        }
    }
}

/// The tree cut down to one value, or to a list of values.
pub open spec fn flattened(value: JsonView) -> JsonView {
    match value {
        JsonView::Array(list) => JsonView::Array(flat_list(list)),
        _ => scalar_of(value),
    }
}

/// The elements of a list, each cut down to one value.
pub open spec fn flat_list(list: Seq<JsonView>) -> Seq<JsonView> {
    list.map_values(|v: JsonView| scalar_of(v))
}

proof fn lemma_flattened(value: JsonView, expected: Scalar)
    ensures
        claim_has(flattened(value), expected) == claim_has(value, expected),
{
    if let JsonView::Array(list) = value {
        let flat = flat_list(list);
        assert(flattened(value) == JsonView::Array(flat));
        assert(claim_has(value, expected) == list_has(list, expected));
        assert(claim_has(flattened(value), expected) == list_has(flat, expected));
        if claim_has(value, expected) {
            let i = choose|i: int| 0 <= i < list.len() && is_expected(#[trigger] list[i], expected);
            assert(flat[i] == scalar_of(list[i]));
            assert(is_expected(flat[i], expected));
        }
        if claim_has(flattened(value), expected) {
            let i = choose|i: int| 0 <= i < flat.len() && is_expected(#[trigger] flat[i], expected);
            assert(flat[i] == scalar_of(list[i]));
            assert(is_expected(list[i], expected));
        }
    }
}

/// Claims that together give a role.
#[derive(Debug)]
pub struct RoleMatch {
    /// Which issuer the claims have to come from.
    pub identifier: String,
    /// JSON pointers to claims with the values that they have to have.
    pub match_: Vec<(String, Scalar)>,
}

/// A role and what gives it.
#[derive(Debug)]
pub struct Role {
    /// Name of the role.
    pub role: String,
    /// Any of these gives the role.
    pub matches: Vec<RoleMatch>,
}

/// Whether the claims have all values that the match expects.
pub open spec fn meets(claims: JsonView, wanted: RoleMatch) -> bool {
    forall|i: int|
        0 <= i < wanted.match_@.len() ==> {
            let found = pointed_at(claims, (#[trigger] wanted.match_@[i]).0@);
            found is Some && claim_has(found->0, wanted.match_@[i].1)
        }
}

/// Whether the claims give the role.
pub open spec fn gives(claims: JsonView, role: Role) -> bool {
    exists|i: int| 0 <= i < role.matches@.len() && meets(claims, #[trigger] role.matches@[i])
}

/// The names of the roles that the claims give, in the order of the list.
pub open spec fn given_roles(claims: JsonView, roles: Seq<Role>) -> Seq<Seq<char>>
    decreases roles.len(),
{
    if roles.len() == 0 {
        Seq::empty()
    } else {
        let rest = given_roles(claims, roles.drop_last());
        if gives(claims, roles.last()) {
            rest.push(roles.last().role@)
        } else {
            rest
        }
    }
}

fn claims_meet(claims: &Claims, wanted: &RoleMatch) -> (r: bool)
    ensures
        r == meets(json_view(claims.values), *wanted),
{
    let ghost view = json_view(claims.values);
    for i in 0..wanted.match_.len()
        invariant
            view == json_view(claims.values),
            forall|j: int|
                0 <= j < i ==> {
                    let found = pointed_at(view, (#[trigger] wanted.match_@[j]).0@);
                    found is Some && claim_has(found->0, wanted.match_@[j].1)
                },
    {
        let (path, expected) = &wanted.match_[i];
        assert(wanted.match_@[i as int].0@ == path@);
        match claims.claim(path.as_str()) {
            None => {
                return false;
            },
            Some(value) => {
                proof {
                    lemma_flattened(pointed_at(view, path@)->0, *expected);
                }
                if !claim_matches(&value, expected) {
                    return false;
                }
            },
        }
    }
    true
}

/// Whether the claims give the role.
pub fn claim_matches_role(role: &Role, claims: &Claims) -> (r: bool)
    ensures
        r == gives(json_view(claims.values), *role),
{
    for i in 0..role.matches.len()
        invariant
            forall|j: int|
                0 <= j < i ==> !meets(json_view(claims.values), #[trigger] role.matches@[j]),
    {
        if claims_meet(claims, &role.matches[i]) {
            assert(meets(json_view(claims.values), role.matches@[i as int]));
            return true;
        }
    }
    false
}

/// The roles that the claims give.
pub fn claims_to_roles(claims: &Claims, roles: &Vec<Role>) -> (r: Roles)
    ensures
        r@ == given_roles(json_view(claims.values), roles@),
{
    let mut names: Vec<String> = Vec::new();
    let ghost view = json_view(claims.values);
    assert(texts(names@) =~= given_roles(view, roles@.take(0)));
    for i in 0..roles.len()
        invariant
            view == json_view(claims.values),
            texts(names@) == given_roles(view, roles@.take(i as int)),
    {
        proof {
            assert(roles@.take(i + 1).drop_last() =~= roles@.take(i as int));
            assert(roles@.take(i + 1).last() == roles@[i as int]);
        }
        if claim_matches_role(&roles[i], claims) {
            let ghost before = names@;
            names.push(roles[i].role.clone());
            assert(texts(names@) =~= texts(before).push(roles@[i as int].role@));
        }
    }
    assert(roles@.take(roles@.len() as int) =~= roles@);
    Roles { roles: Arc::new(names) }
}

/// The roles that a client has.
#[derive(Debug)]
pub struct Roles {
    /// Names of the roles.
    pub roles: Arc<Vec<String>>,
}

impl View for Roles {
    type V = Seq<Seq<char>>;

    open spec fn view(&self) -> Seq<Seq<char>> {
        texts(self.roles@)
    }
}

/// Lets those see an item who have one of the roles on its access list.
///
/// When roles are not enforced, those without any role may also see the items with an empty
/// list.
#[derive(Clone, Copy, Debug)]
pub struct RoleVerifier {
    enforce: bool,
}

/// Whether someone with these roles may see an item with this access list.
pub open spec fn role_allows(enforce: bool, roles: Seq<Seq<char>>, acl: Seq<Seq<char>>) -> bool {
    ||| !enforce && roles.len() == 0 && acl.len() == 0
    ||| exists|i: int| 0 <= i < acl.len() && roles.contains(#[trigger] acl[i])
}

impl RoleVerifier {
    /// Whether roles are enforced.
    pub closed spec fn enforces(self) -> bool {
        self.enforce
    }

    /// A verifier that does or does not enforce roles.
    pub fn new(enforce: bool) -> (r: Self)
        ensures
            r.enforces() == enforce,
    {
        RoleVerifier { enforce }
    }
}

impl Verifier for RoleVerifier {
    type Credential = Roles;

    type Acl = Vec<String>;

    open spec fn allows(&self, cred: &Roles, acl: &Vec<String>) -> bool {
        role_allows(self.enforces(), cred@, texts(acl@))
    }

    fn verify(&self, tokens: &Roles, acl: &Vec<String>) -> (r: bool) {
        if !self.enforce && tokens.roles.len() == 0 && acl.len() == 0 {
            return true;
        }
        let ghost wanted = texts(acl@);
        for i in 0..acl.len()
            invariant
                wanted == texts(acl@),
                forall|j: int| 0 <= j < i ==> !tokens@.contains(#[trigger] wanted[j]),
        {
            assert(wanted[i as int] == acl@[i as int]@);
            if has_string(&tokens.roles, acl[i].as_str()) {
                return true;
            }
        }
        false
    }
}

/// Adds the roles of the client to requests.
#[derive(Debug)]
pub struct RoleLayer {
    roles: Arc<Vec<Role>>,
}

impl RoleLayer {
    /// The roles that there are.
    pub closed spec fn known(self) -> Seq<Role> {
        self.roles@
    }

    /// A layer that knows these roles.
    pub fn new(roles: Vec<Role>) -> (r: Self)
        ensures
            r.known() == roles@,
    {
        RoleLayer { roles: Arc::new(roles) }
    }

    /// Puts the layer on top of a service.
    pub fn layer<S>(&self, inner: S) -> (r: RoleService<S>)
        ensures
            r.inner == inner,
            r.roles@ == self.known(),
    {
        RoleService { inner, roles: share(&self.roles) }
    }
}

/// A service that is told the roles of the client.
#[derive(Debug)]
pub struct RoleService<S> {
    /// The service below.
    pub inner: S,
    /// The roles that there are.
    pub roles: Arc<Vec<Role>>,
}

impl<S> RoleService<S> {
    /// The roles to add to a request with these claims; none where it has no claims.
    pub fn roles_for(&self, claims: Option<&Claims>) -> (r: Option<Roles>)
        ensures
            r is Some <==> claims is Some,
            r is Some ==> r->0@ == given_roles(json_view(claims->0.values), self.roles@),
    {
        match claims {
            Some(claims) => Some(claims_to_roles(claims, &self.roles)),
            None => None,
        }
    }
}

/// Someone without roles sees no item that has an access list, and where roles are enforced no
/// item at all.
pub proof fn law_no_roles_see_no_listed(enforce: bool, acl: Seq<Seq<char>>)
    ensures
        acl.len() > 0 || enforce ==> !role_allows(enforce, Seq::empty(), acl),
        !enforce && acl.len() == 0 ==> role_allows(enforce, Seq::empty(), acl),
{
}

/// Another role never hides an item from someone who has one of the roles on its list.
pub proof fn law_more_roles_see_more(
    enforce: bool,
    roles: Seq<Seq<char>>,
    more: Seq<char>,
    acl: Seq<Seq<char>>,
)
    requires
        acl.len() > 0,
        role_allows(enforce, roles, acl),
    ensures
        role_allows(enforce, roles.push(more), acl),
{
    let i = choose|i: int| 0 <= i < acl.len() && roles.contains(#[trigger] acl[i]);
    let x = choose|x: int| 0 <= x < roles.len() && roles[x] == acl[i];
    assert(roles.push(more)[x] == acl[i]);
    assert(roles.push(more).contains(acl[i]));
}

/// A role is among those that claims give exactly if one of its definitions is met.
pub proof fn law_given_roles(claims: JsonView, roles: Seq<Role>, name: Seq<char>)
    ensures
        given_roles(claims, roles).contains(name) <==> exists|i: int|
            0 <= i < roles.len() && (#[trigger] roles[i]).role@ == name && gives(claims, roles[i]),
    decreases roles.len(),
{
    if roles.len() > 0 {
        let rest = roles.drop_last();
        law_given_roles(claims, rest, name);
        let before = given_roles(claims, rest);
        let last = roles.last();
        if before.contains(name) {
            let i = choose|i: int|
                0 <= i < rest.len() && (#[trigger] rest[i]).role@ == name && gives(claims, rest[i]);
            assert(roles[i] == rest[i]);
            let x = choose|x: int| 0 <= x < before.len() && before[x] == name;
            assert(given_roles(claims, roles)[x] == name);
        }
        if gives(claims, last) && last.role@ == name {
            assert(roles[roles.len() - 1] == last);
            assert(before.push(last.role@)[before.len() as int] == name);
        }
        if exists|i: int|
            0 <= i < roles.len() && (#[trigger] roles[i]).role@ == name && gives(
                claims,
                roles[i],
            ) {
            let i = choose|i: int|
                0 <= i < roles.len() && (#[trigger] roles[i]).role@ == name && gives(
                    claims,
                    roles[i],
                );
            if i < rest.len() {
                assert(rest[i] == roles[i]);
            }
        }
    }
}

/// One role that someone has and that is on the access list of an item is enough to see it.
/// Without one nobody sees it, but for those without roles where the list is empty and roles are
/// not enforced.
pub proof fn law_shared_role_decides(
    enforce: bool,
    roles: Seq<Seq<char>>,
    acl: Seq<Seq<char>>,
    i: int,
    j: int,
)
    ensures
        0 <= i < roles.len() && 0 <= j < acl.len() && roles[i] == acl[j] ==> role_allows(
            enforce,
            roles,
            acl,
        ),
        role_allows(enforce, roles, acl) && (enforce || roles.len() > 0 || acl.len() > 0)
            ==> exists|x: int, y: int|
            0 <= x < roles.len() && 0 <= y < acl.len() && #[trigger] roles[x] == #[trigger] acl[y],
{
    if 0 <= i < roles.len() && 0 <= j < acl.len() && roles[i] == acl[j] {
        assert(roles.contains(acl[j]));
    }
    if role_allows(enforce, roles, acl) && (enforce || roles.len() > 0 || acl.len() > 0) {
        let y = choose|y: int| 0 <= y < acl.len() && roles.contains(#[trigger] acl[y]);
        let x = choose|x: int| 0 <= x < roles.len() && roles[x] == acl[y];
        assert(roles[x] == acl[y]);
    }
}

/// Numbers are compared by their value: whole ones as whole ones, whether they have a sign or not,
/// and all others as doubles, where what is no number equals nothing and both zeros are equal.
pub proof fn law_numbers_are_compared_by_value(a: Number, b: Number, x: u64, y: u64)
    ensures
        same_number(a, b) == same_number(b, a),
        a.unsigned is Some && b.unsigned is Some ==> (same_number(a, b) <==> a.unsigned->0
            == b.unsigned->0),
        a.unsigned is None && a.signed is Some && b.signed is Some ==> (same_number(a, b)
            <==> a.signed->0 == b.signed->0),
        same_double(x, y) == same_double(y, x),
        same_double(x, x) <==> x % 0x8000_0000_0000_0000 <= 0x7ff0_0000_0000_0000,
        same_double(0, 0x8000_0000_0000_0000),
        x != y && x != 0 && x != 0x8000_0000_0000_0000 ==> !same_double(x, y),
{
}

/// A claim has a value only of the same kind, and a list has it exactly if one of its elements is
/// it.
pub proof fn law_claims_are_compared_by_kind(
    value: JsonView,
    list: Seq<JsonView>,
    expected: Scalar,
    i: int,
)
    ensures
        is_expected(value, expected) ==> (value is Bool <==> expected is Bool) && (value is Number
            <==> expected is Number) && (value is Text <==> expected is Text),
        is_expected(value, expected) ==> value is Bool || value is Number || value is Text,
        value matches JsonView::Bool(b) ==> (expected matches Scalar::Bool(e) ==> (is_expected(
            value,
            expected,
        ) <==> b == e)),
        value matches JsonView::Text(t) ==> (expected matches Scalar::Text(e) ==> (is_expected(
            value,
            expected,
        ) <==> t == e@)),
        value matches JsonView::Number(n) ==> (expected matches Scalar::Number(e) ==> (is_expected(
            value,
            expected,
        ) <==> same_number(n, e))),
        !(value is Array) ==> claim_has(value, expected) == is_expected(value, expected),
        0 <= i < list.len() && is_expected(list[i], expected) ==> claim_has(
            JsonView::Array(list),
            expected,
        ),
        claim_has(JsonView::Array(list), expected) ==> exists|k: int|
            0 <= k < list.len() && is_expected(#[trigger] list[k], expected),
{
}

/// A role is given by claims that have all values of one of its definitions; a single value that
/// is missing or different is enough for a definition not to be met.
pub proof fn law_roles_need_all_values(claims: JsonView, role: Role, m: int, i: int)
    requires
        0 <= m < role.matches@.len(),
    ensures
        ({
            let wanted = role.matches@[m].match_@;
            let found = pointed_at(claims, wanted[i].0@);
            &&& 0 <= i < wanted.len() && (found is None || !claim_has(found->0, wanted[i].1))
                ==> !meets(claims, role.matches@[m])
            &&& wanted.len() == 0 ==> meets(claims, role.matches@[m])
            &&& meets(claims, role.matches@[m]) ==> gives(claims, role)
            &&& !meets(claims, role.matches@[m]) ==> exists|k: int|
                0 <= k < wanted.len() && (pointed_at(claims, (#[trigger] wanted[k]).0@) is None
                    || !claim_has(pointed_at(claims, wanted[k].0@)->0, wanted[k].1))
        }),
        role.matches@.len() == 1 && gives(claims, role) ==> meets(claims, role.matches@[m]),
{
}

/// A pointer that goes on behind another leads on from where that leads.
pub proof fn law_pointers_go_on(document: JsonView, path: Seq<char>, name: Seq<char>)
    requires
        path.len() > 0,
        path[0] == '/',
        !name.contains('/'),
        !name.contains('~'),
    ensures
        pointed_at(document, path + seq!['/'] + name) == match pointed_at(document, path) {
            Some(value) => member(value, name),
            None => None,
        },
{
    let all = path + seq!['/'] + name;
    assert(all.skip(1) =~= path.skip(1) + seq!['/'] + name);
    lemma_followed_on(document, path.skip(1), name);
}

proof fn lemma_slash_first(s: Seq<char>, at: int)
    requires
        0 <= at < s.len(),
        s[at] == '/',
        forall|i: int| 0 <= i < at ==> s[i] != '/',
    ensures
        first_occurrence(s, seq!['/']) == Some(at),
{
    let slash = seq!['/'];
    assert(s.subrange(at, at + 1) =~= slash);
    assert forall|j: int| 0 <= j < at implies !occurs_at(s, slash, j) by {
        if occurs_at(s, slash, j) {
            assert(s.subrange(j, j + 1)[0] == s[j]);
        }
    }
    law_first_occurrence_is_first(s, slash, at);
}

proof fn lemma_followed_on(value: JsonView, tokens: Seq<char>, name: Seq<char>)
    requires
        !name.contains('/'),
        !name.contains('~'),
    ensures
        followed(value, tokens + seq!['/'] + name) == match followed(value, tokens) {
            Some(next) => member(next, name),
            None => None,
        },
    decreases tokens.len(),
{
    let slash = seq!['/'];
    let all = tokens + slash + name;
    lemma_first_occurrence(tokens, slash);
    lemma_first_occurrence(all, slash);
    lemma_absent(name, slash, '/');
    reveal_strlit("~1");
    reveal_strlit("~0");
    lemma_absent(name, "~1"@, '~');
    lemma_absent(name, "~0"@, '~');
    law_replaced_absent(name, "~1"@, "/"@);
    law_replaced_absent(name, "~0"@, "~"@);
    assert(unescaped(name) == name);
    assert(followed(value, name) == member(value, name));
    match first_occurrence(tokens, slash) {
        Some(at) => {
            assert(occurs_at(tokens, slash, at));
            assert(tokens.subrange(at, at + 1)[0] == '/');
            law_first_occurrence_is_first(tokens, slash, at);
            assert forall|i: int| 0 <= i < at implies all[i] != '/' by {
                if tokens[i] == '/' {
                    assert(tokens.subrange(i, i + 1) =~= slash);
                    assert(occurs_at(tokens, slash, i));
                }
            }
            lemma_slash_first(all, at);
            assert(all.take(at) =~= tokens.take(at));
            assert(all.skip(at + 1) =~= tokens.skip(at + 1) + slash + name);
            if let Some(next) = member(value, unescaped(tokens.take(at))) {
                lemma_followed_on(next, tokens.skip(at + 1), name);
            }
        },
        None => {
            let at = tokens.len() as int;
            assert(all[at] == '/');
            assert forall|i: int| 0 <= i < at implies all[i] != '/' by {
                if tokens[i] == '/' {
                    assert(tokens.subrange(i, i + 1) =~= slash);
                    assert(occurs_at(tokens, slash, i));
                }
            }
            lemma_slash_first(all, at);
            assert(all.take(at) =~= tokens);
            assert(all.skip(at + 1) =~= name);
            if let Some(next) = member(value, unescaped(tokens)) {
                assert(followed(next, name) == member(next, name));
            }
        },
    }
}

} // verus!
