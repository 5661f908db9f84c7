//! Items with properties, kept under ids that are never used twice and shown only to those
//! who may see them.

use std::sync::Arc;

use vstd::prelude::*;

use crate::text::{copy_pairs, pair_texts, str_eq};

verus! {

/// Property that holds an item's name.
pub const NAME: &'static str = "boardswarm.name";

/// Property that holds the instance an item comes from, where that is a remote one.
pub const INSTANCE: &'static str = "boardswarm.instance";

/// Property that holds the kind of provider an item comes from.
pub const PROVIDER: &'static str = "boardswarm.provider";

/// Property that holds the name of the provider an item comes from.
pub const PROVIDER_NAME: &'static str = "boardswarm.provider.name";

/// What a list of keys and values stands for: of several values for one key the last counts.
pub open spec fn pairs_map(pairs: Seq<(String, String)>) -> Map<Seq<char>, Seq<char>>
    decreases pairs.len(),
{
    if pairs.len() == 0 {
        Map::empty()
    } else {
        pairs_map(pairs.drop_last()).insert(pairs.last().0@, pairs.last().1@)
    }
}

/// No key occurs twice.
pub open spec fn distinct_keys(pairs: Seq<(String, String)>) -> bool {
    forall|i: int, j: int|
        #![trigger pairs[i], pairs[j]]
        0 <= i < j < pairs.len() ==> pairs[i].0@ != pairs[j].0@
}

/// The keys of the map are those of the pairs.
pub proof fn lemma_pairs_map(pairs: Seq<(String, String)>, k: Seq<char>)
    ensures
        pairs_map(pairs).contains_key(k) <==> exists|i: int|
            0 <= i < pairs.len() && (#[trigger] pairs[i]).0@ == k,
    decreases pairs.len(),
{
    if pairs.len() > 0 {
        let rest = pairs.drop_last();
        lemma_pairs_map(rest, k);
        if exists|i: int| 0 <= i < rest.len() && (#[trigger] rest[i]).0@ == k {
            let i = choose|i: int| 0 <= i < rest.len() && (#[trigger] rest[i]).0@ == k;
            assert(pairs[i].0@ == k);
        }
        if pairs.last().0@ == k {
            assert(pairs[pairs.len() - 1].0@ == k);
        }
        if exists|i: int| 0 <= i < pairs.len() && (#[trigger] pairs[i]).0@ == k {
            let i = choose|i: int| 0 <= i < pairs.len() && (#[trigger] pairs[i]).0@ == k;
            if i < rest.len() {
                assert(rest[i].0@ == k);
            }
        }
    }
}

/// Each pair is in the map, where no key occurs twice.
pub proof fn lemma_pairs_map_at(pairs: Seq<(String, String)>, i: int)
    requires
        distinct_keys(pairs),
        0 <= i < pairs.len(),
    ensures
        pairs_map(pairs).contains_key(pairs[i].0@),
        pairs_map(pairs)[pairs[i].0@] == pairs[i].1@,
    decreases pairs.len(),
{
    let rest = pairs.drop_last();
    if i < rest.len() {
        assert(rest[i] == pairs[i]);
        assert(distinct_keys(rest)) by {
            assert forall|a: int, b: int| #![trigger rest[a], rest[b]]
                0 <= a < b < rest.len() implies rest[a].0@ != rest[b].0@ by {
                assert(pairs[a].0@ != pairs[b].0@);
            }
        }
        lemma_pairs_map_at(rest, i);
        assert(pairs[i].0@ != pairs[pairs.len() - 1].0@);
    }
}

/// Lists of the same texts stand for the same.
pub proof fn lemma_same_pairs(a: Seq<(String, String)>, b: Seq<(String, String)>)
    requires
        pair_texts(a) == pair_texts(b),
    ensures
        distinct_keys(a) == distinct_keys(b),
        pairs_map(a) == pairs_map(b),
    decreases a.len(),
{
    assert(a.len() == pair_texts(a).len() && b.len() == pair_texts(b).len());
    assert forall|i: int| 0 <= i < a.len() implies (#[trigger] a[i]).0@ == b[i].0@ && a[i].1@
        == b[i].1@ by {
        assert(pair_texts(a)[i] == pair_texts(b)[i]);
    }
    if a.len() > 0 {
        assert(pair_texts(a.drop_last()) =~= pair_texts(a).drop_last());
        assert(pair_texts(b.drop_last()) =~= pair_texts(b).drop_last());
        lemma_same_pairs(a.drop_last(), b.drop_last());
        assert(a[a.len() - 1].0@ == b[b.len() - 1].0@);
    }
    if distinct_keys(a) {
        assert forall|i: int, j: int| #![trigger b[i], b[j]] 0 <= i < j < b.len() implies b[i].0@
            != b[j].0@ by {
            assert(a[i].0@ != a[j].0@);
        }
    }
    if distinct_keys(b) {
        assert forall|i: int, j: int| #![trigger a[i], a[j]] 0 <= i < j < a.len() implies a[i].0@
            != a[j].0@ by {
            assert(b[i].0@ != b[j].0@);
        }
    }
}

proof fn lemma_pairs_map_update(pairs: Seq<(String, String)>, i: int, pair: (String, String))
    requires
        distinct_keys(pairs),
        0 <= i < pairs.len(),
        pairs[i].0@ == pair.0@,
    ensures
        pairs_map(pairs.update(i, pair)) == pairs_map(pairs).insert(pair.0@, pair.1@),
        distinct_keys(pairs.update(i, pair)),
    decreases pairs.len(),
{
    let after = pairs.update(i, pair);
    assert forall|a: int, b: int| #![trigger after[a], after[b]]
        0 <= a < b < after.len() implies after[a].0@ != after[b].0@ by {
        assert(pairs[a].0@ != pairs[b].0@);
    }
    let rest = pairs.drop_last();
    assert forall|a: int, b: int| #![trigger rest[a], rest[b]]
        0 <= a < b < rest.len() implies rest[a].0@ != rest[b].0@ by {
        assert(pairs[a].0@ != pairs[b].0@);
    }
    if i < rest.len() {
        assert(rest[i] == pairs[i]);
        lemma_pairs_map_update(rest, i, pair);
        assert(after.drop_last() =~= rest.update(i, pair));
        assert(pairs[i].0@ != pairs[pairs.len() - 1].0@);
        assert(pairs_map(after) =~= pairs_map(pairs).insert(pair.0@, pair.1@));
    } else {
        assert(after.drop_last() =~= rest);
        assert(pairs_map(after) =~= pairs_map(pairs).insert(pair.0@, pair.1@));
    }
}

/// The properties of an item: a value for each key.
#[derive(Debug)]
pub struct Properties {
    properties: Vec<(String, String)>,
}

impl View for Properties {
    type V = Map<Seq<char>, Seq<char>>;

    closed spec fn view(&self) -> Map<Seq<char>, Seq<char>> {
        pairs_map(self.properties@)
    }
}

/// Whether the properties match a list of wanted keys and values: all of them are there, and
/// the list names the instance exactly if the properties do.
pub open spec fn properties_match(
    properties: Map<Seq<char>, Seq<char>>,
    wanted: Seq<(String, String)>,
) -> bool {
    &&& forall|i: int|
        0 <= i < wanted.len() ==> properties.contains_key((#[trigger] wanted[i]).0@)
            && properties[wanted[i].0@] == wanted[i].1@
    &&& properties.contains_key(INSTANCE@) <==> mentions(wanted, INSTANCE@)
}

/// Whether the key occurs in the list.
pub open spec fn mentions(pairs: Seq<(String, String)>, key: Seq<char>) -> bool {
    exists|i: int| 0 <= i < pairs.len() && (#[trigger] pairs[i]).0@ == key
}

impl Properties {
    /// Each key is held once.
    pub closed spec fn wf(self) -> bool {
        distinct_keys(self.properties@)
    }

    /// Properties of an item with this name.
    pub fn new(name: &str) -> (r: Self)
        ensures
            r.wf(),
            r@ == Map::<Seq<char>, Seq<char>>::empty().insert(NAME@, name@),
    {
        let mut r = Properties { properties: Vec::new() };
        r.insert(NAME, name);
        r
    }

    /// The properties that a list stands for.
    pub fn from_pairs(pairs: &Vec<(String, String)>) -> (r: Self)
        ensures
            r.wf(),
            r@ == pairs_map(pairs@),
    {
        let mut r = Properties { properties: Vec::new() };
        assert(r@ =~= Map::<Seq<char>, Seq<char>>::empty());
        r.extend(pairs);
        proof {
            lemma_extended_empty(pairs@);
        }
        r
    }

    /// The item's name, empty where there is none.
    pub fn name(&self) -> (r: &str)
        requires
            self.wf(),
        ensures
            r@ == name_in(self@),
    {
        match self.get(NAME) {
            Some(name) => name,
            None => {
                proof {
                    reveal_strlit("");
                }
                ""
            },
        }
    }

    /// The instance the item comes from.
    pub fn instance(&self) -> (r: Option<&str>)
        requires
            self.wf(),
        ensures
            r is Some <==> self@.contains_key(INSTANCE@),
            r is Some ==> r->0@ == self@[INSTANCE@],
    {
        self.get(INSTANCE)
    }

    /// Where in the list the key is.
    fn position(&self, prop: &str) -> (r: Option<usize>)
        ensures
            match r {
                Some(i) => i < self.properties@.len() && self.properties@[i as int].0@ == prop@,
                None => forall|i: int|
                    0 <= i < self.properties@.len() ==> (#[trigger] self.properties@[i]).0@
                        != prop@,
            },
    {
        for i in 0..self.properties.len()
            invariant
                forall|j: int| 0 <= j < i ==> (#[trigger] self.properties@[j]).0@ != prop@,
        {
            if str_eq(self.properties[i].0.as_str(), prop) {
                return Some(i);
            }
        }
        None
    }

    /// The value of a property.
    pub fn get(&self, prop: &str) -> (r: Option<&str>)
        requires
            self.wf(),
        ensures
            r is Some <==> self@.contains_key(prop@),
            r is Some ==> r->0@ == self@[prop@],
    {
        proof {
            lemma_pairs_map(self.properties@, prop@);
        }
        match self.position(prop) {
            Some(i) => {
                proof {
                    lemma_pairs_map_at(self.properties@, i as int);
                }
                Some(self.properties[i].1.as_str())
            },
            None => None,
        }
    }

    /// Tests if the wanted list is a subset of the properties.
    ///
    /// Properties of a remote instance (`boardswarm.instance` is set) only match a list that
    /// names that instance; otherwise it is a pure subset test (so an empty list matches).
    pub fn matches(&self, wanted: &Vec<(String, String)>) -> (r: bool)
        requires
            self.wf(),
        ensures
            r == properties_match(self@, wanted@),
    {
        let mut matched_instance = false;
        for i in 0..wanted.len()
            invariant
                self.wf(),
                forall|j: int|
                    0 <= j < i ==> self@.contains_key((#[trigger] wanted@[j]).0@)
                        && self@[wanted@[j].0@] == wanted@[j].1@,
                matched_instance <==> exists|j: int|
                    0 <= j < i && (#[trigger] wanted@[j]).0@ == INSTANCE@,
        {
            let key = wanted[i].0.as_str();
            assert(wanted@[i as int].0@ == key@);
            if str_eq(key, INSTANCE) {
                matched_instance = true;
            }
            match self.get(key) {
                Some(value) => {
                    if !str_eq(value, wanted[i].1.as_str()) {
                        return false;
                    }
                },
                None => {
                    return false;
                },
            }
        }
        // All wanted properties are there, and a remote item has to be asked for as such.
        matched_instance == self.instance().is_some()
    }

    /// The same properties once more.
    pub fn copy(&self) -> (r: Self)
        requires
            self.wf(),
        ensures
            r.wf(),
            r@ == self@,
    {
        let r = Properties { properties: copy_pairs(&self.properties) };
        proof {
            lemma_same_pairs(self.properties@, r.properties@);
        }
        r
    }

    /// Sets a property.
    pub fn insert(&mut self, key: &str, value: &str)
        requires
            old(self).wf(),
        ensures
            final(self).wf(),
            final(self)@ == old(self)@.insert(key@, value@),
    {
        let ghost before = self.properties@;
        let pair = (key.to_owned(), value.to_owned());
        match self.position(key) {
            Some(i) => {
                proof {
                    lemma_pairs_map_update(before, i as int, pair);
                }
                self.properties.set(i, pair);
            },
            None => {
                self.properties.push(pair);
                proof {
                    let after = self.properties@;
                    assert(after.drop_last() =~= before);
                    assert forall|a: int, b: int| #![trigger after[a], after[b]]
                        0 <= a < b < after.len() implies after[a].0@ != after[b].0@ by {
                        if b < before.len() {
                            assert(before[a].0@ != before[b].0@);
                        } else {
                            assert(before[a].0@ != key@);
                        }
                    }
                }
            },
        }
    }

    /// Sets the properties of a list, one after the other.
    pub fn extend(&mut self, pairs: &Vec<(String, String)>)
        requires
            old(self).wf(),
        ensures
            final(self).wf(),
            final(self)@ == extended(old(self)@, pairs@),
    {
        for i in 0..pairs.len()
            invariant
                self.wf(),
                self@ == extended(old(self)@, pairs@.take(i as int)),
        {
            proof {
                assert(pairs@.take(i + 1).drop_last() =~= pairs@.take(i as int));
            }
            self.insert(pairs[i].0.as_str(), pairs[i].1.as_str());
        }
        assert(pairs@.take(pairs@.len() as int) =~= pairs@);
    }

    /// All keys with their values, each key once.
    pub fn iter(&self) -> (r: &Vec<(String, String)>)
        requires
            self.wf(),
        ensures
            distinct_keys(r@),
            pairs_map(r@) == self@,
    {
        &self.properties
    }
}

/// The name among the properties, empty where there is none.
pub open spec fn name_in(properties: Map<Seq<char>, Seq<char>>) -> Seq<char> {
    if properties.contains_key(NAME@) {
        properties[NAME@]
    } else {
        Seq::empty()
    }
}

/// Properties with those of a list set on top.
pub open spec fn extended(
    properties: Map<Seq<char>, Seq<char>>,
    pairs: Seq<(String, String)>,
) -> Map<Seq<char>, Seq<char>>
    decreases pairs.len(),
{
    if pairs.len() == 0 {
        properties
    } else {
        extended(properties, pairs.drop_last()).insert(pairs.last().0@, pairs.last().1@)
    }
}

proof fn lemma_extended_empty(pairs: Seq<(String, String)>)
    ensures
        extended(Map::empty(), pairs) == pairs_map(pairs),
    decreases pairs.len(),
{
    if pairs.len() > 0 {
        lemma_extended_empty(pairs.drop_last());
    }
}

/// The empty list matches every local item and no remote one.
pub proof fn law_empty_matches_local(properties: Map<Seq<char>, Seq<char>>)
    ensures
        properties_match(properties, Seq::empty()) <==> !properties.contains_key(INSTANCE@),
{
}

/// A list that matches goes on matching when the item gets another property that is neither
/// the instance nor one of the wanted ones.
pub proof fn law_match_is_subset(
    properties: Map<Seq<char>, Seq<char>>,
    wanted: Seq<(String, String)>,
    key: Seq<char>,
    value: Seq<char>,
)
    requires
        properties_match(properties, wanted),
        key != INSTANCE@,
        !mentions(wanted, key),
    ensures
        properties_match(properties.insert(key, value), wanted),
{
    assert forall|i: int| 0 <= i < wanted.len() implies properties.insert(key, value).contains_key(
        (#[trigger] wanted[i]).0@,
    ) && properties.insert(key, value)[wanted[i].0@] == wanted[i].1@ by {
        assert(wanted[i].0@ != key);
    }
}

/// `Arc::clone` gives another handle on the same value.
#[verifier::external_body]
pub(crate) fn share<T>(shared: &Arc<T>) -> (r: Arc<T>)
    ensures
        r == *shared,
{
    Arc::clone(shared)
}

/// An item with its properties and the list that says who may see it.
#[derive(Debug)]
pub struct Item<A, T> {
    acl: Arc<A>,
    properties: Arc<Properties>,
    item: T,
}

impl<A, T> Item<A, T> {
    /// The properties are well formed.
    pub open spec fn wf(self) -> bool {
        self.properties_spec().wf()
    }

    /// Who may see the item.
    pub closed spec fn acl_spec(self) -> A {
        *self.acl
    }

    /// The item's properties.
    pub closed spec fn properties_spec(self) -> Properties {
        *self.properties
    }

    /// The item itself.
    pub closed spec fn inner_spec(self) -> T {
        self.item
    }

    /// Puts an item together.
    pub fn new(acl: A, properties: Properties, item: T) -> (r: Self)
        requires
            properties.wf(),
        ensures
            r.wf(),
            r.acl_spec() == acl,
            r.properties_spec() == properties,
            r.inner_spec() == item,
    {
        Item { acl: Arc::new(acl), properties: Arc::new(properties), item }
    }

    /// The item's name.
    pub fn name(&self) -> (r: &str)
        requires
            self.wf(),
        ensures
            r@ == name_in(self.properties_spec()@),
    {
        self.properties.name()
    }

    /// The instance that the item comes from.
    pub fn instance(&self) -> (r: Option<&str>)
        requires
            self.wf(),
        ensures
            r is Some <==> self.properties_spec()@.contains_key(INSTANCE@),
            r is Some ==> r->0@ == self.properties_spec()@[INSTANCE@],
    {
        self.properties.instance()
    }

    /// A handle on the item's properties.
    pub fn properties(&self) -> (r: Arc<Properties>)
        ensures
            *r == self.properties_spec(),
    {
        share(&self.properties)
    }

    /// Who may see the item.
    pub fn acl(&self) -> (r: &A)
        ensures
            *r == self.acl_spec(),
    {
        &self.acl
    }

    /// The item itself.
    pub fn inner(&self) -> (r: &T)
        ensures
            *r == self.inner_spec(),
    {
        &self.item
    }

    /// The item itself, for good.
    pub fn into_inner(self) -> (r: T)
        ensures
            r == self.inner_spec(),
    {
        self.item
    }

    /// How the item is shown: its name, and the instance it is on where it is a remote one.
    pub fn display(&self) -> (r: String)
        requires
            self.wf(),
        ensures
            r@ == item_display(self.properties_spec()@),
    {
        let mut r = self.name().to_owned();
        if let Some(instance) = self.instance() {
            r.append(" on ");
            r.append(instance);
        }
        r
    }
}

/// How an item with these properties is shown.
pub open spec fn item_display(properties: Map<Seq<char>, Seq<char>>) -> Seq<char> {
    if properties.contains_key(INSTANCE@) {
        name_in(properties) + " on "@ + properties[INSTANCE@]
    } else {
        name_in(properties)
    }
}

/// A clone shares the access list and the properties and clones the item.
pub open spec fn item_cloned<A, T: Clone>(a: Item<A, T>, b: Item<A, T>) -> bool {
    &&& b.acl_spec() == a.acl_spec()
    &&& b.properties_spec() == a.properties_spec()
    &&& cloned(a.inner_spec(), b.inner_spec())
}

impl<A, T: Clone> Clone for Item<A, T> {
    fn clone(&self) -> (r: Self)
        ensures
            item_cloned(*self, r),
            r.wf() == self.wf(),
    {
        Item {
            acl: share(&self.acl),
            properties: share(&self.properties),
            item: self.item.clone(),
        }
    }
}

/// What a type needs to be an index of the registry.
///
/// Each index has to be unique for the duration of the process. A simple way to do so is to
/// count with a big number: a `u64` overflows only after about 584 years when incrementing by
/// one every nanosecond.
pub trait RegistryIndex: Copy {
    /// How many indices come before this one.
    spec fn position(self) -> nat;

    /// Indices at the same position are the same index.
    proof fn same_position(a: Self, b: Self)
        requires
            a.position() == b.position(),
        ensures
            a == b,
    ;

    /// The first index.
    fn first() -> (r: Self)
        ensures
            r.position() == 0,
    ;

    /// Given the current index, get the next unused index.
    fn next(&self) -> (r: Self)
        requires
            self.position() < u64::MAX,
        ensures
            r.position() == self.position() + 1,
    ;

    /// Whether this is the same index as the other.
    fn same(&self, other: &Self) -> (r: bool)
        ensures
            r == (*self == *other),
    ;
}

impl RegistryIndex for u64 {
    open spec fn position(self) -> nat {
        self as nat
    }

    proof fn same_position(a: Self, b: Self) {
    }

    fn first() -> (r: Self) {
        0
    }

    fn next(&self) -> (r: Self) {
        *self + 1
    }

    fn same(&self, other: &Self) -> (r: bool) {
        *self == *other
    }
}

/// Decides who may see what.
pub trait Verifier: Sized {
    /// What a client brings along to be let in.
    type Credential;

    /// What an item says of who may see it.
    type Acl;

    /// Whether the holder of the credential may see the item.
    spec fn allows(&self, cred: &Self::Credential, acl: &Self::Acl) -> bool;

    /// Whether the holder of the credential may see the item.
    fn verify(&self, tokens: &Self::Credential, acl: &Self::Acl) -> (r: bool)
        ensures
            r == self.allows(tokens, acl),
    ;
}

/// Lets everyone see everything.
#[derive(Clone, Copy, Debug)]
pub struct NoVerification {}

impl Verifier for NoVerification {
    type Credential = ();

    type Acl = ();

    open spec fn allows(&self, cred: &(), acl: &()) -> bool {
        true
    }

    fn verify(&self, tokens: &(), acl: &()) -> (r: bool) {
        true
    }
}

/// A change of the registry, as clients see it.
pub enum RegistryChange<I, A, T> {
    /// An item was added.
    Added { id: I, item: Item<A, T> },
    /// An item was removed.
    Removed(I),
}

/// A change of the registry, with what decides who may hear of it.
pub enum RegistryChangeInternal<I, A, T> {
    /// An item was added.
    Added { id: I, item: Item<A, T> },
    /// An item that this list was on was removed.
    Removed { id: I, acl: Arc<A> },
}

impl<I, A, T> RegistryChangeInternal<I, A, T> {
    /// Who may hear of the change.
    pub open spec fn acl_spec(self) -> A {
        match self {
            RegistryChangeInternal::Added { id, item } => item.acl_spec(),
            RegistryChangeInternal::Removed { id, acl } => *acl,
        }
    }

    /// The change as clients see it.
    pub open spec fn public(self) -> RegistryChange<I, A, T> {
        match self {
            RegistryChangeInternal::Added { id, item } => RegistryChange::Added { id, item },
            RegistryChangeInternal::Removed { id, acl } => RegistryChange::Removed(id),
        }
    }

    /// Who may hear of the change.
    pub fn acl(&self) -> (r: &A)
        ensures
            *r == self.acl_spec(),
    {
        match self {
            RegistryChangeInternal::Added { id, item } => item.acl(),
            RegistryChangeInternal::Removed { id, acl } => acl,
        }
    }

    /// The change as clients see it.
    pub fn into_change(self) -> (r: RegistryChange<I, A, T>)
        ensures
            r == self.public(),
    {
        match self {
            RegistryChangeInternal::Added { id, item } => RegistryChange::Added { id, item },
            RegistryChangeInternal::Removed { id, acl } => RegistryChange::Removed(id),
        }
    }
}

/// The items in the order of their ids.
pub open spec fn ascending<I: RegistryIndex, A, T>(entries: Seq<(I, Item<A, T>)>) -> bool {
    forall|i: int, j: int|
        #![trigger entries[i], entries[j]]
        0 <= i < j < entries.len() ==> entries[i].0.position() < entries[j].0.position()
}

/// The items that the holder of a credential may see.
pub open spec fn visible<V: Verifier, I, T>(
    verifier: V,
    entries: Seq<(I, Item<V::Acl, T>)>,
    cred: V::Credential,
) -> Seq<(I, Item<V::Acl, T>)> {
    entries.filter(|e: (I, Item<V::Acl, T>)| verifier.allows(&cred, &e.1.acl_spec()))
}

/// Whether one of the entries has the id.
pub open spec fn has_id<I, A, T>(entries: Seq<(I, Item<A, T>)>, id: I) -> bool {
    exists|i: int| 0 <= i < entries.len() && (#[trigger] entries[i]).0 == id
}

/// The entries but the one with the id.
pub open spec fn without_id<I, A, T>(entries: Seq<(I, Item<A, T>)>, id: I) -> Seq<
    (I, Item<A, T>),
> {
    entries.filter(|e: (I, Item<A, T>)| e.0 != id)
}

/// Items under ids that are given out once.
pub struct Registry<V: Verifier, I: RegistryIndex, T> {
    verifier: V,
    next: I,
    contents: Vec<(I, Item<V::Acl, T>)>,
}

impl<V: Verifier, I: RegistryIndex, T: Clone> Registry<V, I, T> {
    /// The items with their ids.
    pub closed spec fn entries(self) -> Seq<(I, Item<V::Acl, T>)> {
        self.contents@
    }

    /// The id that the next item gets.
    pub closed spec fn next_id(self) -> I {
        self.next
    }

    /// Who decides what may be seen.
    pub closed spec fn verifier_spec(self) -> V {
        self.verifier
    }

    /// The items stand in the order of their ids, all of which were given out before the next
    /// one.
    pub open spec fn wf(self) -> bool {
        &&& ascending(self.entries())
        &&& forall|i: int|
            0 <= i < self.entries().len() ==> (#[trigger] self.entries()[i]).0.position()
                < self.next_id().position() && self.entries()[i].1.wf()
    }

    /// An empty registry.
    pub fn new(verifier: V) -> (r: Self)
        ensures
            r.wf(),
            r.entries() == Seq::<(I, Item<V::Acl, T>)>::empty(),
            r.next_id().position() == 0,
            r.verifier_spec() == verifier,
    {
        Registry { verifier, next: I::first(), contents: Vec::new() }
    }

    /// Adds an item under an id that no item had before.
    pub fn add(&mut self, acl: V::Acl, properties: Properties, item: T) -> (r: (
        I,
        Item<V::Acl, T>,
    ))
        requires
            old(self).wf(),
            properties.wf(),
            old(self).next_id().position() < u64::MAX,
        ensures
            final(self).wf(),
            r.0 == old(self).next_id(),
            r.1.wf(),
            r.1.acl_spec() == acl,
            r.1.properties_spec() == properties,
            r.1.inner_spec() == item,
            final(self).next_id().position() == old(self).next_id().position() + 1,
            final(self).verifier_spec() == old(self).verifier_spec(),
            final(self).entries().len() == old(self).entries().len() + 1,
            final(self).entries().drop_last() == old(self).entries(),
            final(self).entries().last().0 == r.0,
            item_cloned(r.1, final(self).entries().last().1),
    {
        let item = Item::new(acl, properties, item);
        let id = self.next;
        self.next = self.next.next();
        let kept = item.clone();
        self.contents.push((id, kept));
        assert(self.contents@.drop_last() =~= old(self).contents@);
        (id, item)
    }

    /// Takes the item with the id out. What there is to tell is returned.
    pub fn remove(&mut self, id: I) -> (r: Option<RegistryChangeInternal<I, V::Acl, T>>)
        requires
            old(self).wf(),
        ensures
            final(self).wf(),
            final(self).next_id() == old(self).next_id(),
            final(self).verifier_spec() == old(self).verifier_spec(),
            final(self).entries() == without_id(old(self).entries(), id),
            match r {
                Some(change) => exists|i: int|
                    0 <= i < old(self).entries().len() && (#[trigger] old(self).entries()[i]).0
                        == id && change.public() == RegistryChange::<I, V::Acl, T>::Removed(id)
                        && change.acl_spec() == old(self).entries()[i].1.acl_spec(),
                None => !has_id(old(self).entries(), id),
            },
    {
        match self.position(&id) {
            Some(i) => {
                let ghost before = self.contents@;
                let (_, item) = self.contents.remove(i);
                proof {
                    lemma_without_id_remove(before, i as int);
                    let after = self.contents@;
                    assert forall|a: int, b: int| #![trigger after[a], after[b]]
                        0 <= a < b < after.len() implies after[a].0.position()
                        < after[b].0.position() by {
                        let x = if a < i { a } else { a + 1 };
                        let y = if b < i { b } else { b + 1 };
                        assert(before[x].0.position() < before[y].0.position());
                    }
                    assert forall|a: int| 0 <= a < after.len() implies (#[trigger]
                    after[a]).0.position() < self.next_id().position() && after[a].1.wf() by {
                        let x = if a < i { a } else { a + 1 };
                        assert(before[x] == after[a]);
                    }
                    assert(before[i as int].0 == id);
                }
                Some(RegistryChangeInternal::Removed { id, acl: item.acl })
            },
            None => {
                proof {
                    lemma_without_absent(self.contents@, id);
                }
                None
            },
        }
    }

    fn position(&self, id: &I) -> (r: Option<usize>)
        ensures
            match r {
                Some(i) => i < self.entries().len() && self.entries()[i as int].0 == *id,
                None => !has_id(self.entries(), *id),
            },
    {
        for i in 0..self.contents.len()
            invariant
                forall|j: int| 0 <= j < i ==> (#[trigger] self.contents@[j]).0 != *id,
        {
            if self.contents[i].0.same(id) {
                return Some(i);
            }
        }
        None
    }

    /// The item with the id, for those who may see it.
    pub fn lookup(&self, id: I, cred: &V::Credential) -> (r: Option<&Item<V::Acl, T>>)
        requires
            self.wf(),
        ensures
            match r {
                Some(item) => visible(self.verifier_spec(), self.entries(), *cred).contains(
                    (id, *item),
                ),
                None => !has_id(visible(self.verifier_spec(), self.entries(), *cred), id),
            },
            r is Some ==> r->0.wf(),
    {
        let ghost shown = |e: (I, Item<V::Acl, T>)| self.verifier.allows(cred, &e.1.acl_spec());
        match self.position(&id) {
            Some(i) => {
                let item = &self.contents[i].1;
                if self.verifier.verify(cred, item.acl()) {
                    proof {
                        lemma_filter_has(self.contents@, shown, self.contents@[i as int]);
                    }
                    Some(item)
                } else {
                    proof {
                        let all = self.contents@;
                        let seen = all.filter(shown);
                        assert forall|j: int| 0 <= j < seen.len() implies (#[trigger] seen[j]).0
                            != id by {
                            assert(seen.contains(seen[j]));
                            lemma_filter_has(all, shown, seen[j]);
                            let x = choose|x: int| 0 <= x < all.len() && all[x] == seen[j];
                            if seen[j].0 == id {
                                if x < i {
                                    assert(all[x].0.position() < all[i as int].0.position());
                                } else if i < x {
                                    assert(all[i as int].0.position() < all[x].0.position());
                                }
                            }
                        }
                    }
                    None
                }
            },
            None => {
                proof {
                    let all = self.contents@;
                    let seen = all.filter(shown);
                    assert forall|j: int| 0 <= j < seen.len() implies (#[trigger] seen[j]).0
                        != id by {
                        assert(seen.contains(seen[j]));
                        lemma_filter_has(all, shown, seen[j]);
                    }
                }
                None
            },
        }
    }

    /// The ids of the items that the holder of the credential may see, in their order.
    pub fn ids(&self, cred: &V::Credential) -> (r: Vec<I>)
        ensures
            r@ == visible(self.verifier_spec(), self.entries(), *cred).map_values(
                |e: (I, Item<V::Acl, T>)| e.0,
            ),
    {
        let mut r: Vec<I> = Vec::new();
        let ghost shown = |e: (I, Item<V::Acl, T>)| self.verifier.allows(cred, &e.1.acl_spec());
        let ghost id_of = |e: (I, Item<V::Acl, T>)| e.0;
        proof {
            lemma_filter_empty(self.contents@.take(0), shown);
        }
        for i in 0..self.contents.len()
            invariant
                shown == (|e: (I, Item<V::Acl, T>)| self.verifier.allows(cred, &e.1.acl_spec())),
                id_of == (|e: (I, Item<V::Acl, T>)| e.0),
                r@ == self.contents@.take(i as int).filter(shown).map_values(id_of),
        {
            proof {
                lemma_filter_next(self.contents@, shown, i as int);
            }
            let entry = &self.contents[i];
            if self.verifier.verify(cred, entry.1.acl()) {
                let ghost before = self.contents@.take(i as int).filter(shown);
                r.push(entry.0);
                assert(r@ =~= before.push(*entry).map_values(id_of));
            }
        }
        assert(self.contents@.take(self.contents@.len() as int) =~= self.contents@);
        r
    }

    /// The items that the holder of the credential may see, in the order of their ids.
    pub fn contents(&self, token: &V::Credential) -> (r: Vec<(I, &Item<V::Acl, T>)>)
        ensures
            r@ == visible(self.verifier_spec(), self.entries(), *token).map_values(
                |e: (I, Item<V::Acl, T>)| (e.0, &e.1),
            ),
    {
        let mut r: Vec<(I, &Item<V::Acl, T>)> = Vec::new();
        let ghost shown = |e: (I, Item<V::Acl, T>)| self.verifier.allows(token, &e.1.acl_spec());
        let ghost by_ref = |e: (I, Item<V::Acl, T>)| (e.0, &e.1);
        proof {
            lemma_filter_empty(self.contents@.take(0), shown);
        }
        for i in 0..self.contents.len()
            invariant
                shown == (|e: (I, Item<V::Acl, T>)| self.verifier.allows(token, &e.1.acl_spec())),
                by_ref == (|e: (I, Item<V::Acl, T>)| (e.0, &e.1)),
                r@ == self.contents@.take(i as int).filter(shown).map_values(by_ref),
        {
            proof {
                lemma_filter_next(self.contents@, shown, i as int);
            }
            let entry = &self.contents[i];
            if self.verifier.verify(token, entry.1.acl()) {
                let ghost before = self.contents@.take(i as int).filter(shown);
                r.push((entry.0, &entry.1));
                assert(r@ =~= before.push(*entry).map_values(by_ref));
            }
        }
        assert(self.contents@.take(self.contents@.len() as int) =~= self.contents@);
        r
    }

    /// All items, in the order of their ids.
    pub fn contents_no_auth(&self) -> (r: &Vec<(I, Item<V::Acl, T>)>)
        ensures
            r@ == self.entries(),
    {
        &self.contents
    }

    /// The first item, in the order of the ids, that matches and may be seen.
    pub fn find(&self, wanted: &Vec<(String, String)>, token: &V::Credential) -> (r: Option<
        (I, &Item<V::Acl, T>),
    >)
        requires
            self.wf(),
        ensures
            match r {
                Some((id, item)) => exists|i: int|
                    {
                        &&& 0 <= i < self.entries().len()
                        &&& #[trigger] self.entries()[i] == (id, *item)
                        &&& found(self.verifier_spec(), self.entries()[i], wanted@, *token)
                        &&& forall|j: int|
                            0 <= j < i ==> !found(
                                self.verifier_spec(),
                                #[trigger] self.entries()[j],
                                wanted@,
                                *token,
                            )
                    },
                None => forall|j: int|
                    0 <= j < self.entries().len() ==> !found(
                        self.verifier_spec(),
                        #[trigger] self.entries()[j],
                        wanted@,
                        *token,
                    ),
            },
    {
        for i in 0..self.contents.len()
            invariant
                self.wf(),
                forall|j: int|
                    0 <= j < i ==> !found(
                        self.verifier,
                        #[trigger] self.contents@[j],
                        wanted@,
                        *token,
                    ),
        {
            let entry = &self.contents[i];
            assert(self.entries()[i as int].1.wf());
            if self.verifier.verify(token, entry.1.acl()) && entry.1.properties.matches(wanted) {
                assert(self.entries()[i as int] == (entry.0, entry.1));
                return Some((entry.0, &entry.1));
            }
        }
        None
    }
}

/// Whether the entry matches the list and may be seen.
pub open spec fn found<V: Verifier, I, T>(
    verifier: V,
    entry: (I, Item<V::Acl, T>),
    wanted: Seq<(String, String)>,
    cred: V::Credential,
) -> bool {
    &&& verifier.allows(&cred, &entry.1.acl_spec())
    &&& properties_match(entry.1.properties_spec()@, wanted)
}

/// Passes the changes on that the holder of a credential may hear of.
pub struct RegistryMonitor<V: Verifier> {
    /// Who decides what may be seen.
    pub verifier: V,
    /// The credential of the listener.
    pub cred: V::Credential,
}

impl<V: Verifier> RegistryMonitor<V> {
    /// The change as the listener sees it, if at all.
    pub fn pass<I, T>(&self, change: RegistryChangeInternal<I, V::Acl, T>) -> (r: Option<
        RegistryChange<I, V::Acl, T>,
    >)
        ensures
            r == heard(self.verifier, self.cred, change),
    {
        if self.verifier.verify(&self.cred, change.acl()) {
            Some(change.into_change())
        } else {
            None
        }
    }
}

/// What the holder of a credential hears of a change.
pub open spec fn heard<V: Verifier, I, T>(
    verifier: V,
    cred: V::Credential,
    change: RegistryChangeInternal<I, V::Acl, T>,
) -> Option<RegistryChange<I, V::Acl, T>> {
    if verifier.allows(&cred, &change.acl_spec()) {
        Some(change.public())
    } else {
        None
    }
}

/// The items that a listener knows of after a change.
pub open spec fn known_after<I, A, T>(
    known: Seq<(I, Item<A, T>)>,
    change: Option<RegistryChange<I, A, T>>,
) -> Seq<(I, Item<A, T>)> {
    match change {
        None => known,
        Some(RegistryChange::Added { id, item }) => known.push((id, item)),
        Some(RegistryChange::Removed(id)) => without_id(known, id),
    }
}

/// What may be seen is what is there and is allowed.
pub proof fn lemma_visible<V: Verifier, I, T>(
    verifier: V,
    entries: Seq<(I, Item<V::Acl, T>)>,
    cred: V::Credential,
    entry: (I, Item<V::Acl, T>),
)
    ensures
        visible(verifier, entries, cred).contains(entry) <==> entries.contains(entry)
            && verifier.allows(&cred, &entry.1.acl_spec()),
{
    lemma_filter_has(
        entries,
        |e: (I, Item<V::Acl, T>)| verifier.allows(&cred, &e.1.acl_spec()),
        entry,
    );
}

proof fn lemma_filter_empty<E>(s: Seq<E>, p: spec_fn(E) -> bool)
    requires
        s.len() == 0,
    ensures
        s.filter(p) == Seq::<E>::empty(),
{
    reveal(Seq::filter);
}

proof fn lemma_filter_next<E>(s: Seq<E>, p: spec_fn(E) -> bool, i: int)
    requires
        0 <= i < s.len(),
    ensures
        s.take(i + 1).filter(p) == if p(s[i]) {
            s.take(i).filter(p).push(s[i])
        } else {
            s.take(i).filter(p)
        },
{
    reveal(Seq::filter);
    assert(s.take(i + 1).drop_last() =~= s.take(i));
}

proof fn lemma_filter_has<E>(s: Seq<E>, p: spec_fn(E) -> bool, e: E)
    ensures
        s.filter(p).contains(e) <==> s.contains(e) && p(e),
    decreases s.len(),
{
    reveal(Seq::filter);
    if s.len() > 0 {
        let rest = s.drop_last();
        lemma_filter_has(rest, p, e);
        let f = rest.filter(p);
        assert(s =~= rest.push(s.last()));
        lemma_push_has(rest, s.last(), e);
        lemma_push_has(f, s.last(), e);
    }
}

proof fn lemma_push_has<E>(s: Seq<E>, x: E, e: E)
    ensures
        s.push(x).contains(e) <==> s.contains(e) || e == x,
{
    if s.contains(e) {
        let i = choose|i: int| 0 <= i < s.len() && s[i] == e;
        assert(s.push(x)[i] == e);
    }
    assert(s.push(x)[s.len() as int] == x);
}

proof fn lemma_filter_same<E>(s: Seq<E>, p: spec_fn(E) -> bool)
    requires
        forall|i: int| 0 <= i < s.len() ==> p(#[trigger] s[i]),
    ensures
        s.filter(p) == s,
    decreases s.len(),
{
    reveal(Seq::filter);
    if s.len() > 0 {
        lemma_filter_same(s.drop_last(), p);
        assert(s.drop_last().push(s.last()) =~= s);
    }
}

proof fn lemma_without_absent<I, A, T>(entries: Seq<(I, Item<A, T>)>, id: I)
    requires
        !has_id(entries, id),
    ensures
        without_id(entries, id) == entries,
{
    lemma_filter_same(entries, |e: (I, Item<A, T>)| e.0 != id);
}

proof fn lemma_without_id_remove<I: RegistryIndex, A, T>(entries: Seq<(I, Item<A, T>)>, i: int)
    requires
        ascending(entries),
        0 <= i < entries.len(),
    ensures
        without_id(entries, entries[i].0) == entries.remove(i),
{
    let id = entries[i].0;
    let p = |e: (I, Item<A, T>)| e.0 != id;
    let head = entries.take(i);
    let tail = entries.skip(i + 1);
    let one = seq![entries[i]];
    assert(entries =~= head + (one + tail));
    Seq::filter_distributes_over_add(head, one + tail, p);
    Seq::filter_distributes_over_add(one, tail, p);
    assert forall|j: int| 0 <= j < head.len() implies p(#[trigger] head[j]) by {
        assert(entries[j].0.position() < entries[i].0.position());
    }
    lemma_filter_same(head, p);
    assert forall|j: int| 0 <= j < tail.len() implies p(#[trigger] tail[j]) by {
        assert(entries[i].0.position() < entries[i + 1 + j].0.position());
    }
    lemma_filter_same(tail, p);
    assert(one.filter(p) =~= Seq::empty()) by {
        reveal(Seq::filter);
        lemma_filter_empty(one.drop_last(), p);
    }
    assert(entries.remove(i) =~= head + (Seq::empty() + tail));
}

/// An id is never given out twice: an item that is added gets an id that no item in the
/// registry has, above all of them.
pub proof fn law_ids_are_fresh<V: Verifier, I: RegistryIndex, T: Clone>(
    registry: Registry<V, I, T>,
)
    requires
        registry.wf(),
    ensures
        !has_id(registry.entries(), registry.next_id()),
        forall|i: int|
            0 <= i < registry.entries().len() ==> (#[trigger] registry.entries()[i]).0.position()
                < registry.next_id().position(),
{
}

/// An item that was removed is gone, and all others stay.
pub proof fn law_removed_is_gone<I: RegistryIndex, A, T>(
    entries: Seq<(I, Item<A, T>)>,
    id: I,
    other: (I, Item<A, T>),
)
    requires
        ascending(entries),
    ensures
        !has_id(without_id(entries, id), id),
        other.0 != id ==> (without_id(entries, id).contains(other) <==> entries.contains(other)),
{
    let p = |e: (I, Item<A, T>)| e.0 != id;
    let left = without_id(entries, id);
    assert forall|i: int| 0 <= i < left.len() implies (#[trigger] left[i]).0 != id by {
        assert(left.contains(left[i]));
        lemma_filter_has(entries, p, left[i]);
    }
    lemma_filter_has(entries, p, other);
}

/// A listener who knows what may be seen, and takes in what is heard of an added item, knows
/// what may be seen afterwards.
pub proof fn law_monitor_follows_add<V: Verifier, I: RegistryIndex, T>(
    verifier: V,
    entries: Seq<(I, Item<V::Acl, T>)>,
    cred: V::Credential,
    id: I,
    item: Item<V::Acl, T>,
)
    ensures
        visible(verifier, entries.push((id, item)), cred) == known_after(
            visible(verifier, entries, cred),
            heard(verifier, cred, RegistryChangeInternal::Added { id, item }),
        ),
{
    let shown = |e: (I, Item<V::Acl, T>)| verifier.allows(&cred, &e.1.acl_spec());
    let after = entries.push((id, item));
    lemma_filter_next(after, shown, entries.len() as int);
    assert(after.take(after.len() as int) =~= after);
    assert(after.take(entries.len() as int) =~= entries);
}

/// A listener who knows what may be seen, and takes in what is heard of a removed item, knows
/// what may be seen afterwards.
pub proof fn law_monitor_follows_remove<V: Verifier, I: RegistryIndex, T>(
    verifier: V,
    entries: Seq<(I, Item<V::Acl, T>)>,
    cred: V::Credential,
    i: int,
    change: RegistryChangeInternal<I, V::Acl, T>,
)
    requires
        ascending(entries),
        0 <= i < entries.len(),
        change.public() == RegistryChange::<I, V::Acl, T>::Removed(entries[i].0),
        change.acl_spec() == entries[i].1.acl_spec(),
    ensures
        visible(verifier, without_id(entries, entries[i].0), cred) == known_after(
            visible(verifier, entries, cred),
            heard(verifier, cred, change),
        ),
{
    let id = entries[i].0;
    let shown = |e: (I, Item<V::Acl, T>)| verifier.allows(&cred, &e.1.acl_spec());
    let kept = |e: (I, Item<V::Acl, T>)| e.0 != id;
    lemma_filters_commute(entries, shown, kept);
    if !shown(entries[i]) {
        let seen = entries.filter(shown);
        assert forall|j: int| 0 <= j < seen.len() implies kept(#[trigger] seen[j]) by {
            assert(seen.contains(seen[j]));
            lemma_filter_has(entries, shown, seen[j]);
            let x = choose|x: int| 0 <= x < entries.len() && entries[x] == seen[j];
            if x < i {
                assert(entries[x].0.position() < entries[i].0.position());
            } else {
                assert(x != i);
                assert(entries[i].0.position() < entries[x].0.position());
            }
        }
        lemma_filter_same(seen, kept);
    }
}

proof fn lemma_filters_commute<E>(s: Seq<E>, p: spec_fn(E) -> bool, q: spec_fn(E) -> bool)
    ensures
        s.filter(p).filter(q) == s.filter(q).filter(p),
    decreases s.len(),
{
    reveal(Seq::filter);
    if s.len() > 0 {
        let rest = s.drop_last();
        lemma_filters_commute(rest, p, q);
        let l = s.last();
        let fp = rest.filter(p);
        let fq = rest.filter(q);
        if p(l) {
            assert(fp.push(l).drop_last() =~= fp);
        }
        if q(l) {
            assert(fq.push(l).drop_last() =~= fq);
        }
    } else {
        lemma_filter_empty(s, p);
        lemma_filter_empty(s, q);
    }
}

/// An item matches a list exactly if it has each property of the list with the value that is asked
/// for, and an item of another instance only one that asks for an instance.
pub proof fn law_match_needs_all(
    properties: Map<Seq<char>, Seq<char>>,
    wanted: Seq<(String, String)>,
    i: int,
)
    ensures
        properties_match(properties, wanted) && 0 <= i < wanted.len() ==> properties.contains_pair(
            wanted[i].0@,
            wanted[i].1@,
        ),
        properties_match(properties, wanted) && properties.contains_key("boardswarm.instance"@)
            ==> exists|k: int|
            0 <= k < wanted.len() && (#[trigger] wanted[k]).0@ == "boardswarm.instance"@,
        (forall|k: int|
            0 <= k < wanted.len() ==> properties.contains_pair(
                (#[trigger] wanted[k]).0@,
                wanted[k].1@,
            )) && !properties.contains_key("boardswarm.instance"@) ==> properties_match(
            properties,
            wanted,
        ),
        (forall|k: int|
            0 <= k < wanted.len() ==> properties.contains_pair(
                (#[trigger] wanted[k]).0@,
                wanted[k].1@,
            )) && (exists|k: int|
            0 <= k < wanted.len() && (#[trigger] wanted[k]).0@ == "boardswarm.instance"@)
            ==> properties_match(properties, wanted),
{
    if (forall|k: int|
        0 <= k < wanted.len() ==> properties.contains_pair(
            (#[trigger] wanted[k]).0@,
            wanted[k].1@,
        )) && mentions(wanted, INSTANCE@) {
        let k = choose|k: int| 0 <= k < wanted.len() && (#[trigger] wanted[k]).0@ == INSTANCE@;
        assert(properties.contains_pair(wanted[k].0@, wanted[k].1@));
    }
    if !properties.contains_key(INSTANCE@) && mentions(wanted, INSTANCE@) {
        let k = choose|k: int| 0 <= k < wanted.len() && (#[trigger] wanted[k]).0@ == INSTANCE@;
        assert(!properties.contains_pair(wanted[k].0@, wanted[k].1@));
    }
}

/// Of several values for one key of a list the last counts, and keys that the list does not have
/// keep their value.
pub proof fn law_last_value_counts(
    properties: Map<Seq<char>, Seq<char>>,
    pairs: Seq<(String, String)>,
    i: int,
    key: Seq<char>,
)
    ensures
        0 <= i < pairs.len() && (forall|j: int| i < j < pairs.len() ==> (#[trigger] pairs[j]).0@
            != pairs[i].0@) ==> extended(properties, pairs).contains_pair(
            pairs[i].0@,
            pairs[i].1@,
        ) && pairs_map(pairs).contains_pair(pairs[i].0@, pairs[i].1@),
        (forall|j: int| 0 <= j < pairs.len() ==> (#[trigger] pairs[j]).0@ != key) ==> {
            &&& extended(properties, pairs).contains_key(key) == properties.contains_key(key)
            &&& properties.contains_key(key) ==> extended(properties, pairs)[key]
                == properties[key]
            &&& !pairs_map(pairs).contains_key(key)
        },
    decreases pairs.len(),
{
    if pairs.len() > 0 {
        let rest = pairs.drop_last();
        law_last_value_counts(properties, rest, i, key);
        if forall|j: int| 0 <= j < pairs.len() ==> (#[trigger] pairs[j]).0@ != key {
            assert forall|j: int| 0 <= j < rest.len() implies (#[trigger] rest[j]).0@ != key by {
                assert(rest[j] == pairs[j]);
            }
            assert(pairs[pairs.len() - 1].0@ != key);
        }
        if 0 <= i < rest.len() && (forall|j: int|
            i < j < pairs.len() ==> (#[trigger] pairs[j]).0@ != pairs[i].0@) {
            assert forall|j: int| i < j < rest.len() implies (#[trigger] rest[j]).0@
                != rest[i].0@ by {
                assert(rest[j] == pairs[j]);
            }
            assert(pairs[pairs.len() - 1].0@ != pairs[i].0@);
        }
    }
}

/// Someone sees exactly the items that they are allowed to see, in the order of their ids.
pub proof fn law_only_allowed_is_visible<V: Verifier, I: RegistryIndex, T>(
    verifier: V,
    entries: Seq<(I, Item<V::Acl, T>)>,
    cred: V::Credential,
    i: int,
)
    requires
        ascending(entries),
        0 <= i < entries.len(),
    ensures
        has_id(visible(verifier, entries, cred), entries[i].0) <==> verifier.allows(
            &cred,
            &entries[i].1.acl_spec(),
        ),
        verifier.allows(&cred, &entries[i].1.acl_spec()) ==> visible(
            verifier,
            entries,
            cred,
        ).contains(entries[i]),
        ascending(visible(verifier, entries, cred)),
        visible(verifier, entries, cred).len() <= entries.len(),
{
    let seen = visible(verifier, entries, cred);
    lemma_visible(verifier, entries, cred, entries[i]);
    if verifier.allows(&cred, &entries[i].1.acl_spec()) {
        let x = choose|x: int| 0 <= x < seen.len() && seen[x] == entries[i];
        assert(seen[x].0 == entries[i].0);
    }
    if has_id(seen, entries[i].0) {
        let x = choose|x: int| 0 <= x < seen.len() && (#[trigger] seen[x]).0 == entries[i].0;
        assert(seen.contains(seen[x]));
        lemma_visible(verifier, entries, cred, seen[x]);
        let y = choose|y: int| 0 <= y < entries.len() && entries[y] == seen[x];
        if y < i {
            assert(entries[y].0.position() < entries[i].0.position());
        } else if y > i {
            assert(entries[i].0.position() < entries[y].0.position());
        }
    }
    lemma_filter_ascending(entries, |e: (I, Item<V::Acl, T>)| verifier.allows(
        &cred,
        &e.1.acl_spec(),
    ));
}

proof fn lemma_filter_ascending<I: RegistryIndex, A, T>(
    s: Seq<(I, Item<A, T>)>,
    p: spec_fn((I, Item<A, T>)) -> bool,
)
    requires
        ascending(s),
    ensures
        ascending(s.filter(p)),
        s.filter(p).len() <= s.len(),
    decreases s.len(),
{
    reveal(Seq::filter);
    if s.len() > 0 {
        let rest = s.drop_last();
        assert forall|i: int, j: int| #![trigger rest[i], rest[j]]
            0 <= i < j < rest.len() implies rest[i].0.position() < rest[j].0.position() by {
            assert(s[i].0.position() < s[j].0.position());
        }
        lemma_filter_ascending(rest, p);
        let f = rest.filter(p);
        if p(s.last()) {
            let all = f.push(s.last());
            assert forall|i: int, j: int| #![trigger all[i], all[j]]
                0 <= i < j < all.len() implies all[i].0.position() < all[j].0.position() by {
                if j == f.len() {
                    assert(f.contains(f[i]));
                    lemma_filter_has(rest, p, f[i]);
                    let x = choose|x: int| 0 <= x < rest.len() && rest[x] == f[i];
                    assert(s[x].0.position() < s[s.len() - 1].0.position());
                } else {
                    assert(f[i].0.position() < f[j].0.position());
                }
            }
        }
    }
}

/// Nobody finds or hears of what they may not see, and everybody hears of what they may see: of an
/// added item as it is, of a removed one its id.
pub proof fn law_nothing_hidden_is_told<V: Verifier, I, T>(
    verifier: V,
    cred: V::Credential,
    id: I,
    item: Item<V::Acl, T>,
    wanted: Seq<(String, String)>,
)
    ensures
        found(verifier, (id, item), wanted, cred) ==> verifier.allows(&cred, &item.acl_spec())
            && properties_match(item.properties_spec()@, wanted),
        verifier.allows(&cred, &item.acl_spec()) ==> found(verifier, (id, item), wanted, cred)
            == properties_match(item.properties_spec()@, wanted) && heard(
            verifier,
            cred,
            RegistryChangeInternal::Added { id, item },
        ) == Some(RegistryChange::Added { id, item }),
        !verifier.allows(&cred, &item.acl_spec()) ==> heard(
            verifier,
            cred,
            RegistryChangeInternal::Added { id, item },
        ) is None,
        forall|acl: Arc<V::Acl>|
            #[trigger] heard(
                verifier,
                cred,
                RegistryChangeInternal::<I, V::Acl, T>::Removed { id, acl },
            ) == if verifier.allows(&cred, &*acl) {
                Some(RegistryChange::<I, V::Acl, T>::Removed(id))
            } else {
                None
            },
{
}

/// An item is shown by its name, with its instance behind it where it comes from another one.
pub proof fn law_items_are_shown_by_name(
    properties: Map<Seq<char>, Seq<char>>,
    name: Seq<char>,
    instance: Seq<char>,
)
    requires
        name.len() > 0,
        !properties.contains_key(INSTANCE@),
    ensures
        name_in(properties.insert(NAME@, name)) == name,
        name_in(Map::empty()) == Seq::<char>::empty(),
        item_display(properties.insert(NAME@, name)) == name,
        item_display(properties.insert(NAME@, name).insert(INSTANCE@, instance)) == name + " on "@
            + instance,
{
    reveal_strlit("boardswarm.name");
    reveal_strlit("boardswarm.instance");
    assert(NAME@ != INSTANCE@) by {
        assert(NAME@.len() != INSTANCE@.len());
    }
}

} // verus!
