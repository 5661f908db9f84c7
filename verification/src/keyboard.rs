//! Keyboards: key events of any number of clients folded into one boot keyboard report.

use vstd::prelude::*;

use crate::bits::bit;

verus! {

/// A key event, with the usage id of the key in the HID Keyboard/Keypad page.
#[derive(Copy, Clone, Debug, PartialEq, Eq, Structural)]
pub enum KeyboardEvent {
    /// Key press.
    Down(u8),
    /// Key release.
    Up(u8),
}

impl KeyboardEvent {
    /// The key that is pressed or released.
    pub open spec fn key(self) -> u8 {
        match self {
            KeyboardEvent::Down(k) => k,
            KeyboardEvent::Up(k) => k,
        }
    }

    /// Whether the event is about an ordinary key, which takes a slot of the report.
    pub fn is_key(self) -> (r: bool)
        ensures
            r == key_usage(self.key()),
    {
        match self {
            KeyboardEvent::Down(k) => k > 0 && k <= 0xdd,
            KeyboardEvent::Up(k) => k > 0 && k <= 0xdd,
        }
    }

    /// Whether the event is about a modifier, which has a bit of the report.
    pub fn is_modifier(self) -> (r: bool)
        ensures
            r == modifier_usage(self.key()),
    {
        match self {
            KeyboardEvent::Down(m) => m >= 0xe0 && m <= 0xe7,
            KeyboardEvent::Up(m) => m >= 0xe0 && m <= 0xe7,
        }
    }
}

/// Usage ids of ordinary keys.
pub open spec fn key_usage(key: u8) -> bool {
    0 < key <= 0xdd
}

/// Usage ids of modifiers: left control up to right meta.
pub open spec fn modifier_usage(key: u8) -> bool {
    0xe0 <= key <= 0xe7
}

/// The bit of a modifier in the first byte of the report.
pub open spec fn modifier_bit(key: u8) -> u8 {
    1u8 << (key & 7)
}

/// How many keys one report holds.
pub const KEYS: usize = 6;

/// The slots of a report: the keys that are down, oldest first, each once, and zeros behind
/// them.
pub open spec fn packed(down: Seq<u8>) -> bool {
    &&& down.len() == KEYS
    &&& forall|i: int, j: int|
        #![trigger down[i], down[j]]
        0 <= i < j < down.len() && down[j] != 0 ==> down[i] != 0 && down[i] != down[j]
}

/// The slots after a key went down: the first free slot takes it; where none is free the
/// oldest key drops out.
pub open spec fn pressed(down: Seq<u8>, key: u8) -> Seq<u8> {
    if down.contains(key) {
        down
    } else if down.contains(0) {
        down.update(down.index_of_first(0)->0, key)
    } else {
        down.skip(1).push(key)
    }
}

/// The slots after a key went up: younger keys move up, a free slot comes in at the end.
pub open spec fn released(down: Seq<u8>, key: u8) -> Seq<u8> {
    if key != 0 && down.contains(key) {
        down.remove(down.index_of_first(key)->0).push(0)
    } else {
        down
    }
}

/// The slots after several keys went down one after the other.
pub open spec fn pressed_all(down: Seq<u8>, keys: Seq<u8>) -> Seq<u8>
    decreases keys.len(),
{
    if keys.len() == 0 {
        down
    } else {
        pressed(pressed_all(down, keys.drop_last()), keys.last())
    }
}

/// Whether one of the clients has the key down.
pub open spec fn held(clients: Seq<Seq<u8>>, key: u8) -> bool {
    exists|i: int| 0 <= i < clients.len() && (#[trigger] clients[i]).contains(key)
}

/// Keys with free slots behind them up to the length of a report.
pub open spec fn padded(keys: Seq<u8>) -> Seq<u8> {
    keys + Seq::new((KEYS - keys.len()) as nat, |i: int| 0u8)
}

/// The keys in the slots.
pub open spec fn keys_in(down: Seq<u8>) -> Seq<u8> {
    down.filter(|k: u8| k != 0)
}

/// The slots with the keys that no client holds any more taken out.
pub open spec fn retained(down: Seq<u8>, clients: Seq<Seq<u8>>) -> Seq<u8> {
    padded(down.filter(|k: u8| k != 0 && held(clients, k)))
}

/// The slots of the merged keyboard and the keys that were dropped for want of a slot.
pub struct Merged {
    /// The slots.
    pub down: Seq<u8>,
    /// The keys that lost their slot, in the order in which they lost it.
    pub dropped: Seq<u8>,
}

/// What one slot of a client brings to the merged keyboard; a free one brings nothing.
pub open spec fn with_key(m: Merged, key: u8) -> Merged {
    if key == 0 || m.down.contains(key) || m.dropped.contains(key) {
        m
    } else {
        Merged {
            down: pressed(m.down, key),
            dropped: if m.down[KEYS - 1] != 0 {
                m.dropped.push(m.down[0])
            } else {
                m.dropped
            },
        }
    }
}

/// What a row of slots brings to the merged keyboard.
pub open spec fn with_keys(m: Merged, keys: Seq<u8>) -> Merged
    decreases keys.len(),
{
    if keys.len() == 0 {
        m
    } else {
        with_key(with_keys(m, keys.drop_last()), keys.last())
    }
}

/// What the clients bring to the merged keyboard, in their order.
pub open spec fn with_clients(m: Merged, clients: Seq<Seq<u8>>) -> Merged
    decreases clients.len(),
{
    if clients.len() == 0 {
        m
    } else {
        with_keys(with_clients(m, clients.drop_last()), clients.last())
    }
}

/// The merged keyboard: keys that nobody holds go up, then each client's keys go down.
pub open spec fn merged(down: Seq<u8>, clients: Seq<Seq<u8>>) -> Merged {
    with_clients(Merged { down: retained(down, clients), dropped: seq![] }, clients)
}

/// The modifiers that any of the clients holds.
pub open spec fn any_modifiers(modifiers: Seq<u8>) -> u8
    decreases modifiers.len(),
{
    if modifiers.len() == 0 {
        0
    } else {
        any_modifiers(modifiers.drop_last()) | modifiers.last()
    }
}

/// The keys and modifiers that are down on one keyboard.
#[derive(Debug)]
pub struct KeyboardData {
    down: [u8; 6],
    modifiers: u8,
}

/// The slots of each keyboard.
pub open spec fn downs(clients: Seq<KeyboardData>) -> Seq<Seq<u8>> {
    clients.map_values(|c: KeyboardData| c.slots())
}

/// The modifiers of each keyboard.
pub open spec fn modifiers_of(clients: Seq<KeyboardData>) -> Seq<u8> {
    clients.map_values(|c: KeyboardData| c.modifier_bits())
}

impl KeyboardData {
    /// The slots of the report.
    pub closed spec fn slots(self) -> Seq<u8> {
        self.down@
    }

    /// The modifier byte of the report.
    pub closed spec fn modifier_bits(self) -> u8 {
        self.modifiers
    }

    /// The slots hold each key once, with no gap between them.
    pub open spec fn wf(self) -> bool {
        packed(self.slots())
    }

    /// No key is down.
    pub fn new() -> (r: Self)
        ensures
            r.wf(),
            r.slots() == Seq::new(KEYS as nat, |i: int| 0u8),
            r.modifier_bits() == 0,
    {
        let r = KeyboardData { down: [0; 6], modifiers: 0 };
        assert(r.slots() =~= Seq::new(KEYS as nat, |i: int| 0u8));
        r
    }

    /// The keys that are down, oldest first, zeros behind them.
    pub fn down(&self) -> (r: [u8; 6])
        ensures
            r@ == self.slots(),
    {
        self.down
    }

    /// The modifiers that are down.
    pub fn modifiers(&self) -> (r: u8)
        ensures
            r == self.modifier_bits(),
    {
        self.modifiers
    }

    /// A key goes down.
    pub fn key_down(&mut self, key: u8)
        requires
            old(self).wf(),
        ensures
            final(self).wf(),
            final(self).slots() == pressed(old(self).slots(), key),
            final(self).modifier_bits() == old(self).modifier_bits(),
    {
        let ghost before = self.slots();
        for i in 0..6usize
            invariant
                self.down@ == before,
                before == old(self).slots(),
                packed(before),
                self.modifiers == old(self).modifier_bits(),
                forall|j: int| 0 <= j < i ==> before[j] != key && before[j] != 0,
        {
            if self.down[i] == key {
                assert(before.contains(key));
                return;
            }
            if self.down[i] == 0 {
                proof {
                    assert(before[i as int] == 0);
                    lemma_first(before, 0, i as int);
                    assert forall|j: int| 0 <= j < before.len() implies before[j] != key by {}
                }
                self.down[i] = key;
                assert(self.down@ =~= before.update(i as int, key));
                return;
            }
        }
        // All slots are taken: the oldest key drops out.
        self.shift_left(0);
        self.down[5] = key;
        assert(self.down@ =~= before.skip(1).push(key));
    }

    /// Takes the slot out, moves the later ones up and adds a free one.
    fn shift_left(&mut self, from: usize)
        requires
            from < 6,
        ensures
            final(self).slots() == old(self).slots().remove(from as int).push(0),
            final(self).modifier_bits() == old(self).modifier_bits(),
    {
        let ghost before = self.down@;
        let mut i: usize = from;
        while i < 5
            invariant
                from <= i <= 5,
                before.len() == 6,
                forall|j: int| 0 <= j < from ==> self.down@[j] == before[j],
                forall|j: int| from <= j < i ==> self.down@[j] == before[j + 1],
                forall|j: int| i <= j < 6 ==> self.down@[j] == before[j],
                self.modifiers == old(self).modifiers,
            decreases 5 - i,
        {
            self.down[i] = self.down[i + 1];
            i += 1;
        }
        self.down[5] = 0;
        assert(self.down@ =~= before.remove(from as int).push(0));
    }

    /// A key goes up.
    pub fn key_up(&mut self, key: u8)
        requires
            old(self).wf(),
        ensures
            final(self).wf(),
            final(self).slots() == released(old(self).slots(), key),
            final(self).modifier_bits() == old(self).modifier_bits(),
    {
        if key == 0 {
            return;
        }
        let ghost before = self.slots();
        for i in 0..6usize
            invariant
                self.down@ == before,
                before == old(self).slots(),
                packed(before),
                key != 0,
                self.modifiers == old(self).modifier_bits(),
                forall|j: int| 0 <= j < i ==> before[j] != key,
        {
            if self.down[i] == key {
                proof {
                    assert(before.contains(key));
                    lemma_first(before, key, i as int);
                }
                self.shift_left(i);
                return;
            }
        }
    }

    /// Takes an event of the keyboard in. Events that are about neither a key nor a modifier
    /// change nothing.
    pub fn event(&mut self, event: KeyboardEvent)
        requires
            old(self).wf(),
        ensures
            final(self).wf(),
            final(self).slots() == slots_after(old(self).slots(), event),
            final(self).modifier_bits() == modifiers_after(old(self).modifier_bits(), event),
    {
        if event.is_modifier() {
            match event {
                KeyboardEvent::Down(d) => {
                    assert(d & 7 < 8) by (bit_vector);
                    self.modifiers = self.modifiers | (1u8 << (d & 0x7));
                },
                KeyboardEvent::Up(u) => {
                    assert(u & 7 < 8) by (bit_vector);
                    self.modifiers = self.modifiers & !(1u8 << (u & 0x7));
                },
            }
        }
        if event.is_key() {
            match event {
                KeyboardEvent::Down(d) => self.key_down(d),
                KeyboardEvent::Up(u) => self.key_up(u),
            }
        }
    }
}

/// Whether one of the keyboards has the key in a slot.
fn is_held(clients: &Vec<KeyboardData>, key: u8) -> (r: bool)
    ensures
        r == held(downs(clients@), key),
{
    for i in 0..clients.len()
        invariant
            forall|j: int| 0 <= j < i ==> !(#[trigger] downs(clients@)[j]).contains(key),
    {
        let down = clients[i].down();
        assert(downs(clients@)[i as int] == down@);
        if has_key(&down, key) {
            return true;
        }
    }
    false
}

/// Whether the key is in one of the slots.
fn has_key(down: &[u8; 6], key: u8) -> (r: bool)
    ensures
        r == down@.contains(key),
{
    for i in 0..6usize
        invariant
            forall|j: int| 0 <= j < i ==> down@[j] != key,
    {
        if down[i] == key {
            assert(down@[i as int] == key);
            return true;
        }
    }
    false
}

/// Whether the key is among the keys.
fn has_dropped(keys: &Vec<u8>, key: u8) -> (r: bool)
    ensures
        r == keys@.contains(key),
{
    for i in 0..keys.len()
        invariant
            forall|j: int| 0 <= j < i ==> keys@[j] != key,
    {
        if keys[i] == key {
            assert(keys@[i as int] == key);
            return true;
        }
    }
    false
}

impl KeyboardData {
    /// Makes this keyboard the sum of the clients' keyboards. Keys for which there is no slot
    /// go down on every client, so that each of them has to let go before they come back.
    pub fn merge(&mut self, clients: &mut Vec<KeyboardData>)
        requires
            old(self).wf(),
            forall|i: int| 0 <= i < old(clients)@.len() ==> (#[trigger] old(clients)@[i]).wf(),
        ensures
            final(self).wf(),
            final(self).modifier_bits() == any_modifiers(modifiers_of(old(clients)@)),
            final(self).slots() == merged(old(self).slots(), downs(old(clients)@)).down,
            final(clients)@.len() == old(clients)@.len(),
            forall|i: int|
                0 <= i < old(clients)@.len() ==> {
                    &&& (#[trigger] final(clients)@[i]).wf()
                    &&& final(clients)@[i].modifier_bits() == old(clients)@[i].modifier_bits()
                    &&& final(clients)@[i].slots() == pressed_all(
                        old(clients)@[i].slots(),
                        merged(old(self).slots(), downs(old(clients)@)).dropped,
                    )
                },
    {
        let ghost all = clients@;
        let ghost start = self.slots();
        self.modifiers = 0;
        for i in 0..clients.len()
            invariant
                all == clients@,
                self.slots() == start,
                self.modifiers == any_modifiers(modifiers_of(all.take(i as int))),
        {
            proof {
                let next = modifiers_of(all.take(i + 1));
                assert(next.drop_last() =~= modifiers_of(all.take(i as int)));
                assert(next.last() == all[i as int].modifiers);
            }
            self.modifiers = self.modifiers | clients[i].modifiers;
        }
        assert(all.take(all.len() as int) =~= all);
        // Keys that are no longer down anywhere go up.
        let before = self.down;
        proof {
            lemma_retained_start(start, downs(all));
        }
        for j in 0..6usize
            invariant
                all == clients@,
                before@ == start,
                packed(start),
                self.wf(),
                self.slots() == part_retained(start, downs(all), j as int),
                self.modifiers == any_modifiers(modifiers_of(all)),
        {
            let k = before[j];
            proof {
                lemma_retained_step(start, downs(all), j as int);
            }
            if !is_held(clients, k) {
                self.key_up(k);
            }
        }
        proof {
            lemma_retained_end(start, downs(all));
        }
        // Then all keys of the clients go down.
        let mut dropped: Vec<u8> = Vec::new();
        let ghost first = Merged { down: retained(start, downs(all)), dropped: seq![] };
        assert(dropped@ =~= first.dropped);
        for i in 0..clients.len()
            invariant
                all == clients@,
                self.wf(),
                (Merged { down: self.slots(), dropped: dropped@ }) == with_clients(
                    first,
                    downs(all.take(i as int)),
                ),
                self.modifiers == any_modifiers(modifiers_of(all)),
        {
            let keys = clients[i].down;
            let ghost so_far = with_clients(first, downs(all.take(i as int)));
            proof {
                let next = downs(all.take(i + 1));
                assert(next.drop_last() =~= downs(all.take(i as int)));
                assert(next.last() == keys@);
                assert(keys@.take(0) =~= seq![]);
            }
            for j in 0..6usize
                invariant
                    self.wf(),
                    (Merged { down: self.slots(), dropped: dropped@ }) == with_keys(
                        so_far,
                        keys@.take(j as int),
                    ),
                    self.modifiers == any_modifiers(modifiers_of(all)),
            {
                let k = keys[j];
                proof {
                    assert(keys@.take(j + 1).drop_last() =~= keys@.take(j as int));
                    assert(keys@.take(j + 1).last() == k);
                }
                if k != 0 && !has_key(&self.down, k) && !has_dropped(&dropped, k) {
                    if self.down[5] != 0 {
                        dropped.push(self.down[0]);
                    }
                    self.key_down(k);
                }
            }
            assert(keys@.take(6) =~= keys@);
        }
        assert(all.take(all.len() as int) =~= all);
        let ghost m = merged(start, downs(all));
        assert(dropped@ == m.dropped);
        let n: usize = clients.len();
        for i in 0..n
            invariant
                n == all.len(),
                clients@.len() == n,
                forall|c: int| 0 <= c < n ==> (#[trigger] all[c]).wf(),
                forall|c: int| i <= c < n ==> clients@[c] == all[c],
                forall|c: int|
                    0 <= c < i ==> {
                        &&& (#[trigger] clients@[c]).wf()
                        &&& clients@[c].modifier_bits() == all[c].modifier_bits()
                        &&& clients@[c].slots() == pressed_all(all[c].slots(), dropped@)
                    },
        {
            let mut client = KeyboardData {
                down: clients[i].down,
                modifiers: clients[i].modifiers,
            };
            assert(dropped@.take(0) =~= seq![]);
            assert(all[i as int].wf());
            for d in 0..dropped.len()
                invariant
                    client.wf(),
                    client.modifiers == all[i as int].modifiers,
                    client.slots() == pressed_all(all[i as int].slots(), dropped@.take(d as int)),
            {
                proof {
                    assert(dropped@.take(d + 1).drop_last() =~= dropped@.take(d as int));
                }
                client.key_down(dropped[d]);
            }
            assert(dropped@.take(dropped@.len() as int) =~= dropped@);
            clients.set(i, client);
        }
    }
}

/// The slots once the first `j` of them have been looked at.
spec fn part_retained(down: Seq<u8>, clients: Seq<Seq<u8>>, j: int) -> Seq<u8> {
    padded(
        down.take(j).filter(|k: u8| k != 0 && held(clients, k)) + keys_in(down.skip(j)),
    )
}

proof fn lemma_keys_in(down: Seq<u8>, i: int)
    requires
        packed(down),
        0 <= i <= down.len(),
        i < down.len() ==> down[i] == 0,
        forall|j: int| 0 <= j < i ==> down[j] != 0,
    ensures
        keys_in(down) == down.take(i),
        down == padded(down.take(i)),
{
    let p = |k: u8| k != 0;
    lemma_filter_all(down.take(i), p);
    lemma_filter_none(down.skip(i), p);
    Seq::filter_distributes_over_add(down.take(i), down.skip(i), p);
    assert(down.take(i) + down.skip(i) =~= down);
    assert(keys_in(down) =~= down.take(i));
    assert(down =~= padded(down.take(i)));
}

proof fn lemma_filter_all(s: Seq<u8>, p: spec_fn(u8) -> bool)
    requires
        forall|j: int| 0 <= j < s.len() ==> p(s[j]),
    ensures
        s.filter(p) == s,
    decreases s.len(),
{
    reveal(Seq::filter);
    if s.len() > 0 {
        lemma_filter_all(s.drop_last(), p);
        assert(s.drop_last().push(s.last()) =~= s);
    }
}

proof fn lemma_filter_none(s: Seq<u8>, p: spec_fn(u8) -> bool)
    requires
        forall|j: int| 0 <= j < s.len() ==> !p(s[j]),
    ensures
        s.filter(p) == Seq::<u8>::empty(),
    decreases s.len(),
{
    reveal(Seq::filter);
    if s.len() > 0 {
        lemma_filter_none(s.drop_last(), p);
    }
}

/// Where the keys end.
proof fn lemma_key_count(down: Seq<u8>) -> (n: int)
    requires
        packed(down),
    ensures
        0 <= n <= down.len(),
        n < down.len() ==> down[n] == 0,
        forall|j: int| 0 <= j < n ==> down[j] != 0,
{
    if down.contains(0) {
        down.index_of_first_ensures(0);
        down.index_of_first(0)->0
    } else {
        down.len() as int
    }
}

proof fn lemma_retained_start(down: Seq<u8>, clients: Seq<Seq<u8>>)
    requires
        packed(down),
    ensures
        part_retained(down, clients, 0) == down,
{
    let p = |k: u8| k != 0 && held(clients, k);
    assert(down.skip(0) =~= down);
    lemma_filter_none(down.take(0), p);
    let n = lemma_key_count(down);
    lemma_keys_in(down, n);
    assert(Seq::<u8>::empty() + keys_in(down) =~= keys_in(down));
}

proof fn lemma_retained_end(down: Seq<u8>, clients: Seq<Seq<u8>>)
    requires
        packed(down),
    ensures
        part_retained(down, clients, KEYS as int) == retained(down, clients),
{
    let p = |k: u8| k != 0;
    let q = |k: u8| k != 0 && held(clients, k);
    assert(down.take(6) =~= down);
    lemma_filter_none(down.skip(6), p);
    assert(down.filter(q) + Seq::<u8>::empty() =~= down.filter(q));
}

proof fn lemma_retained_step(down: Seq<u8>, clients: Seq<Seq<u8>>, j: int)
    requires
        packed(down),
        0 <= j < KEYS,
    ensures
        part_retained(down, clients, j + 1) == if held(clients, down[j]) {
            part_retained(down, clients, j)
        } else {
            released(part_retained(down, clients, j), down[j])
        },
{
    let k = down[j];
    let p = |k: u8| k != 0;
    let q = |k: u8| k != 0 && held(clients, k);
    let before = down.take(j).filter(q);
    assert(down.take(j + 1) =~= down.take(j).push(k));
    assert(down.take(j + 1).filter(q) == if q(k) { before.push(k) } else { before }) by {
        reveal(Seq::filter);
        assert(down.take(j).push(k).drop_last() =~= down.take(j));
    }
    assert(down.skip(j) =~= seq![k] + down.skip(j + 1));
    Seq::filter_distributes_over_add(seq![k], down.skip(j + 1), p);
    if k == 0 {
        lemma_filter_none(seq![k], p);
        assert(keys_in(down.skip(j)) =~= keys_in(down.skip(j + 1)));
    } else {
        lemma_filter_all(seq![k], p);
        assert(keys_in(down.skip(j)) =~= seq![k] + keys_in(down.skip(j + 1)));
        if held(clients, k) {
            assert(before + (seq![k] + keys_in(down.skip(j + 1))) =~= before.push(k) + keys_in(
                down.skip(j + 1),
            ));
        } else {
            let rest = keys_in(down.skip(j + 1));
            lemma_filter_len(down.take(j), q);
            lemma_filter_len(down.skip(j + 1), p);
            assert forall|x: int| 0 <= x < before.len() implies before[x] != k by {
                assert(before.contains(before[x]));
                lemma_filter_contains(down.take(j), q, before[x]);
                let y = choose|y: int| 0 <= y < j && down.take(j)[y] == before[x];
                assert(down[y] != down[j]);
            }
            lemma_release_padded(before, k, rest);
        }
    }
}

proof fn lemma_release_padded(before: Seq<u8>, k: u8, rest: Seq<u8>)
    requires
        k != 0,
        before.len() + 1 + rest.len() <= KEYS,
        forall|x: int| 0 <= x < before.len() ==> before[x] != k,
    ensures
        released(padded(before + (seq![k] + rest)), k) == padded(before + rest),
{
    let now = padded(before + (seq![k] + rest));
    assert(now[before.len() as int] == k);
    assert forall|x: int| 0 <= x < before.len() implies now[x] != k by {
        assert(now[x] == before[x]);
    }
    lemma_first(now, k, before.len() as int);
    assert(released(now, k) =~= padded(before + rest));
}

proof fn lemma_filter_len(s: Seq<u8>, p: spec_fn(u8) -> bool)
    ensures
        s.filter(p).len() <= s.len(),
    decreases s.len(),
{
    reveal(Seq::filter);
    if s.len() > 0 {
        lemma_filter_len(s.drop_last(), p);
    }
}

proof fn lemma_filter_contains(s: Seq<u8>, p: spec_fn(u8) -> bool, x: u8)
    ensures
        s.filter(p).contains(x) <==> s.contains(x) && p(x),
    decreases s.len(),
{
    reveal(Seq::filter);
    if s.len() > 0 {
        let rest = s.drop_last();
        lemma_filter_contains(rest, p, x);
        assert(rest.push(s.last()) =~= s);
        assert(s.contains(x) <==> rest.contains(x) || x == s.last()) by {
            if s.contains(x) && x != s.last() {
                let i = choose|i: int| 0 <= i < s.len() && s[i] == x;
                assert(rest[i] == x);
            }
            if rest.contains(x) {
                let i = choose|i: int| 0 <= i < rest.len() && rest[i] == x;
                assert(s[i] == x);
            }
            assert(s[s.len() - 1] == s.last());
        }
        let f = rest.filter(p);
        if p(s.last()) {
            assert(f.push(s.last()).contains(x) <==> f.contains(x) || x == s.last()) by {
                let g = f.push(s.last());
                if f.contains(x) {
                    let i = choose|i: int| 0 <= i < f.len() && f[i] == x;
                    assert(g[i] == x);
                }
                assert(g[f.len() as int] == s.last());
            }
        }
    }
}

/// The slots after an event.
pub open spec fn slots_after(down: Seq<u8>, event: KeyboardEvent) -> Seq<u8> {
    if !key_usage(event.key()) {
        down
    } else {
        match event {
            KeyboardEvent::Down(k) => pressed(down, k),
            KeyboardEvent::Up(k) => released(down, k),
        }
    }
}

/// The modifiers after an event.
pub open spec fn modifiers_after(modifiers: u8, event: KeyboardEvent) -> u8 {
    if !modifier_usage(event.key()) {
        modifiers
    } else {
        match event {
            KeyboardEvent::Down(k) => modifiers | modifier_bit(k),
            KeyboardEvent::Up(k) => modifiers & !modifier_bit(k),
        }
    }
}

proof fn lemma_first(s: Seq<u8>, key: u8, i: int)
    requires
        0 <= i < s.len(),
        s[i] == key,
        forall|j: int| 0 <= j < i ==> s[j] != key,
    ensures
        s.contains(key),
        s.index_of_first(key) == Some(i),
{
    s.index_of_first_ensures(key);
}

/// Size of one input report.
pub const KEYBOARD_DESC_INPUT_SIZE: usize = 8;

/// One thing that happens to a keyboard with several clients.
#[derive(Copy, Clone, Debug, PartialEq, Eq, Structural)]
pub enum KeyboardChange {
    /// A client was added, behind the others.
    NewClient,
    /// The source of new clients is gone.
    NoMoreClients,
    /// The client sent an event.
    Event(usize, KeyboardEvent),
    /// The client is gone; the last client takes its place.
    Gone(usize),
}

/// A keyboard that any number of clients type on.
#[derive(Debug)]
pub struct HidKeyboardData {
    clients: Vec<KeyboardData>,
    state: KeyboardData,
}

/// The clients after a change, before their keyboards are merged.
pub open spec fn clients_after(
    slots: Seq<Seq<u8>>,
    modifiers: Seq<u8>,
    change: KeyboardChange,
) -> (Seq<Seq<u8>>, Seq<u8>) {
    match change {
        KeyboardChange::NewClient => (
            slots.push(Seq::new(KEYS as nat, |i: int| 0u8)),
            modifiers.push(0),
        ),
        KeyboardChange::NoMoreClients => (slots, modifiers),
        KeyboardChange::Event(i, e) => (
            slots.update(i as int, slots_after(slots[i as int], e)),
            modifiers.update(i as int, modifiers_after(modifiers[i as int], e)),
        ),
        KeyboardChange::Gone(i) => (
            slots.update(i as int, slots.last()).drop_last(),
            modifiers.update(i as int, modifiers.last()).drop_last(),
        ),
    }
}

/// The input report for the slots and modifiers.
pub open spec fn report_bytes(down: Seq<u8>, modifiers: u8) -> Seq<u8> {
    seq![modifiers, 0u8] + down
}

impl HidKeyboardData {
    /// The keyboards of the clients.
    pub closed spec fn client_data(self) -> Seq<KeyboardData> {
        self.clients@
    }

    /// The merged keyboard.
    pub closed spec fn sum(self) -> KeyboardData {
        self.state
    }

    /// All keyboards are well formed.
    pub open spec fn wf(self) -> bool {
        &&& self.sum().wf()
        &&& forall|i: int| 0 <= i < self.client_data().len() ==> (#[trigger]
        self.client_data()[i]).wf()
    }

    /// A keyboard without clients.
    pub fn new() -> (r: Self)
        ensures
            r.wf(),
            r.client_data() == Seq::<KeyboardData>::empty(),
            r.sum().slots() == Seq::new(KEYS as nat, |i: int| 0u8),
            r.sum().modifier_bits() == 0,
    {
        HidKeyboardData { clients: Vec::new(), state: KeyboardData::new() }
    }

    /// How many clients there are.
    pub fn client_count(&self) -> (n: usize)
        ensures
            n == self.client_data().len(),
    {
        self.clients.len()
    }

    /// Takes the change in, merges the clients' keyboards and gives the report to send.
    pub fn process(&mut self, change: KeyboardChange) -> (report: [u8; 8])
        requires
            old(self).wf(),
            match change {
                KeyboardChange::Event(i, _) => i < old(self).client_data().len(),
                KeyboardChange::Gone(i) => i < old(self).client_data().len(),
                _ => true,
            },
        ensures
            final(self).wf(),
            ({
                let (slots, modifiers) = clients_after(
                    downs(old(self).client_data()),
                    modifiers_of(old(self).client_data()),
                    change,
                );
                let m = merged(old(self).sum().slots(), slots);
                &&& final(self).sum().slots() == m.down
                &&& final(self).sum().modifier_bits() == any_modifiers(modifiers)
                &&& downs(final(self).client_data()) == slots.map_values(
                    |down: Seq<u8>| pressed_all(down, m.dropped),
                )
                &&& modifiers_of(final(self).client_data()) == modifiers
                &&& report@ == report_bytes(m.down, any_modifiers(modifiers))
            }),
    {
        let ghost (slots, modifiers) = clients_after(
            downs(self.client_data()),
            modifiers_of(self.client_data()),
            change,
        );
        match change {
            KeyboardChange::NewClient => {
                self.clients.push(KeyboardData::new());
            },
            KeyboardChange::NoMoreClients => {},
            KeyboardChange::Event(i, event) => {
                let mut client = KeyboardData {
                    down: self.clients[i].down,
                    modifiers: self.clients[i].modifiers,
                };
                assert(client.slots() == self.client_data()[i as int].slots());
                assert(self.client_data()[i as int].wf());
                client.event(event);
                self.clients.set(i, client);
            },
            KeyboardChange::Gone(i) => {
                self.clients.swap_remove(i);
            },
        }
        let ghost now = self.clients@;
        proof {
            assert(downs(now) =~= slots);
            assert(modifiers_of(now) =~= modifiers);
        }
        self.state.merge(&mut self.clients);
        proof {
            let m = merged(old(self).sum().slots(), slots);
            assert(downs(self.clients@) =~= slots.map_values(
                |down: Seq<u8>| pressed_all(down, m.dropped),
            ));
            assert(modifiers_of(self.clients@) =~= modifiers);
        }
        let d = self.state.down;
        let report = [self.state.modifiers, 0, d[0], d[1], d[2], d[3], d[4], d[5]];
        assert(report@ =~= report_bytes(self.state.slots(), self.state.modifier_bits()));
        report
    }
}

/// A key that was pressed is down, and no other key went down.
pub proof fn law_pressed_is_down(down: Seq<u8>, key: u8)
    requires
        packed(down),
        key != 0,
    ensures
        packed(pressed(down, key)),
        pressed(down, key).contains(key),
        forall|k: u8| k != 0 && k != key && #[trigger] pressed(down, key).contains(k)
            ==> down.contains(k),
{
    let after = pressed(down, key);
    if down.contains(key) {
    } else if down.contains(0) {
        down.index_of_first_ensures(0);
        let i = down.index_of_first(0)->0;
        assert(after[i] == key);
        assert forall|k: u8| k != 0 && k != key && #[trigger] after.contains(k) implies
            down.contains(k) by {
            let j = choose|j: int| 0 <= j < after.len() && after[j] == k;
            assert(down[j] == k);
        }
    } else {
        assert(after[5] == key);
        assert forall|k: u8| k != 0 && k != key && #[trigger] after.contains(k) implies
            down.contains(k) by {
            let j = choose|j: int| 0 <= j < after.len() && after[j] == k;
            assert(down[j + 1] == k);
        }
    }
}

/// Pressing a key keeps all keys that were down while there is a free slot, and otherwise all
/// but the oldest.
pub proof fn law_pressed_drops_oldest(down: Seq<u8>, key: u8, k: u8)
    requires
        packed(down),
        key != 0,
        k != 0,
        down.contains(k),
    ensures
        down.contains(0) || down.contains(key) || k != down[0] ==> pressed(down, key).contains(k),
        !down.contains(0) && !down.contains(key) && k == down[0] ==> !pressed(
            down,
            key,
        ).contains(k),
{
    let after = pressed(down, key);
    let j = choose|j: int| 0 <= j < down.len() && down[j] == k;
    if down.contains(key) {
    } else if down.contains(0) {
        down.index_of_first_ensures(0);
        assert(after[j] == k);
    } else if j > 0 {
        assert(after[j - 1] == k);
    } else {
        assert forall|i: int| 0 <= i < after.len() implies after[i] != k by {
            if i < 5 {
                assert(down[i + 1] != 0);
                assert(down[i + 1] != down[0]);
            }
        }
    }
}

proof fn lemma_released(down: Seq<u8>, key: u8)
    requires
        packed(down),
        key != 0,
    ensures
        packed(released(down, key)),
        !released(down, key).contains(key),
        down.contains(key) ==> ({
            let i = down.index_of_first(key)->0;
            &&& 0 <= i < down.len()
            &&& down[i] == key
            &&& forall|j: int| 0 <= j < 6 ==> #[trigger] released(down, key)[j] == if j < i {
                down[j]
            } else if j < 5 {
                down[j + 1]
            } else {
                0
            }
        }),
{
    if down.contains(key) {
        down.index_of_first_ensures(key);
        let i = down.index_of_first(key)->0;
        let after = released(down, key);
        assert forall|j: int| 0 <= j < 6 implies after[j] == if j < i {
            down[j]
        } else if j < 5 {
            down[j + 1]
        } else {
            0
        } by {}
        assert forall|j: int| 0 <= j < after.len() implies after[j] != key by {
            if i <= j < 5 {
                assert(down[j + 1] != down[i]);
            }
        }
    }
}

/// A key that was released is not down, and every other key keeps its place in the order.
pub proof fn law_released_is_up(down: Seq<u8>, key: u8)
    requires
        packed(down),
        key != 0,
    ensures
        packed(released(down, key)),
        !released(down, key).contains(key),
        keys_in(released(down, key)) == keys_in(down).filter(|k: u8| k != key),
{
    lemma_released(down, key);
    let n = lemma_key_count(down);
    assert(keys_in(down) == down.take(n)) by {
        lemma_keys_in(down, n);
    }
    if down.contains(key) {
        let i = down.index_of_first(key)->0;
        let after = released(down, key);
        assert(i < n) by {
            if n <= i {
                assert(down[n] == 0);
            }
        }
        assert(keys_in(after) == after.take(n - 1)) by {
            lemma_keys_in(after, n - 1);
        }
        lemma_released_keys(down, key, i, n);
    } else {
        lemma_filter_all(down.take(n), |k: u8| k != key);
    }
}

proof fn lemma_released_keys(down: Seq<u8>, key: u8, i: int, n: int)
    requires
        packed(down),
        0 <= i < n <= down.len(),
        down[i] == key,
        key != 0,
        forall|j: int| 0 <= j < n ==> down[j] != 0,
    ensures
        down.remove(i).push(0).take(n - 1) == down.take(n).filter(|k: u8| k != key),
{
    let head = down.take(i);
    let tail = down.subrange(i + 1, n);
    assert forall|j: int| 0 <= j < head.len() implies #[trigger] head[j] != key by {
        assert(down[j] != down[i]);
    }
    assert forall|j: int| 0 <= j < tail.len() implies #[trigger] tail[j] != key by {
        assert(down[i + 1 + j] != down[i]);
    }
    lemma_filter_one_out(head, key, tail);
    assert(down.take(n) =~= head + (seq![key] + tail));
    assert(down.remove(i).push(0).take(n - 1) =~= head + tail);
}

proof fn lemma_filter_one_out(head: Seq<u8>, key: u8, tail: Seq<u8>)
    requires
        forall|j: int| 0 <= j < head.len() ==> head[j] != key,
        forall|j: int| 0 <= j < tail.len() ==> tail[j] != key,
    ensures
        (head + (seq![key] + tail)).filter(|k: u8| k != key) == head + tail,
{
    let q = |k: u8| k != key;
    Seq::filter_distributes_over_add(head, seq![key] + tail, q);
    Seq::filter_distributes_over_add(seq![key], tail, q);
    lemma_filter_all(head, q);
    lemma_filter_none(seq![key], q);
    lemma_filter_all(tail, q);
    assert(Seq::<u8>::empty() + tail =~= tail);
}

/// Releasing a key undoes pressing it, where it was up before and found a free slot.
pub proof fn law_release_undoes_press(down: Seq<u8>, key: u8)
    requires
        packed(down),
        key != 0,
        !down.contains(key),
        down.contains(0),
    ensures
        released(pressed(down, key), key) == down,
{
    down.index_of_first_ensures(0);
    let i = down.index_of_first(0)->0;
    let after = pressed(down, key);
    lemma_first(after, key, i);
    assert(released(after, key) =~= down);
}

/// A modifier that went down is set, one that went up is clear, and no other bit changes.
pub proof fn law_modifier_events(modifiers: u8, key: u8)
    requires
        modifier_usage(key),
    ensures
        modifiers_after(modifiers, KeyboardEvent::Down(key)) & modifier_bit(key) == modifier_bit(
            key,
        ),
        modifiers_after(modifiers, KeyboardEvent::Up(key)) & modifier_bit(key) == 0,
        modifiers_after(modifiers, KeyboardEvent::Down(key)) & !modifier_bit(key) == modifiers
            & !modifier_bit(key),
        modifiers_after(modifiers, KeyboardEvent::Up(key)) & !modifier_bit(key) == modifiers
            & !modifier_bit(key),
{
    let b = modifier_bit(key);
    assert((modifiers | b) & b == b) by (bit_vector);
    assert((modifiers & !b) & b == 0) by (bit_vector);
    assert((modifiers | b) & !b == modifiers & !b) by (bit_vector);
    assert((modifiers & !b) & !b == modifiers & !b) by (bit_vector);
}

/// What holds of the merged keyboard whatever part of the clients was taken in.
spec fn merge_invariant(m: Merged, clients: Seq<Seq<u8>>) -> bool {
    &&& packed(m.down)
    &&& !m.dropped.contains(0)
    &&& forall|k: u8| k != 0 && #[trigger] m.down.contains(k) ==> held(clients, k)
    &&& forall|k: u8|
        #[trigger] m.dropped.contains(k) ==> held(clients, k) && !m.down.contains(k)
    &&& m.dropped.len() > 0 ==> m.down[KEYS - 1] != 0
}

proof fn lemma_with_key(m: Merged, clients: Seq<Seq<u8>>, key: u8)
    requires
        merge_invariant(m, clients),
        key != 0 ==> held(clients, key),
    ensures
        merge_invariant(with_key(m, key), clients),
        forall|k: u8|
            k != 0 && (m.down.contains(k) || m.dropped.contains(k)) ==> #[trigger] with_key(
                m,
                key,
            ).down.contains(k) || with_key(m, key).dropped.contains(k),
        key != 0 ==> with_key(m, key).down.contains(key) || with_key(m, key).dropped.contains(
            key,
        ),
{
    if !(key == 0 || m.down.contains(key) || m.dropped.contains(key)) {
        let after = with_key(m, key);
        law_pressed_is_down(m.down, key);
        if m.down[5] != 0 {
            let oldest = m.down[0];
            assert(!m.down.contains(0));
            assert(oldest != 0 && m.down.contains(oldest));
            lemma_push_contains(m.dropped, oldest);
            assert(after.down =~= m.down.skip(1).push(key));
            assert(!after.down.contains(oldest)) by {
                if after.down.contains(oldest) {
                    let j = choose|j: int| 0 <= j < after.down.len() && after.down[j] == oldest;
                    assert(m.down[j + 1] == m.down[0]);
                }
            }
            assert forall|k: u8| #[trigger] after.dropped.contains(k) implies held(clients, k)
                && !after.down.contains(k) by {
                if k != oldest {
                    assert(m.dropped.contains(k));
                }
            }
        } else {
            assert forall|k: u8| #[trigger] after.dropped.contains(k) implies held(clients, k)
                && !after.down.contains(k) by {
                assert(m.dropped.contains(k));
                assert(m.dropped.len() > 0);
            }
        }
        assert forall|k: u8|
            k != 0 && (m.down.contains(k) || m.dropped.contains(k)) implies #[trigger]
            after.down.contains(k) || after.dropped.contains(k) by {
            if m.down.contains(k) && !m.dropped.contains(k) {
                law_pressed_drops_oldest(m.down, key, k);
            }
        }
    }
}

proof fn lemma_push_contains(s: Seq<u8>, x: u8)
    ensures
        forall|k: u8| #[trigger] s.push(x).contains(k) <==> s.contains(k) || k == x,
{
    assert forall|k: u8| #[trigger] s.push(x).contains(k) <==> s.contains(k) || k == x by {
        if s.contains(k) {
            let i = choose|i: int| 0 <= i < s.len() && s[i] == k;
            assert(s.push(x)[i] == k);
        }
        assert(s.push(x)[s.len() as int] == x);
    }
}

proof fn lemma_with_keys(m: Merged, clients: Seq<Seq<u8>>, keys: Seq<u8>)
    requires
        merge_invariant(m, clients),
        forall|i: int| 0 <= i < keys.len() && keys[i] != 0 ==> held(clients, #[trigger] keys[i]),
    ensures
        merge_invariant(with_keys(m, keys), clients),
        forall|k: u8|
            k != 0 && (m.down.contains(k) || m.dropped.contains(k) || keys.contains(k))
                ==> #[trigger] with_keys(m, keys).down.contains(k) || with_keys(
                m,
                keys,
            ).dropped.contains(k),
    decreases keys.len(),
{
    if keys.len() > 0 {
        let rest = keys.drop_last();
        assert forall|i: int| 0 <= i < rest.len() && rest[i] != 0 implies held(
            clients,
            #[trigger] rest[i],
        ) by {
            assert(rest[i] == keys[i]);
        }
        lemma_with_keys(m, clients, rest);
        let before = with_keys(m, rest);
        assert(keys[keys.len() - 1] == keys.last());
        lemma_with_key(before, clients, keys.last());
        assert forall|k: u8|
            k != 0 && (m.down.contains(k) || m.dropped.contains(k) || keys.contains(
                k,
            )) implies #[trigger] with_keys(m, keys).down.contains(k) || with_keys(
            m,
            keys,
        ).dropped.contains(k) by {
            if keys.contains(k) && k != keys.last() {
                let i = choose|i: int| 0 <= i < keys.len() && keys[i] == k;
                assert(rest[i] == k);
            }
            assert(before.down.contains(k) || before.dropped.contains(k) || k == keys.last());
        }
    }
}

proof fn lemma_with_clients(m: Merged, all: Seq<Seq<u8>>, clients: Seq<Seq<u8>>)
    requires
        merge_invariant(m, all),
        forall|i: int| 0 <= i < clients.len() ==> all.contains(#[trigger] clients[i]),
    ensures
        merge_invariant(with_clients(m, clients), all),
        forall|k: u8|
            k != 0 && (m.down.contains(k) || m.dropped.contains(k) || held(clients, k))
                ==> #[trigger] with_clients(m, clients).down.contains(k) || with_clients(
                m,
                clients,
            ).dropped.contains(k),
    decreases clients.len(),
{
    if clients.len() > 0 {
        let rest = clients.drop_last();
        let last = clients.last();
        assert forall|i: int| 0 <= i < rest.len() implies all.contains(#[trigger] rest[i]) by {
            assert(rest[i] == clients[i]);
        }
        lemma_with_clients(m, all, rest);
        let before = with_clients(m, rest);
        assert(all.contains(clients[clients.len() - 1]));
        assert forall|i: int| 0 <= i < last.len() && last[i] != 0 implies held(
            all,
            #[trigger] last[i],
        ) by {
            let c = choose|c: int| 0 <= c < all.len() && all[c] == last;
            assert(all[c].contains(last[i]));
        }
        lemma_with_keys(before, all, last);
        assert forall|k: u8|
            k != 0 && (m.down.contains(k) || m.dropped.contains(k) || held(
                clients,
                k,
            )) implies #[trigger] with_clients(m, clients).down.contains(k) || with_clients(
            m,
            clients,
        ).dropped.contains(k) by {
            if held(clients, k) {
                let c = choose|c: int|
                    0 <= c < clients.len() && (#[trigger] clients[c]).contains(k);
                if c < rest.len() {
                    assert(rest[c].contains(k));
                } else {
                    assert(last.contains(k));
                }
            }
            assert(before.down.contains(k) || before.dropped.contains(k) || last.contains(k));
        }
    }
}

proof fn lemma_retained(down: Seq<u8>, clients: Seq<Seq<u8>>)
    requires
        packed(down),
    ensures
        packed(retained(down, clients)),
        forall|k: u8|
            k != 0 ==> (#[trigger] retained(down, clients).contains(k) <==> down.contains(k)
                && held(clients, k)),
{
    let q = |k: u8| k != 0 && held(clients, k);
    let keys = down.filter(q);
    lemma_filter_len(down, q);
    lemma_filter_distinct(down, q);
    let after = retained(down, clients);
    assert forall|i: int, j: int| #![trigger after[i], after[j]]
        0 <= i < j < after.len() && after[j] != 0 implies after[i] != 0 && after[i]
        != after[j] by {
        assert(j < keys.len());
        assert(keys.contains(keys[i]));
        lemma_filter_contains(down, q, keys[i]);
        assert(keys[i] != keys[j]);
    }
    assert forall|k: u8| k != 0 implies (#[trigger] after.contains(k) <==> down.contains(k)
        && held(clients, k)) by {
        lemma_filter_contains(down, q, k);
        if keys.contains(k) {
            let i = choose|i: int| 0 <= i < keys.len() && keys[i] == k;
            assert(after[i] == k);
        }
        if after.contains(k) {
            let i = choose|i: int| 0 <= i < after.len() && after[i] == k;
            assert(i < keys.len());
            assert(keys[i] == k);
        }
    }
}

proof fn lemma_filter_distinct(s: Seq<u8>, p: spec_fn(u8) -> bool)
    requires
        forall|k: u8| #[trigger] p(k) ==> k != 0,
        forall|i: int, j: int|
            #![trigger s[i], s[j]]
            0 <= i < j < s.len() && s[j] != 0 ==> s[i] != s[j],
    ensures
        forall|i: int, j: int|
            #![trigger s.filter(p)[i], s.filter(p)[j]]
            0 <= i < j < s.filter(p).len() ==> s.filter(p)[i] != s.filter(p)[j],
    decreases s.len(),
{
    reveal(Seq::filter);
    if s.len() > 0 {
        let rest = s.drop_last();
        lemma_filter_distinct(rest, p);
        let f = rest.filter(p);
        if p(s.last()) {
            assert forall|i: int| 0 <= i < f.len() implies f[i] != s.last() by {
                assert(f.contains(f[i]));
                lemma_filter_contains(rest, p, f[i]);
                let j = choose|j: int| 0 <= j < rest.len() && rest[j] == f[i];
                assert(s[j] != s[s.len() - 1]);
            }
        }
    }
}

/// The merged keyboard shows no key that no client holds, and each key that a client holds
/// either shows or was dropped for want of a slot.
pub proof fn law_merged_keys(down: Seq<u8>, clients: Seq<Seq<u8>>, key: u8)
    requires
        packed(down),
        key != 0,
    ensures
        packed(merged(down, clients).down),
        merged(down, clients).down.contains(key) ==> held(clients, key),
        held(clients, key) ==> merged(down, clients).down.contains(key) || merged(
            down,
            clients,
        ).dropped.contains(key),
        merged(down, clients).dropped.contains(key) ==> held(clients, key),
{
    lemma_retained(down, clients);
    let first = Merged { down: retained(down, clients), dropped: seq![] };
    assert(merge_invariant(first, clients));
    lemma_with_clients(first, clients, clients);
}

/// A key is dropped only where all slots of the merged keyboard are taken, and it does not show.
pub proof fn law_dropped_for_want_of_slots(down: Seq<u8>, clients: Seq<Seq<u8>>)
    requires
        packed(down),
    ensures
        merged(down, clients).dropped.len() > 0 ==> merged(down, clients).down[KEYS - 1] != 0,
        forall|k: u8|
            #[trigger] merged(down, clients).dropped.contains(k) ==> !merged(
                down,
                clients,
            ).down.contains(k),
{
    lemma_retained(down, clients);
    let first = Merged { down: retained(down, clients), dropped: seq![] };
    assert(merge_invariant(first, clients));
    lemma_with_clients(first, clients, clients);
}

/// As long as the clients hold no more keys than there are slots, all of them show and no
/// client's keyboard is changed.
pub proof fn law_keys_that_fit_show(down: Seq<u8>, clients: Seq<Seq<u8>>, keys: Set<u8>)
    requires
        packed(down),
        keys.finite(),
        keys.len() <= KEYS,
        forall|k: u8| k != 0 && held(clients, k) ==> #[trigger] keys.contains(k),
    ensures
        merged(down, clients).dropped == Seq::<u8>::empty(),
        forall|k: u8|
            k != 0 ==> (#[trigger] merged(down, clients).down.contains(k) <==> held(clients, k)),
        forall|slots: Seq<u8>|
            #[trigger] pressed_all(slots, merged(down, clients).dropped) == slots,
{
    let m = merged(down, clients);
    lemma_retained(down, clients);
    let first = Merged { down: retained(down, clients), dropped: seq![] };
    assert(merge_invariant(first, clients));
    lemma_with_clients(first, clients, clients);
    if m.dropped.len() > 0 {
        let lost = m.dropped[0];
        assert(m.dropped.contains(lost));
        let all = m.down.push(lost);
        assert(m.down[KEYS - 1] != 0);
        assert forall|i: int, j: int| 0 <= i < all.len() && 0 <= j < all.len() && i
            != j implies all[i] != all[j] by {
            let x = if i < j { i } else { j };
            let y = if i < j { j } else { i };
            if y == m.down.len() {
                assert(m.down.contains(m.down[x]));
            } else {
                assert(m.down[y] != 0) by {
                    assert(m.down[KEYS - 1] != 0);
                }
                assert(m.down[x] != m.down[y]);
            }
        }
        assert(all.no_duplicates());
        all.unique_seq_to_set();
        assert forall|k: u8| all.to_set().contains(k) implies keys.contains(k) by {
            let i = choose|i: int| 0 <= i < all.len() && all[i] == k;
            if i < m.down.len() {
                assert(m.down.contains(k));
                assert(m.down[i] != 0);
            } else {
                assert(lost != 0);
            }
            assert(k != 0 && held(clients, k));
        }
        assert(all.to_set().subset_of(keys));
        vstd::set_lib::lemma_len_subset(all.to_set(), keys);
    }
    assert(m.dropped =~= Seq::<u8>::empty());
}

/// Keys that stay down keep their order in the merged keyboard, ahead of the new ones.
pub proof fn law_merged_keeps_order(down: Seq<u8>, clients: Seq<Seq<u8>>)
    requires
        packed(down),
        merged(down, clients).dropped.len() == 0,
    ensures
        keys_in(retained(down, clients)).is_prefix_of(merged(down, clients).down),
{
    lemma_retained(down, clients);
    let start = retained(down, clients);
    let first = Merged { down: start, dropped: seq![] };
    lemma_clients_keep_prefix(first, clients);
}

proof fn lemma_key_keeps_prefix(m: Merged, key: u8)
    requires
        packed(m.down),
        with_key(m, key).dropped.len() == 0,
    ensures
        m.dropped.len() == 0,
        packed(with_key(m, key).down),
        keys_in(m.down).is_prefix_of(with_key(m, key).down),
        keys_in(m.down).is_prefix_of(keys_in(with_key(m, key).down)),
{
    let n = lemma_key_count(m.down);
    assert(keys_in(m.down) == m.down.take(n)) by {
        lemma_keys_in(m.down, n);
    }
    if key == 0 || m.down.contains(key) || m.dropped.contains(key) {
        assert(m.down.take(n) =~= m.down.take(n).take(n));
    } else {
        assert(m.down[5] == 0);
        assert(m.down.contains(0));
        lemma_first(m.down, 0, n);
        let after = with_key(m, key).down;
        assert(after == m.down.update(n, key));
        lemma_update_packed(m.down, n, key);
        assert(keys_in(after) == after.take(n + 1)) by {
            lemma_keys_in(after, n + 1);
        }
        assert(m.down.take(n) =~= after.take(n + 1).take(n));
        assert(m.down.take(n) =~= after.take(n));
    }
}

proof fn lemma_update_packed(down: Seq<u8>, n: int, key: u8)
    requires
        packed(down),
        0 <= n < down.len(),
        down[n] == 0,
        forall|j: int| 0 <= j < n ==> down[j] != 0,
        !down.contains(key),
    ensures
        key != 0,
        packed(down.update(n, key)),
        forall|j: int| 0 <= j <= n ==> down.update(n, key)[j] != 0,
        n + 1 < down.len() ==> down.update(n, key)[n + 1] == 0,
{
    assert(down.contains(0));
    let after = down.update(n, key);
    assert forall|i: int, j: int| #![trigger after[i], after[j]]
        0 <= i < j < after.len() && after[j] != 0 implies after[i] != 0 && after[i]
        != after[j] by {
        assert(down.contains(down[i]));
        if j > n {
            assert(down[j] != 0 && down[n] == 0);
        }
    }
}

proof fn lemma_keys_keep_prefix(m: Merged, keys: Seq<u8>)
    requires
        packed(m.down),
        with_keys(m, keys).dropped.len() == 0,
    ensures
        m.dropped.len() == 0,
        packed(with_keys(m, keys).down),
        keys_in(m.down).is_prefix_of(with_keys(m, keys).down),
        keys_in(m.down).is_prefix_of(keys_in(with_keys(m, keys).down)),
    decreases keys.len(),
{
    if keys.len() > 0 {
        let before = with_keys(m, keys.drop_last());
        if before.dropped.len() > 0 {
            assert(with_key(before, keys.last()).dropped.len() > 0);
        }
        lemma_keys_keep_prefix(m, keys.drop_last());
        lemma_key_keeps_prefix(before, keys.last());
    } else {
        let n = lemma_key_count(m.down);
        lemma_keys_in(m.down, n);
        assert(keys_in(m.down) =~= m.down.take(n));
        assert(keys_in(m.down) =~= keys_in(m.down).take(n));
    }
}

proof fn lemma_clients_keep_prefix(m: Merged, clients: Seq<Seq<u8>>)
    requires
        packed(m.down),
        with_clients(m, clients).dropped.len() == 0,
    ensures
        m.dropped.len() == 0,
        packed(with_clients(m, clients).down),
        keys_in(m.down).is_prefix_of(with_clients(m, clients).down),
        keys_in(m.down).is_prefix_of(keys_in(with_clients(m, clients).down)),
    decreases clients.len(),
{
    if clients.len() > 0 {
        let before = with_clients(m, clients.drop_last());
        lemma_dropped_grows(before, clients.last());
        lemma_clients_keep_prefix(m, clients.drop_last());
        lemma_keys_keep_prefix(before, clients.last());
    } else {
        lemma_keys_keep_prefix(m, seq![]);
    }
}

proof fn lemma_dropped_grows(m: Merged, keys: Seq<u8>)
    ensures
        m.dropped.len() <= with_keys(m, keys).dropped.len(),
    decreases keys.len(),
{
    if keys.len() > 0 {
        lemma_dropped_grows(m, keys.drop_last());
    }
}

/// A modifier bit of the sum is set exactly if one of the clients has it set.
pub proof fn law_any_modifiers(modifiers: Seq<u8>, bit: u8)
    requires
        bit < 8,
    ensures
        any_modifiers(modifiers) & (1u8 << bit) != 0 <==> exists|i: int|
            0 <= i < modifiers.len() && #[trigger] modifiers[i] & (1u8 << bit) != 0,
    decreases modifiers.len(),
{
    let b = 1u8 << bit;
    if modifiers.len() == 0 {
        assert(0u8 & b == 0) by (bit_vector);
    } else {
        let rest = modifiers.drop_last();
        law_any_modifiers(rest, bit);
        let a = any_modifiers(rest);
        let l = modifiers.last();
        assert((a | l) & b != 0 <==> a & b != 0 || l & b != 0) by (bit_vector);
        if exists|i: int| 0 <= i < rest.len() && #[trigger] rest[i] & b != 0 {
            let i = choose|i: int| 0 <= i < rest.len() && #[trigger] rest[i] & b != 0;
            assert(modifiers[i] & b != 0);
        }
        if exists|i: int| 0 <= i < modifiers.len() && #[trigger] modifiers[i] & b != 0 {
            let i = choose|i: int| 0 <= i < modifiers.len() && #[trigger] modifiers[i] & b != 0;
            if i < rest.len() {
                assert(rest[i] & b != 0);
            }
        }
        assert(modifiers[modifiers.len() - 1] == l);
    }
}

/// Each of the eight modifiers has a bit of its own, in the order of their usages: left control has
/// the lowest, right meta the highest.
pub proof fn law_modifiers_have_their_bits(key: u8)
    requires
        0xe0 <= key <= 0xe7,
    ensures
        modifiers_after(0, KeyboardEvent::Down(key)) == match (key - 0xe0) as u8 {
            0u8 => 1int,
            1u8 => 2int,
            2u8 => 4int,
            3u8 => 8int,
            4u8 => 16int,
            5u8 => 32int,
            6u8 => 64int,
            _ => 128int,
        },
{
    assert(1u8 << (0xe0u8 & 7) == 1 && 1u8 << (0xe1u8 & 7) == 2 && 1u8 << (0xe2u8 & 7) == 4 && 1u8
        << (0xe3u8 & 7) == 8 && 1u8 << (0xe4u8 & 7) == 16 && 1u8 << (0xe5u8 & 7) == 32 && 1u8 << (
    0xe6u8 & 7) == 64 && 1u8 << (0xe7u8 & 7) == 128) by (bit_vector);
    let b = 1u8 << (key & 7);
    assert(0u8 | b == b) by (bit_vector);
}

/// An event of a modifier sets or clears the bit that counts its usage from left control on, and
/// leaves all other bits as they are.
pub proof fn law_modifier_events_are_apart(modifiers: u8, key: u8, i: int)
    requires
        0xe0 <= key <= 0xe7,
        0 <= i < 8,
    ensures
        bit(modifiers_after(modifiers, KeyboardEvent::Down(key)), i) == if i == key - 0xe0 {
            1u8
        } else {
            bit(modifiers, i)
        },
        bit(modifiers_after(modifiers, KeyboardEvent::Up(key)), i) == if i == key - 0xe0 {
            0u8
        } else {
            bit(modifiers, i)
        },
{
    let k = i as u8;
    let n = (key - 0xe0) as u8;
    assert(((modifiers | (1u8 << (key & 7))) >> k) & 1 == if k == n {
        1u8
    } else {
        (modifiers >> k) & 1
    }) by (bit_vector)
        requires
            key == 0xe0 + n,
            n < 8,
            k < 8,
    ;
    assert(((modifiers & !(1u8 << (key & 7))) >> k) & 1 == if k == n {
        0u8
    } else {
        (modifiers >> k) & 1
    }) by (bit_vector)
        requires
            key == 0xe0 + n,
            n < 8,
            k < 8,
    ;
}

/// Events of ordinary keys change the slots alone, events of modifiers the modifiers alone, and all
/// others nothing.
pub proof fn law_events_touch_their_part(down: Seq<u8>, modifiers: u8, key: u8)
    requires
        packed(down),
    ensures
        !(0xe0 <= key <= 0xe7) ==> modifiers_after(modifiers, KeyboardEvent::Down(key)) == modifiers
            && modifiers_after(modifiers, KeyboardEvent::Up(key)) == modifiers,
        key == 0 || key > 0xdd ==> slots_after(down, KeyboardEvent::Down(key)) == down
            && slots_after(down, KeyboardEvent::Up(key)) == down,
        0 < key <= 0xdd ==> slots_after(down, KeyboardEvent::Down(key)).contains(key)
            && !slots_after(down, KeyboardEvent::Up(key)).contains(key),
{
    if 0 < key <= 0xdd {
        law_pressed_is_down(down, key);
        law_released_is_up(down, key);
    }
}

/// A key that goes down is the youngest. The older ones keep their order, and the oldest of them
/// leaves where all six slots are taken.
pub proof fn law_pressed_is_youngest(down: Seq<u8>, key: u8)
    requires
        packed(down),
        key != 0,
        !down.contains(key),
    ensures
        keys_in(pressed(down, key)) == if keys_in(down).len() < 6 {
            keys_in(down).push(key)
        } else {
            keys_in(down).skip(1).push(key)
        },
{
    let n = lemma_key_count(down);
    lemma_keys_in(down, n);
    let after = pressed(down, key);
    law_pressed_is_down(down, key);
    if n < 6 {
        assert(down[n] == 0);
        assert(down.contains(0));
        lemma_first(down, 0, n);
        assert(after == down.update(n, key));
        lemma_update_packed(down, n, key);
        lemma_keys_in(after, n + 1);
        assert(after.take(n + 1) =~= down.take(n).push(key));
    } else {
        assert(!down.contains(0));
        assert(after == down.skip(1).push(key));
        lemma_keys_in(after, 6);
        assert(down.take(6) =~= down);
        assert(after.take(6) =~= after);
    }
}

/// A row of keys with those of another behind it that it does not hold yet, each once.
pub open spec fn with_newcomers(row: Seq<u8>, keys: Seq<u8>) -> Seq<u8>
    decreases keys.len(),
{
    if keys.len() == 0 {
        row
    } else {
        let before = with_newcomers(row, keys.drop_last());
        if keys.last() == 0 || before.contains(keys.last()) {
            before
        } else {
            before.push(keys.last())
        }
    }
}

/// The keys that the clients hold are in the row of their addition: first those that showed before
/// and are still held, then those of the clients, one client after the other. The last six of the
/// row show, and the others are those that were dropped.
pub proof fn law_merge_goes_by_addition(down: Seq<u8>, clients: Seq<Seq<u8>>)
    requires
        packed(down),
    ensures
        merged(down, clients).dropped + keys_in(merged(down, clients).down) == with_newcomers(
            keys_in(down).filter(|k: u8| held(clients, k)),
            clients.flatten(),
        ),
        packed(merged(down, clients).down),
        merged(down, clients).dropped.len() > 0 ==> keys_in(merged(down, clients).down).len() == 6,
{
    lemma_retained(down, clients);
    let start = retained(down, clients);
    let first = Merged { down: start, dropped: seq![] };
    let p = |k: u8| k != 0;
    let h = |k: u8| held(clients, k);
    let q = |k: u8| k != 0 && held(clients, k);
    lemma_filter_twice(down, p, h, q);
    let kept = down.filter(q);
    lemma_filter_len(down, q);
    assert(keys_in(start) == kept) by {
        assert(kept.len() <= 6);
        assert forall|j: int| 0 <= j < kept.len() implies kept[j] != 0 by {
            assert(kept.contains(kept[j]));
            lemma_filter_contains(down, q, kept[j]);
        }
        lemma_keys_in(start, kept.len() as int);
        assert(start.take(kept.len() as int) =~= kept);
    }
    assert(merge_invariant(first, clients));
    lemma_with_clients(first, clients, clients);
    assert(first.dropped + keys_in(first.down) =~= kept);
    lemma_row_of_clients(first, clients, clients);
    let m = merged(down, clients);
    if m.dropped.len() > 0 {
        let n = lemma_key_count(m.down);
        assert(n == 6) by {
            if n < 6 {
                assert(m.down[n] == 0);
                assert(m.down[5] != 0);
                if n < 5 {
                    assert(m.down[n] != 0);
                }
            }
        }
        lemma_keys_in(m.down, n);
    }
}

proof fn lemma_filter_twice(
    s: Seq<u8>,
    p: spec_fn(u8) -> bool,
    h: spec_fn(u8) -> bool,
    q: spec_fn(u8) -> bool,
)
    requires
        forall|k: u8| #[trigger] q(k) == (p(k) && h(k)),
    ensures
        s.filter(p).filter(h) == s.filter(q),
    decreases s.len(),
{
    reveal(Seq::filter);
    if s.len() > 0 {
        let rest = s.drop_last();
        lemma_filter_twice(rest, p, h, q);
        let k = s.last();
        assert(q(k) == (p(k) && h(k)));
        if p(k) {
            let f = rest.filter(p);
            assert(f.push(k).drop_last() =~= f);
            assert(f.push(k).last() == k);
        }
    }
}

proof fn lemma_row_of_key(m: Merged, clients: Seq<Seq<u8>>, key: u8)
    requires
        merge_invariant(m, clients),
        key != 0 ==> held(clients, key),
    ensures
        ({
            let row = m.dropped + keys_in(m.down);
            let after = with_key(m, key);
            &&& merge_invariant(after, clients)
            &&& after.dropped + keys_in(after.down) == if key == 0 || row.contains(key) {
                row
            } else {
                row.push(key)
            }
        }),
{
    let row = m.dropped + keys_in(m.down);
    let after = with_key(m, key);
    lemma_with_key(m, clients, key);
    let n = lemma_key_count(m.down);
    lemma_keys_in(m.down, n);
    let keys = m.down.take(n);
    assert(key != 0 ==> (row.contains(key) <==> m.down.contains(key) || m.dropped.contains(key)))
        by {
        if row.contains(key) {
            let i = choose|i: int| 0 <= i < row.len() && row[i] == key;
            if i < m.dropped.len() {
                assert(m.dropped[i] == key);
            } else {
                assert(m.down[i - m.dropped.len()] == key);
            }
        }
        if m.dropped.contains(key) {
            let i = choose|i: int| 0 <= i < m.dropped.len() && m.dropped[i] == key;
            assert(row[i] == key);
        }
        if key != 0 && m.down.contains(key) {
            let i = choose|i: int| 0 <= i < m.down.len() && m.down[i] == key;
            assert(i < n);
            assert(row[m.dropped.len() + i] == key);
        }
    }
    if key != 0 && !row.contains(key) {
        law_pressed_is_youngest(m.down, key);
        if m.down[5] != 0 {
            assert(n == 6) by {
                if n < 6 {
                    assert(m.down[n] == 0);
                    if n < 5 {
                        assert(m.down[n] != 0);
                    }
                }
            }
            assert(keys =~= m.down);
            assert(after.dropped + keys_in(after.down) =~= row.push(key));
        } else {
            assert(n < 6);
            assert(after.dropped + keys_in(after.down) =~= row.push(key));
        }
    }
}

proof fn lemma_row_of_keys(m: Merged, clients: Seq<Seq<u8>>, keys: Seq<u8>)
    requires
        merge_invariant(m, clients),
        forall|i: int| 0 <= i < keys.len() && keys[i] != 0 ==> held(clients, #[trigger] keys[i]),
    ensures
        merge_invariant(with_keys(m, keys), clients),
        with_keys(m, keys).dropped + keys_in(with_keys(m, keys).down) == with_newcomers(
            m.dropped + keys_in(m.down),
            keys,
        ),
    decreases keys.len(),
{
    if keys.len() > 0 {
        let rest = keys.drop_last();
        assert forall|i: int| 0 <= i < rest.len() && rest[i] != 0 implies held(
            clients,
            #[trigger] rest[i],
        ) by {
            assert(rest[i] == keys[i]);
        }
        lemma_row_of_keys(m, clients, rest);
        assert(keys[keys.len() - 1] == keys.last());
        lemma_row_of_key(with_keys(m, rest), clients, keys.last());
    }
}

proof fn lemma_newcomers_of_both(row: Seq<u8>, a: Seq<u8>, b: Seq<u8>)
    ensures
        with_newcomers(row, a + b) == with_newcomers(with_newcomers(row, a), b),
    decreases b.len(),
{
    if b.len() == 0 {
        assert(a + b =~= a);
    } else {
        assert((a + b).drop_last() =~= a + b.drop_last());
        assert((a + b).last() == b.last());
        lemma_newcomers_of_both(row, a, b.drop_last());
    }
}

proof fn lemma_row_of_clients(m: Merged, all: Seq<Seq<u8>>, clients: Seq<Seq<u8>>)
    requires
        merge_invariant(m, all),
        forall|i: int| 0 <= i < clients.len() ==> all.contains(#[trigger] clients[i]),
    ensures
        merge_invariant(with_clients(m, clients), all),
        with_clients(m, clients).dropped + keys_in(with_clients(m, clients).down)
            == with_newcomers(m.dropped + keys_in(m.down), clients.flatten()),
    decreases clients.len(),
{
    if clients.len() > 0 {
        let rest = clients.drop_last();
        let last = clients.last();
        assert forall|i: int| 0 <= i < rest.len() implies all.contains(#[trigger] rest[i]) by {
            assert(rest[i] == clients[i]);
        }
        lemma_row_of_clients(m, all, rest);
        assert(all.contains(clients[clients.len() - 1]));
        assert forall|i: int| 0 <= i < last.len() && last[i] != 0 implies held(
            all,
            #[trigger] last[i],
        ) by {
            let c = choose|c: int| 0 <= c < all.len() && all[c] == last;
            assert(all[c].contains(last[i]));
        }
        lemma_row_of_keys(with_clients(m, rest), all, last);
        rest.lemma_flatten_push(last);
        assert(rest.push(last) =~= clients);
        lemma_newcomers_of_both(m.dropped + keys_in(m.down), rest.flatten(), last);
    } else {
        assert(clients.flatten() =~= Seq::<u8>::empty());
    }
}

/// A change of one client leaves the keyboards of the others as they are. A client that comes
/// holds nothing, and one that goes takes its keyboard along.
pub proof fn law_clients_are_apart(
    slots: Seq<Seq<u8>>,
    modifiers: Seq<u8>,
    i: usize,
    event: KeyboardEvent,
    j: int,
)
    requires
        slots.len() == modifiers.len(),
        i < slots.len(),
        0 <= j < slots.len(),
    ensures
        ({
            let (s, m) = clients_after(slots, modifiers, KeyboardChange::NewClient);
            &&& s.len() == slots.len() + 1 && m.len() == s.len()
            &&& s[j] == slots[j] && m[j] == modifiers[j]
            &&& s.last() == seq![0u8, 0, 0, 0, 0, 0] && m.last() == 0
        }),
        clients_after(slots, modifiers, KeyboardChange::NoMoreClients) == (slots, modifiers),
        ({
            let (s, m) = clients_after(slots, modifiers, KeyboardChange::Event(i, event));
            &&& s.len() == slots.len() && m.len() == s.len()
            &&& j != i ==> s[j] == slots[j] && m[j] == modifiers[j]
            &&& s[i as int] == slots_after(slots[i as int], event)
            &&& m[i as int] == modifiers_after(modifiers[i as int], event)
        }),
        ({
            let (s, m) = clients_after(slots, modifiers, KeyboardChange::Gone(i));
            &&& s.len() == slots.len() - 1 && m.len() == s.len()
            &&& j != i ==> exists|k: int|
                0 <= k < s.len() && #[trigger] s[k] == slots[j] && m[k] == modifiers[j]
            &&& 0 <= j < s.len() && j != i ==> s[j] == slots[j] && m[j] == modifiers[j]
        }),
{
    let s = clients_after(slots, modifiers, KeyboardChange::NewClient).0;
    assert(s.last() =~= seq![0u8, 0, 0, 0, 0, 0]);
    let (s, m) = clients_after(slots, modifiers, KeyboardChange::Gone(i));
    if j != i {
        if j == slots.len() - 1 {
            assert(s[i as int] == slots[j] && m[i as int] == modifiers[j]);
        } else {
            assert(s[j] == slots[j] && m[j] == modifiers[j]);
        }
    }
}

/// A report has the modifiers first, then a byte that is always zero, then the six slots.
pub proof fn law_report_layout(down: Seq<u8>, modifiers: u8, i: int)
    requires
        down.len() == 6,
        0 <= i < 6,
    ensures
        report_bytes(down, modifiers).len() == 8,
        report_bytes(down, modifiers)[0] == modifiers,
        report_bytes(down, modifiers)[1] == 0,
        report_bytes(down, modifiers)[i + 2] == down[i],
{
}

/// Keys that lost their slot go down on a client in their order: the last of them is its youngest.
pub proof fn law_dropped_keys_are_pressed(down: Seq<u8>, keys: Seq<u8>)
    requires
        packed(down),
        forall|i: int| 0 <= i < keys.len() ==> (#[trigger] keys[i]) != 0,
    ensures
        packed(pressed_all(down, keys)),
        keys.len() == 0 ==> pressed_all(down, keys) == down,
        keys.len() > 0 ==> pressed_all(down, keys).contains(keys.last()),
        keys.len() == 1 && !down.contains(keys[0]) && down.contains(0) ==> keys_in(
            pressed_all(down, keys),
        ) == keys_in(down).push(keys[0]),
    decreases keys.len(),
{
    if keys.len() > 0 {
        let rest = keys.drop_last();
        assert forall|i: int| 0 <= i < rest.len() implies (#[trigger] rest[i]) != 0 by {
            assert(rest[i] == keys[i]);
        }
        law_dropped_keys_are_pressed(down, rest);
        assert(keys[keys.len() - 1] != 0);
        law_pressed_is_down(pressed_all(down, rest), keys.last());
        if keys.len() == 1 && !down.contains(keys[0]) && down.contains(0) {
            law_pressed_is_youngest(down, keys[0]);
            let n = lemma_key_count(down);
            lemma_keys_in(down, n);
        }
    }
}

} // verus!
