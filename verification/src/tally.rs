//! Quantities bought, by item key: the totals of one purchase run and the purchase
//! history that the runs add up to.
use vstd::prelude::*;
use crate::text::{chars_of, chars_eq};

verus! {

/// Quantities by item key, in the order in which the keys were first recorded.
pub struct Tally {
    entries: Vec<(String, u32)>,
}

/// No key occurs twice.
pub open spec fn tally_keys_distinct(e: Seq<(Seq<char>, u32)>) -> bool {
    forall|i: int, j: int| 0 <= i < j < e.len() ==> e[i].0 != e[j].0
}

/// The quantity recorded under `k` (0 where there is none).
pub open spec fn count_of(e: Seq<(Seq<char>, u32)>, k: Seq<char>) -> nat {
    if exists|i: int| 0 <= i < e.len() && e[i].0 == k {
        e[choose|i: int| 0 <= i < e.len() && e[i].0 == k].1 as nat
    } else {
        0
    }
}

/// The keys recorded, in order.
pub open spec fn tally_keys(e: Seq<(Seq<char>, u32)>) -> Seq<Seq<char>> {
    e.map_values(|p: (Seq<char>, u32)| p.0)
}

proof fn lemma_count_at(e: Seq<(Seq<char>, u32)>, i: int)
    requires
        tally_keys_distinct(e),
        0 <= i < e.len(),
    ensures
        count_of(e, e[i].0) == e[i].1,
{
    let j = choose|j: int| 0 <= j < e.len() && e[j].0 == e[i].0;
    assert(0 <= j < e.len() && e[j].0 == e[i].0);
}

proof fn lemma_count_absent(e: Seq<(Seq<char>, u32)>, k: Seq<char>)
    requires
        forall|i: int| 0 <= i < e.len() ==> e[i].0 != k,
    ensures
        count_of(e, k) == 0,
{
}

/// The index of key `k` (where it is present).
pub open spec fn tally_index(e: Seq<(Seq<char>, u32)>, k: Seq<char>) -> int {
    choose|i: int| 0 <= i < e.len() && e[i].0 == k
}

/// The entries after adding `q` to the quantity of `k`: the entry of `k` increased
/// where it is present, a new last entry otherwise.
pub open spec fn tally_add(e: Seq<(Seq<char>, u32)>, k: Seq<char>, q: u32) -> Seq<(Seq<char>, u32)> {
    if exists|i: int| 0 <= i < e.len() && e[i].0 == k {
        e.update(tally_index(e, k), (k, (e[tally_index(e, k)].1 + q) as u32))
    } else {
        e.push((k, q))
    }
}

proof fn lemma_tally_index(e: Seq<(Seq<char>, u32)>, k: Seq<char>, i: int)
    requires
        tally_keys_distinct(e),
        0 <= i < e.len(),
        e[i].0 == k,
    ensures
        tally_index(e, k) == i,
{
    let j = tally_index(e, k);
    assert(0 <= j < e.len() && e[j].0 == k);
}

/// Counting after adding: the key added counts `q` more, every other key counts what it
/// counted before, and no key occurs twice.
pub proof fn lemma_count_after_add(e: Seq<(Seq<char>, u32)>, k: Seq<char>, q: u32, k2: Seq<char>)
    requires
        tally_keys_distinct(e),
        count_of(e, k) + q <= u32::MAX,
    ensures
        tally_keys_distinct(tally_add(e, k, q)),
        count_of(tally_add(e, k, q), k2) == if k2 == k { count_of(e, k) + q } else { count_of(e, k2) as int },
{
    let n = tally_add(e, k, q);
    let present = exists|i: int| 0 <= i < e.len() && e[i].0 == k;
    let p = if present { tally_index(e, k) } else { e.len() as int };
    if present {
        let i = tally_index(e, k);
        assert(0 <= i < e.len() && e[i].0 == k);
        lemma_count_at(e, i);
    } else {
        lemma_count_absent(e, k);
    }
    assert(tally_keys_distinct(n)) by {
        assert forall|a: int, b: int| 0 <= a < b < n.len() implies n[a].0 != n[b].0 by {
            if a != p && b != p {
                assert(n[a] == e[a] && n[b] == e[b]);
            } else if a == p {
                assert(n[b] == e[b]);
            } else {
                assert(n[a] == e[a]);
            }
        }
    }
    lemma_count_at(n, p);
    if k2 != k {
        if exists|i: int| 0 <= i < e.len() && e[i].0 == k2 {
            let i = choose|i: int| 0 <= i < e.len() && e[i].0 == k2;
            lemma_count_at(e, i);
            assert(i != p);
            assert(n[i] == e[i]);
            lemma_count_at(n, i);
        } else {
            assert forall|i: int| 0 <= i < n.len() implies n[i].0 != k2 by {
                if i != p {
                    assert(n[i] == e[i]);
                }
            }
        }
    }
}

impl View for Tally {
    type V = Seq<(Seq<char>, u32)>;

    closed spec fn view(&self) -> Seq<(Seq<char>, u32)> {
        Seq::new(self.entries@.len(), |i: int| (self.entries@[i].0@, self.entries@[i].1))
    }
}

impl Tally {
    #[verifier::type_invariant]
    spec fn inv(self) -> bool {
        tally_keys_distinct(self@)
    }

    /// An empty tally.
    pub fn new() -> (r: Self)
        ensures
            r@ == Seq::<(Seq<char>, u32)>::empty(),
    {
        let r = Tally { entries: Vec::new() };
        assert(r@ =~= Seq::<(Seq<char>, u32)>::empty());
        r
    }

    /// Whether nothing is recorded.
    pub fn is_empty(&self) -> (b: bool)
        ensures
            b == (self@.len() == 0),
    {
        self.entries.len() == 0
    }

    /// The number of keys recorded.
    pub fn len(&self) -> (n: usize)
        ensures
            n == self@.len(),
    {
        self.entries.len()
    }

    /// The position of `key`, if recorded.
    fn position(&self, key: &[char]) -> (r: Option<usize>)
        ensures
            match r {
                Some(i) => i < self@.len() && self@[i as int].0 == key@,
                None => forall|i: int| 0 <= i < self@.len() ==> self@[i].0 != key@,
            },
    {
        let mut i: usize = 0;
        while i < self.entries.len()
            invariant
                i <= self@.len(),
                self@.len() == self.entries@.len(),
                forall|j: int| 0 <= j < i ==> self@[j].0 != key@,
            decreases self@.len() - i,
        {
            let k = chars_of(self.entries[i].0.as_str());
            if chars_eq(k.as_slice(), key) {
                return Some(i);
            }
            i = i + 1;
        }
        None
    }

    /// The quantity recorded under `key` (0 where there is none).
    pub fn get(&self, key: &str) -> (r: u32)
        ensures
            r == count_of(self@, key@),
    {
        proof {
            use_type_invariant(self);
        }
        let k = chars_of(key);
        match self.position(k.as_slice()) {
            Some(i) => {
                proof {
                    lemma_count_at(self@, i as int);
                }
                self.entries[i].1
            },
            None => 0,
        }
    }

    /// Adds `qty` to the quantity of `key`; a new key goes last.
    pub fn add(&mut self, key: &str, qty: u32)
        requires
            count_of(old(self)@, key@) + qty <= u32::MAX,
        ensures
            final(self)@ == tally_add(old(self)@, key@, qty),
            count_of(final(self)@, key@) == count_of(old(self)@, key@) + qty,
            forall|k: Seq<char>| k != key@ ==> #[trigger] count_of(final(self)@, k) == count_of(old(self)@, k),
            tally_keys(final(self)@) == if tally_keys(old(self)@).contains(key@) {
                tally_keys(old(self)@)
            } else {
                tally_keys(old(self)@).push(key@)
            },
    {
        proof {
            use_type_invariant(&*self);
        }
        let ghost old_view = self@;
        let ghost kv = key@;
        let kc = chars_of(key);
        let pos = self.position(kc.as_slice());
        let mut entries = Vec::new();
        std::mem::swap(&mut entries, &mut self.entries);
        match pos {
            Some(i) => {
                proof {
                    lemma_count_at(old_view, i as int);
                    lemma_tally_index(old_view, kv, i as int);
                }
                let q = entries[i].1 + qty;
                let name = entries[i].0.clone();
                entries.set(i, (name, q));
            },
            None => {
                entries.push((crate::text::owned(key), qty));
            },
        }
        let ghost new_view = Seq::new(entries@.len(), |i: int| (entries@[i].0@, entries@[i].1));
        proof {
            match pos {
                Some(i) => {
                    assert(new_view =~= tally_add(old_view, kv, qty));
                    assert(tally_keys(new_view) =~= tally_keys(old_view));
                    assert(tally_keys(old_view)[i as int] == kv);
                },
                None => {
                    assert(new_view =~= tally_add(old_view, kv, qty));
                    assert(tally_keys(new_view) =~= tally_keys(old_view).push(kv));
                    assert(!tally_keys(old_view).contains(kv));
                },
            }
            lemma_count_after_add(old_view, kv, qty, kv);
            assert forall|k: Seq<char>| k != kv implies #[trigger] count_of(new_view, k) == count_of(old_view, k) by {
                lemma_count_after_add(old_view, kv, qty, k);
            }
        }
        self.entries = entries;
        assert(self@ =~= new_view);
    }

    /// Forgets everything recorded.
    pub fn clear(&mut self)
        ensures
            final(self)@ == Seq::<(Seq<char>, u32)>::empty(),
            forall|k: Seq<char>| #[trigger] count_of(final(self)@, k) == 0,
    {
        self.entries = Vec::new();
        assert(self@ =~= Seq::<(Seq<char>, u32)>::empty());
    }

    /// The recorded keys and quantities, in order.
    pub fn entries(&self) -> (r: Vec<(String, u32)>)
        ensures
            r@.len() == self@.len(),
            forall|i: int| 0 <= i < r@.len() ==> (#[trigger] r@[i]).0@ == self@[i].0 && r@[i].1 == self@[i].1,
    {
        let mut r: Vec<(String, u32)> = Vec::new();
        let mut i: usize = 0;
        while i < self.entries.len()
            invariant
                i <= self@.len(),
                self@.len() == self.entries@.len(),
                r@.len() == i,
                forall|j: int| 0 <= j < i ==> (#[trigger] r@[j]).0@ == self@[j].0 && r@[j].1 == self@[j].1,
            decreases self@.len() - i,
        {
            r.push((self.entries[i].0.clone(), self.entries[i].1));
            i = i + 1;
        }
        r
    }

    /// Adds every quantity of this tally to `history`.
    pub fn merge_into(&self, history: &mut Tally)
        requires
            forall|k: Seq<char>| #[trigger] count_of(old(history)@, k) + count_of(self@, k) <= u32::MAX,
        ensures
            forall|k: Seq<char>| #[trigger] count_of(final(history)@, k) == count_of(old(history)@, k) + count_of(self@, k),
    {
        proof {
            use_type_invariant(self);
        }
        let ghost h0 = history@;
        let ghost e = self@;
        let mut i: usize = 0;
        while i < self.entries.len()
            invariant
                i <= e.len(),
                e == self@,
                e.len() == self.entries@.len(),
                tally_keys_distinct(e),
                forall|k: Seq<char>| #[trigger] count_of(h0, k) + count_of(e, k) <= u32::MAX,
                forall|k: Seq<char>|
                    #[trigger] count_of(history@, k) == count_of(h0, k) + if exists|j: int| 0 <= j < i && e[j].0 == k {
                        count_of(e, k)
                    } else {
                        0
                    },
            decreases e.len() - i,
        {
            let ghost before = history@;
            let ghost ki = e[i as int].0;
            proof {
                lemma_count_at(e, i as int);
                assert(!(exists|j: int| 0 <= j < i && e[j].0 == ki));
                assert(count_of(before, ki) == count_of(h0, ki));
                assert(count_of(h0, ki) + count_of(e, ki) <= u32::MAX);
            }
            history.add(self.entries[i].0.as_str(), self.entries[i].1);
            proof {
                assert forall|k: Seq<char>|
                    #[trigger] count_of(history@, k) == count_of(h0, k) + if exists|j: int| 0 <= j < i + 1 && e[j].0 == k {
                        count_of(e, k)
                    } else {
                        0
                    } by {
                    if k == ki {
                        assert(0 <= i < i + 1 && e[i as int].0 == k);
                    } else {
                        if exists|j: int| 0 <= j < i + 1 && e[j].0 == k {
                            let j = choose|j: int| 0 <= j < i + 1 && e[j].0 == k;
                            assert(j != i);
                            assert(0 <= j < i && e[j].0 == k);
                        }
                    }
                }
            }
            i = i + 1;
        }
        proof {
            assert forall|k: Seq<char>| #[trigger] count_of(history@, k) == count_of(h0, k) + count_of(e, k) by {
                if !(exists|j: int| 0 <= j < e.len() && e[j].0 == k) {
                    lemma_count_absent(e, k);
                }
            }
        }
    }
}

} // verus!
