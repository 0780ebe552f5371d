//! A header map: each header name, compared without regard to ASCII case,
//! has at most one value.

use crate::ascii::{bytes_eq, copy, lemma_lower_idempotent, lower, to_lower};
use crate::codec::views;
use vstd::prelude::*;

verus! {

/// The value that a header map holds under `name`, if any. Names are looked
/// up in lower case.
pub open spec fn lookup(h: Map<Seq<u8>, Seq<u8>>, name: Seq<u8>) -> Option<Seq<u8>> {
    if h.dom().contains(lower(name)) {
        Some(h[lower(name)])
    } else {
        None
    }
}

/// The header map `h` with `value` under `name`, in place of any value
/// that stood there.
pub open spec fn put(h: Map<Seq<u8>, Seq<u8>>, name: Seq<u8>, value: Seq<u8>) -> Map<
    Seq<u8>,
    Seq<u8>,
> {
    h.insert(lower(name), value)
}

/// The view of an optional byte string.
pub open spec fn option_view(v: Option<Vec<u8>>) -> Option<Seq<u8>> {
    match v {
        Some(bytes) => Some(bytes@),
        None => None,
    }
}

/// The index of the first entry that stands under `key`.
fn find_in(entries: &Vec<(Vec<u8>, Vec<u8>)>, key: &Vec<u8>) -> (r: Option<usize>)
    ensures
        match r {
            Some(i) => i < entries.len() && entries@[i as int].0@ == key@,
            None => forall|i: int| 0 <= i < entries.len() ==> entries@[i].0@ != key@,
        },
{
    let mut i: usize = 0;
    while i < entries.len()
        invariant
            i <= entries.len(),
            forall|j: int| 0 <= j < i ==> entries@[j].0@ != key@,
        decreases entries.len() - i,
    {
        if bytes_eq(&entries[i].0, key) {
            return Some(i);
        }
        i += 1;
    }
    None
}

/// Header names and their values. Its view is a map from lower-cased names
/// to values.
pub struct Headers {
    entries: Vec<(Vec<u8>, Vec<u8>)>,
}

impl View for Headers {
    type V = Map<Seq<u8>, Seq<u8>>;

    closed spec fn view(&self) -> Map<Seq<u8>, Seq<u8>> {
        Map::new(
            |k: Seq<u8>| exists|i: int| self.holds_at(k, i),
            |k: Seq<u8>| self.entries@[choose|i: int| self.holds_at(k, i)].1@,
        )
    }
}

impl Headers {
    /// Entry `i` stands under the key `k`.
    closed spec fn holds_at(&self, k: Seq<u8>, i: int) -> bool {
        0 <= i < self.entries@.len() && self.entries@[i].0@ == k
    }

    /// No key stands twice, and every key is in lower case.
    #[verifier::type_invariant]
    closed spec fn distinct_lower_keys(&self) -> bool {
        &&& forall|i: int, j: int|
            0 <= i < j < self.entries@.len() ==> self.entries@[i].0@ != self.entries@[j].0@
        &&& forall|i: int|
            0 <= i < self.entries@.len() ==> lower(#[trigger] self.entries@[i].0@)
                == self.entries@[i].0@
    }

    /// A map without headers.
    pub fn new() -> (r: Self)
        ensures
            r@ == Map::<Seq<u8>, Seq<u8>>::empty(),
    {
        let r = Headers { entries: Vec::new() };
        assert(r@ =~= Map::<Seq<u8>, Seq<u8>>::empty()) by {
            assert forall|k: Seq<u8>| !r@.dom().contains(k) by {
                assert forall|i: int| !r.holds_at(k, i) by {}
            }
        }
        r
    }

    /// The value under `name`, whatever the case of its letters.
    pub fn get(&self, name: &Vec<u8>) -> (r: Option<&Vec<u8>>)
        ensures
            match r {
                Some(v) => lookup(self@, name@) == Some(v@),
                None => lookup(self@, name@) is None,
            },
    {
        proof {
            use_type_invariant(self);
        }
        let key = to_lower(name);
        match find_in(&self.entries, &key) {
            Some(i) => {
                proof {
                    assert(self.holds_at(key@, i as int));
                    let w = choose|w: int| self.holds_at(key@, w);
                    assert(w == i);
                }
                Some(&self.entries[i].1)
            },
            None => {
                proof {
                    assert forall|w: int| !self.holds_at(key@, w) by {}
                }
                None
            },
        }
    }

    /// Whether a value stands under `name`.
    pub fn contains_key(&self, name: &Vec<u8>) -> (r: bool)
        ensures
            r == lookup(self@, name@).is_some(),
    {
        self.get(name).is_some()
    }

    /// Whether the map holds no header at all.
    pub fn is_empty(&self) -> (r: bool)
        ensures
            r == (self@ == Map::<Seq<u8>, Seq<u8>>::empty()),
    {
        let r = self.entries.len() == 0;
        proof {
            if r {
                assert forall|k: Seq<u8>| !self@.dom().contains(k) by {
                    assert forall|i: int| !self.holds_at(k, i) by {}
                }
                assert(self@ =~= Map::<Seq<u8>, Seq<u8>>::empty());
            } else {
                assert(self.holds_at(self.entries@[0].0@, 0));
                assert(self@.dom().contains(self.entries@[0].0@));
            }
        }
        r
    }

    /// Puts `value` under `name`, in place of any value that stood there.
    pub fn insert(&mut self, name: &Vec<u8>, value: Vec<u8>)
        ensures
            final(self)@ == put(old(self)@, name@, value@),
    {
        proof {
            use_type_invariant(&*self);
        }
        let key = to_lower(name);
        let ghost before = *self;
        let ghost val = value@;
        let ghost k0 = key@;
        let ghost at: int;
        let mut entries: Vec<(Vec<u8>, Vec<u8>)> = Vec::new();
        core::mem::swap(&mut entries, &mut self.entries);
        match find_in(&entries, &key) {
            Some(i) => {
                entries.set(i, (key, value));
                proof {
                    at = i as int;
                }
            },
            None => {
                entries.push((key, value));
                proof {
                    at = before.entries@.len() as int;
                }
            },
        }
        proof {
            lemma_lower_idempotent(name@);
            assert forall|a: int| 0 <= a < entries@.len() implies lower(
                #[trigger] entries@[a].0@,
            ) == entries@[a].0@ by {
                if a != at {
                    assert(before.entries@[a].0@ == entries@[a].0@);
                }
            }
            assert forall|a: int, b: int| 0 <= a < b < entries@.len() implies entries@[a].0@
                != entries@[b].0@ by {
                if a < before.entries@.len() && a != at {
                    assert(before.entries@[a].0@ == entries@[a].0@);
                }
                if b < before.entries@.len() && b != at {
                    assert(before.entries@[b].0@ == entries@[b].0@);
                }
                if a == at && b < before.entries@.len() {
                    assert(before.holds_at(k0, a));
                }
                if b == at && at < before.entries@.len() {
                    assert(before.holds_at(k0, b));
                }
                if b == at && at == before.entries@.len() {
                    assert(!before.holds_at(k0, a));
                }
            }
        }
        self.entries = entries;
        proof {
            let want = put(before@, name@, val);
            assert(self.holds_at(k0, at));
            assert forall|k: Seq<u8>| self@.dom().contains(k) == want.dom().contains(k) by {
                if before@.dom().contains(k) {
                    let w = choose|w: int| before.holds_at(k, w);
                    if k != k0 {
                        assert(self.holds_at(k, w));
                    }
                }
                if self@.dom().contains(k) && k != k0 {
                    let w = choose|w: int| self.holds_at(k, w);
                    assert(before.holds_at(k, w));
                }
            }
            assert forall|k: Seq<u8>| self@.dom().contains(k) implies self@[k] == want[k] by {
                let w = choose|w: int| self.holds_at(k, w);
                if k != k0 {
                    assert(before.holds_at(k, w));
                    let v = choose|v: int| before.holds_at(k, v);
                    assert(v == w);
                } else {
                    assert(w == at);
                }
            }
            assert(self@ =~= want);
        }
    }

    /// The names that the map holds, each once and in lower case.
    pub fn names(&self) -> (r: Vec<Vec<u8>>)
        ensures
            views(r@).to_set() == self@.dom(),
            views(r@).no_duplicates(),
            forall|i: int| 0 <= i < r.len() ==> lower(#[trigger] r@[i]@) == r@[i]@,
    {
        proof {
            use_type_invariant(self);
        }
        let mut r: Vec<Vec<u8>> = Vec::new();
        let mut i: usize = 0;
        while i < self.entries.len()
            invariant
                i <= self.entries.len(),
                r.len() == i,
                forall|j: int| 0 <= j < i ==> r@[j]@ == self.entries@[j].0@,
            decreases self.entries.len() - i,
        {
            r.push(copy(&self.entries[i].0));
            i += 1;
        }
        proof {
            let s = views(r@);
            assert forall|k: Seq<u8>| s.to_set().contains(k) == self@.dom().contains(k) by {
                if s.contains(k) {
                    let j = choose|j: int| 0 <= j < s.len() && s[j] == k;
                    assert(self.holds_at(k, j));
                }
                if self@.dom().contains(k) {
                    let j = choose|j: int| self.holds_at(k, j);
                    assert(s[j] == k);
                }
            }
            assert(s.to_set() =~= self@.dom());
            assert forall|a: int, b: int| 0 <= a < s.len() && 0 <= b < s.len() && a != b implies s[a]
                != s[b] by {
                assert(s[a] == self.entries@[a].0@);
                assert(s[b] == self.entries@[b].0@);
            }
        }
        r
    }
}

} // verus!
