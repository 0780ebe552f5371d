//! Header-value codec: a set of tokens (method names, header names) is
//! written as one header value, the tokens in lexicographic order and
//! joined by a comma and a space.

use crate::ascii::copy;
use vstd::prelude::*;

verus! {

/// How one byte string stands to another in lexicographic order.
#[derive(Clone, Copy, Debug, PartialEq, Eq, Structural)]
pub enum Order {
    Before,
    Same,
    After,
}

/// `a` and `b` hold the same bytes at every index below `k`.
pub open spec fn agree_upto(a: Seq<u8>, b: Seq<u8>, k: int) -> bool {
    &&& 0 <= k <= a.len()
    &&& k <= b.len()
    &&& forall|j: int| 0 <= j < k ==> a[j] == b[j]
}

/// `a` comes before `b`, and index `k` shows it: the two agree below `k`,
/// and there `a` ends while `b` goes on, or `a` holds the smaller byte.
pub open spec fn precedes_at(a: Seq<u8>, b: Seq<u8>, k: int) -> bool {
    &&& agree_upto(a, b, k)
    &&& k < b.len()
    &&& k == a.len() || a[k] < b[k]
}

/// `a` comes strictly before `b` in lexicographic byte order.
pub open spec fn precedes(a: Seq<u8>, b: Seq<u8>) -> bool {
    exists|k: int| precedes_at(a, b, k)
}

/// Each token comes strictly before every later one: the sequence is in
/// lexicographic order and holds nothing twice.
pub open spec fn strictly_sorted(s: Seq<Seq<u8>>) -> bool {
    forall|i: int, j: int| 0 <= i < j < s.len() ==> precedes(#[trigger] s[i], #[trigger] s[j])
}

/// The tokens that a vector of byte strings holds, in its order.
pub open spec fn views(v: Seq<Vec<u8>>) -> Seq<Seq<u8>> {
    Seq::new(v.len(), |i: int| v[i]@)
}

/// The members of `set` in lexicographic order.
pub open spec fn sorted_tokens(set: Set<Seq<u8>>) -> Seq<Seq<u8>> {
    choose|s: Seq<Seq<u8>>| strictly_sorted(s) && s.to_set() == set
}

/// What stands between two tokens: a comma and a space.
pub open spec fn separator() -> Seq<u8> {
    seq![44u8, 32u8]
}

/// The tokens in the given order, joined by the separator.
pub open spec fn join(tokens: Seq<Seq<u8>>) -> Seq<u8>
    decreases tokens.len(),
{
    if tokens.len() == 0 {
        Seq::empty()
    } else if tokens.len() == 1 {
        tokens[0]
    } else {
        join(tokens.drop_last()) + separator() + tokens.last()
    }
}

/// The header value of a set of tokens.
pub open spec fn spec_encode(set: Set<Seq<u8>>) -> Seq<u8> {
    join(sorted_tokens(set))
}

/// No byte string comes before itself, and of two at most one comes before
/// the other.
pub proof fn lemma_precedes_asymmetric(a: Seq<u8>, b: Seq<u8>)
    requires
        precedes(a, b),
    ensures
        !precedes(b, a),
        a != b,
{
    let k1 = choose|k: int| precedes_at(a, b, k);
    if precedes(b, a) {
        let k2 = choose|k: int| precedes_at(b, a, k);
        if k1 < k2 {
            assert(b[k1] == a[k1]);
        } else if k2 < k1 {
            assert(a[k2] == b[k2]);
        }
    }
}

/// The lexicographic order is transitive.
pub proof fn lemma_precedes_transitive(a: Seq<u8>, b: Seq<u8>, c: Seq<u8>)
    requires
        precedes(a, b),
        precedes(b, c),
    ensures
        precedes(a, c),
{
    let k1 = choose|k: int| precedes_at(a, b, k);
    let k2 = choose|k: int| precedes_at(b, c, k);
    let k = if k1 <= k2 {
        k1
    } else {
        k2
    };
    assert forall|j: int| 0 <= j < k implies a[j] == c[j] by {
        assert(a[j] == b[j]);
        assert(b[j] == c[j]);
    }
    if k1 < k2 {
        assert(b[k1] == c[k1]);
    } else if k2 < k1 {
        assert(a[k2] == b[k2]);
    }
    assert(precedes_at(a, c, k));
}

/// A set of tokens has one sorted sequence: two strictly sorted sequences
/// with the same members are equal.
pub proof fn lemma_sorted_unique(s1: Seq<Seq<u8>>, s2: Seq<Seq<u8>>)
    requires
        strictly_sorted(s1),
        strictly_sorted(s2),
        s1.to_set() == s2.to_set(),
    ensures
        s1 == s2,
    decreases s1.len(),
{
    if s1.len() == 0 {
        if s2.len() > 0 {
            assert(s2.contains(s2[0]));
            assert(s2.to_set().contains(s2[0]));
            assert(s1.contains(s2[0]));
        }
        assert(s1 =~= s2);
    } else if s2.len() == 0 {
        assert(s1.contains(s1[0]));
        assert(s1.to_set().contains(s1[0]));
        assert(s2.contains(s1[0]));
    } else {
        assert(s1.contains(s1[0]));
        assert(s1.to_set().contains(s1[0]));
        assert(s2.contains(s1[0]));
        let j = choose|j: int| 0 <= j < s2.len() && s2[j] == s1[0];
        assert(s2.contains(s2[0]));
        assert(s2.to_set().contains(s2[0]));
        assert(s1.contains(s2[0]));
        let i = choose|i: int| 0 <= i < s1.len() && s1[i] == s2[0];
        if j > 0 {
            assert(precedes(s2[0], s2[j]));
            lemma_precedes_asymmetric(s2[0], s1[0]);
            if i > 0 {
                assert(precedes(s1[0], s1[i]));
            }
        }
        assert(s1[0] == s2[0]);
        let t1 = s1.skip(1);
        let t2 = s2.skip(1);
        assert(strictly_sorted(t1)) by {
            assert forall|a: int, b: int| 0 <= a < b < t1.len() implies precedes(
                #[trigger] t1[a],
                #[trigger] t1[b],
            ) by {
                assert(precedes(s1[a + 1], s1[b + 1]));
            }
        }
        assert(strictly_sorted(t2)) by {
            assert forall|a: int, b: int| 0 <= a < b < t2.len() implies precedes(
                #[trigger] t2[a],
                #[trigger] t2[b],
            ) by {
                assert(precedes(s2[a + 1], s2[b + 1]));
            }
        }
        assert forall|x: Seq<u8>| t1.contains(x) implies t2.contains(x) by {
            lemma_tail_member(s1, s2, x);
        }
        assert forall|x: Seq<u8>| t2.contains(x) implies t1.contains(x) by {
            lemma_tail_member(s2, s1, x);
        }
        assert(t1.to_set() =~= t2.to_set());
        lemma_sorted_unique(t1, t2);
        assert(s1 =~= seq![s1[0]] + t1);
        assert(s2 =~= seq![s2[0]] + t2);
    }
}

/// A member of the tail of one sorted sequence is a member of the tail of
/// another that starts with the same token and has the same members.
proof fn lemma_tail_member(s1: Seq<Seq<u8>>, s2: Seq<Seq<u8>>, x: Seq<u8>)
    requires
        strictly_sorted(s1),
        s1.len() > 0,
        s2.len() > 0,
        s1[0] == s2[0],
        s1.to_set() == s2.to_set(),
        s1.skip(1).contains(x),
    ensures
        s2.skip(1).contains(x),
{
    let t1 = s1.skip(1);
    let a = choose|a: int| 0 <= a < t1.len() && t1[a] == x;
    assert(s1[a + 1] == x);
    assert(precedes(s1[0], s1[a + 1]));
    lemma_precedes_asymmetric(s1[0], x);
    assert(s1.contains(x));
    assert(s1.to_set().contains(x));
    assert(s2.contains(x));
    let m = choose|m: int| 0 <= m < s2.len() && s2[m] == x;
    assert(m > 0);
    assert(s2.skip(1)[m - 1] == x);
}

/// Compares two byte strings lexicographically.
pub fn lex_order(a: &Vec<u8>, b: &Vec<u8>) -> (r: Order)
    ensures
        (r == Order::Before) <==> precedes(a@, b@),
        (r == Order::Same) <==> a@ == b@,
        (r == Order::After) <==> precedes(b@, a@),
{
    let mut i: usize = 0;
    while i < a.len() && i < b.len()
        invariant
            agree_upto(a@, b@, i as int),
        decreases a.len() - i,
    {
        if a[i] < b[i] {
            proof {
                assert(precedes_at(a@, b@, i as int));
                lemma_precedes_asymmetric(a@, b@);
            }
            return Order::Before;
        }
        if b[i] < a[i] {
            proof {
                assert(precedes_at(b@, a@, i as int));
                lemma_precedes_asymmetric(b@, a@);
            }
            return Order::After;
        }
        i += 1;
    }
    if i < b.len() {
        proof {
            assert(precedes_at(a@, b@, i as int));
            lemma_precedes_asymmetric(a@, b@);
        }
        Order::Before
    } else if i < a.len() {
        proof {
            assert(precedes_at(b@, a@, i as int));
            lemma_precedes_asymmetric(b@, a@);
        }
        Order::After
    } else {
        proof {
            assert(a@ =~= b@);
            if precedes(a@, b@) {
                lemma_precedes_asymmetric(a@, b@);
            }
        }
        Order::Same
    }
}

/// Finds where `token` belongs in a sorted vector: the index of the first
/// entry that does not come before it, and whether that entry is the token
/// itself.
fn position(sorted: &Vec<Vec<u8>>, token: &Vec<u8>) -> (r: (usize, bool))
    ensures
        r.0 <= sorted.len(),
        forall|j: int| 0 <= j < r.0 ==> precedes(#[trigger] sorted@[j]@, token@),
        r.1 ==> r.0 < sorted.len() && sorted@[r.0 as int]@ == token@,
        !r.1 && r.0 < sorted.len() ==> precedes(token@, sorted@[r.0 as int]@),
{
    let mut p: usize = 0;
    while p < sorted.len()
        invariant
            p <= sorted.len(),
            forall|j: int| 0 <= j < p ==> precedes(#[trigger] sorted@[j]@, token@),
        decreases sorted.len() - p,
    {
        match lex_order(&sorted[p], token) {
            Order::Before => {
                p += 1;
            },
            Order::Same => {
                return (p, true);
            },
            Order::After => {
                return (p, false);
            },
        }
    }
    (p, false)
}

/// Sorts the tokens lexicographically and keeps one of each.
pub fn sorted_distinct(tokens: &Vec<Vec<u8>>) -> (out: Vec<Vec<u8>>)
    ensures
        strictly_sorted(views(out@)),
        views(out@).to_set() == views(tokens@).to_set(),
        out.len() <= tokens.len(),
{
    let mut out: Vec<Vec<u8>> = Vec::new();
    let mut i: usize = 0;
    while i < tokens.len()
        invariant
            i <= tokens.len(),
            out.len() <= i,
            strictly_sorted(views(out@)),
            forall|x: Seq<u8>|
                views(out@).contains(x) <==> exists|k: int| 0 <= k < i && tokens@[k]@ == x,
        decreases tokens.len() - i,
    {
        let token = &tokens[i];
        let (p, found) = position(&out, token);
        if !found {
            let ghost before = views(out@);
            out.insert(p, copy(token));
            proof {
                let after = views(out@);
                assert(after =~= before.insert(p as int, token@));
                assert forall|a: int, b: int| 0 <= a < b < after.len() implies precedes(
                    #[trigger] after[a],
                    #[trigger] after[b],
                ) by {
                    if b < p {
                        assert(precedes(before[a], before[b]));
                    } else if b == p {
                        assert(after[a] == before[a]);
                    } else if a == p {
                        assert(after[b] == before[b - 1]);
                        if b - 1 > p {
                            assert(precedes(before[p as int], before[b - 1]));
                            lemma_precedes_transitive(token@, before[p as int], before[b - 1]);
                        }
                    } else if a < p {
                        assert(after[b] == before[b - 1]);
                        assert(precedes(before[a], before[b - 1]));
                    } else {
                        assert(precedes(before[a - 1], before[b - 1]));
                    }
                }
                assert forall|x: Seq<u8>| after.contains(x) <==> exists|k: int|
                    0 <= k < i + 1 && tokens@[k]@ == x by {
                    if after.contains(x) {
                        let a = choose|a: int| 0 <= a < after.len() && after[a] == x;
                        if a < p {
                            assert(before[a] == x);
                            assert(before.contains(x));
                        } else if a == p {
                            assert(tokens@[i as int]@ == x);
                        } else {
                            assert(before[a - 1] == x);
                            assert(before.contains(x));
                        }
                    }
                    if exists|k: int| 0 <= k < i + 1 && tokens@[k]@ == x {
                        let k = choose|k: int| 0 <= k < i + 1 && tokens@[k]@ == x;
                        if k == i {
                            assert(after[p as int] == x);
                        } else {
                            assert(before.contains(x));
                            let a = choose|a: int| 0 <= a < before.len() && before[a] == x;
                            if a < p {
                                assert(after[a] == x);
                            } else {
                                assert(after[a + 1] == x);
                            }
                        }
                    }
                }
            }
        } else {
            proof {
                let cur = views(out@);
                assert(cur[p as int] == token@);
                assert(cur.contains(token@));
            }
        }
        i += 1;
    }
    proof {
        let a = views(out@);
        let b = views(tokens@);
        assert forall|x: Seq<u8>| a.contains(x) <==> b.contains(x) by {
            if a.contains(x) {
                let k = choose|k: int| 0 <= k < tokens.len() && tokens@[k]@ == x;
                assert(b[k] == x);
            }
            if b.contains(x) {
                let k = choose|k: int| 0 <= k < b.len() && b[k] == x;
                assert(tokens@[k]@ == x);
            }
        }
        assert(a.to_set() =~= b.to_set());
    }
    out
}

/// Joins the tokens, in the order given, by a comma and a space.
pub fn join_tokens(tokens: &Vec<Vec<u8>>) -> (r: Vec<u8>)
    ensures
        r@ == join(views(tokens@)),
{
    let mut r: Vec<u8> = Vec::new();
    let mut i: usize = 0;
    while i < tokens.len()
        invariant
            i <= tokens.len(),
            r@ == join(views(tokens@).take(i as int)),
        decreases tokens.len() - i,
    {
        let ghost done = views(tokens@).take(i as int);
        let ghost next = views(tokens@).take(i + 1);
        proof {
            assert(next.drop_last() =~= done);
            assert(next.last() == tokens@[i as int]@);
        }
        if i > 0 {
            r.push(44u8);
            r.push(32u8);
            assert(r@ =~= join(done) + separator());
        } else {
            assert(r@ + tokens@[i as int]@ =~= tokens@[i as int]@);
        }
        r.extend_from_slice(tokens[i].as_slice());
        assert(r@ == join(next));
        i += 1;
    }
    assert(views(tokens@).take(tokens.len() as int) =~= views(tokens@));
    r
}

/// Encodes a set of tokens, given in any order and with any repetition, as
/// one header value: the distinct tokens in lexicographic order, joined by
/// a comma and a space.
pub fn encode(tokens: &Vec<Vec<u8>>) -> (r: Vec<u8>)
    ensures
        r@ == spec_encode(views(tokens@).to_set()),
{
    let sorted = sorted_distinct(tokens);
    proof {
        let set = views(tokens@).to_set();
        let s = views(sorted@);
        assert(strictly_sorted(s) && s.to_set() == set);
        lemma_sorted_unique(s, sorted_tokens(set));
    }
    join_tokens(&sorted)
}

/// The encoding depends on the set of tokens alone: two sequences with the
/// same members, in whatever order and however often repeated, encode to
/// the same value, and that value is the join of any strictly sorted
/// sequence of those members.
pub proof fn lemma_encode_order_independent(a: Seq<Seq<u8>>, b: Seq<Seq<u8>>, sorted: Seq<Seq<u8>>)
    requires
        a.to_set() == b.to_set(),
        strictly_sorted(sorted),
        sorted.to_set() == a.to_set(),
    ensures
        spec_encode(a.to_set()) == spec_encode(b.to_set()),
        spec_encode(a.to_set()) == join(sorted),
{
    lemma_sorted_unique(sorted, sorted_tokens(a.to_set()));
}

} // verus!
