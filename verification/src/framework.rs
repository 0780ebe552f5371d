//! The bridge to actix-web: the framework's header map is read into the
//! engine's own header map, and what the engine changed is written back.

use crate::ascii::{bytes_eq, copy, lower};
use crate::codec::views;
use crate::headers::{lookup, option_view, put, Headers};
use crate::middleware::CorsMiddleware;
use crate::policy::{CorsPolicy, RequestHead};
use actix_web::http::header::{HeaderMap, HeaderName, HeaderValue};
use vstd::prelude::*;

verus! {

/// The header map of actix-web. Nothing inside it is visible here; what it
/// holds is spoken of through `first_values`.
#[verifier::external_type_specification]
#[verifier::external_body]
pub struct ExHeaderMap(HeaderMap);

/// What a framework header map holds: each header name, in the lower case
/// in which the map keeps it, with the first of its values.
pub uninterp spec fn first_values(map: HeaderMap) -> Map<Seq<u8>, Seq<u8>>;

/// Whether `HeaderName::from_bytes` accepts the bytes as a header name.
pub uninterp spec fn name_accepted(name: Seq<u8>) -> bool;

/// Whether `HeaderValue::from_bytes` accepts the bytes as a header value:
/// each is a tab, or at least a space and not the delete byte.
pub open spec fn value_accepted(value: Seq<u8>) -> bool {
    forall|i: int| 0 <= i < value.len() ==> value[i] == 9 || (value[i] >= 32 && value[i] != 127)
}

/// The framework can hold `value` under `name`.
pub open spec fn sendable(name: Seq<u8>, value: Seq<u8>) -> bool {
    name_accepted(name) && value_accepted(value)
}

/// `HeaderMap::keys`, each name copied out as bytes. The names are those
/// under which the map holds values, each once and in lower case; their
/// order is the map's own and is not stated.
#[verifier::external_body]
fn map_names(map: &HeaderMap) -> (r: Vec<Vec<u8>>)
    ensures
        views(r@).to_set() == first_values(*map).dom(),
        views(r@).no_duplicates(),
        forall|i: int| 0 <= i < r.len() ==> lower(#[trigger] r@[i]@) == r@[i]@,
{
    map.keys().map(|name| name.as_str().as_bytes().to_vec()).collect()
}

/// `HeaderMap::get` under the name that `HeaderName::from_bytes` makes of
/// `name`: the first value that the map holds under the lower-cased name.
/// Bytes that are no header name give nothing, and the map holds nothing
/// under them.
#[verifier::external_body]
fn map_first(map: &HeaderMap, name: &Vec<u8>) -> (r: Option<Vec<u8>>)
    ensures
        option_view(r) == lookup(first_values(*map), name@),
{
    match HeaderName::from_bytes(name) {
        Ok(name) => map.get(name).map(|value| value.as_bytes().to_vec()),
        Err(_) => None,
    }
}

/// `HeaderMap::insert` of the name and value that `HeaderName::from_bytes`
/// and `HeaderValue::from_bytes` make of the two byte strings. Where both
/// accept, the value stands alone under the lower-cased name afterwards
/// and the result is `true`; where one refuses, the map is unchanged and
/// the result is `false`.
#[verifier::external_body]
fn map_put(map: &mut HeaderMap, name: &Vec<u8>, value: &Vec<u8>) -> (done: bool)
    ensures
        done == (name_accepted(name@) && value_accepted(value@)),
        done ==> first_values(*final(map)) == put(first_values(*old(map)), name@, value@),
        !done ==> first_values(*final(map)) == first_values(*old(map)),
{
    match (HeaderName::from_bytes(name), HeaderValue::from_bytes(value)) {
        (Ok(name), Ok(value)) => {
            map.insert(name, value);
            true
        },
        _ => false,
    }
}

/// The engine changed the header `k`: `after` holds it, and `before` did
/// not hold it with the same value.
pub open spec fn changed(
    before: Map<Seq<u8>, Seq<u8>>,
    after: Map<Seq<u8>, Seq<u8>>,
    k: Seq<u8>,
) -> bool {
    after.dom().contains(k) && !(before.dom().contains(k) && before[k] == after[k])
}

/// `now` is what the framework map `start` holds once the engine's changes
/// from `before` to `after` are carried over to it: each changed header
/// that the framework can hold stands in `now` with its value in `after`,
/// every other header is in `now` as it was in `start`, and the refused
/// names are those of the changed headers that the framework cannot hold.
pub open spec fn carried(
    start: Map<Seq<u8>, Seq<u8>>,
    now: Map<Seq<u8>, Seq<u8>>,
    before: Map<Seq<u8>, Seq<u8>>,
    after: Map<Seq<u8>, Seq<u8>>,
    refused: Seq<Seq<u8>>,
) -> bool {
    &&& forall|k: Seq<u8>|
        if #[trigger] changed(before, after, k) && sendable(k, after[k]) {
            now.dom().contains(k) && now[k] == after[k]
        } else {
            now.dom().contains(k) == start.dom().contains(k) && (start.dom().contains(k)
                ==> now[k] == start[k])
        }
    &&& forall|k: Seq<u8>| #[trigger]
        refused.contains(k) <==> changed(before, after, k) && !sendable(k, after[k])
}

/// The header `k` has been written: it is among the names gone through,
/// the engine changed it, and the framework can hold it.
spec fn written(
    done: Seq<Seq<u8>>,
    before: Map<Seq<u8>, Seq<u8>>,
    after: Map<Seq<u8>, Seq<u8>>,
    k: Seq<u8>,
) -> bool {
    done.contains(k) && changed(before, after, k) && sendable(k, after[k])
}

/// The header `k` has been turned away: it is among the names gone
/// through, the engine changed it, and the framework cannot hold it.
spec fn turned_away(
    done: Seq<Seq<u8>>,
    before: Map<Seq<u8>, Seq<u8>>,
    after: Map<Seq<u8>, Seq<u8>>,
    k: Seq<u8>,
) -> bool {
    done.contains(k) && changed(before, after, k) && !sendable(k, after[k])
}

/// `cur` is `start` with the written headers of `after` put over it.
spec fn overlaid(
    start: Map<Seq<u8>, Seq<u8>>,
    cur: Map<Seq<u8>, Seq<u8>>,
    done: Seq<Seq<u8>>,
    before: Map<Seq<u8>, Seq<u8>>,
    after: Map<Seq<u8>, Seq<u8>>,
) -> bool {
    forall|k: Seq<u8>|
        if #[trigger] written(done, before, after, k) {
            cur.dom().contains(k) && cur[k] == after[k]
        } else {
            cur.dom().contains(k) == start.dom().contains(k) && (start.dom().contains(k)
                ==> cur[k] == start[k])
        }
}

/// The members of a sequence with one more token at its end are its own
/// members and that token.
proof fn lemma_push_members(s: Seq<Seq<u8>>, x: Seq<u8>)
    ensures
        forall|k: Seq<u8>| #[trigger] s.push(x).contains(k) <==> s.contains(k) || k == x,
{
    let t = s.push(x);
    assert forall|k: Seq<u8>| #[trigger] t.contains(k) <==> s.contains(k) || k == x by {
        if s.contains(k) {
            let j = choose|j: int| 0 <= j < s.len() && s[j] == k;
            assert(t[j] == k);
        }
        if k == x {
            assert(t[s.len() as int] == k);
        }
        if t.contains(k) {
            let j = choose|j: int| 0 <= j < t.len() && t[j] == k;
            if j < s.len() {
                assert(s[j] == k);
            }
        }
    }
}

/// Reads a framework header map: each name with its first value.
pub fn read_headers(map: &HeaderMap) -> (r: Headers)
    ensures
        r@ == first_values(*map),
{
    let names = map_names(map);
    let mut out = Headers::new();
    let mut i: usize = 0;
    while i < names.len()
        invariant
            i <= names.len(),
            views(names@).to_set() == first_values(*map).dom(),
            forall|j: int| 0 <= j < names.len() ==> lower(#[trigger] names@[j]@) == names@[j]@,
            forall|k: Seq<u8>|
                out@.dom().contains(k) <==> views(names@).take(i as int).contains(k),
            forall|k: Seq<u8>| out@.dom().contains(k) ==> out@[k] == first_values(*map)[k],
        decreases names.len() - i,
    {
        let ghost done = views(names@).take(i as int);
        let ghost next = views(names@).take(i + 1);
        let ghost name = names@[i as int]@;
        proof {
            assert(next =~= done.push(name));
            assert(views(names@)[i as int] == name);
            assert(views(names@).contains(name));
            assert(first_values(*map).dom().contains(name));
            lemma_push_members(done, name);
        }
        match map_first(map, &names[i]) {
            Some(value) => {
                out.insert(&names[i], value);
            },
            None => {
                assert(false);
            },
        }
        i += 1;
    }
    proof {
        assert(views(names@).take(names.len() as int) =~= views(names@));
        assert forall|k: Seq<u8>| out@.dom().contains(k) == first_values(*map).dom().contains(
            k,
        ) by {
            assert(views(names@).to_set().contains(k) == views(names@).contains(k));
        }
        assert(out@ =~= first_values(*map));
    }
    out
}

/// Writes to a framework header map what the engine changed: every header
/// that `after` holds and `before` does not hold with the same value is
/// put into `map`, in place of all the values that stood under its name.
/// Headers that the engine did not change keep all their values. The
/// names that the framework refused, because the name or the value cannot
/// be sent, are returned; their headers are left as they were.
pub fn write_back(before: &Headers, after: &Headers, map: &mut HeaderMap) -> (refused: Vec<
    Vec<u8>,
>)
    ensures
        carried(first_values(*old(map)), first_values(*final(map)), before@, after@, views(refused@)),
{
    let ghost start = first_values(*map);
    let names = after.names();
    let mut refused: Vec<Vec<u8>> = Vec::new();
    let mut i: usize = 0;
    while i < names.len()
        invariant
            i <= names.len(),
            views(names@).to_set() == after@.dom(),
            views(names@).no_duplicates(),
            forall|j: int| 0 <= j < names.len() ==> lower(#[trigger] names@[j]@) == names@[j]@,
            overlaid(start, first_values(*map), views(names@).take(i as int), before@, after@),
            forall|k: Seq<u8>| #[trigger]
                turned_away(views(names@).take(i as int), before@, after@, k) == views(
                    refused@,
                ).contains(k),
        decreases names.len() - i,
    {
        let ghost done = views(names@).take(i as int);
        let ghost next = views(names@).take(i + 1);
        let ghost name = names@[i as int]@;
        let ghost cur = first_values(*map);
        let ghost refused_before = views(refused@);
        proof {
            assert(next =~= done.push(name));
            assert(views(names@)[i as int] == name);
            assert(views(names@).contains(name));
            assert(after@.dom().contains(name));
            assert(!done.contains(name)) by {
                if done.contains(name) {
                    let j = choose|j: int| 0 <= j < done.len() && done[j] == name;
                    assert(views(names@)[j] == views(names@)[i as int]);
                }
            }
            lemma_push_members(done, name);
        }
        let put_done = match after.get(&names[i]) {
            Some(value) => {
                let same = match before.get(&names[i]) {
                    Some(was) => bytes_eq(was, value),
                    None => false,
                };
                assert(same == !changed(before@, after@, name));
                same || map_put(map, &names[i], value)
            },
            None => true,
        };
        assert(!put_done == turned_away(next, before@, after@, name));
        if !put_done {
            refused.push(copy(&names[i]));
        }
        proof {
            let now = first_values(*map);
            let refused_now = views(refused@);
            assert(!put_done ==> refused_now =~= refused_before.push(name));
            assert(put_done ==> refused_now =~= refused_before);
            if !put_done {
                lemma_push_members(refused_before, name);
            }
            assert forall|k: Seq<u8>|
                if #[trigger] written(next, before@, after@, k) {
                    now.dom().contains(k) && now[k] == after@[k]
                } else {
                    now.dom().contains(k) == start.dom().contains(k) && (start.dom().contains(k)
                        ==> now[k] == start[k])
                } by {
                let earlier = written(done, before@, after@, k);
                if earlier {
                    assert(cur.dom().contains(k) && cur[k] == after@[k]);
                } else {
                    assert(cur.dom().contains(k) == start.dom().contains(k));
                }
                if k == name {
                    assert(!earlier);
                    assert(lower(name) == name);
                } else {
                    assert(earlier == written(next, before@, after@, k));
                }
            }
            assert forall|k: Seq<u8>| #[trigger]
                turned_away(next, before@, after@, k) == refused_now.contains(k) by {
                let earlier = turned_away(done, before@, after@, k);
                assert(earlier == refused_before.contains(k));
                if k != name {
                    assert(earlier == turned_away(next, before@, after@, k));
                }
            }
        }
        i += 1;
    }
    proof {
        assert(views(names@).take(names.len() as int) =~= views(names@));
        let all = views(names@);
        let now = first_values(*map);
        assert(overlaid(start, now, all, before@, after@));
        assert forall|k: Seq<u8>|
            if #[trigger] changed(before@, after@, k) && sendable(k, after@[k]) {
                now.dom().contains(k) && now[k] == after@[k]
            } else {
                now.dom().contains(k) == start.dom().contains(k) && (start.dom().contains(k)
                    ==> now[k] == start[k])
            } by {
            assert(all.to_set().contains(k) == all.contains(k));
            let w = written(all, before@, after@, k);
            if w {
                assert(now.dom().contains(k) && now[k] == after@[k]);
            } else {
                assert(now.dom().contains(k) == start.dom().contains(k));
            }
        }
        assert forall|k: Seq<u8>| #[trigger]
            views(refused@).contains(k) <==> changed(before@, after@, k) && !sendable(
                k,
                after@[k],
            ) by {
            assert(all.to_set().contains(k) == all.contains(k));
            assert(turned_away(all, before@, after@, k) == views(refused@).contains(k));
        }
    }
    refused
}

impl<S, F: Fn(&Vec<u8>, &RequestHead) -> bool> CorsMiddleware<S, F> {
    /// Adds the CORS headers to the framework header map of a handler's
    /// response: the map is read, augmented, and what changed is written
    /// back. The names that the framework refused are returned.
    pub fn augment_map(inner: &CorsPolicy<F>, head: &RequestHead, map: &mut HeaderMap) -> (refused:
        Vec<Vec<u8>>)
        ensures
            carried(
                first_values(*old(map)),
                first_values(*final(map)),
                first_values(*old(map)),
                Self::augmented_headers(inner, head, first_values(*old(map))),
                views(refused@),
            ),
    {
        let before = read_headers(map);
        let mut after = read_headers(map);
        Self::augment_response(inner, head, &mut after);
        write_back(&before, &after, map)
    }
}

} // verus!
