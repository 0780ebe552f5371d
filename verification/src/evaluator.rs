//! The three checks of a request head against a policy, and the rule that
//! resolves the value of `Access-Control-Allow-Origin`.

use crate::ascii::{bytes_eq, copy, copy_range, lower, to_lower, trim, trimmed_range};
use crate::codec::views;
use crate::headers::{lookup, option_view};
use crate::names;
use crate::policy::{
    origin_of,
    AllowancePolicy,
    CorsPolicy,
    OriginPolicy,
    RejectionKind,
    RequestHead,
    ValidationOutcome,
};
use vstd::prelude::*;

verus! {

/// The byte that separates the tokens of a list-valued header: a comma.
pub open spec fn comma() -> u8 {
    44u8
}

/// `s[i..j]` is one token of the comma-separated list `s`: it starts at the
/// beginning or behind a comma, ends at the end or before a comma, and
/// holds no comma.
pub open spec fn is_token_span(s: Seq<u8>, i: int, j: int) -> bool {
    &&& 0 <= i <= j <= s.len()
    &&& i == 0 || s[i - 1] == comma()
    &&& j == s.len() || s[j] == comma()
    &&& forall|k: int| i <= k < j ==> s[k] != comma()
}

/// `token` is a member of `list` when ASCII case is disregarded.
pub open spec fn listed(list: Seq<Seq<u8>>, token: Seq<u8>) -> bool {
    exists|k: int| 0 <= k < list.len() && lower(#[trigger] list[k]) == lower(token)
}

/// Every token of the comma-separated list `s`, trimmed of the whitespace
/// around it, is a member of `list`.
pub open spec fn all_listed(list: Seq<Seq<u8>>, s: Seq<u8>) -> bool {
    forall|i: int, j: int| #[trigger]
        is_token_span(s, i, j) ==> listed(list, trim(s.subrange(i, j)))
}

/// The outcome of a check that passes exactly when `pass` holds.
pub open spec fn outcome(pass: bool, kind: RejectionKind) -> ValidationOutcome {
    if pass {
        ValidationOutcome::Allowed
    } else {
        ValidationOutcome::Rejected(kind)
    }
}

/// Whether `list` holds `x`, byte for byte.
pub fn contains_exact(list: &Vec<Vec<u8>>, x: &Vec<u8>) -> (r: bool)
    ensures
        r == views(list@).contains(x@),
{
    let mut i: usize = 0;
    while i < list.len()
        invariant
            i <= list.len(),
            forall|j: int| 0 <= j < i ==> list@[j]@ != x@,
        decreases list.len() - i,
    {
        if bytes_eq(&list[i], x) {
            assert(views(list@)[i as int] == x@);
            return true;
        }
        i += 1;
    }
    assert forall|j: int| 0 <= j < views(list@).len() implies views(list@)[j] != x@ by {
        assert(list@[j]@ != x@);
    }
    false
}

/// Whether `list` holds `token` when ASCII case is disregarded.
pub fn contains_folded(list: &Vec<Vec<u8>>, token: &Vec<u8>) -> (r: bool)
    ensures
        r == listed(views(list@), token@),
{
    let folded = to_lower(token);
    let mut i: usize = 0;
    while i < list.len()
        invariant
            i <= list.len(),
            folded@ == lower(token@),
            forall|j: int| 0 <= j < i ==> lower(list@[j]@) != lower(token@),
        decreases list.len() - i,
    {
        let member = to_lower(&list[i]);
        if bytes_eq(&member, &folded) {
            assert(lower(views(list@)[i as int]) == lower(token@));
            return true;
        }
        i += 1;
    }
    assert forall|j: int| 0 <= j < views(list@).len() implies lower(
        #[trigger] views(list@)[j],
    ) != lower(token@) by {
        assert(lower(list@[j]@) != lower(token@));
    }
    false
}

/// Checks the tokens of a comma-separated list against an allow-list, and
/// stops at the first that is not on it.
pub fn all_tokens_listed(list: &Vec<Vec<u8>>, value: &Vec<u8>) -> (r: bool)
    ensures
        r == all_listed(views(list@), value@),
{
    let mut start: usize = 0;
    loop
        invariant
            start <= value.len(),
            start == 0 || value@[start - 1] == comma(),
            forall|i: int, j: int| #[trigger]
                is_token_span(value@, i, j) && j < start ==> listed(
                    views(list@),
                    trim(value@.subrange(i, j)),
                ),
        decreases value.len() - start,
    {
        let mut end: usize = start;
        while end < value.len() && value[end] != 44u8
            invariant
                start <= end <= value.len(),
                forall|k: int| start <= k < end ==> value@[k] != comma(),
            decreases value.len() - end,
        {
            end += 1;
        }
        assert(is_token_span(value@, start as int, end as int));
        assert forall|i: int, j: int| #[trigger]
            is_token_span(value@, i, j) && start <= j <= end implies i == start && j == end by {
            if j < end {
                assert(value@[j] != comma());
            }
            if i < start {
                assert(value@[start - 1] == comma());
            }
            if i > start {
                assert(value@[i - 1] != comma());
            }
        }
        let (lo, hi) = trimmed_range(value, start, end);
        let token = copy_range(value, lo, hi);
        if !contains_folded(list, &token) {
            return false;
        }
        if end == value.len() {
            return true;
        }
        start = end + 1;
    }
}

impl<F: Fn(&Vec<u8>, &RequestHead) -> bool> CorsPolicy<F> {
    /// `r` is a verdict that the origin check may give on `head`: a
    /// request without an `Origin` header is allowed; with one, the
    /// verdict is that of the origin policy, and with a predicate it is
    /// what the predicate returns on the origin and the head.
    pub open spec fn origin_verdict(&self, head: &RequestHead, r: ValidationOutcome) -> bool {
        match origin_of(head) {
            None => r == ValidationOutcome::Allowed,
            Some(origin) => match self.allowed_origins {
                OriginPolicy::AllowAll => r == ValidationOutcome::Allowed,
                OriginPolicy::AllowList(list) => r == outcome(
                    views(list@).contains(origin),
                    RejectionKind::OriginNotAllowed,
                ),
                OriginPolicy::AllowByPredicate(f) => exists|value: &Vec<u8>, pass: bool|
                    {
                        &&& value@ == origin
                        &&& #[trigger] call_ensures(f, (value, head), pass)
                        &&& r == outcome(pass, RejectionKind::OriginNotAllowed)
                    },
            },
        }
    }

    /// The verdict of the method check on `head`: the value of
    /// `Access-Control-Request-Method` must be present and be, byte for
    /// byte, one of the allowed methods.
    pub open spec fn method_verdict(&self, head: &RequestHead) -> ValidationOutcome {
        match lookup(head.headers@, names::request_method()) {
            None => ValidationOutcome::Rejected(RejectionKind::MethodNotAllowed),
            Some(method) => outcome(
                views(self.allowed_methods@).contains(method),
                RejectionKind::MethodNotAllowed,
            ),
        }
    }

    /// The verdict of the header check on `head`: where a closed list of
    /// headers is allowed and the request names headers in
    /// `Access-Control-Request-Headers`, each of them must be on the list.
    pub open spec fn headers_verdict(&self, head: &RequestHead) -> ValidationOutcome {
        match self.allowed_headers {
            AllowancePolicy::AllowAll => ValidationOutcome::Allowed,
            AllowancePolicy::AllowList(list) => match lookup(
                head.headers@,
                names::request_headers(),
            ) {
                None => ValidationOutcome::Allowed,
                Some(value) => outcome(
                    all_listed(views(list@), value),
                    RejectionKind::HeaderNotAllowed,
                ),
            },
        }
    }

    /// The value of `Access-Control-Allow-Origin` for `head`: the wildcard
    /// where every origin is allowed and credentials are not supported,
    /// else the request's own origin, if it has one.
    pub open spec fn resolved_origin(&self, head: &RequestHead) -> Option<Seq<u8>> {
        if self.allowed_origins is AllowAll && !self.supports_credentials {
            Some(names::wildcard())
        } else {
            origin_of(head)
        }
    }

    /// Judges the request's origin.
    pub fn validate_origin(&self, head: &RequestHead) -> (r: ValidationOutcome)
        requires
            self.wf(),
        ensures
            self.origin_verdict(head, r),
    {
        let name = names::origin_name();
        match head.headers.get(&name) {
            None => ValidationOutcome::Allowed,
            Some(origin) => match &self.allowed_origins {
                OriginPolicy::AllowAll => ValidationOutcome::Allowed,
                OriginPolicy::AllowList(list) => {
                    if contains_exact(list, origin) {
                        ValidationOutcome::Allowed
                    } else {
                        ValidationOutcome::Rejected(RejectionKind::OriginNotAllowed)
                    }
                },
                OriginPolicy::AllowByPredicate(f) => {
                    let pass = f(origin, head);
                    assert(call_ensures(*f, (origin, head), pass));
                    if pass {
                        ValidationOutcome::Allowed
                    } else {
                        ValidationOutcome::Rejected(RejectionKind::OriginNotAllowed)
                    }
                },
            },
        }
    }

    /// Judges the method that a preflight request asks for.
    pub fn validate_allowed_method(&self, head: &RequestHead) -> (r: ValidationOutcome)
        ensures
            r == self.method_verdict(head),
    {
        let name = names::request_method_name();
        match head.headers.get(&name) {
            None => ValidationOutcome::Rejected(RejectionKind::MethodNotAllowed),
            Some(method) => {
                if contains_exact(&self.allowed_methods, method) {
                    ValidationOutcome::Allowed
                } else {
                    ValidationOutcome::Rejected(RejectionKind::MethodNotAllowed)
                }
            },
        }
    }

    /// Judges the headers that a preflight request asks for.
    pub fn validate_allowed_headers(&self, head: &RequestHead) -> (r: ValidationOutcome)
        ensures
            r == self.headers_verdict(head),
    {
        match &self.allowed_headers {
            AllowancePolicy::AllowAll => ValidationOutcome::Allowed,
            AllowancePolicy::AllowList(list) => {
                let name = names::request_headers_name();
                match head.headers.get(&name) {
                    None => ValidationOutcome::Allowed,
                    Some(value) => {
                        if all_tokens_listed(list, value) {
                            ValidationOutcome::Allowed
                        } else {
                            ValidationOutcome::Rejected(RejectionKind::HeaderNotAllowed)
                        }
                    },
                }
            },
        }
    }

    /// Resolves the value of `Access-Control-Allow-Origin`.
    pub fn access_control_allow_origin(&self, head: &RequestHead) -> (r: Option<Vec<u8>>)
        ensures
            option_view(r) == self.resolved_origin(head),
    {
        let wildcard = match &self.allowed_origins {
            OriginPolicy::AllowAll => !self.supports_credentials,
            _ => false,
        };
        if wildcard {
            Some(names::wildcard_value())
        } else {
            let name = names::origin_name();
            match head.headers.get(&name) {
                None => None,
                Some(origin) => Some(copy(origin)),
            }
        }
    }
}

} // verus!
