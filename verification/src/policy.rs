//! The data model: the immutable policy with its precomputed header
//! values, the request head that it judges, and the outcome of a check.

use crate::codec::{encode, spec_encode, views};
use crate::headers::{lookup, option_view, Headers};
use crate::names;
use vstd::prelude::*;

verus! {

/// How an origin is judged acceptable.
pub enum OriginPolicy<F> {
    /// Every origin is accepted.
    AllowAll,
    /// An origin is accepted if it is, byte for byte, one of these.
    AllowList(Vec<Vec<u8>>),
    /// An origin is accepted if this function says so of the origin and
    /// the request head. It may be called by many requests at once and
    /// must not rely on exclusive access to anything it captures.
    AllowByPredicate(F),
}

/// Which tokens (header names) are accepted: all, or those of a closed
/// list.
pub enum AllowancePolicy {
    AllowAll,
    AllowList(Vec<Vec<u8>>),
}

/// Why a request was turned away.
#[derive(Clone, Copy, Debug, PartialEq, Eq, Structural)]
pub enum RejectionKind {
    /// The origin is not on the allow-list, or the predicate refused it.
    OriginNotAllowed,
    /// The method that a preflight asks for is not an allowed method.
    MethodNotAllowed,
    /// A header that a preflight asks for is not an allowed header.
    HeaderNotAllowed,
}

/// The result of one check.
#[derive(Clone, Copy, Debug, PartialEq, Eq, Structural)]
pub enum ValidationOutcome {
    Allowed,
    Rejected(RejectionKind),
}

/// What the engine reads of a request: its method and its headers.
pub struct RequestHead {
    pub method: Vec<u8>,
    pub headers: Headers,
}

/// A response synthesized by the engine: a status code and headers, with
/// no body.
pub struct Response {
    pub status: u16,
    pub headers: Headers,
}

/// The access policy. It is built once and only read afterwards.
pub struct CorsPolicy<F> {
    pub allowed_origins: OriginPolicy<F>,
    pub allowed_methods: Vec<Vec<u8>>,
    pub allowed_headers: AllowancePolicy,
    pub expose_headers: AllowancePolicy,
    pub supports_credentials: bool,
    pub max_age: Option<usize>,
    pub vary_header: bool,
    pub preflight_enabled: bool,
    pub baked_methods_value: Option<Vec<u8>>,
    pub baked_headers_value: Option<Vec<u8>>,
    pub baked_expose_value: Option<Vec<u8>>,
}

/// The value of the request's `Origin` header, if it has one.
pub open spec fn origin_of(head: &RequestHead) -> Option<Seq<u8>> {
    lookup(head.headers@, names::origin())
}

/// The precomputed header value that belongs to an allowance: the encoding
/// of a closed list, and nothing where everything is allowed.
pub open spec fn baked(allowance: &AllowancePolicy) -> Option<Seq<u8>> {
    match allowance {
        AllowancePolicy::AllowAll => None,
        AllowancePolicy::AllowList(list) => Some(spec_encode(views(list@).to_set())),
    }
}

/// The predicate of an origin policy can be called on every origin and
/// request head.
pub open spec fn predicate_total<F: Fn(&Vec<u8>, &RequestHead) -> bool>(
    origins: &OriginPolicy<F>,
) -> bool {
    match origins {
        OriginPolicy::AllowByPredicate(f) => forall|origin: &Vec<u8>, head: &RequestHead|
            call_requires(*f, (origin, head)),
        _ => true,
    }
}

/// Encodes the list of an allowance, if it has one.
fn bake(allowance: &AllowancePolicy) -> (r: Option<Vec<u8>>)
    ensures
        option_view(r) == baked(allowance),
{
    match allowance {
        AllowancePolicy::AllowAll => None,
        AllowancePolicy::AllowList(list) => Some(encode(list)),
    }
}

impl<F: Fn(&Vec<u8>, &RequestHead) -> bool> CorsPolicy<F> {
    /// The policy is well formed: a policy that answers preflights allows
    /// at least one method, each precomputed value is the encoding of the
    /// list it belongs to, and the predicate, if there is one, accepts
    /// every call.
    pub open spec fn wf(&self) -> bool {
        &&& self.preflight_enabled ==> self.allowed_methods@.len() > 0
        &&& option_view(self.baked_methods_value) == Some(
            spec_encode(views(self.allowed_methods@).to_set()),
        )
        &&& option_view(self.baked_headers_value) == baked(&self.allowed_headers)
        &&& option_view(self.baked_expose_value) == baked(&self.expose_headers)
        &&& predicate_total(&self.allowed_origins)
    }

    /// Builds a policy and precomputes its header values. A policy that
    /// answers preflights but allows no method is refused.
    pub fn new(
        allowed_origins: OriginPolicy<F>,
        allowed_methods: Vec<Vec<u8>>,
        allowed_headers: AllowancePolicy,
        expose_headers: AllowancePolicy,
        supports_credentials: bool,
        max_age: Option<usize>,
        vary_header: bool,
        preflight_enabled: bool,
    ) -> (r: Option<Self>)
        requires
            predicate_total(&allowed_origins),
        ensures
            r is None <==> preflight_enabled && allowed_methods@.len() == 0,
            match r {
                Some(policy) => {
                    &&& policy.wf()
                    &&& policy.allowed_origins == allowed_origins
                    &&& policy.allowed_methods == allowed_methods
                    &&& policy.allowed_headers == allowed_headers
                    &&& policy.expose_headers == expose_headers
                    &&& policy.supports_credentials == supports_credentials
                    &&& policy.max_age == max_age
                    &&& policy.vary_header == vary_header
                    &&& policy.preflight_enabled == preflight_enabled
                },
                None => true,
            },
    {
        if preflight_enabled && allowed_methods.len() == 0 {
            return None;
        }
        let baked_methods_value = Some(encode(&allowed_methods));
        let baked_headers_value = bake(&allowed_headers);
        let baked_expose_value = bake(&expose_headers);
        Some(
            CorsPolicy {
                allowed_origins,
                allowed_methods,
                allowed_headers,
                expose_headers,
                supports_credentials,
                max_age,
                vary_header,
                preflight_enabled,
                baked_methods_value,
                baked_headers_value,
                baked_expose_value,
            },
        )
    }
}

} // verus!
