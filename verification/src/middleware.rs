//! The request-interception layer: it answers preflight requests itself,
//! turns away requests whose origin is not allowed, and adds the CORS
//! headers to the responses of the requests it lets through.

use crate::ascii::{bytes_eq, copy};
use crate::codec::{encode, spec_encode, views};
use crate::headers::{lookup, option_view, put, Headers};
use crate::names;
use crate::policy::{
    origin_of,
    AllowancePolicy,
    CorsPolicy,
    OriginPolicy,
    RejectionKind,
    RequestHead,
    Response,
    ValidationOutcome,
};
use std::rc::Rc;
use vstd::prelude::*;

verus! {

/// The decimal digits of `n`, as ASCII bytes.
pub open spec fn decimal(n: nat) -> Seq<u8>
    decreases n,
{
    if n < 10 {
        seq![(48 + n) as u8]
    } else {
        decimal(n / 10).push((48 + n % 10) as u8)
    }
}

/// Writes `n` in decimal digits.
pub fn decimal_bytes(n: usize) -> (r: Vec<u8>)
    ensures
        r@ == decimal(n as nat),
    decreases n,
{
    if n < 10 {
        let mut r: Vec<u8> = Vec::new();
        r.push(48u8 + (n as u8));
        assert(r@ =~= decimal(n as nat));
        r
    } else {
        let mut r = decimal_bytes(n / 10);
        r.push(48u8 + ((n % 10) as u8));
        r
    }
}

/// The header map `h` with `value` under `name` where there is a value,
/// and `h` itself where there is none.
pub open spec fn put_if(h: Map<Seq<u8>, Seq<u8>>, name: Seq<u8>, value: Option<Seq<u8>>) -> Map<
    Seq<u8>,
    Seq<u8>,
> {
    match value {
        Some(v) => put(h, name, v),
        None => h,
    }
}

/// The value that `flag` puts under the credentials header.
pub open spec fn credentials_value(flag: bool) -> Option<Seq<u8>> {
    if flag {
        Some(names::truth())
    } else {
        None
    }
}

/// The value of the `Vary` header once `Origin` is added to what the
/// header map `h` holds under it.
pub open spec fn vary_value(h: Map<Seq<u8>, Seq<u8>>) -> Seq<u8> {
    match lookup(h, names::vary()) {
        Some(v) => v + names::vary_suffix(),
        None => names::origin(),
    }
}

/// What the layer does with a request.
pub enum Dispatch {
    /// The request was a preflight and is answered with this response; the
    /// downstream handler is not called.
    Respond(Response),
    /// The request is turned away for this reason; the downstream handler
    /// is not called, and the host renders the rejection.
    Reject(RejectionKind),
    /// The request goes to the downstream handler. Its response gets the
    /// CORS headers exactly if `augment` is set.
    Forward { augment: bool },
}

/// The interception layer around a downstream service.
pub struct CorsMiddleware<S, F> {
    pub service: S,
    pub inner: Rc<CorsPolicy<F>>,
}

impl<S, F: Fn(&Vec<u8>, &RequestHead) -> bool> CorsMiddleware<S, F> {
    /// The value of `Access-Control-Allow-Headers` in the answer to a
    /// preflight: the precomputed value of a closed list, else what the
    /// request asked for.
    pub open spec fn preflight_allow_headers(
        inner: &CorsPolicy<F>,
        head: &RequestHead,
    ) -> Option<Seq<u8>> {
        match inner.baked_headers_value {
            Some(v) => Some(v@),
            None => lookup(head.headers@, names::request_headers()),
        }
    }

    /// The headers of the answer to an accepted preflight request.
    pub open spec fn preflight_headers(inner: &CorsPolicy<F>, head: &RequestHead) -> Map<
        Seq<u8>,
        Seq<u8>,
    > {
        let h0 = Map::<Seq<u8>, Seq<u8>>::empty();
        let h1 = put_if(h0, names::allow_origin(), inner.resolved_origin(head));
        let h2 = put_if(h1, names::allow_methods(), option_view(inner.baked_methods_value));
        let h3 = put_if(h2, names::allow_headers(), Self::preflight_allow_headers(inner, head));
        let h4 = put_if(
            h3,
            names::allow_credentials(),
            credentials_value(inner.supports_credentials),
        );
        put_if(
            h4,
            names::max_age(),
            match inner.max_age {
                Some(n) => Some(decimal(n as nat)),
                None => None,
            },
        )
    }

    /// `r` is a result that a preflight request with `head` may have: the
    /// first of the origin, method and header checks that fails gives the
    /// rejection; where none fails, the answer has status 200 and the
    /// preflight headers.
    pub open spec fn preflight_result(
        inner: &CorsPolicy<F>,
        head: &RequestHead,
        r: Result<Response, RejectionKind>,
    ) -> bool {
        match r {
            Err(kind) => {
                ||| kind == RejectionKind::OriginNotAllowed && inner.origin_verdict(
                    head,
                    ValidationOutcome::Rejected(kind),
                )
                ||| {
                    &&& inner.origin_verdict(head, ValidationOutcome::Allowed)
                    &&& inner.method_verdict(head) == ValidationOutcome::Rejected(kind)
                }
                ||| {
                    &&& inner.origin_verdict(head, ValidationOutcome::Allowed)
                    &&& inner.method_verdict(head) == ValidationOutcome::Allowed
                    &&& inner.headers_verdict(head) == ValidationOutcome::Rejected(kind)
                }
            },
            Ok(response) => {
                &&& inner.origin_verdict(head, ValidationOutcome::Allowed)
                &&& inner.method_verdict(head) == ValidationOutcome::Allowed
                &&& inner.headers_verdict(head) == ValidationOutcome::Allowed
                &&& response.status == 200
                &&& response.headers@ == Self::preflight_headers(inner, head)
            },
        }
    }

    /// The value of `Access-Control-Expose-Headers` on a response whose
    /// handler set the headers `res`: the precomputed value of a closed
    /// list; else, where every header is exposed and the handler set at
    /// least one, the encoding of the names it set.
    pub open spec fn exposed(inner: &CorsPolicy<F>, res: Map<Seq<u8>, Seq<u8>>) -> Option<
        Seq<u8>,
    > {
        match inner.baked_expose_value {
            Some(v) => Some(v@),
            None => if inner.expose_headers is AllowAll && res != Map::<
                Seq<u8>,
                Seq<u8>,
            >::empty() {
                Some(spec_encode(res.dom()))
            } else {
                None
            },
        }
    }

    /// The headers `res` of a handler's response with the CORS headers
    /// added.
    pub open spec fn augmented_headers(
        inner: &CorsPolicy<F>,
        head: &RequestHead,
        res: Map<Seq<u8>, Seq<u8>>,
    ) -> Map<Seq<u8>, Seq<u8>> {
        let h1 = put_if(res, names::allow_origin(), inner.resolved_origin(head));
        let h2 = put_if(h1, names::expose_headers(), Self::exposed(inner, res));
        let h3 = put_if(
            h2,
            names::allow_credentials(),
            credentials_value(inner.supports_credentials),
        );
        if inner.vary_header {
            put(h3, names::vary(), vary_value(h3))
        } else {
            h3
        }
    }

    /// Answers a preflight request: validates origin, method and headers
    /// in this order, and synthesizes the response where all three pass.
    pub fn handle_preflight(inner: &CorsPolicy<F>, head: &RequestHead) -> (r: Result<
        Response,
        RejectionKind,
    >)
        requires
            inner.wf(),
        ensures
            Self::preflight_result(inner, head, r),
    {
        if let ValidationOutcome::Rejected(kind) = inner.validate_origin(head) {
            return Err(kind);
        }
        if let ValidationOutcome::Rejected(kind) = inner.validate_allowed_method(head) {
            return Err(kind);
        }
        if let ValidationOutcome::Rejected(kind) = inner.validate_allowed_headers(head) {
            return Err(kind);
        }
        let mut headers = Headers::new();
        if let Some(origin) = inner.access_control_allow_origin(head) {
            headers.insert(&names::allow_origin_name(), origin);
        }
        if let Some(methods) = &inner.baked_methods_value {
            headers.insert(&names::allow_methods_name(), copy(methods));
        }
        if let Some(allowed) = &inner.baked_headers_value {
            headers.insert(&names::allow_headers_name(), copy(allowed));
        } else if let Some(asked) = head.headers.get(&names::request_headers_name()) {
            headers.insert(&names::allow_headers_name(), copy(asked));
        }
        if inner.supports_credentials {
            headers.insert(&names::allow_credentials_name(), names::truth_value());
        }
        if let Some(seconds) = inner.max_age {
            headers.insert(&names::max_age_name(), decimal_bytes(seconds));
        }
        Ok(Response { status: 200, headers })
    }

    /// Adds the CORS headers to the headers of a handler's response. The
    /// origin is not judged again.
    pub fn augment_response(inner: &CorsPolicy<F>, head: &RequestHead, res: &mut Headers)
        ensures
            final(res)@ == Self::augmented_headers(inner, head, old(res)@),
    {
        let ghost before = res@;
        let set_by_handler = if inner.baked_expose_value.is_none() {
            match &inner.expose_headers {
                AllowancePolicy::AllowAll => if res.is_empty() {
                    None
                } else {
                    Some(encode(&res.names()))
                },
                AllowancePolicy::AllowList(_) => None,
            }
        } else {
            None
        };
        if let Some(origin) = inner.access_control_allow_origin(head) {
            res.insert(&names::allow_origin_name(), origin);
        }
        let ghost h1 = put_if(before, names::allow_origin(), inner.resolved_origin(head));
        if let Some(expose) = &inner.baked_expose_value {
            res.insert(&names::expose_headers_name(), copy(expose));
        } else if let Some(expose) = set_by_handler {
            res.insert(&names::expose_headers_name(), expose);
        }
        let ghost h2 = put_if(h1, names::expose_headers(), Self::exposed(inner, before));
        assert(res@ == h2);
        if inner.supports_credentials {
            res.insert(&names::allow_credentials_name(), names::truth_value());
        }
        let ghost h3 = put_if(
            h2,
            names::allow_credentials(),
            credentials_value(inner.supports_credentials),
        );
        assert(res@ == h3);
        if inner.vary_header {
            let name = names::vary_name();
            let value = match res.get(&name) {
                Some(existing) => {
                    let mut value = copy(existing);
                    let suffix = names::vary_suffix_value();
                    value.extend_from_slice(suffix.as_slice());
                    value
                },
                None => names::origin_name(),
            };
            assert(value@ == vary_value(h3));
            res.insert(&name, value);
        }
    }

    /// `d` is a decision that the layer may take on `head`: a preflight
    /// is answered or rejected as the preflight checks say; any other
    /// request with an origin that is refused is rejected; every other
    /// request is forwarded, and its response is augmented exactly if the
    /// request has an `Origin` header.
    pub open spec fn decision(&self, head: &RequestHead, d: Dispatch) -> bool {
        if self.inner.preflight_enabled && head.method@ == names::options() {
            match d {
                Dispatch::Respond(response) => Self::preflight_result(
                    &*self.inner,
                    head,
                    Ok(response),
                ),
                Dispatch::Reject(kind) => Self::preflight_result(&*self.inner, head, Err(kind)),
                Dispatch::Forward { .. } => false,
            }
        } else {
            match d {
                Dispatch::Respond(_) => false,
                Dispatch::Reject(kind) => kind == RejectionKind::OriginNotAllowed
                    && self.inner.origin_verdict(head, ValidationOutcome::Rejected(kind)),
                Dispatch::Forward { augment } => {
                    &&& self.inner.origin_verdict(head, ValidationOutcome::Allowed)
                    &&& augment == origin_of(head).is_some()
                },
            }
        }
    }

    /// Decides what happens to a request before any handler sees it.
    pub fn call(&self, head: &RequestHead) -> (d: Dispatch)
        requires
            self.inner.wf(),
        ensures
            self.decision(head, d),
    {
        let inner: &CorsPolicy<F> = &self.inner;
        if inner.preflight_enabled && bytes_eq(
            &head.method,
            &names::options_method(),
        ) {
            match Self::handle_preflight(inner, head) {
                Ok(response) => Dispatch::Respond(response),
                Err(kind) => Dispatch::Reject(kind),
            }
        } else {
            let has_origin = head.headers.contains_key(&names::origin_name());
            if has_origin {
                if let ValidationOutcome::Rejected(kind) = inner.validate_origin(head) {
                    return Dispatch::Reject(kind);
                }
            }
            Dispatch::Forward { augment: has_origin }
        }
    }

    /// Finishes a forwarded request: the handler's response headers get
    /// the CORS headers if the request is to be augmented, and stay as
    /// they are if not.
    pub fn finish(&self, head: &RequestHead, augment: bool, res: &mut Headers)
        ensures
            final(res)@ == if augment {
                Self::augmented_headers(&*self.inner, head, old(res)@)
            } else {
                old(res)@
            },
    {
        if augment {
            Self::augment_response(&self.inner, head, res);
        }
    }

    /// Where every origin is allowed and credentials are not supported,
    /// `Access-Control-Allow-Origin` is the wildcard in the answer to every
    /// accepted preflight and on every augmented response.
    pub proof fn lemma_wildcard_without_credentials(
        inner: &CorsPolicy<F>,
        head: &RequestHead,
        res: Map<Seq<u8>, Seq<u8>>,
    )
        requires
            inner.allowed_origins is AllowAll,
            !inner.supports_credentials,
        ensures
            lookup(Self::preflight_headers(inner, head), names::allow_origin()) == Some(
                names::wildcard(),
            ),
            lookup(Self::augmented_headers(inner, head, res), names::allow_origin()) == Some(
                names::wildcard(),
            ),
    {
        names::lemma_response_names_distinct();
    }

    /// Where credentials are supported, or the origins are a list or a
    /// predicate, `Access-Control-Allow-Origin` repeats the request's own
    /// `Origin` value byte for byte: in the answer to an accepted
    /// preflight, which has the header exactly if the request has an
    /// origin, and on the augmented response to a request with an origin.
    /// In particular the wildcard is never sent beside the credentials
    /// header unless the request itself named it as its origin.
    pub proof fn lemma_origin_echoed(
        inner: &CorsPolicy<F>,
        head: &RequestHead,
        res: Map<Seq<u8>, Seq<u8>>,
    )
        requires
            inner.supports_credentials || !(inner.allowed_origins is AllowAll),
        ensures
            lookup(Self::preflight_headers(inner, head), names::allow_origin())
                == origin_of(head),
            origin_of(head) is Some ==> lookup(
                Self::augmented_headers(inner, head, res),
                names::allow_origin(),
            ) == origin_of(head),
    {
        names::lemma_response_names_distinct();
    }

    /// With a list of allowed origins, a request whose `Origin` is not on
    /// the list is rejected for its origin: by the origin check, as a
    /// preflight, and by the layer, whose rejection carries no response
    /// headers at all.
    pub proof fn lemma_unlisted_origin_rejected(
        &self,
        head: &RequestHead,
        verdict: ValidationOutcome,
        answer: Result<Response, RejectionKind>,
        d: Dispatch,
    )
        requires
            self.inner.allowed_origins matches OriginPolicy::AllowList(list)
                && origin_of(head) matches Some(origin)
                && !views(list@).contains(origin),
        ensures
            self.inner.origin_verdict(head, verdict) ==> verdict == ValidationOutcome::Rejected(
                RejectionKind::OriginNotAllowed,
            ),
            Self::preflight_result(&*self.inner, head, answer) ==> (answer matches Err(kind)
                && kind == RejectionKind::OriginNotAllowed),
            self.decision(head, d) ==> (d matches Dispatch::Reject(kind) && kind
                == RejectionKind::OriginNotAllowed),
    {
    }

    /// Two answers to the same accepted preflight request under the same
    /// policy have the same status and the same headers.
    pub proof fn lemma_preflight_idempotent(
        inner: &CorsPolicy<F>,
        head: &RequestHead,
        first: Result<Response, RejectionKind>,
        second: Result<Response, RejectionKind>,
    )
        requires
            Self::preflight_result(inner, head, first),
            Self::preflight_result(inner, head, second),
            first is Ok,
            second is Ok,
        ensures
            first->Ok_0.status == second->Ok_0.status,
            first->Ok_0.headers@ == second->Ok_0.headers@,
    {
    }

    /// Where the policy asks for it, the augmented response has `Origin`
    /// in its `Vary` header: appended to the value that the handler set,
    /// or alone if it set none.
    pub proof fn lemma_vary_accumulates(
        inner: &CorsPolicy<F>,
        head: &RequestHead,
        res: Map<Seq<u8>, Seq<u8>>,
    )
        requires
            inner.vary_header,
        ensures
            lookup(Self::augmented_headers(inner, head, res), names::vary()) == Some(
                match lookup(res, names::vary()) {
                    Some(v) => v + names::vary_suffix(),
                    None => names::origin(),
                },
            ),
    {
        names::lemma_response_names_distinct();
    }
}

} // verus!
