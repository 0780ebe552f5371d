//! The header names and fixed values of the CORS wire contract.

use crate::ascii::{ascii, bytes_of, lower};
use vstd::prelude::*;

verus! {

/// The request header `Origin`.
pub open spec fn origin() -> Seq<u8> {
    ascii("Origin"@)
}

/// The request header `Access-Control-Request-Method`.
pub open spec fn request_method() -> Seq<u8> {
    ascii("Access-Control-Request-Method"@)
}

/// The request header `Access-Control-Request-Headers`.
pub open spec fn request_headers() -> Seq<u8> {
    ascii("Access-Control-Request-Headers"@)
}

/// The response header `Access-Control-Allow-Origin`.
pub open spec fn allow_origin() -> Seq<u8> {
    ascii("Access-Control-Allow-Origin"@)
}

/// The response header `Access-Control-Allow-Methods`.
pub open spec fn allow_methods() -> Seq<u8> {
    ascii("Access-Control-Allow-Methods"@)
}

/// The response header `Access-Control-Allow-Headers`.
pub open spec fn allow_headers() -> Seq<u8> {
    ascii("Access-Control-Allow-Headers"@)
}

/// The response header `Access-Control-Allow-Credentials`.
pub open spec fn allow_credentials() -> Seq<u8> {
    ascii("Access-Control-Allow-Credentials"@)
}

/// The response header `Access-Control-Max-Age`.
pub open spec fn max_age() -> Seq<u8> {
    ascii("Access-Control-Max-Age"@)
}

/// The response header `Access-Control-Expose-Headers`.
pub open spec fn expose_headers() -> Seq<u8> {
    ascii("Access-Control-Expose-Headers"@)
}

/// The response header `Vary`.
pub open spec fn vary() -> Seq<u8> {
    ascii("Vary"@)
}

/// The method of a preflight request, `OPTIONS`.
pub open spec fn options() -> Seq<u8> {
    ascii("OPTIONS"@)
}

/// The wildcard origin, `*`.
pub open spec fn wildcard() -> Seq<u8> {
    ascii("*"@)
}

/// The value of the credentials header, `true`.
pub open spec fn truth() -> Seq<u8> {
    ascii("true"@)
}

/// What is appended to an existing `Vary` value: `, Origin`.
pub open spec fn vary_suffix() -> Seq<u8> {
    ascii(", Origin"@)
}

/// The bytes of `Origin`.
pub fn origin_name() -> (r: Vec<u8>)
    ensures
        r@ == origin(),
{
    proof {
        reveal_strlit("Origin");
    }
    bytes_of("Origin")
}

/// The bytes of `Access-Control-Request-Method`.
pub fn request_method_name() -> (r: Vec<u8>)
    ensures
        r@ == request_method(),
{
    proof {
        reveal_strlit("Access-Control-Request-Method");
    }
    bytes_of("Access-Control-Request-Method")
}

/// The bytes of `Access-Control-Request-Headers`.
pub fn request_headers_name() -> (r: Vec<u8>)
    ensures
        r@ == request_headers(),
{
    proof {
        reveal_strlit("Access-Control-Request-Headers");
    }
    bytes_of("Access-Control-Request-Headers")
}

/// The bytes of `Access-Control-Allow-Origin`.
pub fn allow_origin_name() -> (r: Vec<u8>)
    ensures
        r@ == allow_origin(),
{
    proof {
        reveal_strlit("Access-Control-Allow-Origin");
    }
    bytes_of("Access-Control-Allow-Origin")
}

/// The bytes of `Access-Control-Allow-Methods`.
pub fn allow_methods_name() -> (r: Vec<u8>)
    ensures
        r@ == allow_methods(),
{
    proof {
        reveal_strlit("Access-Control-Allow-Methods");
    }
    bytes_of("Access-Control-Allow-Methods")
}

/// The bytes of `Access-Control-Allow-Headers`.
pub fn allow_headers_name() -> (r: Vec<u8>)
    ensures
        r@ == allow_headers(),
{
    proof {
        reveal_strlit("Access-Control-Allow-Headers");
    }
    bytes_of("Access-Control-Allow-Headers")
}

/// The bytes of `Access-Control-Allow-Credentials`.
pub fn allow_credentials_name() -> (r: Vec<u8>)
    ensures
        r@ == allow_credentials(),
{
    proof {
        reveal_strlit("Access-Control-Allow-Credentials");
    }
    bytes_of("Access-Control-Allow-Credentials")
}

/// The bytes of `Access-Control-Max-Age`.
pub fn max_age_name() -> (r: Vec<u8>)
    ensures
        r@ == max_age(),
{
    proof {
        reveal_strlit("Access-Control-Max-Age");
    }
    bytes_of("Access-Control-Max-Age")
}

/// The bytes of `Access-Control-Expose-Headers`.
pub fn expose_headers_name() -> (r: Vec<u8>)
    ensures
        r@ == expose_headers(),
{
    proof {
        reveal_strlit("Access-Control-Expose-Headers");
    }
    bytes_of("Access-Control-Expose-Headers")
}

/// The bytes of `Vary`.
pub fn vary_name() -> (r: Vec<u8>)
    ensures
        r@ == vary(),
{
    proof {
        reveal_strlit("Vary");
    }
    bytes_of("Vary")
}

/// The bytes of `OPTIONS`.
pub fn options_method() -> (r: Vec<u8>)
    ensures
        r@ == options(),
{
    proof {
        reveal_strlit("OPTIONS");
    }
    bytes_of("OPTIONS")
}

/// The bytes of `*`.
pub fn wildcard_value() -> (r: Vec<u8>)
    ensures
        r@ == wildcard(),
{
    proof {
        reveal_strlit("*");
    }
    bytes_of("*")
}

/// The bytes of `true`.
pub fn truth_value() -> (r: Vec<u8>)
    ensures
        r@ == truth(),
{
    proof {
        reveal_strlit("true");
    }
    bytes_of("true")
}

/// The bytes of `, Origin`.
pub fn vary_suffix_value() -> (r: Vec<u8>)
    ensures
        r@ == vary_suffix(),
{
    proof {
        reveal_strlit(", Origin");
    }
    bytes_of(", Origin")
}

/// The name of `Access-Control-Allow-Origin` differs from that of every
/// other response header that the engine sets, and so does the name of
/// `Vary`, whatever the case of their letters.
pub proof fn lemma_response_names_distinct()
    ensures
        lower(allow_origin()) != lower(allow_methods()),
        lower(allow_origin()) != lower(allow_headers()),
        lower(allow_origin()) != lower(allow_credentials()),
        lower(allow_origin()) != lower(max_age()),
        lower(allow_origin()) != lower(expose_headers()),
        lower(allow_origin()) != lower(vary()),
        lower(vary()) != lower(expose_headers()),
        lower(vary()) != lower(allow_credentials()),
{
    reveal_strlit("Access-Control-Allow-Origin");
    reveal_strlit("Access-Control-Allow-Methods");
    reveal_strlit("Access-Control-Allow-Headers");
    reveal_strlit("Access-Control-Allow-Credentials");
    reveal_strlit("Access-Control-Max-Age");
    reveal_strlit("Access-Control-Expose-Headers");
    reveal_strlit("Vary");
    assert(lower(allow_origin()).len() == 27);
    assert(lower(allow_methods()).len() == 28);
    assert(lower(allow_headers()).len() == 28);
    assert(lower(allow_credentials()).len() == 32);
    assert(lower(max_age()).len() == 22);
    assert(lower(expose_headers()).len() == 29);
    assert(lower(vary()).len() == 4);
}

} // verus!
