//! Optional API-key authentication.
use vstd::prelude::*;

use crate::text::{chars_of, chars_eq, concat};

verus! {

/// The `Authorization` header value that a configured API key demands:
/// `Bearer <key>`; none when no key, or an empty one, is configured.
pub open spec fn expected_header_spec(api_key: Option<Seq<char>>) -> Option<Seq<char>> {
    match api_key {
        Some(k) => if k.len() > 0 {
            Some("Bearer "@ + k)
        } else {
            None
        },
        None => None,
    }
}

/// The `Authorization` header value that the configured API key demands.
pub fn expected_auth_header(api_key: Option<&str>) -> (r: Option<String>)
    ensures
        match r {
            Some(h) => expected_header_spec(match api_key {
                Some(k) => Some(k@),
                None => None,
            }) == Some(h@),
            None => expected_header_spec(match api_key {
                Some(k) => Some(k@),
                None => None,
            }) is None,
        },
{
    match api_key {
        Some(k) => {
            let kc = chars_of(k);
            if kc.len() > 0 {
                Some(concat("Bearer ", k))
            } else {
                None
            }
        },
        None => None,
    }
}

/// Whether a request is let through: always when no header is demanded,
/// otherwise exactly when its `Authorization` header equals the demanded
/// value.
pub fn is_authorized(expected: Option<&str>, provided: Option<&str>) -> (r: bool)
    ensures
        r == match expected {
            None => true,
            Some(e) => match provided {
                Some(p) => p@ == e@,
                None => false,
            },
        },
{
    match expected {
        None => true,
        Some(e) => match provided {
            Some(p) => {
                let pc = chars_of(p);
                let ec = chars_of(e);
                chars_eq(pc.as_slice(), ec.as_slice())
            },
            None => false,
        },
    }
}

/// Law: without an API key (or with an empty one) every request is let
/// through; with a key `k`, a request is let through exactly when it
/// carries the header `Bearer k`.
pub proof fn law_api_key_gate(api_key: Option<Seq<char>>, header: Option<Seq<char>>)
    ensures
        ({
            let allowed = match expected_header_spec(api_key) {
                None => true,
                Some(e) => header == Some(e),
            };
            &&& (api_key is None || api_key == Some(Seq::<char>::empty())) ==> allowed
            &&& forall|k: Seq<char>|
                api_key == Some(k) && k.len() > 0 ==> (allowed <==> header == Some(
                    "Bearer "@ + k,
                ))
        }),
{
    if let Some(k) = api_key {
        if k.len() == 0 {
            assert(k =~= Seq::<char>::empty());
        }
    }
}

} // verus!
