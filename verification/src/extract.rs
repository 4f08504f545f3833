//! The credential extractor: pulls the raw token string out of what the
//! request carried, under one configured transport. Absence of the header or
//! cookie is a normal `None`, never a fault.

use vstd::prelude::*;
use vstd::string::StrSliceExecFns;

verus! {

/// Which transport the deployment uses; one is configured, never both.
#[derive(Clone, Copy, Debug, PartialEq, Eq, Structural)]
pub enum TokenTransport {
    /// An `Authorization: Token <value>` header.
    AuthorizationHeader,
    /// A cookie named `token`, its value handed in verbatim.
    SessionCookie,
}

/// The scheme prefix of the authorization header: `Token `.
pub open spec fn spec_token_prefix() -> Seq<char> {
    seq!['T', 'o', 'k', 'e', 'n', ' ']
}

/// What the extractor answers: under the header transport, the rest of an
/// authorization value that starts with `Token `; under the cookie
/// transport, the cookie's value; `None` when the carrier is absent or the
/// scheme does not match.
pub open spec fn spec_extract(
    strategy: TokenTransport,
    authorization: Option<&str>,
    cookie_token: Option<&str>,
) -> Option<Seq<char>> {
    match strategy {
        TokenTransport::AuthorizationHeader => match authorization {
            Option::None => Option::None,
            Option::Some(v) => if v@.len() >= 6 && v@.subrange(0, 6) == spec_token_prefix() {
                Option::Some(v@.skip(6))
            } else {
                Option::None
            },
        },
        TokenTransport::SessionCookie => match cookie_token {
            Option::None => Option::None,
            Option::Some(c) => Option::Some(c@),
        },
    }
}

/// Extracts the raw token string, exactly as [`spec_extract`] lays it out.
pub fn extract_token(
    strategy: TokenTransport,
    authorization: Option<&str>,
    cookie_token: Option<&str>,
) -> (r: Option<String>)
    ensures
        match r {
            Some(t) => spec_extract(strategy, authorization, cookie_token) == Some(t@),
            None => spec_extract(strategy, authorization, cookie_token) is None,
        },
{
    match strategy {
        TokenTransport::AuthorizationHeader => match authorization {
            None => None,
            Some(v) => {
                let n = v.unicode_len();
                if n < 6 {
                    return None;
                }
                let ok = v.get_char(0) == 'T' && v.get_char(1) == 'o' && v.get_char(2) == 'k'
                    && v.get_char(3) == 'e' && v.get_char(4) == 'n' && v.get_char(5) == ' ';
                if !ok {
                    proof {
                        assert(v@.subrange(0, 6) != spec_token_prefix()) by {
                            if v@.subrange(0, 6) == spec_token_prefix() {
                                assert(v@[0] == v@.subrange(0, 6)[0]);
                                assert(v@[1] == v@.subrange(0, 6)[1]);
                                assert(v@[2] == v@.subrange(0, 6)[2]);
                                assert(v@[3] == v@.subrange(0, 6)[3]);
                                assert(v@[4] == v@.subrange(0, 6)[4]);
                                assert(v@[5] == v@.subrange(0, 6)[5]);
                            }
                        }
                    }
                    return None;
                }
                proof {
                    assert(v@.subrange(0, 6) =~= spec_token_prefix());
                }
                let rest = v.substring_char(6, n);
                proof {
                    assert(rest@ =~= v@.skip(6));
                }
                Some(rest.to_owned())
            },
        },
        TokenTransport::SessionCookie => match cookie_token {
            None => None,
            Some(c) => Some(c.to_owned()),
        },
    }
}

} // verus!
