//! The token codec: `issue` renders signed claims as `header.payload.sig`
//! with base64url parts, `verify` accepts exactly the tokens this codec
//! issues under the same secret, while their expiry lies ahead. The lemmas
//! at the end state the codec's round trip, its soundness — whatever
//! verifies is a token it issued — and its rejection of tokens signed under
//! another secret.

use crate::base64url::{
    b64_decode, b64_encode, lemma_b64_canonical, lemma_b64_encode_wf, lemma_b64_round_trip,
    spec_b64_decode, spec_b64_encode,
};
use crate::claims::{
    build_payload, lemma_payload_round_trip, lemma_payload_wf, parse_payload, spec_parse_payload,
    spec_payload, Claims,
};
use crate::crypto::{ascii_to_string, hs256_sig_of, hs256_sign, hs256_verify};
use crate::errors::VerificationError;
use vstd::prelude::*;
use vstd::utf8::{encode_utf8, is_ascii_chars};

verus! {

/// How long an issued token stays valid: three hours.
pub const TOKEN_TTL_SECONDS: u64 = 10800;

/// The bytes of `{"alg":"HS256","typ":"JWT"}`.
pub open spec fn header_bytes() -> Seq<u8> {
    seq![
        123u8, 34, 97, 108, 103, 34, 58, 34, 72, 83, 50, 53, 54, 34, 44, 34, 116, 121, 112, 34,
        58, 34, 74, 87, 84, 34, 125,
    ]
}

/// ASCII bytes read as the characters with the same codes.
pub open spec fn bytes_to_chars(s: Seq<u8>) -> Seq<char> {
    Seq::new(s.len(), |i: int| s[i] as char)
}

/// Reading ASCII bytes as characters and encoding them back is the identity.
pub proof fn lemma_bytes_to_chars_utf8(s: Seq<u8>)
    requires
        forall|i: int| 0 <= i < s.len() ==> s[i] < 128,
    ensures
        is_ascii_chars(bytes_to_chars(s)),
        encode_utf8(bytes_to_chars(s)) == s,
{
    let cs = bytes_to_chars(s);
    assert forall|i: int| 0 <= i < cs.len() implies '\0' <= #[trigger] cs[i] <= '\u{7f}' by {
        assert(cs[i] == s[i] as char);
    }
    vstd::utf8::is_ascii_chars_encode_utf8(cs);
    assert(encode_utf8(cs) =~= s);
}

/// The part of the token the signature covers: both base64url parts joined
/// by a dot.
pub open spec fn spec_signing_input(sub: u64, iat: u64, exp: u64) -> Seq<u8> {
    spec_b64_encode(header_bytes()) + seq![46u8] + spec_b64_encode(spec_payload(sub, iat, exp))
}

/// The one token this codec issues for the given claims under the secret.
pub open spec fn spec_token(sub: u64, iat: u64, exp: u64, secret: Seq<u8>) -> Seq<char> {
    bytes_to_chars(spec_signing_input(sub, iat, exp)) + seq!['.'] + hs256_sig_of(
        secret,
        spec_signing_input(sub, iat, exp),
    )
}

/// The first dot at or after `from`.
pub open spec fn spec_find_dot(t: Seq<char>, from: int) -> Option<int>
    decreases t.len() - from
    when 0 <= from <= t.len()
{
    if from >= t.len() {
        None
    } else if t[from] == '.' {
        Some(from)
    } else {
        spec_find_dot(t, from + 1)
    }
}

/// What verification answers for any presented string: the claims when the
/// string is a token this codec issued under `secret` whose expiry lies
/// beyond `now`; otherwise which check failed first. The signature is judged
/// before the shape of header and payload, the expiry last.
pub open spec fn spec_verify(t: Seq<char>, secret: Seq<u8>, now: u64) -> Result<
    Claims,
    VerificationError,
> {
    match spec_find_dot(t, 0) {
        Option::None => Result::Err(VerificationError::Malformed),
        Option::Some(i) => match spec_find_dot(t, i + 1) {
            Option::None => Result::Err(VerificationError::Malformed),
            Option::Some(j) => {
                let msg = t.subrange(0, j);
                let sig = t.skip(j + 1);
                if sig != hs256_sig_of(secret, encode_utf8(msg)) {
                    Result::Err(VerificationError::BadSignature)
                } else {
                    let h = t.subrange(0, i);
                    let p = t.subrange(i + 1, j);
                    if !(is_ascii_chars(h) && encode_utf8(h) == spec_b64_encode(header_bytes())) {
                        Result::Err(VerificationError::Malformed)
                    } else if !is_ascii_chars(p) {
                        Result::Err(VerificationError::Malformed)
                    } else {
                        match spec_b64_decode(encode_utf8(p)) {
                            Option::None => Result::Err(VerificationError::Malformed),
                            Option::Some(pl) => match spec_parse_payload(pl) {
                                Option::None => Result::Err(VerificationError::Malformed),
                                Option::Some(c) => if now < c.exp {
                                    Result::Ok(c)
                                } else {
                                    Result::Err(VerificationError::Expired)
                                },
                            },
                        }
                    }
                }
            },
        },
    }
}

fn build_header() -> (out: Vec<u8>)
    ensures
        out@ == header_bytes(),
{
    let mut out: Vec<u8> = Vec::new();
    out.push(123);
    out.push(34);
    out.push(97);
    out.push(108);
    out.push(103);
    out.push(34);
    out.push(58);
    out.push(34);
    out.push(72);
    out.push(83);
    out.push(50);
    out.push(53);
    out.push(54);
    out.push(34);
    out.push(44);
    out.push(34);
    out.push(116);
    out.push(121);
    out.push(112);
    out.push(34);
    out.push(58);
    out.push(34);
    out.push(74);
    out.push(87);
    out.push(84);
    out.push(34);
    out.push(125);
    proof {
        assert(out@ =~= header_bytes());
    }
    out
}

/// Issues the token for subject `user_id` at time `now`: claims
/// `{subject: user_id, issuedAt: now, expiresAt: now + TOKEN_TTL_SECONDS}`,
/// signed under `secret`.
pub fn issue(user_id: u64, now: u64, secret: &[u8]) -> (t: String)
    requires
        now + TOKEN_TTL_SECONDS <= u64::MAX,
    ensures
        t@ == spec_token(user_id, now, (now + TOKEN_TTL_SECONDS) as u64, secret@),
{
    let exp = now + TOKEN_TTL_SECONDS;
    let hdr = build_header();
    let pl = build_payload(user_id, now, exp);
    proof {
        lemma_b64_encode_wf(header_bytes());
        lemma_payload_wf(user_id, now, exp);
        lemma_b64_encode_wf(spec_payload(user_id, now, exp));
    }
    let h64 = b64_encode(hdr.as_slice());
    let p64 = b64_encode(pl.as_slice());
    let mut msg = h64;
    msg.push(46);
    let mut tail = p64;
    msg.append(&mut tail);
    proof {
        assert(msg@ =~= spec_signing_input(user_id, now, exp as u64));
    }
    let sig = hs256_sign(secret, msg.as_slice());
    let ghost si = msg@;
    let body = ascii_to_string(msg);
    let dotted = body.concat(".");
    let t = dotted.concat(sig.as_str());
    proof {
        reveal_strlit(".");
        assert(body@ =~= bytes_to_chars(si));
        assert("."@ =~= seq!['.']);
        assert(t@ =~= spec_token(user_id, now, (now + TOKEN_TTL_SECONDS) as u64, secret@));
    }
    t
}

/// Issues the session token the login path hands out for a user: [`issue`]
/// on the user's identifier.
pub fn generate_token(user: &crate::models::User, now: u64, secret: &[u8]) -> (t: String)
    requires
        now + TOKEN_TTL_SECONDS <= u64::MAX,
    ensures
        t@ == spec_token(user.id, now, (now + TOKEN_TTL_SECONDS) as u64, secret@),
{
    issue(user.id, now, secret)
}

fn find_dot(t: &str, from: usize, n: usize) -> (r: Option<usize>)
    requires
        n == t@.len(),
        from <= n,
    ensures
        match r {
            Some(k) => spec_find_dot(t@, from as int) == Some(k as int) && from <= k < n,
            None => spec_find_dot(t@, from as int) is None,
        },
{
    let mut i = from;
    while i < n
        invariant
            from <= i <= n == t@.len(),
            spec_find_dot(t@, from as int) == spec_find_dot(t@, i as int),
        decreases n - i,
    {
        let c = t.get_char(i);
        if c == '.' {
            return Some(i);
        }
        i += 1;
    }
    None
}

/// Checks a presented string against the codec and the clock: the claims
/// when it is an unexpired token of this codec under `secret`, otherwise the
/// first failed check, exactly as [`spec_verify`] lays it out.
pub fn verify(token: &str, now: u64, secret: &[u8]) -> (r: Result<Claims, VerificationError>)
    ensures
        r == spec_verify(token@, secret@, now),
{
    let n = token.unicode_len();
    let i = match find_dot(token, 0, n) {
        Some(i) => i,
        None => {
            return Err(VerificationError::Malformed);
        },
    };
    let j = match find_dot(token, i + 1, n) {
        Some(j) => j,
        None => {
            return Err(VerificationError::Malformed);
        },
    };
    let msg_str = token.substring_char(0, j);
    let sig_str = token.substring_char(j + 1, n);
    let msg_bytes: &[u8] = msg_str.as_bytes();
    proof {
        assert(sig_str@ =~= token@.skip(j + 1));
        assert(msg_str@ =~= token@.subrange(0, j as int));
    }
    if !hs256_verify(sig_str, msg_bytes, secret) {
        return Err(VerificationError::BadSignature);
    }
    let h_str = token.substring_char(0, i);
    proof {
        assert(h_str@ =~= token@.subrange(0, i as int));
    }
    let hdr = build_header();
    let h64 = b64_encode(hdr.as_slice());
    if !h_str.is_ascii() {
        return Err(VerificationError::Malformed);
    }
    let hb: &[u8] = h_str.as_bytes();
    if !crate::claims::bytes_eq(hb, h64.as_slice()) {
        return Err(VerificationError::Malformed);
    }
    let p_str = token.substring_char(i + 1, j);
    proof {
        assert(p_str@ =~= token@.subrange(i + 1, j as int));
    }
    if !p_str.is_ascii() {
        return Err(VerificationError::Malformed);
    }
    let pb: &[u8] = p_str.as_bytes();
    let pl = match b64_decode(pb) {
        Some(v) => v,
        None => {
            return Err(VerificationError::Malformed);
        },
    };
    let c = match parse_payload(pl.as_slice()) {
        Some(c) => c,
        None => {
            return Err(VerificationError::Malformed);
        },
    };
    if now < c.exp {
        Ok(c)
    } else {
        Err(VerificationError::Expired)
    }
}

proof fn lemma_find_dot_at(t: Seq<char>, from: int, k: int)
    requires
        0 <= from <= k < t.len(),
        t[k] == '.',
        forall|m: int| from <= m < k ==> t[m] != '.',
    ensures
        spec_find_dot(t, from) == Some(k),
    decreases k - from,
{
    if from < k {
        lemma_find_dot_at(t, from + 1, k);
    }
}

proof fn lemma_find_dot_some(t: Seq<char>, from: int)
    requires
        0 <= from <= t.len(),
        spec_find_dot(t, from) is Some,
    ensures
        from <= spec_find_dot(t, from).unwrap() < t.len(),
        t[spec_find_dot(t, from).unwrap()] == '.',
    decreases t.len() - from,
{
    if from < t.len() && t[from] != '.' {
        lemma_find_dot_some(t, from + 1);
    }
}

/// The split every canonical token has: its two dots stand exactly where the
/// codec put them, whatever the signature part holds.
proof fn lemma_token_split(sub: u64, iat: u64, exp: u64, secret: Seq<u8>)
    ensures
        ({
            let si = spec_signing_input(sub, iat, exp);
            let t = spec_token(sub, iat, exp, secret);
            &&& si.len() == 157
            &&& forall|k: int| 0 <= k < si.len() ==> #[trigger] si[k] < 128
            &&& spec_find_dot(t, 0) == Some(36int)
            &&& spec_find_dot(t, 37) == Some(157int)
            &&& t.subrange(0, 157) == bytes_to_chars(si)
            &&& t.skip(158) == hs256_sig_of(secret, si)
            &&& t.subrange(0, 36) == bytes_to_chars(spec_b64_encode(header_bytes()))
            &&& t.subrange(37, 157) == bytes_to_chars(
                spec_b64_encode(spec_payload(sub, iat, exp)),
            )
        }),
{
    let h64 = spec_b64_encode(header_bytes());
    let p64 = spec_b64_encode(spec_payload(sub, iat, exp));
    let si = spec_signing_input(sub, iat, exp);
    let t = spec_token(sub, iat, exp, secret);
    lemma_b64_encode_wf(header_bytes());
    lemma_payload_wf(sub, iat, exp);
    lemma_b64_encode_wf(spec_payload(sub, iat, exp));
    assert(h64.len() == 36 && p64.len() == 120 && si.len() == 157);
    assert(forall|k: int| 0 <= k < 36 ==> #[trigger] si[k] == h64[k]);
    assert(si[36] == 46);
    assert(forall|k: int| 37 <= k < 157 ==> #[trigger] si[k] == p64[k - 37]);
    assert(forall|k: int| 0 <= k < si.len() ==> #[trigger] si[k] < 128);
    assert(forall|k: int| 0 <= k < 157 ==> #[trigger] t[k] == (si[k] as char));
    assert forall|k: int| 0 <= k < 36 implies #[trigger] t[k] != '.' by {
        assert(si[k] == h64[k] && h64[k] != 46 && h64[k] < 128);
    }
    assert(t[36] == '.');
    lemma_find_dot_at(t, 0, 36);
    assert forall|k: int| 37 <= k < 157 implies #[trigger] t[k] != '.' by {
        assert(si[k] == p64[k - 37] && p64[k - 37] != 46 && p64[k - 37] < 128);
    }
    assert(t[157] == '.');
    lemma_find_dot_at(t, 37, 157);
    assert(t.subrange(0, 157) =~= bytes_to_chars(si));
    assert(t.skip(158) =~= hs256_sig_of(secret, si));
    assert(t.subrange(0, 36) =~= bytes_to_chars(h64));
    assert(t.subrange(37, 157) =~= bytes_to_chars(p64));
}

/// Issuing then verifying under one secret: while the expiry lies ahead the
/// very claims come back, and from the expiry on the answer is `Expired`.
#[verifier::rlimit(100)]
pub proof fn lemma_issue_then_verify(sub: u64, now: u64, at: u64, secret: Seq<u8>)
    requires
        now + TOKEN_TTL_SECONDS <= u64::MAX,
    ensures
        at < now + TOKEN_TTL_SECONDS ==> spec_verify(
            spec_token(sub, now, (now + TOKEN_TTL_SECONDS) as u64, secret),
            secret,
            at,
        ) == Result::<Claims, VerificationError>::Ok(
            Claims { sub, iat: now, exp: (now + TOKEN_TTL_SECONDS) as u64 },
        ),
        at >= now + TOKEN_TTL_SECONDS ==> spec_verify(
            spec_token(sub, now, (now + TOKEN_TTL_SECONDS) as u64, secret),
            secret,
            at,
        ) == Result::<Claims, VerificationError>::Err(VerificationError::Expired),
{
    let exp = (now + TOKEN_TTL_SECONDS) as u64;
    let si = spec_signing_input(sub, now, exp);
    let t = spec_token(sub, now, exp, secret);
    lemma_token_split(sub, now, exp, secret);
    lemma_bytes_to_chars_utf8(si);
    let msg = t.subrange(0, 157);
    assert(encode_utf8(msg) == si);
    assert(t.skip(158) == hs256_sig_of(secret, encode_utf8(msg)));
    let h = t.subrange(0, 36);
    let h64 = spec_b64_encode(header_bytes());
    lemma_b64_encode_wf(header_bytes());
    assert forall|k: int| 0 <= k < h64.len() implies #[trigger] h64[k] < 128 by {}
    lemma_bytes_to_chars_utf8(h64);
    assert(is_ascii_chars(h) && encode_utf8(h) == h64);
    let p = t.subrange(37, 157);
    let pl = spec_payload(sub, now, exp);
    let p64 = spec_b64_encode(pl);
    lemma_payload_wf(sub, now, exp);
    lemma_b64_encode_wf(pl);
    lemma_bytes_to_chars_utf8(p64);
    assert(is_ascii_chars(p) && encode_utf8(p) == p64);
    lemma_b64_round_trip(pl);
    assert(spec_b64_decode(encode_utf8(p)) == Some(pl));
    lemma_payload_round_trip(sub, now, exp);
    assert(spec_parse_payload(pl) == Some(Claims { sub, iat: now, exp }));
}

/// Verification is sound: a string that verifies to claims under a secret
/// is the very token this codec issues for those claims under that secret,
/// with its expiry beyond the clock. With [`lemma_issue_then_verify`] this
/// characterises `verify` completely: it accepts the codec's own unexpired
/// tokens and nothing else.
#[verifier::rlimit(100)]
pub proof fn lemma_verify_accepts_only_issued(t: Seq<char>, secret: Seq<u8>, now: u64, c: Claims)
    requires
        spec_verify(t, secret, now) == Result::<Claims, VerificationError>::Ok(c),
    ensures
        t == spec_token(c.sub, c.iat, c.exp, secret),
        now < c.exp,
{
    lemma_find_dot_some(t, 0);
    let i = spec_find_dot(t, 0).unwrap();
    lemma_find_dot_some(t, i + 1);
    let j = spec_find_dot(t, i + 1).unwrap();
    let msg = t.subrange(0, j);
    let sig = t.skip(j + 1);
    let h = t.subrange(0, i);
    let p = t.subrange(i + 1, j);
    assert(sig == hs256_sig_of(secret, encode_utf8(msg)));
    assert(is_ascii_chars(h) && encode_utf8(h) == spec_b64_encode(header_bytes()));
    assert(is_ascii_chars(p));
    let pb = encode_utf8(p);
    assert(spec_b64_decode(pb) is Some);
    let pl = spec_b64_decode(pb).unwrap();
    assert(spec_parse_payload(pl) == Some(c) && now < c.exp);
    crate::claims::lemma_payload_canonical(pl);
    assert(pl == spec_payload(c.sub, c.iat, c.exp));
    lemma_b64_canonical(pb);
    assert(spec_b64_encode(pl) == pb);
    let h64 = spec_b64_encode(header_bytes());
    let p64 = spec_b64_encode(spec_payload(c.sub, c.iat, c.exp));
    lemma_b64_encode_wf(header_bytes());
    crate::claims::lemma_payload_wf(c.sub, c.iat, c.exp);
    lemma_b64_encode_wf(spec_payload(c.sub, c.iat, c.exp));
    vstd::utf8::is_ascii_chars_encode_utf8(h);
    vstd::utf8::is_ascii_chars_encode_utf8(p);
    assert(h.len() == 36 && p.len() == 120);
    assert(i == 36 && j == 157);
    assert(h =~= bytes_to_chars(h64)) by {
        assert forall|k: int| 0 <= k < 36 implies h[k] == (h64[k] as char) by {
            assert(h[k] as u8 == encode_utf8(h)[k]);
            assert((h[k] as u8) as char == h[k]);
        }
    }
    assert(p =~= bytes_to_chars(p64)) by {
        assert forall|k: int| 0 <= k < 120 implies p[k] == (p64[k] as char) by {
            assert(p[k] as u8 == encode_utf8(p)[k]);
            assert((p[k] as u8) as char == p[k]);
        }
    }
    let si = spec_signing_input(c.sub, c.iat, c.exp);
    assert(si.len() == 157);
    assert(msg =~= bytes_to_chars(si)) by {
        assert(t[36] == '.' && ('.' as u8) == 46);
        assert forall|k: int| 0 <= k < 157 implies msg[k] == (si[k] as char) by {
            if k < 36 {
                assert(msg[k] == h[k] && si[k] == h64[k]);
            } else if k == 36 {
                assert(msg[k] == '.' && si[k] == 46);
            } else {
                assert(msg[k] == p[k - 37] && si[k] == p64[k - 37]);
            }
        }
    }
    lemma_bytes_to_chars_utf8(si);
    assert(encode_utf8(msg) == si);
    assert(t =~= spec_token(c.sub, c.iat, c.exp, secret)) by {
        assert(t.len() == 158 + sig.len());
        assert forall|k: int| 0 <= k < t.len() implies t[k] == spec_token(
            c.sub,
            c.iat,
            c.exp,
            secret,
        )[k] by {
            if k < 157 {
                assert(t[k] == msg[k]);
            } else if k == 157 {
                assert(t[k] == '.');
            } else {
                assert(t[k] == sig[k - 158]);
            }
        }
    }
}

/// A token issued under one secret never verifies under a second whose
/// signature for the same signing input differs; it fails as `BadSignature`.
/// (Two secrets whose HMAC tags collide on that input are the one exception,
/// and no pair with that property is known.)
pub proof fn lemma_other_secret_rejected(
    sub: u64,
    iat: u64,
    exp: u64,
    issuing: Seq<u8>,
    verifying: Seq<u8>,
    at: u64,
)
    requires
        hs256_sig_of(issuing, spec_signing_input(sub, iat, exp)) != hs256_sig_of(
            verifying,
            spec_signing_input(sub, iat, exp),
        ),
    ensures
        spec_verify(spec_token(sub, iat, exp, issuing), verifying, at) == Result::<
            Claims,
            VerificationError,
        >::Err(VerificationError::BadSignature),
{
    let si = spec_signing_input(sub, iat, exp);
    let t = spec_token(sub, iat, exp, issuing);
    lemma_token_split(sub, iat, exp, issuing);
    lemma_bytes_to_chars_utf8(si);
    let msg = t.subrange(0, 157);
    assert(encode_utf8(msg) == si);
    assert(t.skip(158) == hs256_sig_of(issuing, si));
}

} // verus!
