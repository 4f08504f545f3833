//! The claim set a session token carries, and its one rendering as a JSON
//! payload: `{ "sub":"<20 digits>","iat":"<20 digits>","exp":"<20 digits>" }`.
//! Every claim set has exactly one payload and every accepted payload one
//! claim set, so a parsed payload pins the token down.

use crate::digits::{
    all_digits, lemma_padded_digits_wf, lemma_padded_of_val, lemma_u64_fits_claim_digits,
    lemma_val_of_padded_small, parse_digits_u64, push_padded_digits, spec_digits_val,
    spec_padded_digits, CLAIM_DIGITS,
};
use vstd::prelude::*;

verus! {

/// What a session token asserts: a subject (the user id), when it was issued
/// and when it expires, both as seconds of a timeline the caller supplies.
#[derive(Clone, Copy, Debug, PartialEq, Eq, Structural)]
pub struct Claims {
    pub sub: u64,
    pub iat: u64,
    pub exp: u64,
}

/// `{ "sub":"`
pub open spec fn skel_sub() -> Seq<u8> {
    seq![123u8, 32, 34, 115, 117, 98, 34, 58, 34]
}

/// `","iat":"`
pub open spec fn skel_iat() -> Seq<u8> {
    seq![34u8, 44, 34, 105, 97, 116, 34, 58, 34]
}

/// `","exp":"`
pub open spec fn skel_exp() -> Seq<u8> {
    seq![34u8, 44, 34, 101, 120, 112, 34, 58, 34]
}

/// `" }`
pub open spec fn skel_end() -> Seq<u8> {
    seq![34u8, 32, 125]
}

pub const PAYLOAD_LEN: usize = 90;

/// The payload: three fixed-width claim values in a fixed JSON skeleton,
/// ninety bytes in all, sized to whole base64 chunks.
pub open spec fn spec_payload(sub: u64, iat: u64, exp: u64) -> Seq<u8> {
    skel_sub() + spec_padded_digits(CLAIM_DIGITS as nat, sub as nat) + skel_iat()
        + spec_padded_digits(CLAIM_DIGITS as nat, iat as nat) + skel_exp() + spec_padded_digits(
        CLAIM_DIGITS as nat,
        exp as nat,
    ) + skel_end()
}

/// What payloads the codec accepts: exactly the skeleton, three runs of
/// digits, values that fit a `u64`.
pub open spec fn spec_parse_payload(p: Seq<u8>) -> Option<Claims> {
    if p.len() == 90 && p.subrange(0, 9) == skel_sub() && p.subrange(29, 38) == skel_iat()
        && p.subrange(58, 67) == skel_exp() && p.subrange(87, 90) == skel_end() && all_digits(
        p.subrange(9, 29),
    ) && all_digits(p.subrange(38, 58)) && all_digits(p.subrange(67, 87)) && spec_digits_val(
        p.subrange(9, 29),
    ) <= u64::MAX && spec_digits_val(p.subrange(38, 58)) <= u64::MAX && spec_digits_val(
        p.subrange(67, 87),
    ) <= u64::MAX {
        Some(
            Claims {
                sub: spec_digits_val(p.subrange(9, 29)) as u64,
                iat: spec_digits_val(p.subrange(38, 58)) as u64,
                exp: spec_digits_val(p.subrange(67, 87)) as u64,
            },
        )
    } else {
        None
    }
}

/// The payload's shape: fixed length, whole chunks, ASCII throughout.
pub proof fn lemma_payload_wf(sub: u64, iat: u64, exp: u64)
    ensures
        spec_payload(sub, iat, exp).len() == 90,
        forall|i: int|
            0 <= i < 90 ==> #[trigger] spec_payload(sub, iat, exp)[i] < 128,
{
    lemma_padded_digits_wf(CLAIM_DIGITS as nat, sub as nat);
    lemma_padded_digits_wf(CLAIM_DIGITS as nat, iat as nat);
    lemma_padded_digits_wf(CLAIM_DIGITS as nat, exp as nat);
    let p = spec_payload(sub, iat, exp);
    assert forall|i: int| 0 <= i < 90 implies #[trigger] p[i] < 128 by {
        if 9 <= i < 29 {
            assert(p[i] == spec_padded_digits(CLAIM_DIGITS as nat, sub as nat)[i - 9]);
            assert(crate::digits::is_digit(p[i]));
        } else if 38 <= i < 58 {
            assert(p[i] == spec_padded_digits(CLAIM_DIGITS as nat, iat as nat)[i - 38]);
            assert(crate::digits::is_digit(p[i]));
        } else if 67 <= i < 87 {
            assert(p[i] == spec_padded_digits(CLAIM_DIGITS as nat, exp as nat)[i - 67]);
            assert(crate::digits::is_digit(p[i]));
        }
    }
}

/// Rendering then parsing gives the claims back.
pub proof fn lemma_payload_round_trip(sub: u64, iat: u64, exp: u64)
    ensures
        spec_parse_payload(spec_payload(sub, iat, exp)) == Some(Claims { sub, iat, exp }),
{
    let p = spec_payload(sub, iat, exp);
    lemma_payload_wf(sub, iat, exp);
    lemma_padded_digits_wf(CLAIM_DIGITS as nat, sub as nat);
    lemma_padded_digits_wf(CLAIM_DIGITS as nat, iat as nat);
    lemma_padded_digits_wf(CLAIM_DIGITS as nat, exp as nat);
    assert(p.subrange(0, 9) =~= skel_sub());
    assert(p.subrange(9, 29) =~= spec_padded_digits(CLAIM_DIGITS as nat, sub as nat));
    assert(p.subrange(29, 38) =~= skel_iat());
    assert(p.subrange(38, 58) =~= spec_padded_digits(CLAIM_DIGITS as nat, iat as nat));
    assert(p.subrange(58, 67) =~= skel_exp());
    assert(p.subrange(67, 87) =~= spec_padded_digits(CLAIM_DIGITS as nat, exp as nat));
    assert(p.subrange(87, 90) =~= skel_end());
    lemma_u64_fits_claim_digits(sub);
    lemma_u64_fits_claim_digits(iat);
    lemma_u64_fits_claim_digits(exp);
    lemma_val_of_padded_small(CLAIM_DIGITS as nat, sub as nat);
    lemma_val_of_padded_small(CLAIM_DIGITS as nat, iat as nat);
    lemma_val_of_padded_small(CLAIM_DIGITS as nat, exp as nat);
}

/// An accepted payload is the rendering of the claims it parses to: payloads
/// are canonical.
pub proof fn lemma_payload_canonical(p: Seq<u8>)
    requires
        spec_parse_payload(p) is Some,
    ensures
        p == spec_payload(
            spec_parse_payload(p).unwrap().sub,
            spec_parse_payload(p).unwrap().iat,
            spec_parse_payload(p).unwrap().exp,
        ),
{
    let c = spec_parse_payload(p).unwrap();
    lemma_padded_of_val(p.subrange(9, 29));
    lemma_padded_of_val(p.subrange(38, 58));
    lemma_padded_of_val(p.subrange(67, 87));
    assert(p =~= spec_payload(c.sub, c.iat, c.exp));
}

fn push_skel_sub(out: &mut Vec<u8>)
    ensures
        final(out)@ == old(out)@ + skel_sub(),
{
    out.push(123);
    out.push(32);
    out.push(34);
    out.push(115);
    out.push(117);
    out.push(98);
    out.push(34);
    out.push(58);
    out.push(34);
    proof {
        assert(out@ =~= old(out)@ + skel_sub());
    }
}

fn push_skel_mid(out: &mut Vec<u8>, name: (u8, u8, u8))
    ensures
        final(out)@ == old(out)@ + seq![34u8, 44, 34, name.0, name.1, name.2, 34, 58, 34],
{
    out.push(34);
    out.push(44);
    out.push(34);
    out.push(name.0);
    out.push(name.1);
    out.push(name.2);
    out.push(34);
    out.push(58);
    out.push(34);
    proof {
        assert(out@ =~= old(out)@ + seq![34u8, 44, 34, name.0, name.1, name.2, 34, 58, 34]);
    }
}

/// Renders the claims as their payload.
pub fn build_payload(sub: u64, iat: u64, exp: u64) -> (out: Vec<u8>)
    ensures
        out@ == spec_payload(sub, iat, exp),
{
    let mut out: Vec<u8> = Vec::new();
    push_skel_sub(&mut out);
    push_padded_digits(&mut out, CLAIM_DIGITS, sub);
    push_skel_mid(&mut out, (105, 97, 116));
    push_padded_digits(&mut out, CLAIM_DIGITS, iat);
    push_skel_mid(&mut out, (101, 120, 112));
    push_padded_digits(&mut out, CLAIM_DIGITS, exp);
    out.push(34);
    out.push(32);
    out.push(125);
    proof {
        assert(seq![34u8, 44, 34, 105, 97, 116, 34, 58, 34] =~= skel_iat());
        assert(seq![34u8, 44, 34, 101, 120, 112, 34, 58, 34] =~= skel_exp());
        assert(out@ =~= spec_payload(sub, iat, exp));
    }
    out
}

/// True when `p` holds `seg` at offset `at`.
fn seg_matches(p: &[u8], at: usize, seg: &[u8]) -> (r: bool)
    requires
        at + seg@.len() <= p@.len(),
    ensures
        r == (p@.subrange(at as int, at + seg@.len()) == seg@),
{
    let plen = p.len();
    let mut i: usize = 0;
    while i < seg.len()
        invariant
            0 <= i <= seg@.len(),
            at + seg@.len() <= p@.len(),
            p@.len() == plen,
            forall|j: int| 0 <= j < i ==> p@[at + j] == #[trigger] seg@[j],
        decreases seg@.len() - i,
    {
        if p[at + i] != seg[i] {
            proof {
                assert(p@.subrange(at as int, at + seg@.len())[i as int] == p@[at + i]);
            }
            return false;
        }
        i += 1;
    }
    proof {
        assert(p@.subrange(at as int, at + seg@.len()) =~= seg@);
    }
    true
}

/// True when the two byte strings are equal.
pub(crate) fn bytes_eq(a: &[u8], b: &[u8]) -> (r: bool)
    ensures
        r == (a@ == b@),
{
    if a.len() != b.len() {
        return false;
    }
    let r = seg_matches(a, 0, b);
    proof {
        assert(a@.subrange(0, b@.len() as int) =~= a@);
    }
    r
}

fn skel_sub_vec() -> (v: Vec<u8>)
    ensures
        v@ == skel_sub(),
{
    let mut v: Vec<u8> = Vec::new();
    push_skel_sub(&mut v);
    proof {
        assert(v@ =~= skel_sub());
    }
    v
}

/// Parses a payload back to its claims: `None` on anything but the one
/// accepted shape.
pub fn parse_payload(p: &[u8]) -> (r: Option<Claims>)
    ensures
        match r {
            Some(c) => spec_parse_payload(p@) == Some(c),
            None => spec_parse_payload(p@) is None,
        },
{
    if p.len() != PAYLOAD_LEN {
        return None;
    }
    let skel0 = skel_sub_vec();
    if !seg_matches(p, 0, skel0.as_slice()) {
        proof {
            assert(p@.subrange(0, 9) != skel_sub());
        }
        return None;
    }
    let mut mid: Vec<u8> = Vec::new();
    push_skel_mid(&mut mid, (105, 97, 116));
    proof {
        assert(mid@ =~= skel_iat());
    }
    if !seg_matches(p, 29, mid.as_slice()) {
        return None;
    }
    let mut mid2: Vec<u8> = Vec::new();
    push_skel_mid(&mut mid2, (101, 120, 112));
    proof {
        assert(mid2@ =~= skel_exp());
    }
    if !seg_matches(p, 58, mid2.as_slice()) {
        return None;
    }
    let mut end: Vec<u8> = Vec::new();
    end.push(34);
    end.push(32);
    end.push(125);
    proof {
        assert(end@ =~= skel_end());
    }
    if !seg_matches(p, 87, end.as_slice()) {
        return None;
    }
    let sub = match parse_digits_u64(&p[9..29]) {
        Some(v) => v,
        None => {
            return None;
        },
    };
    let iat = match parse_digits_u64(&p[38..58]) {
        Some(v) => v,
        None => {
            return None;
        },
    };
    let exp = match parse_digits_u64(&p[67..87]) {
        Some(v) => v,
        None => {
            return None;
        },
    };
    Some(Claims { sub, iat, exp })
}

} // verus!
