//! URL-safe base64 without padding, for inputs whose length is a multiple of
//! three: the only shape the token codec produces (its header and payload are
//! sized to whole chunks). Encoding and decoding are verified inverses, and
//! decoding accepts nothing but an encoding's exact output, so an encoded
//! part pins its bytes down.

use vstd::prelude::*;

verus! {

/// The alphabet: value 0..63 to its URL-safe base64 byte.
pub open spec fn b64_byte(v: int) -> u8 {
    if v < 26 {
        (65 + v) as u8
    } else if v < 52 {
        (97 + (v - 26)) as u8
    } else if v < 62 {
        (48 + (v - 52)) as u8
    } else if v == 62 {
        45u8
    } else {
        95u8
    }
}

/// The alphabet read backwards: -1 for a byte outside it.
pub open spec fn b64_val(b: u8) -> int {
    if 65 <= b <= 90 {
        b - 65
    } else if 97 <= b <= 122 {
        26 + (b - 97)
    } else if 48 <= b <= 57 {
        52 + (b - 48)
    } else if b == 45 {
        62
    } else if b == 95 {
        63
    } else {
        -1
    }
}

pub proof fn lemma_alphabet(v: int)
    requires
        0 <= v < 64,
    ensures
        b64_val(b64_byte(v)) == v,
        b64_byte(v) != 46,
        b64_byte(v) < 128,
{
}

pub proof fn lemma_alphabet_rev(b: u8)
    requires
        b64_val(b) >= 0,
    ensures
        b64_val(b) < 64,
        b64_byte(b64_val(b)) == b,
{
}

/// Three bytes become four alphabet bytes.
pub open spec fn spec_b64_chunk(a: u8, b: u8, c: u8) -> Seq<u8> {
    seq![
        b64_byte(a as int / 4),
        b64_byte((a as int % 4) * 16 + b as int / 16),
        b64_byte((b as int % 16) * 4 + c as int / 64),
        b64_byte(c as int % 64),
    ]
}

pub open spec fn spec_b64_encode(s: Seq<u8>) -> Seq<u8>
    decreases s.len(),
{
    if s.len() < 3 {
        Seq::empty()
    } else {
        spec_b64_chunk(s[0], s[1], s[2]) + spec_b64_encode(s.skip(3))
    }
}

pub open spec fn spec_b64_decode(s: Seq<u8>) -> Option<Seq<u8>>
    decreases s.len(),
{
    if s.len() == 0 {
        Some(Seq::empty())
    } else if s.len() < 4 {
        None
    } else {
        let v0 = b64_val(s[0]);
        let v1 = b64_val(s[1]);
        let v2 = b64_val(s[2]);
        let v3 = b64_val(s[3]);
        if v0 < 0 || v1 < 0 || v2 < 0 || v3 < 0 {
            None
        } else {
            match spec_b64_decode(s.skip(4)) {
                Option::None => Option::None,
                Option::Some(rest) => Option::Some(
                    seq![
                        (v0 * 4 + v1 / 16) as u8,
                        ((v1 % 16) * 16 + v2 / 4) as u8,
                        ((v2 % 4) * 64 + v3) as u8,
                    ] + rest,
                ),
            }
        }
    }
}

/// The shape of an encoding: four bytes for three, all in the alphabet, no
/// dot anywhere, everything ASCII.
pub proof fn lemma_b64_encode_wf(s: Seq<u8>)
    requires
        s.len() % 3 == 0,
    ensures
        spec_b64_encode(s).len() == s.len() / 3 * 4,
        forall|i: int|
            0 <= i < spec_b64_encode(s).len() ==> b64_val(#[trigger] spec_b64_encode(s)[i]) >= 0
                && spec_b64_encode(s)[i] != 46 && spec_b64_encode(s)[i] < 128,
    decreases s.len(),
{
    if s.len() >= 3 {
        assert(s.skip(3).len() % 3 == 0);
        lemma_b64_encode_wf(s.skip(3));
        let ch = spec_b64_chunk(s[0], s[1], s[2]);
        assert forall|j: int| 0 <= j < 4 implies b64_val(#[trigger] ch[j]) >= 0 && ch[j] != 46
            && ch[j] < 128 by {
            if j == 0 {
                lemma_alphabet(s[0] as int / 4);
            } else if j == 1 {
                lemma_alphabet((s[0] as int % 4) * 16 + s[1] as int / 16);
            } else if j == 2 {
                lemma_alphabet((s[1] as int % 16) * 4 + s[2] as int / 64);
            } else {
                lemma_alphabet(s[2] as int % 64);
            }
        }
        assert(s.len() / 3 * 4 == 4 + s.skip(3).len() / 3 * 4);
    }
}

/// Decoding an encoding gives the bytes back.
pub proof fn lemma_b64_round_trip(s: Seq<u8>)
    requires
        s.len() % 3 == 0,
    ensures
        spec_b64_decode(spec_b64_encode(s)) == Some(s),
    decreases s.len(),
{
    if s.len() == 0 {
        assert(spec_b64_encode(s) =~= Seq::<u8>::empty());
        assert(s =~= Seq::<u8>::empty());
    } else {
        let a = s[0];
        let b = s[1];
        let c = s[2];
        assert(s.skip(3).len() % 3 == 0);
        lemma_b64_round_trip(s.skip(3));
        let e = spec_b64_encode(s);
        let ch = spec_b64_chunk(a, b, c);
        assert(e =~= ch + spec_b64_encode(s.skip(3)));
        lemma_b64_encode_wf(s.skip(3));
        assert(e.len() >= 4);
        let w0 = a as int / 4;
        let w1 = (a as int % 4) * 16 + b as int / 16;
        let w2 = (b as int % 16) * 4 + c as int / 64;
        let w3 = c as int % 64;
        lemma_alphabet(w0);
        lemma_alphabet(w1);
        lemma_alphabet(w2);
        lemma_alphabet(w3);
        assert(e[0] == b64_byte(w0) && e[1] == b64_byte(w1) && e[2] == b64_byte(w2) && e[3]
            == b64_byte(w3));
        assert(e.skip(4) =~= spec_b64_encode(s.skip(3)));
        assert(w0 * 4 + w1 / 16 == a) by (nonlinear_arith)
            requires
                w0 == a as int / 4,
                w1 == (a as int % 4) * 16 + b as int / 16,
                0 <= a < 256,
                0 <= b < 256,
        ;
        assert((w1 % 16) * 16 + w2 / 4 == b) by (nonlinear_arith)
            requires
                w1 == (a as int % 4) * 16 + b as int / 16,
                w2 == (b as int % 16) * 4 + c as int / 64,
                0 <= a < 256,
                0 <= b < 256,
                0 <= c < 256,
        ;
        assert((w2 % 4) * 64 + w3 == c) by (nonlinear_arith)
            requires
                w2 == (b as int % 16) * 4 + c as int / 64,
                w3 == c as int % 64,
                0 <= b < 256,
                0 <= c < 256,
        ;
        assert(spec_b64_decode(e).unwrap() =~= s);
    }
}

/// Decoding accepts only exact encodings: a successful decode pins the
/// encoded part down.
pub proof fn lemma_b64_canonical(s: Seq<u8>)
    requires
        spec_b64_decode(s) is Some,
    ensures
        spec_b64_decode(s).unwrap().len() % 3 == 0,
        spec_b64_decode(s).unwrap().len() == s.len() / 4 * 3,
        spec_b64_encode(spec_b64_decode(s).unwrap()) == s,
    decreases s.len(),
{
    let v = spec_b64_decode(s).unwrap();
    if s.len() == 0 {
        assert(spec_b64_encode(v) =~= Seq::<u8>::empty());
        assert(s =~= Seq::<u8>::empty());
    } else {
        let v0 = b64_val(s[0]);
        let v1 = b64_val(s[1]);
        let v2 = b64_val(s[2]);
        let v3 = b64_val(s[3]);
        lemma_alphabet_rev(s[0]);
        lemma_alphabet_rev(s[1]);
        lemma_alphabet_rev(s[2]);
        lemma_alphabet_rev(s[3]);
        lemma_b64_canonical(s.skip(4));
        let rest = spec_b64_decode(s.skip(4)).unwrap();
        let a = (v0 * 4 + v1 / 16) as u8;
        let b = ((v1 % 16) * 16 + v2 / 4) as u8;
        let c = ((v2 % 4) * 64 + v3) as u8;
        assert(v =~= seq![a, b, c] + rest);
        assert(a as int / 4 == v0 && a as int % 4 == v1 / 16) by (nonlinear_arith)
            requires
                a == v0 * 4 + v1 / 16,
                0 <= v0 < 64,
                0 <= v1 < 64,
        ;
        assert(b as int / 16 == v1 % 16 && b as int % 16 == v2 / 4) by (nonlinear_arith)
            requires
                b == (v1 % 16) * 16 + v2 / 4,
                0 <= v1 < 64,
                0 <= v2 < 64,
        ;
        assert(c as int / 64 == v2 % 4 && c as int % 64 == v3) by (nonlinear_arith)
            requires
                c == (v2 % 4) * 64 + v3,
                0 <= v2 < 64,
                0 <= v3 < 64,
        ;
        assert((v1 / 16) * 16 + v1 % 16 == v1) by (nonlinear_arith)
            requires
                0 <= v1 < 64,
        ;
        assert((v2 / 4) * 4 + v2 % 4 == v2) by (nonlinear_arith)
            requires
                0 <= v2 < 64,
        ;
        assert(spec_b64_chunk(a, b, c) =~= s.subrange(0, 4));
        assert(v.skip(3) =~= rest);
        assert(v[0] == a && v[1] == b && v[2] == c);
        assert(spec_b64_encode(v) =~= spec_b64_chunk(a, b, c) + spec_b64_encode(rest));
        assert(spec_b64_encode(v) =~= s.subrange(0, 4) + s.skip(4));
        assert(spec_b64_encode(v) =~= s);
        assert(s.len() / 4 == 1 + s.skip(4).len() / 4);
    }
}

fn b64_byte_exec(v: u8) -> (r: u8)
    requires
        v < 64,
    ensures
        r == b64_byte(v as int),
{
    if v < 26 {
        65 + v
    } else if v < 52 {
        97 + (v - 26)
    } else if v < 62 {
        48 + (v - 52)
    } else if v == 62 {
        45
    } else {
        95
    }
}

fn b64_val_exec(b: u8) -> (r: Option<u8>)
    ensures
        match r {
            Some(v) => v < 64 && b64_val(b) == v as int,
            None => b64_val(b) == -1,
        },
{
    if 65 <= b && b <= 90 {
        Some(b - 65)
    } else if 97 <= b && b <= 122 {
        Some(26 + (b - 97))
    } else if 48 <= b && b <= 57 {
        Some(52 + (b - 48))
    } else if b == 45 {
        Some(62)
    } else if b == 95 {
        Some(63)
    } else {
        None
    }
}

fn b64_encode_from(out: &mut Vec<u8>, s: &[u8], pos: usize)
    requires
        pos <= s@.len(),
        (s@.len() - pos) % 3 == 0,
    ensures
        final(out)@ == old(out)@ + spec_b64_encode(s@.skip(pos as int)),
    decreases s@.len() - pos,
{
    if pos < s.len() {
        let a = s[pos];
        let b = s[pos + 1];
        let c = s[pos + 2];
        out.push(b64_byte_exec(a / 4));
        out.push(b64_byte_exec((a % 4) * 16 + b / 16));
        out.push(b64_byte_exec((b % 16) * 4 + c / 64));
        out.push(b64_byte_exec(c % 64));
        b64_encode_from(out, s, pos + 3);
        proof {
            let t = s@.skip(pos as int);
            assert(t.skip(3) =~= s@.skip(pos + 3));
            assert(t[0] == a && t[1] == b && t[2] == c);
            assert(out@ =~= old(out)@ + spec_b64_encode(t));
        }
    } else {
        proof {
            assert(s@.skip(pos as int) =~= Seq::<u8>::empty());
            assert(out@ =~= old(out)@ + spec_b64_encode(s@.skip(pos as int)));
        }
    }
}

/// Encodes whole three-byte chunks.
pub fn b64_encode(s: &[u8]) -> (out: Vec<u8>)
    requires
        s@.len() % 3 == 0,
    ensures
        out@ == spec_b64_encode(s@),
{
    let mut out: Vec<u8> = Vec::new();
    b64_encode_from(&mut out, s, 0);
    proof {
        assert(s@.skip(0) =~= s@);
        assert(out@ =~= spec_b64_encode(s@));
    }
    out
}

fn b64_decode_from(out: &mut Vec<u8>, s: &[u8], pos: usize) -> (ok: bool)
    requires
        pos <= s@.len(),
    ensures
        ok ==> spec_b64_decode(s@.skip(pos as int)) is Some && final(out)@ == old(out)@
            + spec_b64_decode(s@.skip(pos as int)).unwrap(),
        !ok ==> spec_b64_decode(s@.skip(pos as int)) is None,
    decreases s@.len() - pos,
{
    let ghost t = s@.skip(pos as int);
    if pos == s.len() {
        proof {
            assert(t =~= Seq::<u8>::empty());
            assert(out@ =~= old(out)@ + spec_b64_decode(t).unwrap());
        }
        true
    } else if s.len() - pos < 4 {
        false
    } else {
        let r0 = b64_val_exec(s[pos]);
        let r1 = b64_val_exec(s[pos + 1]);
        let r2 = b64_val_exec(s[pos + 2]);
        let r3 = b64_val_exec(s[pos + 3]);
        proof {
            assert(t[0] == s@[pos as int] && t[1] == s@[pos + 1] && t[2] == s@[pos + 2] && t[3]
                == s@[pos + 3]);
        }
        match (r0, r1, r2, r3) {
            (Some(v0), Some(v1), Some(v2), Some(v3)) => {
                out.push(v0 * 4 + v1 / 16);
                out.push((v1 % 16) * 16 + v2 / 4);
                out.push((v2 % 4) * 64 + v3);
                let ok = b64_decode_from(out, s, pos + 4);
                proof {
                    assert(t.skip(4) =~= s@.skip(pos + 4));
                    if ok {
                        assert(out@ =~= old(out)@ + spec_b64_decode(t).unwrap());
                    }
                }
                ok
            },
            _ => false,
        }
    }
}

/// Decodes an encoding of whole chunks; `None` on anything else.
pub fn b64_decode(s: &[u8]) -> (r: Option<Vec<u8>>)
    ensures
        match r {
            Some(v) => spec_b64_decode(s@) == Some(v@),
            None => spec_b64_decode(s@) is None,
        },
{
    let mut out: Vec<u8> = Vec::new();
    let ok = b64_decode_from(&mut out, s, 0);
    proof {
        assert(s@.skip(0) =~= s@);
    }
    if ok {
        Some(out)
    } else {
        None
    }
}

} // verus!
