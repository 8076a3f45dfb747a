//! Base64, standard alphabet with padding. Byte-string fields are emitted
//! in this textual form, and the sync items of the restore method carry
//! their sub-messages in it. The decoder is strict: it rejects stray
//! padding, characters outside the alphabet, and set trailing bits.

use vstd::prelude::*;

verus! {

/// The alphabet character of a six-bit value.
pub open spec fn b64_char(v: u8) -> u8 {
    if v < 26 {
        (65 + v) as u8
    } else if v < 52 {
        (97 + (v - 26)) as u8
    } else if v < 62 {
        (48 + (v - 52)) as u8
    } else if v == 62 {
        43
    } else {
        47
    }
}

/// The six-bit value of an alphabet character.
pub open spec fn b64_inv(c: u8) -> Option<u8> {
    if 65 <= c < 91 {
        Some((c - 65) as u8)
    } else if 97 <= c < 123 {
        Some((c - 97 + 26) as u8)
    } else if 48 <= c < 58 {
        Some((c - 48 + 52) as u8)
    } else if c == 43 {
        Some(62)
    } else if c == 47 {
        Some(63)
    } else {
        None
    }
}

/// The base64 text of a byte string.
pub open spec fn b64_text(s: Seq<u8>) -> Seq<u8>
    decreases s.len(),
{
    if s.len() == 0 {
        Seq::empty()
    } else if s.len() == 1 {
        seq![
            b64_char(s[0] / 4),
            b64_char(((s[0] % 4) * 16) as u8),
            61u8,
            61u8,
        ]
    } else if s.len() == 2 {
        seq![
            b64_char(s[0] / 4),
            b64_char(((s[0] % 4) * 16 + s[1] / 16) as u8),
            b64_char(((s[1] % 16) * 4) as u8),
            61u8,
        ]
    } else {
        seq![
            b64_char(s[0] / 4),
            b64_char(((s[0] % 4) * 16 + s[1] / 16) as u8),
            b64_char(((s[1] % 16) * 4 + s[2] / 64) as u8),
            b64_char(s[2] % 64),
        ] + b64_text(s.skip(3))
    }
}

/// The bytes encoded by a base64 text, or `None` when the text is not the
/// strict encoding of any byte string.
pub open spec fn b64_parse(s: Seq<u8>) -> Option<Seq<u8>>
    decreases s.len(),
{
    if s.len() == 0 {
        Some(Seq::empty())
    } else if s.len() < 4 {
        None
    } else {
        let d0 = b64_inv(s[0]);
        let d1 = b64_inv(s[1]);
        if d0 is None || d1 is None {
            None
        } else if s.len() == 4 && s[2] == 61 && s[3] == 61 {
            if d1.unwrap() % 16 == 0 {
                Some(seq![(d0.unwrap() * 4 + d1.unwrap() / 16) as u8])
            } else {
                None
            }
        } else if s.len() == 4 && s[3] == 61 {
            match b64_inv(s[2]) {
                None => None,
                Some(d2) => if d2 % 4 == 0 {
                    Some(
                        seq![
                            (d0.unwrap() * 4 + d1.unwrap() / 16) as u8,
                            ((d1.unwrap() % 16) * 16 + d2 / 4) as u8,
                        ],
                    )
                } else {
                    None
                },
            }
        } else {
            match (b64_inv(s[2]), b64_inv(s[3])) {
                (Some(d2), Some(d3)) => match b64_parse(s.skip(4)) {
                    None => None,
                    Some(rest) => Some(
                        seq![
                            (d0.unwrap() * 4 + d1.unwrap() / 16) as u8,
                            ((d1.unwrap() % 16) * 16 + d2 / 4) as u8,
                            ((d2 % 4) * 64 + d3) as u8,
                        ] + rest,
                    ),
                },
                _ => None,
            }
        }
    }
}

fn b64_char_of(v: u8) -> (r: u8)
    requires
        v < 64,
    ensures
        r == b64_char(v),
{
    if v < 26 {
        65 + v
    } else if v < 52 {
        97 + (v - 26)
    } else if v < 62 {
        48 + (v - 52)
    } else if v == 62 {
        43
    } else {
        47
    }
}

fn b64_inv_of(c: u8) -> (r: Option<u8>)
    ensures
        r == b64_inv(c),
        r is Some ==> r.unwrap() < 64,
{
    if 65 <= c && c < 91 {
        Some(c - 65)
    } else if 97 <= c && c < 123 {
        Some(c - 97 + 26)
    } else if 48 <= c && c < 58 {
        Some(c - 48 + 52)
    } else if c == 43 {
        Some(62)
    } else if c == 47 {
        Some(63)
    } else {
        None
    }
}

/// Encodes bytes as base64 text.
pub fn base64_encode(s: &[u8]) -> (r: Vec<u8>)
    ensures
        r@ == b64_text(s@),
{
    let mut out: Vec<u8> = Vec::new();
    let n: usize = s.len();
    let mut i: usize = 0;
    proof {
        assert(s@.skip(0) =~= s@);
        assert(out@ + b64_text(s@) =~= b64_text(s@));
    }
    while n - i >= 3
        invariant
            n == s@.len(),
            0 <= i <= n,
            b64_text(s@) == out@ + b64_text(s@.skip(i as int)),
        decreases n - i,
    {
        let ghost pre = s@.skip(i as int);
        let ghost out0 = out@;
        proof {
            assert(pre.len() >= 3);
            assert(pre[0] == s@[i as int]);
            assert(pre[1] == s@[i + 1]);
            assert(pre[2] == s@[i + 2]);
            assert(pre.skip(3) =~= s@.skip(i + 3));
        }
        let b0 = s[i];
        let b1 = s[i + 1];
        let b2 = s[i + 2];
        out.push(b64_char_of(b0 / 4));
        out.push(b64_char_of((b0 % 4) * 16 + b1 / 16));
        out.push(b64_char_of((b1 % 16) * 4 + b2 / 64));
        out.push(b64_char_of(b2 % 64));
        i = i + 3;
        proof {
            let quad = seq![
                b64_char(b0 / 4),
                b64_char(((b0 % 4) * 16 + b1 / 16) as u8),
                b64_char(((b1 % 16) * 4 + b2 / 64) as u8),
                b64_char((b2 % 64) as u8),
            ];
            assert(out@ =~= out0 + quad);
            assert(b64_text(pre) == quad + b64_text(s@.skip(i as int)));
            assert(out0 + (quad + b64_text(s@.skip(i as int))) =~= (out0 + quad) + b64_text(
                s@.skip(i as int),
            ));
        }
    }
    let ghost tail = s@.skip(i as int);
    if i == n {
        proof {
            assert(tail.len() == 0);
            assert(b64_text(tail) =~= Seq::<u8>::empty());
            assert(out@ + b64_text(tail) =~= out@);
        }
    } else if i + 1 == n {
        let b0 = s[i];
        proof {
            assert(tail.len() == 1);
            assert(tail[0] == s@[i as int]);
        }
        out.push(b64_char_of(b0 / 4));
        out.push(b64_char_of((b0 % 4) * 16));
        out.push(61);
        out.push(61);
    } else {
        let b0 = s[i];
        let b1 = s[i + 1];
        proof {
            assert(tail.len() == 2);
            assert(tail[0] == s@[i as int]);
            assert(tail[1] == s@[i + 1]);
        }
        out.push(b64_char_of(b0 / 4));
        out.push(b64_char_of((b0 % 4) * 16 + b1 / 16));
        out.push(b64_char_of((b1 % 16) * 4));
        out.push(61);
    }
    out
}

fn b64_decode_at(s: &[u8], pos: usize) -> (r: Option<Vec<u8>>)
    requires
        pos <= s@.len(),
    ensures
        match r {
            Some(v) => b64_parse(s@.skip(pos as int)) == Some(v@),
            None => b64_parse(s@.skip(pos as int)) is None,
        },
    decreases s@.len() - pos,
{
    let ghost tail = s@.skip(pos as int);
    let n: usize = s.len() - pos;
    if n == 0 {
        proof {
            assert(b64_parse(tail) == Some(Seq::<u8>::empty()));
        }
        let v: Vec<u8> = Vec::new();
        assert(v@ =~= Seq::<u8>::empty());
        return Some(v);
    }
    if n < 4 {
        return None;
    }
    proof {
        assert(tail[0] == s@[pos as int]);
        assert(tail[1] == s@[pos + 1]);
        assert(tail[2] == s@[pos + 2]);
        assert(tail[3] == s@[pos + 3]);
    }
    let c0 = s[pos];
    let c1 = s[pos + 1];
    let c2 = s[pos + 2];
    let c3 = s[pos + 3];
    let d0 = match b64_inv_of(c0) {
        None => {
            return None;
        },
        Some(d) => d,
    };
    let d1 = match b64_inv_of(c1) {
        None => {
            return None;
        },
        Some(d) => d,
    };
    if n == 4 && c2 == 61 && c3 == 61 {
        if d1 % 16 == 0 {
            let v = vec![d0 * 4 + d1 / 16];
            assert(v@ =~= seq![(d0 * 4 + d1 / 16) as u8]);
            return Some(v);
        } else {
            return None;
        }
    }
    if n == 4 && c3 == 61 {
        match b64_inv_of(c2) {
            None => {
                return None;
            },
            Some(d2) => {
                if d2 % 4 == 0 {
                    let v = vec![d0 * 4 + d1 / 16, (d1 % 16) * 16 + d2 / 4];
                    assert(v@ =~= seq![
                        (d0 * 4 + d1 / 16) as u8,
                        ((d1 % 16) * 16 + d2 / 4) as u8,
                    ]);
                    return Some(v);
                } else {
                    return None;
                }
            },
        }
    }
    let d2 = match b64_inv_of(c2) {
        None => {
            return None;
        },
        Some(d) => d,
    };
    let d3 = match b64_inv_of(c3) {
        None => {
            return None;
        },
        Some(d) => d,
    };
    proof {
        assert(tail.skip(4) =~= s@.skip(pos + 4));
    }
    match b64_decode_at(s, pos + 4) {
        None => None,
        Some(mut rest) => {
            let mut v = vec![d0 * 4 + d1 / 16, (d1 % 16) * 16 + d2 / 4, (d2 % 4) * 64 + d3];
            let ghost head = v@;
            v.append(&mut rest);
            proof {
                assert(head =~= seq![
                    (d0 * 4 + d1 / 16) as u8,
                    ((d1 % 16) * 16 + d2 / 4) as u8,
                    ((d2 % 4) * 64 + d3) as u8,
                ]);
            }
            Some(v)
        },
    }
}

proof fn lemma_char_inv(v: u8)
    requires
        v < 64,
    ensures
        b64_inv(b64_char(v)) == Some(v),
        b64_char(v) != 61,
{
}

/// The decoder inverts the encoder: parsing the base64 text of any byte
/// string gives back exactly that byte string.
pub proof fn lemma_base64_round_trip(s: Seq<u8>)
    ensures
        b64_parse(b64_text(s)) == Some(s),
    decreases s.len(),
{
    let t = b64_text(s);
    if s.len() == 0 {
        assert(b64_parse(t) == Some(Seq::<u8>::empty()));
        assert(Seq::<u8>::empty() =~= s);
    } else if s.len() == 1 {
        let b = s[0];
        lemma_char_inv(b / 4);
        lemma_char_inv(((b % 4) * 16) as u8);
        assert(((b % 4) * 16) % 16 == 0) by (nonlinear_arith);
        assert((b / 4) * 4 + ((b % 4) * 16) / 16 == b) by (nonlinear_arith);
        assert(b64_parse(t).unwrap() =~= s);
    } else if s.len() == 2 {
        let b0 = s[0];
        let b1 = s[1];
        lemma_char_inv(b0 / 4);
        lemma_char_inv(((b0 % 4) * 16 + b1 / 16) as u8);
        lemma_char_inv(((b1 % 16) * 4) as u8);
        assert(((b1 % 16) * 4) % 4 == 0) by (nonlinear_arith);
        assert((b0 / 4) * 4 + ((b0 % 4) * 16 + b1 / 16) / 16 == b0) by (nonlinear_arith);
        assert((((b0 % 4) * 16 + b1 / 16) % 16) * 16 + (((b1 % 16) * 4) / 4) == b1)
            by (nonlinear_arith);
        assert(b64_parse(t).unwrap() =~= s);
    } else {
        let b0 = s[0];
        let b1 = s[1];
        let b2 = s[2];
        lemma_char_inv(b0 / 4);
        lemma_char_inv(((b0 % 4) * 16 + b1 / 16) as u8);
        lemma_char_inv(((b1 % 16) * 4 + b2 / 64) as u8);
        lemma_char_inv(b2 % 64);
        lemma_base64_round_trip(s.skip(3));
        assert(t.skip(4) =~= b64_text(s.skip(3)));
        assert((b0 / 4) * 4 + ((b0 % 4) * 16 + b1 / 16) / 16 == b0) by (nonlinear_arith);
        assert((((b0 % 4) * 16 + b1 / 16) % 16) * 16 + (((b1 % 16) * 4 + b2 / 64) / 4)
            == b1) by (nonlinear_arith);
        assert((((b1 % 16) * 4 + b2 / 64) % 4) * 64 + (b2 % 64) == b2) by (nonlinear_arith);
        assert(b64_parse(t).unwrap() =~= s);
    }
}

/// Decodes strict base64 text back to bytes.
pub fn base64_decode(s: &[u8]) -> (r: Option<Vec<u8>>)
    ensures
        match r {
            Some(v) => b64_parse(s@) == Some(v@),
            None => b64_parse(s@) is None,
        },
{
    let r = b64_decode_at(s, 0);
    proof {
        assert(s@.skip(0) =~= s@);
    }
    r
}

} // verus!
