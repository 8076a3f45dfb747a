//! Base-128 variable-length integers, the scalar encoding of the wire
//! format. A varint is a run of continuation bytes (high bit set) ended by
//! one terminator byte (high bit clear), little-endian 7-bit groups. The
//! decoder accepts runs of at most nine bytes, so every accepted value fits
//! in 63 bits; a longer run is malformed.

use vstd::prelude::*;

verus! {

/// Number of bytes of the varint starting at `pos`, or -1 when no
/// terminator byte follows within the buffer.
pub open spec fn spec_varint_len(s: Seq<u8>, pos: int) -> int
    decreases s.len() - pos,
{
    if pos < 0 || pos >= s.len() {
        -1
    } else if s[pos] < 128 {
        1
    } else {
        let rest = spec_varint_len(s, pos + 1);
        if rest < 0 {
            -1
        } else {
            rest + 1
        }
    }
}

/// Value of the varint starting at `pos` (unbounded mathematical integer).
pub open spec fn spec_varint_value(s: Seq<u8>, pos: int) -> nat
    decreases s.len() - pos,
{
    if pos < 0 || pos >= s.len() {
        0
    } else if s[pos] < 128 {
        s[pos] as nat
    } else {
        (s[pos] - 128) as nat + 128 * spec_varint_value(s, pos + 1)
    }
}

/// A well-formed varint of the accepted width range starts at `pos`.
pub open spec fn spec_varint_ok(s: Seq<u8>, pos: int) -> bool {
    1 <= spec_varint_len(s, pos) <= 9
}

/// 128 raised to `k`.
pub open spec fn pow128(k: nat) -> nat
    decreases k,
{
    if k == 0 {
        1
    } else {
        128 * pow128((k - 1) as nat)
    }
}

/// A varint of `k` bytes encodes a value below `128^k`.
pub proof fn lemma_varint_value_bound(s: Seq<u8>, pos: int)
    requires
        spec_varint_len(s, pos) >= 1,
    ensures
        spec_varint_value(s, pos) < pow128(spec_varint_len(s, pos) as nat),
    decreases s.len() - pos,
{
    if s[pos] < 128 {
        assert(pow128(1) == 128) by {
            reveal_with_fuel(pow128, 2);
        }
    } else {
        assert(spec_varint_len(s, pos + 1) >= 1);
        lemma_varint_value_bound(s, pos + 1);
        let v2 = spec_varint_value(s, pos + 1);
        let k2 = spec_varint_len(s, pos + 1) as nat;
        assert(128 * v2 <= 128 * pow128(k2) - 128) by (nonlinear_arith)
            requires
                v2 + 1 <= pow128(k2),
        ;
        assert(spec_varint_len(s, pos) == k2 + 1);
        assert(pow128(k2 + 1) == 128 * pow128(k2));
    }
}

/// Reads the varint at `pos`. Returns the value and its width in bytes, or
/// `None` when the buffer ends inside the varint or the run is longer than
/// nine bytes.
pub fn read_varint(s: &[u8], pos: usize) -> (r: Option<(u64, usize)>)
    ensures
        match r {
            Some((v, k)) => {
                &&& spec_varint_ok(s@, pos as int)
                &&& k == spec_varint_len(s@, pos as int)
                &&& v == spec_varint_value(s@, pos as int)
            },
            None => !spec_varint_ok(s@, pos as int),
        },
    decreases s@.len() - pos,
{
    if pos >= s.len() {
        return None;
    }
    let b = s[pos];
    if b < 128 {
        Some((b as u64, 1))
    } else {
        match read_varint(s, pos + 1) {
            None => None,
            Some((v, k)) => {
                if k >= 9 {
                    None
                } else {
                    proof {
                        lemma_varint_value_bound(s@, pos + 1 as int);
                        assert(pow128(8) == 0x100000000000000nat) by {
                            reveal_with_fuel(pow128, 9);
                        }
                        assert(pow128(spec_varint_len(s@, pos + 1 as int) as nat)
                            <= pow128(8)) by {
                            lemma_pow128_increases(
                                spec_varint_len(s@, pos + 1 as int) as nat,
                                8,
                            );
                        }
                    }
                    Some(((b - 128) as u64 + 128 * v, k + 1))
                }
            },
        }
    }
}

/// A well-formed varint lies entirely inside the buffer.
pub proof fn lemma_varint_in_bounds(s: Seq<u8>, pos: int)
    requires
        spec_varint_len(s, pos) >= 1,
    ensures
        0 <= pos < s.len(),
        pos + spec_varint_len(s, pos) <= s.len(),
    decreases s.len() - pos,
{
    if s[pos] < 128 {
    } else {
        lemma_varint_in_bounds(s, pos + 1);
    }
}

/// Every accepted varint value fits in a machine word.
pub proof fn lemma_varint_fits_u64(s: Seq<u8>, pos: int)
    requires
        spec_varint_ok(s, pos),
    ensures
        spec_varint_value(s, pos) <= u64::MAX as nat,
{
    lemma_varint_value_bound(s, pos);
    lemma_pow128_increases(spec_varint_len(s, pos) as nat, 9);
    assert(pow128(9) == 0x8000000000000000nat) by {
        reveal_with_fuel(pow128, 10);
    }
}

/// `pow128` is monotone.
pub proof fn lemma_pow128_increases(a: nat, b: nat)
    requires
        a <= b,
    ensures
        pow128(a) <= pow128(b),
    decreases b,
{
    if a < b && b > 0 {
        lemma_pow128_increases(a, (b - 1) as nat);
    }
}

} // verus!
