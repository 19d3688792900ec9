//! EBML-style variable-length integers (vints).
//!
//! The first byte of a vint announces its total width: the number of leading
//! zero bits is the count of bytes that follow. The remaining bits of the
//! first byte, with the width marker cleared, are the most significant bits
//! of the value; each following byte appends eight more.
//!
//! Pulling bytes from an input belongs to the caller; the functions here
//! decide the width and compute the value.

use vstd::prelude::*;

verus! {

/// The number of leading zero bits of a vint's first byte. A width of 8
/// (a zero byte) announces no valid vint.
pub open spec fn vint_width_spec(first: u8) -> int {
    if first >= 0x80 {
        0
    } else if first >= 0x40 {
        1
    } else if first >= 0x20 {
        2
    } else if first >= 0x10 {
        3
    } else if first >= 0x08 {
        4
    } else if first >= 0x04 {
        5
    } else if first >= 0x02 {
        6
    } else if first >= 0x01 {
        7
    } else {
        8
    }
}

/// The value bits of a vint's first byte: the byte with its width marker
/// cleared.
pub open spec fn vint_first_value_spec(first: u8) -> int {
    if first >= 0x80 {
        first - 0x80
    } else if first >= 0x40 {
        first - 0x40
    } else if first >= 0x20 {
        first - 0x20
    } else if first >= 0x10 {
        first - 0x10
    } else if first >= 0x08 {
        first - 0x08
    } else if first >= 0x04 {
        first - 0x04
    } else if first >= 0x02 {
        first - 0x02
    } else if first >= 0x01 {
        first - 0x01
    } else {
        0
    }
}

/// Folds continuation bytes into a running value, eight bits at a time.
pub open spec fn vint_acc_spec(init: int, rest: Seq<u8>) -> int
    decreases rest.len(),
{
    if rest.len() == 0 {
        init
    } else {
        vint_acc_spec(init * 256 + rest[0], rest.skip(1))
    }
}

/// The value of a whole vint: the first byte's value bits, extended by the
/// continuation bytes.
pub open spec fn vint_value_spec(first: u8, rest: Seq<u8>) -> int {
    vint_acc_spec(vint_first_value_spec(first), rest)
}

/// Appending one more continuation byte multiplies the running value by 256
/// and adds the byte.
proof fn lemma_vint_acc_snoc(init: int, s: Seq<u8>, b: u8)
    ensures
        vint_acc_spec(init, s.push(b)) == vint_acc_spec(init, s) * 256 + b,
    decreases s.len(),
{
    reveal_with_fuel(vint_acc_spec, 3);
    if s.len() == 0 {
        assert(s.push(b).skip(1) =~= Seq::<u8>::empty());
        assert(s.push(b)[0] == b);
    } else {
        assert(s.push(b).skip(1) =~= s.skip(1).push(b));
        lemma_vint_acc_snoc(init * 256 + s[0], s.skip(1), b);
    }
}

/// 256 to the power `n`.
pub open spec fn pow256_spec(n: int) -> int
    decreases n,
{
    if n <= 0 {
        1
    } else {
        256 * pow256_spec(n - 1)
    }
}

/// A partial vint value stays below `128 * 256^k` after folding `k` bytes in.
proof fn lemma_vint_acc_bound(init: int, s: Seq<u8>, bound: int)
    requires
        0 <= init < bound,
    ensures
        vint_acc_spec(init, s) < bound * pow256_spec(s.len() as int),
    decreases s.len(),
{
    if s.len() == 0 {
    } else {
        lemma_vint_acc_bound(init * 256 + s[0], s.skip(1), bound * 256);
        let p = pow256_spec(s.len() as int - 1);
        assert(pow256_spec(s.len() as int) == 256 * p);
        assert((bound * 256) * p == bound * (256 * p)) by (nonlinear_arith);
    }
}

/// Determines the width announced by a vint's first byte: the count of
/// continuation bytes that follow it. A result of 8 announces no valid vint.
pub fn vint_width(first_byte: u8) -> (w: u8)
    ensures
        w == vint_width_spec(first_byte),
{
    if first_byte >= 0x80 {
        0
    } else if first_byte >= 0x40 {
        1
    } else if first_byte >= 0x20 {
        2
    } else if first_byte >= 0x10 {
        3
    } else if first_byte >= 0x08 {
        4
    } else if first_byte >= 0x04 {
        5
    } else if first_byte >= 0x02 {
        6
    } else if first_byte >= 0x01 {
        7
    } else {
        8
    }
}

/// Computes the value of a vint from its first byte and its continuation
/// bytes. The caller must have read exactly as many continuation bytes as
/// the first byte announces.
pub fn vint_value(first_byte: u8, rest: &Vec<u8>) -> (v: u64)
    requires
        vint_width_spec(first_byte) < 8,
        rest@.len() == vint_width_spec(first_byte),
    ensures
        v == vint_value_spec(first_byte, rest@),
{
    // The first byte is part of the number; clear the width marker bit
    // before using its value.
    let first_value: u8 = if first_byte >= 0x80 {
        first_byte - 0x80
    } else if first_byte >= 0x40 {
        first_byte - 0x40
    } else if first_byte >= 0x20 {
        first_byte - 0x20
    } else if first_byte >= 0x10 {
        first_byte - 0x10
    } else if first_byte >= 0x08 {
        first_byte - 0x08
    } else if first_byte >= 0x04 {
        first_byte - 0x04
    } else if first_byte >= 0x02 {
        first_byte - 0x02
    } else {
        first_byte - 0x01
    };

    let mut value: u64 = first_value as u64;
    let mut i: usize = 0;
    while i < rest.len()
        invariant
            i <= rest@.len() <= 7,
            value == vint_acc_spec(vint_first_value_spec(first_byte), rest@.take(i as int)),
            value < 128 * pow256_spec(i as int),
        decreases rest@.len() - i,
    {
        let byte = rest[i];
        proof {
            reveal_with_fuel(pow256_spec, 9);
            assert(pow256_spec(i as int) <= pow256_spec(7)) by {
                reveal_with_fuel(pow256_spec, 9);
                lemma_pow256_monotonic(i as int, 7);
            }
            lemma_vint_acc_snoc(
                vint_first_value_spec(first_byte),
                rest@.take(i as int),
                rest@[i as int],
            );
            assert(rest@.take(i as int).push(rest@[i as int]) =~= rest@.take(i as int + 1));
        }
        value = value * 256 + (byte as u64);
        i += 1;
    }
    proof {
        assert(rest@.take(rest@.len() as int) =~= rest@);
    }
    value
}

/// `pow256_spec` grows with its argument.
proof fn lemma_pow256_monotonic(a: int, b: int)
    requires
        a <= b,
    ensures
        pow256_spec(a) <= pow256_spec(b),
    decreases b - a,
{
    if a < b {
        lemma_pow256_monotonic(a, b - 1);
        if b >= 1 {
            assert(pow256_spec(b) == 256 * pow256_spec(b - 1));
            lemma_pow256_positive(b - 1);
        }
    }
}

/// `pow256_spec` is always at least one.
proof fn lemma_pow256_positive(n: int)
    ensures
        pow256_spec(n) >= 1,
    decreases (if n > 0 {
        n
    } else {
        0
    }),
{
    if n > 0 {
        lemma_pow256_positive(n - 1);
    }
}

} // verus!
