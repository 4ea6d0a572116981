//! Integer arithmetic of the base ISA and of the multiply/divide extension.
use vstd::prelude::*;
use vstd::arithmetic::div_mod::{lemma_fundamental_div_mod, lemma_mod_multiples_vanish};
use crate::decode::{word, sval};

verus! {

pub open spec fn magnitude(x: int) -> int {
    if x < 0 {
        -x
    } else {
        x
    }
}

/// Quotient rounded toward zero.
pub open spec fn trunc_div(x: int, y: int) -> int {
    if (x < 0) != (y < 0) {
        -(magnitude(x) / magnitude(y))
    } else {
        magnitude(x) / magnitude(y)
    }
}

/// Remainder that goes with `trunc_div`: it takes the sign of the dividend.
pub open spec fn trunc_rem(x: int, y: int) -> int {
    if x < 0 {
        -(magnitude(x) % magnitude(y))
    } else {
        magnitude(x) % magnitude(y)
    }
}

/// DIV: a zero divisor gives all ones; `INT_MIN / -1` wraps to `INT_MIN`.
pub open spec fn div_signed(a: u32, b: u32) -> u32 {
    if b == 0 {
        0xffff_ffff
    } else {
        word(trunc_div(sval(a), sval(b)))
    }
}

/// REM: a zero divisor gives the dividend.
pub open spec fn rem_signed(a: u32, b: u32) -> u32 {
    if b == 0 {
        a
    } else {
        word(trunc_rem(sval(a), sval(b)))
    }
}

pub open spec fn div_unsigned(a: u32, b: u32) -> u32 {
    if b == 0 {
        0xffff_ffff
    } else {
        a / b
    }
}

pub open spec fn rem_unsigned(a: u32, b: u32) -> u32 {
    if b == 0 {
        a
    } else {
        a % b
    }
}

/// Upper 32 bits of a 64-bit two's-complement product.
pub open spec fn high_word(p: int) -> u32 {
    word(p / 0x1_0000_0000)
}

/// Result of the M-extension operation that `funct3` selects.
pub open spec fn muldiv_result(funct3: u32, a: u32, b: u32) -> u32 {
    if funct3 == 0 {
        word(a * b)
    } else if funct3 == 1 {
        high_word(sval(a) * sval(b))
    } else if funct3 == 2 {
        high_word(sval(a) * b)
    } else if funct3 == 3 {
        high_word(a * b)
    } else if funct3 == 4 {
        div_signed(a, b)
    } else if funct3 == 5 {
        div_unsigned(a, b)
    } else if funct3 == 6 {
        rem_signed(a, b)
    } else {
        rem_unsigned(a, b)
    }
}

/// Result of the base-ISA operation that `funct3` selects; `sub` turns ADD
/// into SUB and `arith` turns SRL into SRA.
pub open spec fn alu_result(funct3: u32, sub: bool, arith: bool, a: u32, b: u32) -> u32 {
    if funct3 == 0 {
        if sub {
            word(a - b)
        } else {
            word(a + b)
        }
    } else if funct3 == 1 {
        a << (b & 0x1f)
    } else if funct3 == 2 {
        if sval(a) < sval(b) {
            1
        } else {
            0
        }
    } else if funct3 == 3 {
        if a < b {
            1
        } else {
            0
        }
    } else if funct3 == 4 {
        a ^ b
    } else if funct3 == 5 {
        if arith {
            ((a as i32) >> (b & 0x1f)) as u32
        } else {
            a >> (b & 0x1f)
        }
    } else if funct3 == 6 {
        a | b
    } else {
        a & b
    }
}

/// Two's-complement value of a word, widened.
fn signed(a: u32) -> (r: i64)
    ensures
        r as int == sval(a),
{
    let s = a as i32;
    assert(s == a as i32 ==> (a < 0x8000_0000 ==> s as int == a as int)) by (bit_vector);
    assert(s == a as i32 ==> (a >= 0x8000_0000 ==> s as int == a as int - 0x1_0000_0000))
        by (bit_vector);
    s as i64
}

/// The upper word of a 64-bit pattern is the floor of its value over 2^32,
/// wrapped.
proof fn lemma_high_word(p: int, w: u64)
    requires
        -0x8000_0000_0000_0000 <= p < 0x1_0000_0000_0000_0000,
        w as int == (if p < 0 { p + 0x1_0000_0000_0000_0000 } else { p }),
    ensures
        ((w >> 32) as u32) == high_word(p),
{
    assert((w >> 32) as int == w as int / 0x1_0000_0000 && (w >> 32) < 0x1_0000_0000
        && ((w >> 32) as u32) as int == (w >> 32) as int) by (bit_vector);
    lemma_fundamental_div_mod(p, 0x1_0000_0000);
    lemma_fundamental_div_mod(w as int, 0x1_0000_0000);
}

/// Upper word of the two's-complement product `p`, computed from a 64-bit
/// signed value.
fn high_of_i64(p: i64) -> (r: u32)
    ensures
        r == high_word(p as int),
{
    let w = p as u64;
    assert(w == p as u64 ==> w as int == (if p < 0 { p as int + 0x1_0000_0000_0000_0000 } else {
        p as int
    })) by (bit_vector);
    proof {
        lemma_high_word(p as int, w);
    }
    (w >> 32) as u32
}

/// Signed quotient and remainder, rounded toward zero, from the magnitudes.
fn div_rem_signed(a: u32, b: u32) -> (r: (u32, u32))
    requires
        b != 0,
    ensures
        r.0 == div_signed(a, b),
        r.1 == rem_signed(a, b),
{
    let na = a >= 0x8000_0000;
    let nb = b >= 0x8000_0000;
    let ma = if na {
        0u32.wrapping_sub(a)
    } else {
        a
    };
    let mb = if nb {
        0u32.wrapping_sub(b)
    } else {
        b
    };
    assert(ma as int == magnitude(sval(a)));
    assert(mb as int == magnitude(sval(b)));
    let q0 = ma / mb;
    let r0 = ma % mb;
    proof {
        lemma_fundamental_div_mod(ma as int, mb as int);
        assert(q0 <= ma) by (nonlinear_arith)
            requires
                q0 == ma as int / mb as int,
                mb >= 1,
        ;
    }
    let q = if na != nb {
        0u32.wrapping_sub(q0)
    } else {
        q0
    };
    let r = if na {
        0u32.wrapping_sub(r0)
    } else {
        r0
    };
    (q, r)
}

/// MUL, MULH, MULHSU, MULHU, DIV, DIVU, REM or REMU, as `funct3` selects.
pub fn muldiv_op(funct3: u32, a: u32, b: u32) -> (r: u32)
    requires
        funct3 < 8,
    ensures
        r == muldiv_result(funct3, a, b),
{
    if funct3 == 0 {
        a.wrapping_mul(b)
    } else if funct3 == 1 {
        let x = signed(a);
        let y = signed(b);
        assert(-0x8000_0000 * 0x8000_0000 <= x * y <= 0x8000_0000 * 0x8000_0000)
            by (nonlinear_arith)
            requires
                -0x8000_0000 <= x < 0x8000_0000,
                -0x8000_0000 <= y < 0x8000_0000,
        ;
        high_of_i64(x * y)
    } else if funct3 == 2 {
        let x = signed(a);
        let y = b as i64;
        assert(-0x8000_0000 * 0x1_0000_0000 <= x * y < 0x8000_0000 * 0x1_0000_0000)
            by (nonlinear_arith)
            requires
                -0x8000_0000 <= x < 0x8000_0000,
                0 <= y < 0x1_0000_0000,
        ;
        high_of_i64(x * y)
    } else if funct3 == 3 {
        let x = a as u64;
        let y = b as u64;
        assert(x * y <= 0xffff_ffff * 0xffff_ffff) by (nonlinear_arith)
            requires
                x <= 0xffff_ffff,
                y <= 0xffff_ffff,
        ;
        let p = x * y;
        proof {
            lemma_high_word(p as int, p);
        }
        (p >> 32) as u32
    } else if funct3 == 4 || funct3 == 6 {
        if b == 0 {
            if funct3 == 4 {
                0xffff_ffff
            } else {
                a
            }
        } else {
            let (q, r) = div_rem_signed(a, b);
            if funct3 == 4 {
                q
            } else {
                r
            }
        }
    } else if b == 0 {
        if funct3 == 5 {
            0xffff_ffff
        } else {
            a
        }
    } else if funct3 == 5 {
        a / b
    } else {
        a % b
    }
}

/// ADD/SUB, SLL, SLT, SLTU, XOR, SRL/SRA, OR or AND, as `funct3` selects.
pub fn alu_op(funct3: u32, sub: bool, arith: bool, a: u32, b: u32) -> (r: u32)
    requires
        funct3 < 8,
    ensures
        r == alu_result(funct3, sub, arith, a, b),
{
    let sh = b & 0x1f;
    assert(sh == b & 0x1f ==> sh < 32) by (bit_vector);
    if funct3 == 0 {
        if sub {
            a.wrapping_sub(b)
        } else {
            a.wrapping_add(b)
        }
    } else if funct3 == 1 {
        a << sh
    } else if funct3 == 2 {
        let x = signed(a);
        let y = signed(b);
        if x < y {
            1
        } else {
            0
        }
    } else if funct3 == 3 {
        if a < b {
            1
        } else {
            0
        }
    } else if funct3 == 4 {
        a ^ b
    } else if funct3 == 5 {
        if arith {
            ((a as i32) >> sh) as u32
        } else {
            a >> sh
        }
    } else if funct3 == 6 {
        a | b
    } else {
        a & b
    }
}

/// For a nonzero divisor, quotient times divisor plus remainder gives back
/// the dividend, in 32-bit two's-complement arithmetic.
pub proof fn lemma_div_rem_identity(a: u32, b: u32)
    requires
        b != 0,
    ensures
        word(div_signed(a, b) as int * b as int + rem_signed(a, b) as int) == a,
{
    let x = sval(a);
    let y = sval(b);
    let q = trunc_div(x, y);
    let r = trunc_rem(x, y);
    let mx = magnitude(x);
    let my = magnitude(y);
    lemma_fundamental_div_mod(mx, my);
    assert(q * y + r == x) by (nonlinear_arith)
        requires
            mx == my * (mx / my) + mx % my,
            mx == magnitude(x),
            my == magnitude(y),
            q == trunc_div(x, y),
            r == trunc_rem(x, y),
            y != 0,
    ;
    let m: int = 0x1_0000_0000;
    let dq = div_signed(a, b) as int;
    let dr = rem_signed(a, b) as int;
    lemma_fundamental_div_mod(q, m);
    lemma_fundamental_div_mod(r, m);
    let k1 = -(q / m);
    let k2 = if b >= 0x8000_0000 { 1int } else { 0int };
    let k3 = -(r / m);
    assert(dq == q + m * k1);
    assert(b as int == y + m * k2);
    assert(dr == r + m * k3);
    let kk = q * k2 + k1 * y + k1 * k2 * m + k3;
    assert(dq * (b as int) + dr == m * kk + x) by (nonlinear_arith)
        requires
            dq == q + m * k1,
            b as int == y + m * k2,
            dr == r + m * k3,
            q * y + r == x,
            kk == q * k2 + k1 * y + k1 * k2 * m + k3,
    ;
    lemma_mod_multiples_vanish(kk, x, m);
}

/// Division by zero: DIV and DIVU give all ones, REM and REMU the dividend.
pub proof fn lemma_division_by_zero(a: u32)
    ensures
        muldiv_result(4, a, 0) == 0xffff_ffff,
        muldiv_result(5, a, 0) == 0xffff_ffff,
        muldiv_result(6, a, 0) == a,
        muldiv_result(7, a, 0) == a,
{
}

} // verus!
