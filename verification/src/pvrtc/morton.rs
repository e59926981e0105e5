//! Morton order as bit interleaving. On a block grid whose sides are powers of two, the
//! Morton index interleaves the low bits of the two block coordinates (up to the shorter
//! side) and appends the remaining high bits of the longer coordinate, so it numbers the
//! blocks one to one.
use vstd::prelude::*;
use vstd::arithmetic::power2::{pow2, lemma_pow2_adds, lemma_pow2_unfold, lemma_pow2_pos, lemma2_to64};
use vstd::arithmetic::div_mod::{lemma_fundamental_div_mod, lemma_fundamental_div_mod_converse, lemma_div_denominator, lemma_mod_breakdown};
use vstd::bits::{lemma_usize_pow2_no_overflow, lemma_usize_shl_is_mul, lemma_usize_shr_is_div};
use crate::pvrtc::{morton_from, spec_morton};

verus! {

/// The interleaving of the low `t` bits of `x` and `y`: bit `2i` of the result is bit `i`
/// of `y`, bit `2i + 1` is bit `i` of `x`.
pub open spec fn interleave(x: nat, y: nat, t: nat) -> nat
    decreases t,
{
    if t == 0 {
        0
    } else {
        (y % 2) + 2 * (x % 2) + 4 * interleave(x / 2, y / 2, (t - 1) as nat)
    }
}

proof fn lemma_pow2_step(t: nat)
    requires
        t > 0,
    ensures
        pow2(t) == 2 * pow2((t - 1) as nat),
        pow2(2 * t) == 4 * pow2((2 * t - 2) as nat),
        pow2(0) == 1,
        pow2((t - 1) as nat) > 0,
{
    lemma_pow2_pos((t - 1) as nat);
    lemma_pow2_unfold(t);
    lemma_pow2_adds(2, (2 * t - 2) as nat);
    lemma2_to64();
}

/// An interleaving of `t` bits from each coordinate has `2t` bits.
proof fn lemma_interleave_bound(x: nat, y: nat, t: nat)
    ensures
        interleave(x, y, t) < pow2(2 * t),
    decreases t,
{
    if t == 0 {
        lemma2_to64();
    } else {
        lemma_interleave_bound(x / 2, y / 2, (t - 1) as nat);
        lemma_pow2_step(t);
    }
}

/// Only the low `t` bits of the coordinates take part.
proof fn lemma_interleave_low(x: nat, y: nat, t: nat)
    ensures
        interleave(x, y, t) == interleave(x % pow2(t), y % pow2(t), t),
    decreases t,
{
    lemma_pow2_pos(t);
    if t > 0 {
        let p = pow2((t - 1) as nat);
        lemma_pow2_step(t);
        lemma_mod_breakdown(x as int, 2, p as int);
        lemma_mod_breakdown(y as int, 2, p as int);
        lemma_fundamental_div_mod_converse((x % pow2(t)) as int, 2, ((x / 2) % p) as int, (x % 2) as int);
        lemma_fundamental_div_mod_converse((y % pow2(t)) as int, 2, ((y / 2) % p) as int, (y % 2) as int);
        lemma_interleave_low(x / 2, y / 2, (t - 1) as nat);
        let xm = x % pow2(t);
        let ym = y % pow2(t);
        assert(xm % 2 == x % 2 && xm / 2 == (x / 2) % p);
        assert(ym % 2 == y % 2 && ym / 2 == (y / 2) % p);
        assert(interleave(xm, ym, t) == (ym % 2) + 2 * (xm % 2) + 4 * interleave(xm / 2, ym / 2, (t - 1) as nat));
        assert(interleave(x, y, t) == (y % 2) + 2 * (x % 2) + 4 * interleave(x / 2, y / 2, (t - 1) as nat));
        assert(interleave(xm / 2, ym / 2, (t - 1) as nat) == interleave(x / 2, y / 2, (t - 1) as nat));
        assert(interleave(x, y, t) == interleave(xm, ym, t));
    } else {
        assert(interleave(x, y, t) == 0);
        assert(interleave(x % pow2(t), y % pow2(t), t) == 0);
    }
}

/// Appending bit `t` of each coordinate puts them at bits `2t` (from `y`) and `2t + 1`
/// (from `x`).
#[verifier::spinoff_prover]
proof fn lemma_interleave_top(x: nat, y: nat, t: nat)
    ensures
        interleave(x, y, t + 1) == interleave(x, y, t) + pow2(2 * t) * (2 * ((x / pow2(t)) % 2) + (y / pow2(t)) % 2),
    decreases t,
{
    lemma_pow2_pos(t);
    if t == 0 {
        lemma2_to64();
        assert(interleave(x / 2, y / 2, 0) == 0);
        assert(interleave(x, y, 0) == 0);
        assert(interleave(x, y, 1) == (y % 2) + 2 * (x % 2));
        assert(x / pow2(0) == x && y / pow2(0) == y);
        assert(pow2(2 * t) == 1);
    } else {
        lemma_interleave_top(x / 2, y / 2, (t - 1) as nat);
        lemma_pow2_step(t);
        lemma_div_denominator(x as int, 2, pow2((t - 1) as nat) as int);
        lemma_div_denominator(y as int, 2, pow2((t - 1) as nat) as int);
        let q = 2 * ((x / pow2(t)) % 2) + (y / pow2(t)) % 2;
        let tm = (t - 1) as nat;
        assert((x / 2) / pow2(tm) == x / pow2(t) && (y / 2) / pow2(tm) == y / pow2(t));
        assert(interleave(x / 2, y / 2, t) == interleave(x / 2, y / 2, tm) + pow2(2 * tm) * q);
        assert(interleave(x, y, t + 1) == (y % 2) + 2 * (x % 2) + 4 * interleave(x / 2, y / 2, t));
        assert(interleave(x, y, t) == (y % 2) + 2 * (x % 2) + 4 * interleave(x / 2, y / 2, tm));
        assert(2 * tm == (2 * t - 2) as nat);
        assert(4 * (pow2(2 * tm) * q) == pow2(2 * t) * q) by (nonlinear_arith)
            requires
                pow2(2 * t) == 4 * pow2(2 * tm),
        ;
        assert(interleave(x, y, t + 1) == interleave(x, y, t) + pow2(2 * t) * q);
    }
}

/// Interleaving is one to one on coordinates below `2^t`.
proof fn lemma_interleave_injective(x1: nat, y1: nat, x2: nat, y2: nat, t: nat)
    requires
        x1 < pow2(t),
        y1 < pow2(t),
        x2 < pow2(t),
        y2 < pow2(t),
        interleave(x1, y1, t) == interleave(x2, y2, t),
    ensures
        x1 == x2,
        y1 == y2,
    decreases t,
{
    if t == 0 {
        lemma2_to64();
    } else {
        lemma_pow2_step(t);
        let d1 = (y1 % 2) + 2 * (x1 % 2);
        let d2 = (y2 % 2) + 2 * (x2 % 2);
        let r1 = interleave(x1 / 2, y1 / 2, (t - 1) as nat);
        let r2 = interleave(x2 / 2, y2 / 2, (t - 1) as nat);
        lemma_fundamental_div_mod_converse(interleave(x1, y1, t) as int, 4, r1 as int, d1 as int);
        lemma_fundamental_div_mod_converse(interleave(x2, y2, t) as int, 4, r2 as int, d2 as int);
        assert(x1 % 2 == x2 % 2 && y1 % 2 == y2 % 2);
        lemma_interleave_injective(x1 / 2, y1 / 2, x2 / 2, y2 / 2, (t - 1) as nat);
    }
}

/// Every number below `2^(2t)` is the interleaving of coordinates below `2^t`.
proof fn lemma_interleave_onto(m: nat, t: nat) -> (xy: (nat, nat))
    requires
        m < pow2(2 * t),
    ensures
        xy.0 < pow2(t),
        xy.1 < pow2(t),
        interleave(xy.0, xy.1, t) == m,
    decreases t,
{
    if t == 0 {
        lemma2_to64();
        (0, 0)
    } else {
        lemma_pow2_step(t);
        let d = m % 4;
        let r = m / 4;
        let (x0, y0) = lemma_interleave_onto(r, (t - 1) as nat);
        let x = 2 * x0 + d / 2;
        let y = 2 * y0 + d % 2;
        assert(x % 2 == d / 2 && x / 2 == x0 && y % 2 == d % 2 && y / 2 == y0);
        (x, y)
    }
}


/// The shorter side, in blocks, of a grid of `2^na` by `2^nb` blocks.
pub open spec fn short_side(na: usize, nb: usize) -> usize {
    if na <= nb {
        1usize << na
    } else {
        1usize << nb
    }
}

/// Some block of a grid of `2^na` by `2^nb` blocks has Morton index `m`.
pub open spec fn index_has_block(na: usize, nb: usize, m: usize) -> bool {
    exists|x: usize, y: usize| x < (1usize << na) && y < (1usize << nb) && #[trigger] spec_morton(x, y, short_side(na, nb)) == m
}

proof fn lemma_small_div(x: nat, d: nat)
    requires
        x < d,
    ensures
        x / d == 0,
{
    lemma_fundamental_div_mod_converse(x as int, d as int, 0, x as int);
}

/// `1 << n` is `2^n` for shifts below the word size.
proof fn lemma_shl_one(n: usize)
    requires
        n < usize::BITS,
    ensures
        (1usize << n) == pow2(n as nat),
        pow2(n as nat) > 0,
{
    lemma_usize_pow2_no_overflow(n as nat);
    lemma_usize_shl_is_mul(1, n);
}

/// The Morton loop from an intermediate state whose offset interleaves the `shift` low
/// bits computes the interleaving of the `k` low bits plus the high bits above them.
proof fn lemma_morton_from_closed(
    x: usize,
    y: usize,
    side: usize,
    mask: usize,
    shift: usize,
    offset: usize,
    na: usize,
    nb: usize,
    k: usize,
)
    requires
        x < (1usize << na),
        y < (1usize << nb),
        k == na || k == nb,
        k <= na,
        k <= nb,
        na + nb < usize::BITS,
        side == 1usize << k,
        mask == 1usize << shift,
        shift <= k,
        offset == interleave(x as nat, y as nat, shift as nat),
    ensures
        morton_from(x, y, side, mask, shift, offset) == interleave(x as nat, y as nat, k as nat) + pow2(
            (2 * k) as nat,
        ) * (x as nat / pow2(k as nat) + y as nat / pow2(k as nat)),
    decreases k - shift,
{
    let nab = (na + nb) as usize;
    lemma_shl_one(nab);
    assert((mask < side) == (shift < k) && shift < 63) by (bit_vector)
        requires
            side == 1usize << k,
            mask == 1usize << shift,
            shift <= k,
            k <= na,
            k <= nb,
            na <= 64,
            nb <= 64,
            (1usize << nab) != 0,
            nab == na + nb,
    ;
    let s2 = (2 * shift) as usize;
    lemma_shl_one(s2);
    lemma_interleave_bound(x as nat, y as nat, shift as nat);
    if shift < k {
        let s22 = (2 * shift + 2) as usize;
        lemma_shl_one(s22);
        let next = offset | (((y & mask) | ((x & mask) << 1usize)) << shift);
        assert(next == offset + (1usize << s2) * (2 * ((x >> shift) & 1) + ((y >> shift) & 1))) by (bit_vector)
            requires
                mask == 1usize << shift,
                offset < (1usize << s2),
                s2 == 2 * shift,
                s22 == 2 * shift + 2,
                (1usize << s22) != 0,
                next == offset | (((y & mask) | ((x & mask) << 1usize)) << shift),
        ;
        lemma_usize_shr_is_div(x, shift);
        lemma_usize_shr_is_div(y, shift);
        let xs = x >> shift;
        let ys = y >> shift;
        assert((xs & 1) == xs % 2 && (ys & 1) == ys % 2) by (bit_vector);
        lemma_interleave_top(x as nat, y as nat, shift as nat);
        assert(next == interleave(x as nat, y as nat, (shift + 1) as nat));
        assert((mask << 1usize) == 1usize << ((shift + 1) as usize)) by (bit_vector)
            requires
                mask == 1usize << shift,
                shift < 63,
        ;
        lemma_morton_from_closed(x, y, side, (mask << 1usize) as usize, (shift + 1) as usize, next, na, nb, k);
    } else {
        let fin = offset | (((x | y) >> shift) << (shift * 2));
        assert(fin == offset + (1usize << s2) * ((x >> k) + (y >> k))) by (bit_vector)
            requires
                x < (1usize << na),
                y < (1usize << nb),
                k == na || k == nb,
                k <= na,
                k <= nb,
                na <= 64,
                nb <= 64,
                nab == na + nb,
                (1usize << nab) != 0,
                shift == k,
                s2 == 2 * shift,
                offset < (1usize << s2),
                fin == offset | (((x | y) >> shift) << (shift * 2)),
        ;
        lemma_usize_shr_is_div(x, k);
        lemma_usize_shr_is_div(y, k);
    }
}

/// The Morton index of block `(x, y)` on a grid of `2^na` by `2^nb` blocks interleaves the
/// low `k` bits of the coordinates, `k` the shorter side's exponent (bit `2i` from `y`, bit
/// `2i + 1` from `x`), and puts the remaining high bits of the longer coordinate above them.
pub proof fn lemma_morton_interleaves(x: usize, y: usize, na: usize, nb: usize)
    requires
        x < (1usize << na),
        y < (1usize << nb),
        na + nb < usize::BITS,
    ensures
        spec_morton(x, y, short_side(na, nb)) == interleave(
            x as nat,
            y as nat,
            (if na <= nb { na } else { nb }) as nat,
        ) + pow2((2 * (if na <= nb { na } else { nb })) as nat) * (x as nat / pow2(
            (if na <= nb { na } else { nb }) as nat,
        ) + y as nat / pow2((if na <= nb { na } else { nb }) as nat)),
{
    let k = if na <= nb { na } else { nb };
    assert(1usize << 0usize == 1usize) by (bit_vector);
    lemma_morton_from_closed(x, y, 1usize << k, 1, 0, 0, na, nb, k);
}

/// On a grid of `2^na` by `2^nb` blocks, Morton indexing numbers the blocks one to one:
/// two blocks with the same index are the same block, and every index below the number of
/// blocks belongs to a block.
pub proof fn lemma_morton_one_to_one(na: usize, nb: usize)
    requires
        na + nb < usize::BITS,
    ensures
        forall|x1: usize, y1: usize, x2: usize, y2: usize|
            x1 < (1usize << na) && y1 < (1usize << nb) && x2 < (1usize << na) && y2 < (1usize << nb)
                && #[trigger] spec_morton(x1, y1, short_side(na, nb))
                == #[trigger] spec_morton(x2, y2, short_side(na, nb)) ==> x1 == x2 && y1
                == y2,
        forall|m: usize| m < (1usize << ((na + nb) as usize)) ==> #[trigger] index_has_block(na, nb, m),
{
    let k = if na <= nb { na } else { nb };
    let side = short_side(na, nb);
    let kn = k as nat;
    let pk = pow2(kn);
    let p2k = pow2(2 * kn);
    assert((2 * k) as nat == 2 * kn);
    lemma_shl_one(na);
    lemma_shl_one(nb);
    lemma_shl_one((na + nb) as usize);
    lemma_shl_one(k);
    lemma_pow2_adds(kn, kn);
    assert(kn + kn == 2 * kn);
    assert forall|x1: usize, y1: usize, x2: usize, y2: usize|
        x1 < (1usize << na) && y1 < (1usize << nb) && x2 < (1usize << na) && y2 < (1usize << nb)
            && #[trigger] spec_morton(x1, y1, side) == #[trigger] spec_morton(x2, y2, side) implies x1 == x2 && y1 == y2 by {
        lemma_morton_interleaves(x1, y1, na, nb);
        lemma_morton_interleaves(x2, y2, na, nb);
        lemma_interleave_low(x1 as nat, y1 as nat, kn);
        lemma_interleave_low(x2 as nat, y2 as nat, kn);
        let a1 = (x1 as nat) % pk;
        let b1 = (y1 as nat) % pk;
        let a2 = (x2 as nat) % pk;
        let b2 = (y2 as nat) % pk;
        let q1 = x1 as nat / pk + y1 as nat / pk;
        let q2 = x2 as nat / pk + y2 as nat / pk;
        lemma_interleave_bound(a1, b1, kn);
        lemma_interleave_bound(a2, b2, kn);
        let c1 = spec_morton(x1, y1, side) as int;
        assert(c1 == q1 * p2k + interleave(a1, b1, kn)) by (nonlinear_arith)
            requires
                c1 == interleave(a1, b1, kn) + p2k * q1,
        ;
        lemma_fundamental_div_mod_converse(c1, p2k as int, q1 as int, interleave(a1, b1, kn) as int);
        let c2 = spec_morton(x2, y2, side) as int;
        assert(c2 == q2 * p2k + interleave(a2, b2, kn)) by (nonlinear_arith)
            requires
                c2 == interleave(a2, b2, kn) + p2k * q2,
        ;
        lemma_fundamental_div_mod_converse(c2, p2k as int, q2 as int, interleave(a2, b2, kn) as int);
        lemma_interleave_injective(a1, b1, a2, b2, kn);
        lemma_fundamental_div_mod(x1 as int, pk as int);
        lemma_fundamental_div_mod(x2 as int, pk as int);
        lemma_fundamental_div_mod(y1 as int, pk as int);
        lemma_fundamental_div_mod(y2 as int, pk as int);
        if na <= nb {
            lemma_small_div(x1 as nat, pk);
            lemma_small_div(x2 as nat, pk);
        } else {
            lemma_small_div(y1 as nat, pk);
            lemma_small_div(y2 as nat, pk);
        }
        assert(x1 == pk * (x1 as nat / pk) + a1);
        assert(x2 == pk * (x2 as nat / pk) + a2);
        assert(y1 == pk * (y1 as nat / pk) + b1);
        assert(y2 == pk * (y2 as nat / pk) + b2);
    }
    assert forall|m: usize| m < (1usize << ((na + nb) as usize)) implies #[trigger] index_has_block(na, nb, m) by {
        let rest = (na + nb - 2 * k) as nat;
        lemma_pow2_adds(2 * kn, rest);
        assert(2 * kn + rest == (na + nb) as nat);
        let q = m as nat / p2k;
        let r = m as nat % p2k;
        lemma_fundamental_div_mod(m as int, p2k as int);
        assert(q < pow2(rest)) by (nonlinear_arith)
            requires
                m < p2k * pow2(rest),
                m == p2k * q + r,
                0 <= r,
                p2k > 0,
        ;
        lemma_pow2_adds(kn, rest);
        let (x0, y0) = lemma_interleave_onto(r, kn);
        let (x, y) = if na <= nb { (x0, y0 + pk * q) } else { (x0 + pk * q, y0) };
        assert(pk * q + pk <= pk * pow2(rest)) by (nonlinear_arith)
            requires
                q < pow2(rest),
                pk > 0,
        ;
        if na <= nb {
            assert(kn + rest == nb as nat);
        } else {
            assert(kn + rest == na as nat);
        }
        assert(x < (1usize << na) && y < (1usize << nb));
        let xu = x as usize;
        let yu = y as usize;
        lemma_morton_interleaves(xu, yu, na, nb);
        lemma_interleave_low(x, y, kn);
        if na <= nb {
            assert(y == q * pk + y0) by (nonlinear_arith)
                requires
                    y == y0 + pk * q,
            ;
            lemma_fundamental_div_mod_converse(x as int, pk as int, 0, x0 as int);
            lemma_fundamental_div_mod_converse(y as int, pk as int, q as int, y0 as int);
        } else {
            assert(x == q * pk + x0) by (nonlinear_arith)
                requires
                    x == x0 + pk * q,
            ;
            lemma_fundamental_div_mod_converse(x as int, pk as int, q as int, x0 as int);
            lemma_fundamental_div_mod_converse(y as int, pk as int, 0, y0 as int);
        }
        assert(spec_morton(xu, yu, side) == m);
    }
}

}
