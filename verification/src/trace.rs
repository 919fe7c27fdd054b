//! Draw-call trace text.
//!
//! For every line it draws, the renderer appends one human-readable
//! trace line to its log. The exact text of that line is fixed here:
//! a newline, then `Draw line [(x1, y1)| (x2, y2)]` with the four pixel
//! coordinates in decimal.

use vstd::prelude::*;

verus! {

/// Decimal digits of `n`, most significant first.
pub open spec fn dec_rep(n: nat) -> Seq<u8>
    decreases n,
{
    if n < 10 {
        seq![(48 + n) as u8]
    } else {
        dec_rep(n / 10).push((48 + n % 10) as u8)
    }
}

/// Signed decimal text of `x`.
pub open spec fn int_rep(x: int) -> Seq<u8> {
    if x < 0 {
        seq![45u8] + dec_rep((-x) as nat)
    } else {
        dec_rep(x as nat)
    }
}

/// The text of one coordinate pair: `(x, y)`.
pub open spec fn pair_rep(x: int, y: int) -> Seq<u8> {
    seq![40u8] + int_rep(x) + seq![44u8, 32u8] + int_rep(y) + seq![41u8]
}

/// The trace line for one emitted draw call.
pub open spec fn draw_line_rep(x1: int, y1: int, x2: int, y2: int) -> Seq<u8> {
    seq![10u8, 68u8, 114u8, 97u8, 119u8, 32u8, 108u8, 105u8, 110u8, 101u8, 32u8, 91u8] + pair_rep(
        x1,
        y1,
    ) + seq![124u8, 32u8] + pair_rep(x2, y2) + seq![93u8]
}

/// Append the decimal digits of `n` to `out`.
fn push_dec(n: u32, out: &mut Vec<u8>)
    ensures
        final(out)@ == old(out)@ + dec_rep(n as nat),
    decreases n,
{
    if n >= 10 {
        push_dec(n / 10, out);
    }
    let d: u8 = (48 + n % 10) as u8;
    out.push(d);
    proof {
        assert(out@ =~= old(out)@ + dec_rep(n as nat));
    }
}

/// Append the signed decimal text of `x` to `out`.
fn push_int(x: i32, out: &mut Vec<u8>)
    ensures
        final(out)@ == old(out)@ + int_rep(x as int),
{
    if x < 0 {
        out.push(45u8);
        let m: u32 = (-(x as i64)) as u32;
        push_dec(m, out);
        proof {
            assert(out@ =~= old(out)@ + int_rep(x as int));
        }
    } else {
        push_dec(x as u32, out);
    }
}

/// Append `(x, y)` to `out`.
fn push_pair(x: i32, y: i32, out: &mut Vec<u8>)
    ensures
        final(out)@ == old(out)@ + pair_rep(x as int, y as int),
{
    out.push(40u8);
    push_int(x, out);
    out.push(44u8);
    out.push(32u8);
    push_int(y, out);
    out.push(41u8);
    proof {
        assert(out@ =~= old(out)@ + pair_rep(x as int, y as int));
    }
}

/// The trace line the renderer appends for one draw call from pixel
/// `(x1, y1)` to pixel `(x2, y2)`.
pub fn draw_line_trace(x1: i32, y1: i32, x2: i32, y2: i32) -> (r: Vec<u8>)
    ensures
        r@ == draw_line_rep(x1 as int, y1 as int, x2 as int, y2 as int),
{
    let mut out: Vec<u8> = Vec::new();
    out.push(10u8);
    out.push(68u8);
    out.push(114u8);
    out.push(97u8);
    out.push(119u8);
    out.push(32u8);
    out.push(108u8);
    out.push(105u8);
    out.push(110u8);
    out.push(101u8);
    out.push(32u8);
    out.push(91u8);
    push_pair(x1, y1, &mut out);
    out.push(124u8);
    out.push(32u8);
    push_pair(x2, y2, &mut out);
    out.push(93u8);
    proof {
        assert(out@ =~= draw_line_rep(x1 as int, y1 as int, x2 as int, y2 as int));
    }
    out
}

} // verus!
