//! Rendering of the diagnostic lines.
//!
//! Three line shapes exist, each ending in a newline:
//! `sp: <pointer>` once at the start, `argv=<slot>/arg=<pointer>: <text>`
//! for each argument, and `<slot>: <text>` for each environment entry.
//! Pointers are written as `0x` followed by lower-case hex digits with no
//! leading zeros.

use vstd::prelude::*;

verus! {

/// The lower-case hex digit for a value below sixteen.
pub open spec fn hex_digit(d: int) -> u8 {
    if d < 10 {
        (48 + d) as u8
    } else {
        (87 + d) as u8
    }
}

/// The hex digits of `n`, most significant first, no leading zeros
/// (a single `0` for zero itself).
pub open spec fn hex_rep(n: int) -> Seq<u8>
    decreases n,
{
    if n < 16 {
        seq![hex_digit(n)]
    } else {
        hex_rep(n / 16).push(hex_digit(n % 16))
    }
}

/// A pointer as text: `0x` then the hex digits.
pub open spec fn ptr_text(n: int) -> Seq<u8> {
    seq![48u8, 120u8] + hex_rep(n)
}

/// The bytes of `sp: `.
pub open spec fn lit_sp_prefix() -> Seq<u8> {
    seq![115u8, 112u8, 58u8, 32u8]
}

/// The bytes of `argv=`.
pub open spec fn lit_argv() -> Seq<u8> {
    seq![97u8, 114u8, 103u8, 118u8, 61u8]
}

/// The bytes of `/arg=`.
pub open spec fn lit_arg() -> Seq<u8> {
    seq![47u8, 97u8, 114u8, 103u8, 61u8]
}

/// The bytes of `: `.
pub open spec fn lit_sep() -> Seq<u8> {
    seq![58u8, 32u8]
}

/// The opening line naming the frame pointer.
pub open spec fn sp_line(sp: int) -> Seq<u8> {
    lit_sp_prefix() + ptr_text(sp) + seq![10u8]
}

/// One argument line: the slot address, the string address, the text.
pub open spec fn arg_line(slot: int, ptr: int, text: Seq<u8>) -> Seq<u8> {
    lit_argv() + ptr_text(slot) + lit_arg() + ptr_text(ptr) + lit_sep() + text + seq![10u8]
}

/// One environment line: the slot address and the text.
pub open spec fn env_line(slot: int, text: Seq<u8>) -> Seq<u8> {
    ptr_text(slot) + lit_sep() + text + seq![10u8]
}

/// The hex digit byte for `d`.
fn hex_digit_byte(d: u64) -> (r: u8)
    requires
        d < 16,
    ensures
        r == hex_digit(d as int),
{
    if d < 10 {
        (48 + d) as u8
    } else {
        (87 + d) as u8
    }
}

/// Append the hex digits of `n` to `out`.
fn push_hex_digits(out: &mut Vec<u8>, n: u64)
    ensures
        final(out)@ == old(out)@ + hex_rep(n as int),
    decreases n,
{
    if n < 16 {
        out.push(hex_digit_byte(n));
        assert(out@ =~= old(out)@ + hex_rep(n as int));
    } else {
        push_hex_digits(out, n / 16);
        out.push(hex_digit_byte(n % 16));
        assert(out@ =~= old(out)@ + hex_rep(n as int));
    }
}

/// Append a pointer, written `0x` then hex digits, to `out`.
fn push_ptr(out: &mut Vec<u8>, n: u64)
    ensures
        final(out)@ == old(out)@ + ptr_text(n as int),
{
    out.push(48u8);
    out.push(120u8);
    push_hex_digits(out, n);
    assert(out@ =~= old(out)@ + ptr_text(n as int));
}

/// Append every byte of `text` to `out`.
pub(crate) fn push_all(out: &mut Vec<u8>, text: &Vec<u8>)
    ensures
        final(out)@ == old(out)@ + text@,
{
    let mut k: usize = 0;
    while k < text.len()
        invariant
            k <= text@.len(),
            out@ == old(out)@ + text@.subrange(0, k as int),
        decreases text@.len() - k,
    {
        out.push(text[k]);
        assert(out@ =~= old(out)@ + text@.subrange(0, k + 1));
        k = k + 1;
    }
    assert(out@ =~= old(out)@ + text@);
}

/// Build the opening `sp: <pointer>` line.
pub fn render_sp_line(sp: u64) -> (r: Vec<u8>)
    ensures
        r@ == sp_line(sp as int),
{
    let mut r: Vec<u8> = Vec::new();
    r.push(115u8);
    r.push(112u8);
    r.push(58u8);
    r.push(32u8);
    assert(r@ =~= lit_sp_prefix());
    push_ptr(&mut r, sp);
    r.push(10u8);
    assert(r@ =~= sp_line(sp as int));
    r
}

/// Build one `argv=<slot>/arg=<pointer>: <text>` line.
pub fn render_arg_line(slot: u64, ptr: u64, text: &Vec<u8>) -> (r: Vec<u8>)
    ensures
        r@ == arg_line(slot as int, ptr as int, text@),
{
    let mut r: Vec<u8> = Vec::new();
    r.push(97u8);
    r.push(114u8);
    r.push(103u8);
    r.push(118u8);
    r.push(61u8);
    assert(r@ =~= lit_argv());
    push_ptr(&mut r, slot);
    r.push(47u8);
    r.push(97u8);
    r.push(114u8);
    r.push(103u8);
    r.push(61u8);
    assert(r@ =~= lit_argv() + ptr_text(slot as int) + lit_arg());
    push_ptr(&mut r, ptr);
    r.push(58u8);
    r.push(32u8);
    push_all(&mut r, text);
    r.push(10u8);
    assert(r@ =~= arg_line(slot as int, ptr as int, text@));
    r
}

/// Build one `<slot>: <text>` environment line.
pub fn render_env_line(slot: u64, text: &Vec<u8>) -> (r: Vec<u8>)
    ensures
        r@ == env_line(slot as int, text@),
{
    let mut r: Vec<u8> = Vec::new();
    push_ptr(&mut r, slot);
    r.push(58u8);
    r.push(32u8);
    push_all(&mut r, text);
    r.push(10u8);
    assert(r@ =~= env_line(slot as int, text@));
    r
}

} // verus!
