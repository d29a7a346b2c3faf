//! Building a synthetic frame.
//!
//! [`build_frame`] lays out, at a chosen base address, exactly the image
//! the loader would hand over for a given list of argument and environment
//! texts: the count word, the two pointer arrays with their NUL sentinel
//! slots, then every string with its NUL terminator. Its postcondition
//! states that the image is a well-formed frame carrying those very texts;
//! together with the parser's law for well-formed frames this closes the
//! round trip: parsing a built frame reproduces the original strings
//! exactly, in order.

use vstd::prelude::*;
use vstd::arithmetic::div_mod::lemma_basic_div;
use vstd::arithmetic::div_mod::lemma_div_denominator;
use vstd::arithmetic::div_mod::lemma_fundamental_div_mod;
use crate::mem::StackImage;
use crate::mem::find_nul;
use crate::mem::lemma_find_nul_skip;
use crate::mem::word_le;
use crate::render::push_all;
use crate::utf8::is_utf8;
use crate::frame::arg_slot;
use crate::frame::env_slot;
use crate::frame::arg_ok;
use crate::frame::env_ok;
use crate::frame::well_formed_frame;

verus! {

/// The texts a vector of byte strings holds.
pub open spec fn texts_view(v: Seq<Vec<u8>>) -> Seq<Seq<u8>> {
    v.map_values(|t: Vec<u8>| t@)
}

/// Bytes the strings of `ts` occupy, each counted with its NUL terminator.
pub open spec fn texts_size(ts: Seq<Seq<u8>>) -> int
    decreases ts.len(),
{
    if ts.len() == 0 {
        0
    } else {
        texts_size(ts.drop_last()) + ts.last().len() + 1
    }
}

/// The strings of `ts` laid out back to back, each NUL-terminated.
pub open spec fn texts_bytes(ts: Seq<Seq<u8>>) -> Seq<u8>
    decreases ts.len(),
{
    if ts.len() == 0 {
        seq![]
    } else {
        texts_bytes(ts.drop_last()) + ts.last() + seq![0u8]
    }
}

pub proof fn lemma_texts_size_nonneg(ts: Seq<Seq<u8>>)
    ensures
        texts_size(ts) >= 0,
    decreases ts.len(),
{
    if ts.len() > 0 {
        lemma_texts_size_nonneg(ts.drop_last());
    }
}

pub proof fn lemma_texts_bytes_len(ts: Seq<Seq<u8>>)
    ensures
        texts_bytes(ts).len() == texts_size(ts),
    decreases ts.len(),
{
    if ts.len() > 0 {
        lemma_texts_bytes_len(ts.drop_last());
    }
}

/// One more string adds its length and one terminator byte.
pub proof fn lemma_texts_size_take(ts: Seq<Seq<u8>>, k: int)
    requires
        0 <= k < ts.len(),
    ensures
        texts_size(ts.take(k + 1)) == texts_size(ts.take(k)) + ts[k].len() + 1,
{
    assert(ts.take(k + 1).drop_last() =~= ts.take(k));
    assert(ts.take(k + 1).last() == ts[k]);
}

/// One more string appends its bytes and one terminator byte.
pub proof fn lemma_texts_bytes_take(ts: Seq<Seq<u8>>, k: int)
    requires
        0 <= k < ts.len(),
    ensures
        texts_bytes(ts.take(k + 1)) == texts_bytes(ts.take(k)) + ts[k] + seq![0u8],
{
    assert(ts.take(k + 1).drop_last() =~= ts.take(k));
    assert(ts.take(k + 1).last() == ts[k]);
}

/// A prefix of the strings occupies no more than all of them.
pub proof fn lemma_texts_size_prefix(ts: Seq<Seq<u8>>, k: int)
    requires
        0 <= k <= ts.len(),
    ensures
        texts_size(ts.take(k)) <= texts_size(ts),
    decreases ts.len() - k,
{
    if k < ts.len() {
        lemma_texts_size_take(ts, k);
        lemma_texts_size_prefix(ts, k + 1);
    } else {
        assert(ts.take(k) =~= ts);
    }
}

/// Total size in bytes of the synthetic frame image for these texts: the
/// count word, both pointer arrays with their sentinel slots, then every
/// string with its terminator.
pub open spec fn frame_size(args: Seq<Seq<u8>>, envs: Seq<Seq<u8>>) -> int {
    8 * (args.len() + envs.len() + 3) + texts_size(args) + texts_size(envs)
}

/// The bytes of `t` stand in `s` at offset `o`, followed by a NUL
/// terminator inside `s`.
pub open spec fn placed(s: Seq<u8>, o: int, t: Seq<u8>) -> bool {
    &&& 0 <= o
    &&& o + t.len() < s.len()
    &&& s.subrange(o, o + t.len()) == t
    &&& s[o + t.len()] == 0u8
}

/// Where a region of `s` holds the strings of `ts` back to back, string
/// `i` stands at its accumulated offset, NUL-terminated.
pub proof fn lemma_texts_placed(s: Seq<u8>, o: int, ts: Seq<Seq<u8>>, i: int)
    requires
        0 <= o,
        0 <= i < ts.len(),
        o + texts_size(ts) <= s.len(),
        s.subrange(o, o + texts_size(ts)) == texts_bytes(ts),
    ensures
        placed(s, o + texts_size(ts.take(i)), ts[i]),
    decreases ts.len(),
{
    let pre = ts.drop_last();
    let t = ts.last();
    lemma_texts_size_nonneg(pre);
    lemma_texts_bytes_len(ts);
    lemma_texts_bytes_len(pre);
    assert(texts_size(ts) == texts_size(pre) + t.len() + 1);
    assert forall|k: int| 0 <= k < texts_size(ts) implies s[o + k] == texts_bytes(ts)[k] by {
        assert(s.subrange(o, o + texts_size(ts))[k] == s[o + k]);
    }
    if i == ts.len() - 1 {
        assert(ts.take(i) =~= pre);
        let oi = o + texts_size(pre);
        assert forall|k: int| 0 <= k < t.len() implies s[oi + k] == t[k] by {
            assert(texts_bytes(ts)[texts_size(pre) + k] == t[k]);
        }
        assert(s.subrange(oi, oi + t.len()) =~= t);
        assert(texts_bytes(ts)[texts_size(pre) + t.len()] == 0u8);
        assert(s[oi + t.len()] == 0u8);
    } else {
        assert(s.subrange(o, o + texts_size(pre)) =~= texts_bytes(pre)) by {
            assert forall|k: int| 0 <= k < texts_size(pre) implies s[o + k] == texts_bytes(
                pre,
            )[k] by {
                assert(texts_bytes(ts)[k] == texts_bytes(pre)[k]);
            }
        }
        assert(ts.take(i) =~= pre.take(i));
        assert(ts[i] == pre[i]);
        lemma_texts_placed(s, o, pre, i);
    }
}

/// The eight little-endian bytes of the word `w`.
pub open spec fn le_bytes_of(w: u64) -> Seq<u8> {
    seq![
        (w as int % 0x100) as u8,
        (w as int / 0x100 % 0x100) as u8,
        (w as int / 0x1_0000 % 0x100) as u8,
        (w as int / 0x100_0000 % 0x100) as u8,
        (w as int / 0x1_0000_0000 % 0x100) as u8,
        (w as int / 0x100_0000_0000 % 0x100) as u8,
        (w as int / 0x1_0000_0000_0000 % 0x100) as u8,
        (w as int / 0x100_0000_0000_0000 % 0x100) as u8,
    ]
}

/// Reading a word back from its eight little-endian bytes yields the word.
pub proof fn lemma_word_le_round_trip(s: Seq<u8>, off: int, w: u64)
    requires
        0 <= off,
        off + 8 <= s.len(),
        s.subrange(off, off + 8) == le_bytes_of(w),
    ensures
        word_le(s, off) == w as int,
{
    let x = w as int;
    assert forall|k: int| 0 <= k < 8 implies s[off + k] == le_bytes_of(w)[k] by {
        assert(s.subrange(off, off + 8)[k] == s[off + k]);
    }
    lemma_div_denominator(x, 0x100, 0x100);
    lemma_div_denominator(x, 0x1_0000, 0x100);
    lemma_div_denominator(x, 0x100_0000, 0x100);
    lemma_div_denominator(x, 0x1_0000_0000, 0x100);
    lemma_div_denominator(x, 0x100_0000_0000, 0x100);
    lemma_div_denominator(x, 0x1_0000_0000_0000, 0x100);
    lemma_fundamental_div_mod(x, 0x100);
    lemma_fundamental_div_mod(x / 0x100, 0x100);
    lemma_fundamental_div_mod(x / 0x1_0000, 0x100);
    lemma_fundamental_div_mod(x / 0x100_0000, 0x100);
    lemma_fundamental_div_mod(x / 0x1_0000_0000, 0x100);
    lemma_fundamental_div_mod(x / 0x100_0000_0000, 0x100);
    lemma_fundamental_div_mod(x / 0x1_0000_0000_0000, 0x100);
    let q7 = x / 0x100_0000_0000_0000;
    lemma_fundamental_div_mod(x, 0x100_0000_0000_0000);
    assert(0 <= x % 0x100_0000_0000_0000 < 0x100_0000_0000_0000);
    assert(q7 < 0x100);
    assert(q7 % 0x100 == q7) by {
        lemma_basic_div(q7, 0x100);
        lemma_fundamental_div_mod(q7, 0x100);
    }
}

/// Append the eight little-endian bytes of `w` to `out`.
fn push_word_le(out: &mut Vec<u8>, w: u64)
    ensures
        final(out)@ == old(out)@ + le_bytes_of(w),
{
    out.push((w % 0x100) as u8);
    out.push((w / 0x100 % 0x100) as u8);
    out.push((w / 0x1_0000 % 0x100) as u8);
    out.push((w / 0x100_0000 % 0x100) as u8);
    out.push((w / 0x1_0000_0000 % 0x100) as u8);
    out.push((w / 0x100_0000_0000 % 0x100) as u8);
    out.push((w / 0x1_0000_0000_0000 % 0x100) as u8);
    out.push((w / 0x100_0000_0000_0000 % 0x100) as u8);
    assert(out@ =~= old(out)@ + le_bytes_of(w));
}

/// Size of the image for these texts, or nothing where it passes the top
/// of the address space.
fn image_size(args: &Vec<Vec<u8>>, envs: &Vec<Vec<u8>>) -> (r: Option<u128>)
    ensures
        match r {
            Some(t) => t as int == frame_size(texts_view(args@), texts_view(envs@)) && t
                <= 0x1_0000_0000_0000_0000,
            None => frame_size(texts_view(args@), texts_view(envs@)) > 0x1_0000_0000_0000_0000,
        },
{
    let ghost av = texts_view(args@);
    let ghost ev = texts_view(envs@);
    let argc: usize = args.len();
    let envc: usize = envs.len();
    let cap: u128 = 0x1_0000_0000_0000_0000;
    let header: u128 = 8 * (argc as u128 + envc as u128 + 3);
    proof {
        lemma_texts_size_nonneg(av);
        lemma_texts_size_nonneg(ev);
    }
    if header > cap {
        return None;
    }
    let mut total: u128 = header;
    let mut i: usize = 0;
    while i < argc
        invariant
            i <= argc,
            argc == args@.len(),
            envc == envs@.len(),
            av == texts_view(args@),
            ev == texts_view(envs@),
            header == 8 * (argc as int + envc as int + 3),
            total as int == header + texts_size(av.take(i as int)),
            total <= cap,
            cap == 0x1_0000_0000_0000_0000,
        decreases argc - i,
    {
        proof {
            assert(av[i as int] == args@[i as int]@);
            lemma_texts_size_take(av, i as int);
        }
        total = total + args[i].len() as u128 + 1;
        if total > cap {
            proof {
                lemma_texts_size_prefix(av, i + 1);
                lemma_texts_size_nonneg(ev);
            }
            return None;
        }
        i = i + 1;
    }
    proof {
        assert(av.take(argc as int) =~= av);
    }
    let mut j: usize = 0;
    while j < envc
        invariant
            j <= envc,
            argc == args@.len(),
            envc == envs@.len(),
            av == texts_view(args@),
            ev == texts_view(envs@),
            header == 8 * (argc as int + envc as int + 3),
            total as int == header + texts_size(av) + texts_size(ev.take(j as int)),
            total <= cap,
            cap == 0x1_0000_0000_0000_0000,
        decreases envc - j,
    {
        proof {
            assert(ev[j as int] == envs@[j as int]@);
            lemma_texts_size_take(ev, j as int);
        }
        total = total + envs[j].len() as u128 + 1;
        if total > cap {
            proof {
                lemma_texts_size_prefix(ev, j + 1);
                assert(texts_size(ev.take(j + 1)) == texts_size(ev.take(j as int)) + ev[j as int].len() + 1);
                assert(frame_size(av, ev) >= header + texts_size(av) + texts_size(ev.take(j + 1)));
            }
            return None;
        }
        j = j + 1;
    }
    proof {
        assert(ev.take(envc as int) =~= ev);
    }
    Some(total)
}

/// The frame's pointer table: the count word, one pointer per argument
/// string, the sentinel, one pointer per environment string, the
/// terminator. String `k` of the image stands at the base address plus the
/// table's size plus the sizes of the strings before it.
fn table_words(args: &Vec<Vec<u8>>, envs: &Vec<Vec<u8>>, base: u64, total: u128) -> (ws: Vec<u64>)
    requires
        total as int == frame_size(texts_view(args@), texts_view(envs@)),
        base + total <= 0x1_0000_0000_0000_0000,
    ensures
        ws@.len() == args@.len() + envs@.len() + 3,
        ws@[0] as int == args@.len(),
        forall|i2: int|
            0 <= i2 < args@.len() ==> (#[trigger] ws@[1 + i2]) as int == base + 8 * (args@.len()
                + envs@.len() + 3) + texts_size(texts_view(args@).take(i2)),
        ws@[1 + args@.len() as int] == 0u64,
        forall|j2: int|
            0 <= j2 < envs@.len() ==> (#[trigger] ws@[2 + args@.len() + j2]) as int == base + 8 * (
            args@.len() + envs@.len() + 3) + texts_size(texts_view(args@)) + texts_size(
                texts_view(envs@).take(j2),
            ),
        ws@[2 + args@.len() + envs@.len() as int] == 0u64,
{
    let ghost av = texts_view(args@);
    let ghost ev = texts_view(envs@);
    let argc: usize = args.len();
    let envc: usize = envs.len();
    let header: u128 = 8 * (argc as u128 + envc as u128 + 3);
    proof {
        lemma_texts_size_nonneg(av);
        lemma_texts_size_nonneg(ev);
    }
    let mut ws: Vec<u64> = Vec::new();
    ws.push(argc as u64);
    let mut off: u128 = header;
    let mut i: usize = 0;
    while i < argc
        invariant
            i <= argc,
            argc == args@.len(),
            envc == envs@.len(),
            av == texts_view(args@),
            ev == texts_view(envs@),
            header == 8 * (argc as int + envc as int + 3),
            total as int == frame_size(av, ev),
            base + total <= 0x1_0000_0000_0000_0000,
            off as int == header + texts_size(av.take(i as int)),
            ws@.len() == 1 + i,
            ws@[0] as int == argc,
            forall|i2: int|
                0 <= i2 < i ==> (#[trigger] ws@[1 + i2]) as int == base + header + texts_size(
                    av.take(i2),
                ),
        decreases argc - i,
    {
        proof {
            assert(av[i as int] == args@[i as int]@);
            lemma_texts_size_take(av, i as int);
            lemma_texts_size_prefix(av, i + 1);
            lemma_texts_size_nonneg(ev);
            assert(off as int + av[i as int].len() + 1 <= total as int);
        }
        ws.push((base as u128 + off) as u64);
        off = off + args[i].len() as u128 + 1;
        i = i + 1;
    }
    proof {
        assert(av.take(argc as int) =~= av);
    }
    ws.push(0u64);
    let mut j: usize = 0;
    while j < envc
        invariant
            j <= envc,
            argc == args@.len(),
            envc == envs@.len(),
            av == texts_view(args@),
            ev == texts_view(envs@),
            header == 8 * (argc as int + envc as int + 3),
            total as int == frame_size(av, ev),
            base + total <= 0x1_0000_0000_0000_0000,
            off as int == header + texts_size(av) + texts_size(ev.take(j as int)),
            ws@.len() == 2 + argc + j,
            ws@[0] as int == argc,
            forall|i2: int|
                0 <= i2 < argc ==> (#[trigger] ws@[1 + i2]) as int == base + header + texts_size(
                    av.take(i2),
                ),
            ws@[1 + argc as int] == 0u64,
            forall|j2: int|
                0 <= j2 < j ==> (#[trigger] ws@[2 + argc + j2]) as int == base + header
                    + texts_size(av) + texts_size(ev.take(j2)),
        decreases envc - j,
    {
        proof {
            assert(ev[j as int] == envs@[j as int]@);
            lemma_texts_size_take(ev, j as int);
            lemma_texts_size_prefix(ev, j + 1);
            assert(off as int + ev[j as int].len() + 1 <= total as int);
        }
        ws.push((base as u128 + off) as u64);
        off = off + envs[j].len() as u128 + 1;
        j = j + 1;
    }
    proof {
        assert(ev.take(envc as int) =~= ev);
    }
    ws.push(0u64);
    ws
}

/// Append every table word, little-endian, to `out`.
fn append_words(out: &mut Vec<u8>, ws: &Vec<u64>)
    ensures
        final(out)@.len() == old(out)@.len() + 8 * ws@.len(),
        final(out)@.subrange(0, old(out)@.len() as int) == old(out)@,
        forall|u: int|
            0 <= u < ws@.len() ==> #[trigger] final(out)@.subrange(
                old(out)@.len() + 8 * u,
                old(out)@.len() + 8 * u + 8,
            ) == le_bytes_of(ws@[u]),
{
    let ghost base_len = out@.len() as int;
    let n: usize = ws.len();
    let mut t: usize = 0;
    while t < n
        invariant
            t <= n,
            n == ws@.len(),
            out@.len() == base_len + 8 * t,
            base_len == old(out)@.len(),
            out@.subrange(0, base_len) == old(out)@,
            forall|u: int|
                0 <= u < t ==> #[trigger] out@.subrange(base_len + 8 * u, base_len + 8 * u + 8)
                    == le_bytes_of(ws@[u]),
        decreases n - t,
    {
        let ghost prev = out@;
        push_word_le(out, ws[t]);
        proof {
            assert forall|x: int| 0 <= x < prev.len() implies out@[x] == prev[x] by {}
            assert(out@.subrange(0, base_len) =~= prev.subrange(0, base_len));
            assert forall|u: int| 0 <= u < t + 1 implies #[trigger] out@.subrange(
                base_len + 8 * u,
                base_len + 8 * u + 8,
            ) == le_bytes_of(ws@[u]) by {
                if u < t {
                    assert(out@.subrange(base_len + 8 * u, base_len + 8 * u + 8) =~= prev.subrange(
                        base_len + 8 * u,
                        base_len + 8 * u + 8,
                    ));
                } else {
                    assert(out@.subrange(base_len + 8 * u, base_len + 8 * u + 8) =~= le_bytes_of(
                        ws@[u],
                    ));
                }
            }
        }
        t = t + 1;
    }
}

/// Append every string of `ts`, each NUL-terminated, to `out`.
fn append_texts(out: &mut Vec<u8>, ts: &Vec<Vec<u8>>)
    ensures
        final(out)@ == old(out)@ + texts_bytes(texts_view(ts@)),
{
    let ghost tv = texts_view(ts@);
    let n: usize = ts.len();
    let mut i: usize = 0;
    proof {
        assert(tv.take(0) =~= Seq::<Seq<u8>>::empty());
        assert(out@ =~= old(out)@ + texts_bytes(tv.take(0)));
    }
    while i < n
        invariant
            i <= n,
            n == ts@.len(),
            tv == texts_view(ts@),
            out@ == old(out)@ + texts_bytes(tv.take(i as int)),
        decreases n - i,
    {
        proof {
            assert(tv[i as int] == ts@[i as int]@);
            lemma_texts_bytes_take(tv, i as int);
        }
        push_all(out, &ts[i]);
        out.push(0u8);
        proof {
            assert(out@ =~= old(out)@ + texts_bytes(tv.take(i + 1)));
        }
        i = i + 1;
    }
    proof {
        assert(tv.take(n as int) =~= tv);
    }
}

/// Lay out the frame image for `args` and `envs` at address `base`, as
/// the loader would. Fails exactly when the image would not fit below the
/// top of the address space or in one allocation.
#[verifier::rlimit(100)]
pub fn build_frame(args: &Vec<Vec<u8>>, envs: &Vec<Vec<u8>>, base: u64) -> (r: Option<StackImage>)
    requires
        forall|i: int|
            0 <= i < args@.len() ==> is_utf8(#[trigger] args@[i]@) && !args@[i]@.contains(0u8),
        forall|j: int|
            0 <= j < envs@.len() ==> is_utf8(#[trigger] envs@[j]@) && !envs@[j]@.contains(0u8),
    ensures
        match r {
            Some(m) => {
                &&& m.wf()
                &&& m.base == base
                &&& m.bytes@.len() == frame_size(texts_view(args@), texts_view(envs@))
                &&& well_formed_frame(m, base as int, texts_view(args@), texts_view(envs@))
            },
            None => base + frame_size(texts_view(args@), texts_view(envs@))
                > 0x1_0000_0000_0000_0000 || frame_size(texts_view(args@), texts_view(envs@))
                > usize::MAX,
        },
{
    let ghost av = texts_view(args@);
    let ghost ev = texts_view(envs@);
    let total: u128 = match image_size(args, envs) {
        None => {
            proof {
                lemma_texts_size_nonneg(av);
                lemma_texts_size_nonneg(ev);
            }
            return None;
        },
        Some(t) => t,
    };
    if base as u128 + total > 0x1_0000_0000_0000_0000 {
        return None;
    }
    if total > usize::MAX as u128 {
        return None;
    }
    let ws = table_words(args, envs, base, total);
    let mut bytes: Vec<u8> = Vec::new();
    let ghost v0 = bytes@;
    append_words(&mut bytes, &ws);
    let ghost hdr = bytes@;
    proof {
        assert forall|u: int| 0 <= u < ws@.len() implies #[trigger] hdr.subrange(
            8 * u,
            8 * u + 8,
        ) == le_bytes_of(ws@[u]) by {
            assert(hdr.subrange(v0.len() + 8 * u, v0.len() + 8 * u + 8) == le_bytes_of(ws@[u]));
        }
    }
    append_texts(&mut bytes, args);
    append_texts(&mut bytes, envs);
    proof {
        lemma_texts_bytes_len(av);
        lemma_texts_bytes_len(ev);
        assert(bytes@ == hdr + texts_bytes(av) + texts_bytes(ev));
    }
    let m = StackImage { base: base, bytes: bytes };
    proof {
        lemma_build_well_formed(m, base, av, ev, hdr, ws@);
    }
    Some(m)
}

/// A placed string reads back, NUL-delimited, through `cstr_at`.
proof fn lemma_placed_cstr(m: StackImage, o: int, t: Seq<u8>)
    requires
        placed(m.bytes@, o, t),
        !t.contains(0u8),
    ensures
        m.cstr_at(m.base + o) == Some(t),
{
    assert forall|k: int| o <= k < o + t.len() implies m.bytes@[k] != 0 by {
        assert(m.bytes@.subrange(o, o + t.len())[k - o] == m.bytes@[k]);
        if t[k - o] == 0 {
            assert(t.contains(0u8));
        }
    }
    lemma_find_nul_skip(m.bytes@, o, o + t.len());
    assert(find_nul(m.bytes@, o + t.len()) == Some(o + t.len()));
    assert(m.bytes@.subrange(o, o + t.len()) == t);
}

/// Every table word reads back from the image's prefix.
proof fn lemma_table_read_back(m: StackImage, hdr: Seq<u8>, ws: Seq<u64>)
    requires
        hdr.len() == 8 * ws.len(),
        hdr.len() <= m.bytes@.len(),
        m.bytes@.subrange(0, hdr.len() as int) == hdr,
        forall|u: int|
            0 <= u < ws.len() ==> #[trigger] hdr.subrange(8 * u, 8 * u + 8) == le_bytes_of(ws[u]),
    ensures
        forall|u: int|
            0 <= u < ws.len() ==> m.word_at(m.base + 8 * u) == (#[trigger] ws[u]) as int,
{
    assert forall|u: int| 0 <= u < ws.len() implies m.word_at(m.base + 8 * u) == (#[trigger] ws[u])
        as int by {
        assert forall|x: int| 0 <= x < hdr.len() implies m.bytes@[x] == hdr[x] by {
            assert(m.bytes@.subrange(0, hdr.len() as int)[x] == m.bytes@[x]);
        }
        assert(m.bytes@.subrange(8 * u, 8 * u + 8) =~= hdr.subrange(8 * u, 8 * u + 8));
        lemma_word_le_round_trip(m.bytes@, 8 * u, ws[u]);
    }
}

/// The image just laid out is a well-formed frame for its texts.
proof fn lemma_build_well_formed(
    m: StackImage,
    base: u64,
    av: Seq<Seq<u8>>,
    ev: Seq<Seq<u8>>,
    hdr: Seq<u8>,
    ws: Seq<u64>,
)
    requires
        m.base == base,
        ws.len() == av.len() + ev.len() + 3,
        hdr.len() == 8 * ws.len(),
        m.bytes@ == hdr + texts_bytes(av) + texts_bytes(ev),
        m.bytes@.len() <= 0x1_0000_0000_0000_0000 - base,
        ws[0] as int == av.len(),
        forall|i2: int|
            0 <= i2 < av.len() ==> (#[trigger] ws[1 + i2]) as int == base + hdr.len() + texts_size(
                av.take(i2),
            ),
        ws[1 + av.len() as int] == 0u64,
        forall|j2: int|
            0 <= j2 < ev.len() ==> (#[trigger] ws[2 + av.len() + j2]) as int == base + hdr.len()
                + texts_size(av) + texts_size(ev.take(j2)),
        ws[2 + av.len() + ev.len() as int] == 0u64,
        forall|u: int|
            0 <= u < ws.len() ==> #[trigger] hdr.subrange(8 * u, 8 * u + 8) == le_bytes_of(ws[u]),
        forall|i2: int| 0 <= i2 < av.len() ==> is_utf8(#[trigger] av[i2]) && !av[i2].contains(0u8),
        forall|j2: int| 0 <= j2 < ev.len() ==> is_utf8(#[trigger] ev[j2]) && !ev[j2].contains(0u8),
    ensures
        m.wf(),
        m.bytes@.len() == frame_size(av, ev),
        well_formed_frame(m, base as int, av, ev),
{
    let sp = base as int;
    let header = hdr.len() as int;
    lemma_texts_size_nonneg(av);
    lemma_texts_size_nonneg(ev);
    lemma_texts_bytes_len(av);
    lemma_texts_bytes_len(ev);
    assert(m.bytes@.len() == frame_size(av, ev));
    assert(m.bytes@.subrange(0, header) =~= hdr);
    lemma_table_read_back(m, hdr, ws);
    assert(m.bytes@.subrange(header, header + texts_size(av)) =~= texts_bytes(av));
    assert(m.bytes@.subrange(header + texts_size(av), header + texts_size(av) + texts_size(ev))
        =~= texts_bytes(ev));

    assert(m.word_at(sp) == av.len()) by {
        assert(m.word_at(m.base + 8 * 0) == ws[0]);
    }
    assert forall|i2: int| 0 <= i2 < av.len() implies #[trigger] arg_ok(m, sp, i2, av[i2]) by {
        let o = header + texts_size(av.take(i2));
        lemma_texts_size_prefix(av, i2);
        lemma_texts_size_nonneg(av.take(i2));
        lemma_texts_placed(m.bytes@, header, av, i2);
        lemma_placed_cstr(m, o, av[i2]);
        assert(m.word_at(m.base + 8 * (1 + i2)) == ws[1 + i2]);
        assert(arg_slot(sp, i2) == sp + 8 * (1 + i2));
        assert(ws[1 + i2] as int == base + o);
    }
    assert forall|j2: int| 0 <= j2 < ev.len() implies #[trigger] env_ok(
        m,
        sp,
        av.len() as int,
        j2,
        ev[j2],
    ) by {
        let o = header + texts_size(av) + texts_size(ev.take(j2));
        lemma_texts_size_prefix(ev, j2);
        lemma_texts_size_nonneg(ev.take(j2));
        lemma_texts_placed(m.bytes@, header + texts_size(av), ev, j2);
        lemma_placed_cstr(m, o, ev[j2]);
        assert(m.word_at(m.base + 8 * (2 + av.len() + j2)) == ws[2 + av.len() + j2]);
        assert(env_slot(sp, av.len() as int, j2) == sp + 8 * (2 + av.len() + j2));
        assert(ws[2 + av.len() + j2] as int == base + o);
    }
    assert(m.word_at(arg_slot(sp, av.len() as int)) == 0) by {
        assert(m.word_at(m.base + 8 * (1 + av.len())) == ws[1 + av.len() as int]);
    }
    assert(m.word_at(env_slot(sp, av.len() as int, ev.len() as int)) == 0) by {
        assert(m.word_at(m.base + 8 * (2 + av.len() + ev.len())) == ws[2 + av.len()
            + ev.len() as int]);
    }
}

} // verus!
