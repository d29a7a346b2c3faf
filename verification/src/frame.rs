//! Parsing the initial stack frame.
//!
//! The frame starts with one machine word holding `argc`, then `argc`
//! argument pointers, a NUL sentinel slot, the environment pointers, and a
//! terminating NUL slot. Every pointer names a NUL-terminated byte string
//! that must decode as UTF-8. [`parse_frame_spec`] is the mathematical
//! account of the walk: it collects entries in order and stops at the first
//! fatal condition - a read that would leave the region, a string without a
//! terminator, or bytes that are not UTF-8. [`parse_frame`] computes it.

use vstd::prelude::*;
use crate::mem::StackImage;
use crate::utf8::is_utf8;
use crate::utf8::validate_utf8;

verus! {

/// An unrecoverable condition met while walking the frame.
#[derive(Clone, Copy, Debug, PartialEq, Eq, Structural)]
pub enum Fatal {
    /// A read would leave the region, or an entry has no terminator.
    FrameLayout,
    /// An entry's bytes are not valid UTF-8.
    Decode,
}

/// One parsed argument: the slot that held its pointer, the pointer, and
/// the entry's bytes.
pub struct ArgEntry {
    pub slot: u64,
    pub ptr: u64,
    pub text: Vec<u8>,
}

/// One parsed environment entry: the slot that held its pointer and the
/// entry's bytes.
pub struct EnvEntry {
    pub slot: u64,
    pub text: Vec<u8>,
}

/// Mathematical counterpart of [`ArgEntry`].
#[verifier::ext_equal]
pub struct ArgM {
    pub slot: int,
    pub ptr: int,
    pub text: Seq<u8>,
}

/// Mathematical counterpart of [`EnvEntry`].
#[verifier::ext_equal]
pub struct EnvM {
    pub slot: int,
    pub text: Seq<u8>,
}

/// What the walk of a frame yields: the entries found before the first
/// fatal condition, and that condition if one was met.
#[verifier::ext_equal]
pub struct ParseM {
    pub args: Seq<ArgM>,
    pub envs: Seq<EnvM>,
    pub fatal: Option<Fatal>,
}

/// Address of the slot holding the pointer of argument `i`.
pub open spec fn arg_slot(sp: int, i: int) -> int {
    sp + 8 * (i + 1)
}

/// Address of the slot holding the pointer of environment entry `j`:
/// the slots begin right after the argument sentinel.
pub open spec fn env_slot(sp: int, argc: int, j: int) -> int {
    sp + 8 * (argc + 2 + j)
}

pub open spec fn arg_model(e: ArgEntry) -> ArgM {
    ArgM { slot: e.slot as int, ptr: e.ptr as int, text: e.text@ }
}

pub open spec fn env_model(e: EnvEntry) -> EnvM {
    EnvM { slot: e.slot as int, text: e.text@ }
}

pub open spec fn args_model(v: Seq<ArgEntry>) -> Seq<ArgM> {
    v.map_values(|e: ArgEntry| arg_model(e))
}

pub open spec fn envs_model(v: Seq<EnvEntry>) -> Seq<EnvM> {
    v.map_values(|e: EnvEntry| env_model(e))
}

/// Parse argument `i`: read its pointer, scan its string, check UTF-8.
pub open spec fn parse_arg(m: StackImage, sp: int, i: int) -> Result<ArgM, Fatal> {
    let slot = arg_slot(sp, i);
    if !m.contains_word(slot) {
        Err(Fatal::FrameLayout)
    } else {
        let ptr = m.word_at(slot);
        match m.cstr_at(ptr) {
            None => Err(Fatal::FrameLayout),
            Some(text) => if is_utf8(text) {
                Ok(ArgM { slot: slot, ptr: ptr, text: text })
            } else {
                Err(Fatal::Decode)
            },
        }
    }
}

/// Parse arguments `i..argc` in order, stopping at the first fatal
/// condition.
pub open spec fn parse_args(m: StackImage, sp: int, argc: int, i: int) -> (Seq<ArgM>, Option<Fatal>)
    decreases argc - i,
{
    if i >= argc {
        (seq![], None)
    } else {
        match parse_arg(m, sp, i) {
            Ok(a) => {
                let rest = parse_args(m, sp, argc, i + 1);
                (seq![a] + rest.0, rest.1)
            },
            Err(f) => (seq![], Some(f)),
        }
    }
}

/// Parse environment entries from slot `j` on, stopping at the slot that
/// holds a NUL pointer, or at the first fatal condition.
pub open spec fn parse_envs(m: StackImage, sp: int, argc: int, j: int) -> (Seq<EnvM>, Option<Fatal>)
    decreases m.end() + 8 - env_slot(sp, argc, j),
{
    let slot = env_slot(sp, argc, j);
    if !m.contains_word(slot) {
        (seq![], Some(Fatal::FrameLayout))
    } else if m.word_at(slot) == 0 {
        (seq![], None)
    } else {
        match m.cstr_at(m.word_at(slot)) {
            None => (seq![], Some(Fatal::FrameLayout)),
            Some(t) => if is_utf8(t) {
                let rest = parse_envs(m, sp, argc, j + 1);
                (seq![EnvM { slot: slot, text: t }] + rest.0, rest.1)
            } else {
                (seq![], Some(Fatal::Decode))
            },
        }
    }
}

/// The whole walk: `argc` from the first word, then the arguments, then -
/// only if every argument parsed - the environment entries.
pub open spec fn parse_frame_spec(m: StackImage, sp: int) -> ParseM {
    if !m.contains_word(sp) {
        ParseM { args: seq![], envs: seq![], fatal: Some(Fatal::FrameLayout) }
    } else {
        let argc = m.word_at(sp);
        let a = parse_args(m, sp, argc, 0);
        if a.1 is Some {
            ParseM { args: a.0, envs: seq![], fatal: a.1 }
        } else {
            let e = parse_envs(m, sp, argc, 0);
            ParseM { args: a.0, envs: e.0, fatal: e.1 }
        }
    }
}

/// What a parsed frame holds: the entries found before the first fatal
/// condition, and that condition if one was met.
pub struct Parsed {
    pub args: Vec<ArgEntry>,
    pub envs: Vec<EnvEntry>,
    pub fatal: Option<Fatal>,
}

pub open spec fn parsed_model(p: Parsed) -> ParseM {
    ParseM { args: args_model(p.args@), envs: envs_model(p.envs@), fatal: p.fatal }
}

/// Walk the frame at `sp` inside the region `m` and collect the argument
/// and environment entries, in order, up to the first fatal condition.
pub fn parse_frame(m: &StackImage, sp: u64) -> (r: Parsed)
    requires
        m.wf(),
    ensures
        parsed_model(r) == parse_frame_spec(*m, sp as int),
{
    let ghost m0 = *m;
    let ghost sp0 = sp as int;
    let argc: u64 = match m.read_word(sp) {
        None => {
            let r = Parsed { args: Vec::new(), envs: Vec::new(), fatal: Some(Fatal::FrameLayout) };
            proof {
                assert(parsed_model(r) =~= parse_frame_spec(m0, sp0));
            }
            return r;
        },
        Some(w) => w,
    };
    let ghost argci: int = argc as int;
    proof {
        assert(argci == m0.word_at(sp0));
    }

    let mut args: Vec<ArgEntry> = Vec::new();
    let mut fatal: Option<Fatal> = None;
    let mut i: u64 = 0;
    while i < argc && fatal.is_none()
        invariant
            m.wf(),
            m0 == *m,
            sp0 == sp as int,
            argci == argc as int,
            i <= argc,
            match fatal {
                None => {
                    &&& parse_args(m0, sp0, argci, 0).0
                        == args_model(args@) + parse_args(m0, sp0, argci, i as int).0
                    &&& parse_args(m0, sp0, argci, 0).1 == parse_args(m0, sp0, argci, i as int).1
                },
                Some(f) => {
                    &&& parse_args(m0, sp0, argci, 0).0 == args_model(args@)
                    &&& parse_args(m0, sp0, argci, 0).1 == Some(f)
                },
            },
        decreases argc - i, (if fatal is None { 1int } else { 0int }),
    {
        let ghost ii = i as int;
        let slot128: u128 = sp as u128 + 8u128 * (i as u128 + 1);
        let base128: u128 = m.base as u128;
        let end128: u128 = m.base as u128 + m.bytes.len() as u128;
        proof {
            assert(slot128 as int == arg_slot(sp0, ii));
            assert(end128 as int == m0.end());
        }
        if !(base128 <= slot128 && slot128 + 8 <= end128) {
            proof {
                assert(!m0.contains_word(arg_slot(sp0, ii)));
                assert(parse_args(m0, sp0, argci, ii) == (Seq::<ArgM>::empty(), Some(Fatal::FrameLayout)));
                assert(parse_args(m0, sp0, argci, 0).0 =~= args_model(args@));
            }
            fatal = Some(Fatal::FrameLayout);
        } else {
            let slot: u64 = slot128 as u64;
            proof {
                assert(slot as int == arg_slot(sp0, ii));
            }
            let w: u64 = match m.read_word(slot) {
                Some(w) => w,
                None => {
                    proof {
                        assert(false);
                    }
                    0
                },
            };
            match m.read_cstr(w) {
                None => {
                    proof {
                        assert(parse_arg(m0, sp0, ii) == Err::<ArgM, Fatal>(Fatal::FrameLayout));
                        assert(parse_args(m0, sp0, argci, 0).0 =~= args_model(args@));
                    }
                    fatal = Some(Fatal::FrameLayout);
                },
                Some(text) => {
                    if validate_utf8(&text) {
                        let ghost am = ArgM { slot: slot as int, ptr: w as int, text: text@ };
                        proof {
                            assert(parse_arg(m0, sp0, ii) == Ok::<ArgM, Fatal>(am));
                        }
                        let ghost old_args = args@;
                        args.push(ArgEntry { slot: slot, ptr: w, text: text });
                        proof {
                            assert(args_model(args@) =~= args_model(old_args).push(am));
                            assert(parse_args(m0, sp0, argci, ii) == (
                                seq![am] + parse_args(m0, sp0, argci, ii + 1).0,
                                parse_args(m0, sp0, argci, ii + 1).1,
                            ));
                            assert(parse_args(m0, sp0, argci, 0).0
                                =~= args_model(args@) + parse_args(m0, sp0, argci, ii + 1).0);
                        }
                        i = i + 1;
                    } else {
                        proof {
                            assert(parse_arg(m0, sp0, ii) == Err::<ArgM, Fatal>(Fatal::Decode));
                            assert(parse_args(m0, sp0, argci, 0).0 =~= args_model(args@));
                        }
                        fatal = Some(Fatal::Decode);
                    }
                },
            }
        }
    }

    if let Some(f) = fatal {
        let r = Parsed { args: args, envs: Vec::new(), fatal: Some(f) };
        proof {
            assert(parsed_model(r) =~= parse_frame_spec(m0, sp0));
        }
        return r;
    }
    proof {
        assert(parse_args(m0, sp0, argci, argci) == (Seq::<ArgM>::empty(), None::<Fatal>));
        assert(parse_args(m0, sp0, argci, 0).0 =~= args_model(args@));
    }

    let mut envs: Vec<EnvEntry> = Vec::new();
    let mut done: bool = false;
    let mut j: u64 = 0;
    while !done && fatal.is_none()
        invariant
            m.wf(),
            m0 == *m,
            sp0 == sp as int,
            argci == argc as int,
            parse_args(m0, sp0, argci, 0).0 == args_model(args@),
            parse_args(m0, sp0, argci, 0).1 is None,
            !done && fatal is None ==> 8 * (j as int) <= m0.end() - sp0,
            match fatal {
                None => {
                    if done {
                        &&& parse_envs(m0, sp0, argci, 0).0 == envs_model(envs@)
                        &&& parse_envs(m0, sp0, argci, 0).1 is None
                    } else {
                        &&& parse_envs(m0, sp0, argci, 0).0
                            == envs_model(envs@) + parse_envs(m0, sp0, argci, j as int).0
                        &&& parse_envs(m0, sp0, argci, 0).1 == parse_envs(m0, sp0, argci, j as int).1
                    }
                },
                Some(f) => {
                    &&& parse_envs(m0, sp0, argci, 0).0 == envs_model(envs@)
                    &&& parse_envs(m0, sp0, argci, 0).1 == Some(f)
                },
            },
        decreases
            (if !done && fatal is None { m0.end() - sp0 - 8 * (j as int) } else { 0int }),
            (if !done && fatal is None { 1int } else { 0int }),
    {
        let ghost jj = j as int;
        let slot128: u128 = sp as u128 + 8u128 * (argc as u128 + 2 + j as u128);
        let base128: u128 = m.base as u128;
        let end128: u128 = m.base as u128 + m.bytes.len() as u128;
        proof {
            assert(slot128 as int == env_slot(sp0, argci, jj));
            assert(end128 as int == m0.end());
        }
        if !(base128 <= slot128 && slot128 + 8 <= end128) {
            proof {
                assert(parse_envs(m0, sp0, argci, 0).0 =~= envs_model(envs@));
            }
            fatal = Some(Fatal::FrameLayout);
        } else {
            let slot: u64 = slot128 as u64;
            let w: u64 = match m.read_word(slot) {
                Some(w) => w,
                None => {
                    proof {
                        assert(false);
                    }
                    0
                },
            };
            if w == 0 {
                proof {
                    assert(parse_envs(m0, sp0, argci, 0).0 =~= envs_model(envs@));
                }
                done = true;
            } else {
                match m.read_cstr(w) {
                    None => {
                        proof {
                            assert(parse_envs(m0, sp0, argci, 0).0 =~= envs_model(envs@));
                        }
                        fatal = Some(Fatal::FrameLayout);
                    },
                    Some(text) => {
                        if validate_utf8(&text) {
                            let ghost em = EnvM { slot: slot as int, text: text@ };
                            let ghost old_envs = envs@;
                            envs.push(EnvEntry { slot: slot, text: text });
                            proof {
                                assert(envs_model(envs@) =~= envs_model(old_envs).push(em));
                                assert(parse_envs(m0, sp0, argci, jj) == (
                                    seq![em] + parse_envs(m0, sp0, argci, jj + 1).0,
                                    parse_envs(m0, sp0, argci, jj + 1).1,
                                ));
                                assert(parse_envs(m0, sp0, argci, 0).0
                                    =~= envs_model(envs@) + parse_envs(m0, sp0, argci, jj + 1).0);
                            }
                            j = j + 1;
                        } else {
                            proof {
                                assert(parse_envs(m0, sp0, argci, 0).0 =~= envs_model(envs@));
                            }
                            fatal = Some(Fatal::Decode);
                        }
                    },
                }
            }
        }
    }

    let r = Parsed { args: args, envs: envs, fatal: fatal };
    proof {
        assert(parsed_model(r) =~= parse_frame_spec(m0, sp0));
    }
    r
}

/// Argument `i` of a frame is laid out as the ABI promises and holds
/// `text`: its slot is in the region, its pointer names a NUL-terminated
/// string of exactly those bytes, and they are UTF-8.
pub open spec fn arg_ok(m: StackImage, sp: int, i: int, text: Seq<u8>) -> bool {
    &&& m.contains_word(arg_slot(sp, i))
    &&& m.cstr_at(m.word_at(arg_slot(sp, i))) == Some(text)
    &&& is_utf8(text)
}

/// Environment entry `j` of a frame is laid out as the ABI promises and
/// holds `text`; its pointer is not the terminator.
pub open spec fn env_ok(m: StackImage, sp: int, argc: int, j: int, text: Seq<u8>) -> bool {
    &&& m.contains_word(env_slot(sp, argc, j))
    &&& m.word_at(env_slot(sp, argc, j)) != 0
    &&& m.cstr_at(m.word_at(env_slot(sp, argc, j))) == Some(text)
    &&& is_utf8(text)
}

/// The frame at `sp` follows the ABI layout and carries exactly the
/// argument texts `args` and the environment texts `envs`: the count word
/// equals `args.len()`, each pointer array entry is in the region and
/// names its text, the argument sentinel is NUL, and the slot after the
/// last environment entry is the NUL terminator.
pub open spec fn well_formed_frame(
    m: StackImage,
    sp: int,
    args: Seq<Seq<u8>>,
    envs: Seq<Seq<u8>>,
) -> bool {
    &&& m.wf()
    &&& m.contains_word(sp)
    &&& m.word_at(sp) == args.len()
    &&& forall|i: int| 0 <= i < args.len() ==> #[trigger] arg_ok(m, sp, i, args[i])
    &&& m.contains_word(arg_slot(sp, args.len() as int))
    &&& m.word_at(arg_slot(sp, args.len() as int)) == 0
    &&& forall|j: int| 0 <= j < envs.len() ==> #[trigger] env_ok(m, sp, args.len() as int, j, envs[j])
    &&& m.contains_word(env_slot(sp, args.len() as int, envs.len() as int))
    &&& m.word_at(env_slot(sp, args.len() as int, envs.len() as int)) == 0
}

/// When every argument from `i` on is laid out well, parsing them meets no
/// fatal condition and yields one entry per argument, in order, each
/// holding its exact text.
pub proof fn lemma_parse_args_ok(m: StackImage, sp: int, args: Seq<Seq<u8>>, i: int)
    requires
        0 <= i <= args.len(),
        forall|k: int| 0 <= k < args.len() ==> #[trigger] arg_ok(m, sp, k, args[k]),
    ensures
        parse_args(m, sp, args.len() as int, i).1 is None,
        parse_args(m, sp, args.len() as int, i).0.len() == args.len() - i,
        forall|k: int|
            0 <= k < args.len() - i ==> {
                let a = #[trigger] parse_args(m, sp, args.len() as int, i).0[k];
                &&& a.slot == arg_slot(sp, i + k)
                &&& a.ptr == m.word_at(arg_slot(sp, i + k))
                &&& a.text == args[i + k]
            },
    decreases args.len() - i,
{
    if i < args.len() {
        assert(arg_ok(m, sp, i, args[i]));
        lemma_parse_args_ok(m, sp, args, i + 1);
        let a0 = ArgM { slot: arg_slot(sp, i), ptr: m.word_at(arg_slot(sp, i)), text: args[i] };
        assert(parse_arg(m, sp, i) == Ok::<ArgM, Fatal>(a0));
        let rest = parse_args(m, sp, args.len() as int, i + 1);
        assert(parse_args(m, sp, args.len() as int, i) == (seq![a0] + rest.0, rest.1));
        assert forall|k: int| 0 <= k < args.len() - i implies {
            let a = #[trigger] parse_args(m, sp, args.len() as int, i).0[k];
            &&& a.slot == arg_slot(sp, i + k)
            &&& a.ptr == m.word_at(arg_slot(sp, i + k))
            &&& a.text == args[i + k]
        } by {
            if k == 0 {
                assert(parse_args(m, sp, args.len() as int, i).0[0] == a0);
            } else {
                assert(parse_args(m, sp, args.len() as int, i).0[k] == rest.0[k - 1]);
            }
        }
    }
}

/// When every environment entry from `j` on is laid out well and the
/// terminator follows them, parsing stops exactly at the terminator with
/// one entry per text, in order.
pub proof fn lemma_parse_envs_ok(m: StackImage, sp: int, argc: int, envs: Seq<Seq<u8>>, j: int)
    requires
        0 <= j <= envs.len(),
        forall|k: int| 0 <= k < envs.len() ==> #[trigger] env_ok(m, sp, argc, k, envs[k]),
        m.contains_word(env_slot(sp, argc, envs.len() as int)),
        m.word_at(env_slot(sp, argc, envs.len() as int)) == 0,
    ensures
        parse_envs(m, sp, argc, j).1 is None,
        parse_envs(m, sp, argc, j).0.len() == envs.len() - j,
        forall|k: int|
            0 <= k < envs.len() - j ==> {
                let e = #[trigger] parse_envs(m, sp, argc, j).0[k];
                &&& e.slot == env_slot(sp, argc, j + k)
                &&& e.text == envs[j + k]
            },
    decreases envs.len() - j,
{
    if j < envs.len() {
        assert(env_ok(m, sp, argc, j, envs[j]));
        lemma_parse_envs_ok(m, sp, argc, envs, j + 1);
        let e0 = EnvM { slot: env_slot(sp, argc, j), text: envs[j] };
        let rest = parse_envs(m, sp, argc, j + 1);
        assert(parse_envs(m, sp, argc, j) == (seq![e0] + rest.0, rest.1));
        assert forall|k: int| 0 <= k < envs.len() - j implies {
            let e = #[trigger] parse_envs(m, sp, argc, j).0[k];
            &&& e.slot == env_slot(sp, argc, j + k)
            &&& e.text == envs[j + k]
        } by {
            if k == 0 {
                assert(parse_envs(m, sp, argc, j).0[0] == e0);
            } else {
                assert(parse_envs(m, sp, argc, j).0[k] == rest.0[k - 1]);
            }
        }
    }
}

/// A well-formed frame parses completely: no fatal condition, exactly one
/// argument entry per given text in the given order - never more, never
/// fewer - and exactly one environment entry per text before the
/// terminator: the walk of the environment slots ends at the first NUL
/// pointer.
pub proof fn lemma_parse_well_formed(m: StackImage, sp: int, args: Seq<Seq<u8>>, envs: Seq<Seq<u8>>)
    requires
        well_formed_frame(m, sp, args, envs),
    ensures
        parse_frame_spec(m, sp).fatal is None,
        parse_frame_spec(m, sp).args.len() == args.len(),
        forall|i: int|
            0 <= i < args.len() ==> {
                let a = #[trigger] parse_frame_spec(m, sp).args[i];
                &&& a.slot == arg_slot(sp, i)
                &&& a.ptr == m.word_at(arg_slot(sp, i))
                &&& a.text == args[i]
            },
        parse_frame_spec(m, sp).envs.len() == envs.len(),
        forall|j: int|
            0 <= j < envs.len() ==> {
                let e = #[trigger] parse_frame_spec(m, sp).envs[j];
                &&& e.slot == env_slot(sp, args.len() as int, j)
                &&& e.text == envs[j]
            },
{
    lemma_parse_args_ok(m, sp, args, 0);
    lemma_parse_envs_ok(m, sp, args.len() as int, envs, 0);
}

} // verus!
