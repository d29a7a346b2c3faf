//! The diagnostic report and its emission.
//!
//! [`report_lines_spec`] is the full sequence of lines the program shows
//! for a frame: the `sp:` line, one line per parsed argument, one per
//! parsed environment entry - exactly the entries found before the first
//! fatal condition. [`Reporter`] walks that sequence: it hands out one
//! line at a time, and is told after each attempted write whether the one
//! output system call succeeded. A failed write halts it for good; no
//! line is retried and none follows.

use vstd::prelude::*;
use crate::mem::StackImage;
use crate::frame::ArgEntry;
use crate::frame::ArgM;
use crate::frame::EnvEntry;
use crate::frame::EnvM;
use crate::frame::Fatal;
use crate::frame::ParseM;
use crate::frame::Parsed;
use crate::frame::parse_frame;
use crate::frame::parse_frame_spec;
use crate::frame::parsed_model;
use crate::render::arg_line;
use crate::render::env_line;
use crate::render::render_arg_line;
use crate::render::render_env_line;
use crate::render::render_sp_line;
use crate::render::sp_line;

verus! {

/// The bytes of the line shown for one parsed argument.
pub open spec fn arg_line_of(a: ArgM) -> Seq<u8> {
    arg_line(a.slot, a.ptr, a.text)
}

/// The bytes of the line shown for one parsed environment entry.
pub open spec fn env_line_of(e: EnvM) -> Seq<u8> {
    env_line(e.slot, e.text)
}

/// The views of a vector of rendered lines.
pub open spec fn lines_model(v: Seq<Vec<u8>>) -> Seq<Seq<u8>> {
    v.map_values(|l: Vec<u8>| l@)
}

/// All lines shown for a walk that yielded `pm`: the `sp:` line first,
/// then the argument lines in order, then the environment lines in order.
pub open spec fn report_lines_of(sp: int, pm: ParseM) -> Seq<Seq<u8>> {
    seq![sp_line(sp)] + pm.args.map_values(|a: ArgM| arg_line_of(a))
        + pm.envs.map_values(|e: EnvM| env_line_of(e))
}

/// All lines shown for the frame at `sp` in the region `m`.
pub open spec fn report_lines_spec(m: StackImage, sp: int) -> Seq<Seq<u8>> {
    report_lines_of(sp, parse_frame_spec(m, sp))
}

/// The fatal condition, if any, that ends the report of the frame at `sp`.
pub open spec fn report_fatal_spec(m: StackImage, sp: int) -> Option<Fatal> {
    parse_frame_spec(m, sp).fatal
}

/// Appending one rendered line appends its view to the model.
pub proof fn lemma_lines_model_push(v: Seq<Vec<u8>>, l: Vec<u8>)
    ensures
        lines_model(v.push(l)) =~= lines_model(v).push(l@),
{
    assert forall|i: int| 0 <= i < v.len() + 1 implies lines_model(v.push(l))[i] == lines_model(
        v,
    ).push(l@)[i] by {
        if i < v.len() {
            assert(v.push(l)[i] == v[i]);
        }
    }
}

/// Render every line of the report for a walk that yielded `p`.
pub fn render_report(sp: u64, p: &Parsed) -> (r: Vec<Vec<u8>>)
    ensures
        lines_model(r@) == report_lines_of(sp as int, parsed_model(*p)),
{
    let ghost pm = parsed_model(*p);
    let ghost all = report_lines_of(sp as int, pm);
    let mut out: Vec<Vec<u8>> = Vec::new();
    out.push(render_sp_line(sp));
    proof {
        assert(lines_model(out@) =~= all.subrange(0, 1));
    }
    let na: usize = p.args.len();
    let mut k: usize = 0;
    while k < na
        invariant
            na == p.args@.len(),
            k <= na,
            pm == parsed_model(*p),
            all == report_lines_of(sp as int, pm),
            lines_model(out@) == all.subrange(0, 1 + k),
        decreases na - k,
    {
        let e: &ArgEntry = &p.args[k];
        let line = render_arg_line(e.slot, e.ptr, &e.text);
        proof {
            assert(all[1 + k] == arg_line_of(pm.args[k as int]));
            assert(line@ == all[1 + k]);
        }
        let ghost prev = out@;
        out.push(line);
        proof {
            lemma_lines_model_push(prev, line);
            assert(lines_model(out@) =~= all.subrange(0, 1 + k + 1));
        }
        k = k + 1;
    }
    let ne: usize = p.envs.len();
    let mut j: usize = 0;
    while j < ne
        invariant
            na == p.args@.len(),
            ne == p.envs@.len(),
            j <= ne,
            pm == parsed_model(*p),
            all == report_lines_of(sp as int, pm),
            lines_model(out@) == all.subrange(0, 1 + na + j),
        decreases ne - j,
    {
        let e: &EnvEntry = &p.envs[j];
        let line = render_env_line(e.slot, &e.text);
        proof {
            assert(all[1 + na + j] == env_line_of(pm.envs[j as int]));
            assert(line@ == all[1 + na + j]);
        }
        let ghost prev = out@;
        out.push(line);
        proof {
            lemma_lines_model_push(prev, line);
            assert(lines_model(out@) =~= all.subrange(0, 1 + na + j + 1));
        }
        j = j + 1;
    }
    proof {
        assert(lines_model(out@) =~= all);
    }
    out
}

/// For a well-formed frame with `argc = N` the report meets no fatal
/// condition and is exactly `1 + N + envs.len()` lines: the `sp:` line,
/// one argument line per argument text in the given order, each holding
/// the exact text, and one environment line per environment text in the
/// given order - the environment walk ends at the first NUL slot.
pub proof fn lemma_report_well_formed(
    m: StackImage,
    sp: int,
    args: Seq<Seq<u8>>,
    envs: Seq<Seq<u8>>,
)
    requires
        crate::frame::well_formed_frame(m, sp, args, envs),
    ensures
        report_fatal_spec(m, sp) is None,
        report_lines_spec(m, sp).len() == 1 + args.len() + envs.len(),
        report_lines_spec(m, sp)[0] == sp_line(sp),
        forall|i: int|
            0 <= i < args.len() ==> report_lines_spec(m, sp)[1 + i] == arg_line(
                crate::frame::arg_slot(sp, i),
                m.word_at(crate::frame::arg_slot(sp, i)),
                #[trigger] args[i],
            ),
        forall|j: int|
            0 <= j < envs.len() ==> report_lines_spec(m, sp)[1 + args.len() + j] == env_line(
                crate::frame::env_slot(sp, args.len() as int, j),
                #[trigger] envs[j],
            ),
{
    crate::frame::lemma_parse_well_formed(m, sp, args, envs);
}

/// How a run of the reporter stands or ended.
#[derive(Clone, Copy, Debug, PartialEq, Eq, Structural)]
pub enum Outcome {
    /// Lines remain to be written.
    Pending,
    /// Every line was written and the walk met no fatal condition.
    Finished,
    /// A write system call failed; emission stopped there.
    HaltedSyscall,
    /// The walk of the frame met a fatal condition after the lines shown.
    HaltedFatal(Fatal),
}

/// The emission state machine. It owns the rendered lines of one report
/// and hands them out strictly in order, one per attempted write; a
/// reported write failure halts it permanently.
pub struct Reporter {
    /// Every line of the report, in emission order.
    pub lines: Vec<Vec<u8>>,
    /// Number of lines already written with success.
    pub idx: usize,
    /// Whether a write failure has stopped emission for good.
    pub halted: bool,
    /// The fatal condition the walk of the frame ended in, if any.
    pub fatal: Option<Fatal>,
}

impl Reporter {
    pub open spec fn wf(self) -> bool {
        self.idx <= self.lines@.len()
    }

    /// The line owed to the output stream next, if emission goes on.
    pub open spec fn pending_line(self) -> Option<Seq<u8>> {
        if self.halted || self.idx >= self.lines@.len() {
            None
        } else {
            Some(self.lines@[self.idx as int]@)
        }
    }

    pub open spec fn outcome_spec(self) -> Outcome {
        if self.halted {
            Outcome::HaltedSyscall
        } else if self.idx < self.lines@.len() {
            Outcome::Pending
        } else {
            match self.fatal {
                Some(f) => Outcome::HaltedFatal(f),
                None => Outcome::Finished,
            }
        }
    }

    /// Parse the frame at `sp` in `m`, render its report, and stand ready
    /// to emit the first line.
    pub fn new(m: &StackImage, sp: u64) -> (r: Reporter)
        requires
            m.wf(),
        ensures
            r.wf(),
            lines_model(r.lines@) == report_lines_spec(*m, sp as int),
            r.fatal == report_fatal_spec(*m, sp as int),
            r.idx == 0,
            !r.halted,
    {
        let p = parse_frame(m, sp);
        let lines = render_report(sp, &p);
        Reporter { lines: lines, idx: 0, halted: false, fatal: p.fatal }
    }

    /// The next line to write, or nothing if the report is over or a
    /// write has failed.
    pub fn next_line(&self) -> (r: Option<&Vec<u8>>)
        ensures
            match r {
                Some(l) => self.pending_line() == Some(l@),
                None => self.pending_line() is None,
            },
    {
        if self.halted {
            None
        } else if self.idx < self.lines.len() {
            Some(&self.lines[self.idx])
        } else {
            None
        }
    }

    /// Record the outcome of the one write system call made for the line
    /// last handed out. Success moves on to the next line; failure halts:
    /// the same line is never offered again, and neither is any other.
    pub fn record_write(&mut self, ok: bool)
        requires
            old(self).wf(),
            old(self).pending_line() is Some,
        ensures
            final(self).wf(),
            final(self).lines == old(self).lines,
            final(self).fatal == old(self).fatal,
            ok ==> !final(self).halted && final(self).idx == old(self).idx + 1,
            !ok ==> final(self).halted && final(self).idx == old(self).idx,
            !ok ==> final(self).pending_line() is None
                && final(self).outcome_spec() == Outcome::HaltedSyscall,
    {
        // The length fits in usize, so the index below it cannot overflow.
        let _n: usize = self.lines.len();
        if ok {
            self.idx = self.idx + 1;
        } else {
            self.halted = true;
        }
    }

    /// How the run stands: pending lines, a clean finish, a write
    /// failure, or the fatal condition the walk ended in.
    pub fn outcome(&self) -> (r: Outcome)
        ensures
            r == self.outcome_spec(),
    {
        if self.halted {
            Outcome::HaltedSyscall
        } else if self.idx < self.lines.len() {
            Outcome::Pending
        } else {
            match self.fatal {
                Some(f) => Outcome::HaltedFatal(f),
                None => Outcome::Finished,
            }
        }
    }
}

} // verus!
