//! A verified core for a minimal process-startup diagnostic.
//!
//! At process start the loader hands the program one raw pointer to the
//! initial stack frame, laid out as `[argc][argv[0]..][NULL][envp[0]..][NULL]`,
//! where every `argv`/`envp` slot points at a NUL-terminated byte string.
//! This library contains everything about that program that is plain
//! computation: a bounds-aware view of the frame memory, the frame parser,
//! the UTF-8 check applied to every entry, the text renderer that produces
//! the diagnostic lines, and the emission state machine that decides, after
//! each attempted write, whether to go on or to halt.
//!
//! The one effect the program has - the raw `write` system call - is I/O and
//! lives outside this library; callers feed its outcome back into the
//! [`report::Reporter`] state machine.

pub mod mem;
pub mod utf8;
pub mod render;
pub mod frame;
pub mod report;
pub mod synth;
