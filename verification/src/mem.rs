//! A bounds-aware, read-only view of the initial-stack memory region.
//!
//! The loader's frame is untyped memory. [`StackImage`] holds a snapshot of
//! the relevant region together with the address of its first byte, and
//! offers exactly two ways to look at it: reading one little-endian machine
//! word at an address, and scanning forward from an address for a
//! NUL-terminated byte string. Both are total: an access that would leave
//! the region reports failure instead of reading further.

use vstd::prelude::*;

verus! {

/// The little-endian value of the eight bytes of `s` starting at `off`.
pub open spec fn word_le(s: Seq<u8>, off: int) -> int {
    s[off] as int
        + s[off + 1] * 0x100
        + s[off + 2] * 0x1_0000
        + s[off + 3] * 0x100_0000
        + s[off + 4] * 0x1_0000_0000
        + s[off + 5] * 0x100_0000_0000
        + s[off + 6] * 0x1_0000_0000_0000
        + s[off + 7] * 0x100_0000_0000_0000
}

/// Index of the first NUL byte of `s` at or after `off`, if there is one.
pub open spec fn find_nul(s: Seq<u8>, off: int) -> Option<int>
    decreases s.len() - off,
{
    if off < 0 || off >= s.len() {
        None
    } else if s[off] == 0 {
        Some(off)
    } else {
        find_nul(s, off + 1)
    }
}

/// The bytes of the NUL-terminated string of `s` starting at `off`,
/// terminator excluded, if a terminator exists at all.
pub open spec fn cstr_from(s: Seq<u8>, off: int) -> Option<Seq<u8>> {
    match find_nul(s, off) {
        Some(p) => Some(s.subrange(off, p)),
        None => None,
    }
}

/// Scanning for a NUL is unchanged by skipping a NUL-free prefix.
pub proof fn lemma_find_nul_skip(s: Seq<u8>, off: int, j: int)
    requires
        0 <= off <= j <= s.len(),
        forall|k: int| off <= k < j ==> s[k] != 0,
    ensures
        find_nul(s, off) == find_nul(s, j),
    decreases j - off,
{
    if off < j {
        lemma_find_nul_skip(s, off + 1, j);
    }
}

/// A read-only snapshot of the initial-stack memory region: the bytes from
/// address `base` up to `base + bytes.len()`. The program never writes
/// through it.
pub struct StackImage {
    /// Address of the first byte of the region.
    pub base: u64,
    /// The bytes of the region, in address order.
    pub bytes: Vec<u8>,
}

impl StackImage {
    /// The region's addresses stay representable in one machine word.
    pub open spec fn wf(self) -> bool {
        self.base + self.bytes@.len() <= u64::MAX + 1
    }

    /// One past the address of the last byte of the region.
    pub open spec fn end(self) -> int {
        self.base + self.bytes@.len()
    }

    /// Whether a whole machine word can be read at `addr`.
    pub open spec fn contains_word(self, addr: int) -> bool {
        self.base <= addr && addr + 8 <= self.end()
    }

    /// The little-endian word at `addr`.
    pub open spec fn word_at(self, addr: int) -> int {
        word_le(self.bytes@, addr - self.base)
    }

    /// The NUL-terminated string starting at `addr`, if `addr` is in the
    /// region and a terminator follows before the region ends.
    pub open spec fn cstr_at(self, addr: int) -> Option<Seq<u8>> {
        if self.base <= addr && addr <= self.end() {
            cstr_from(self.bytes@, addr - self.base)
        } else {
            None
        }
    }

    /// Read the machine word at `addr`, or report that it is out of bounds.
    pub fn read_word(&self, addr: u64) -> (r: Option<u64>)
        requires
            self.wf(),
        ensures
            match r {
                Some(w) => self.contains_word(addr as int) && w as int == self.word_at(addr as int),
                None => !self.contains_word(addr as int),
            },
    {
        if addr < self.base {
            return None;
        }
        let len: usize = self.bytes.len();
        if len < 8 {
            return None;
        }
        let off64: u64 = addr - self.base;
        if off64 > (len - 8) as u64 {
            return None;
        }
        let off: usize = off64 as usize;
        let w: u64 = (self.bytes[off] as u64)
            + (self.bytes[off + 1] as u64) * 0x100
            + (self.bytes[off + 2] as u64) * 0x1_0000
            + (self.bytes[off + 3] as u64) * 0x100_0000
            + (self.bytes[off + 4] as u64) * 0x1_0000_0000
            + (self.bytes[off + 5] as u64) * 0x100_0000_0000
            + (self.bytes[off + 6] as u64) * 0x1_0000_0000_0000
            + (self.bytes[off + 7] as u64) * 0x100_0000_0000_0000;
        Some(w)
    }

    /// Scan forward from `addr` for a NUL terminator and return the bytes
    /// before it, or report that the scan left the region first.
    pub fn read_cstr(&self, addr: u64) -> (r: Option<Vec<u8>>)
        requires
            self.wf(),
        ensures
            match r {
                Some(v) => self.cstr_at(addr as int) == Some(v@),
                None => self.cstr_at(addr as int) is None,
            },
    {
        if addr < self.base {
            return None;
        }
        let len: usize = self.bytes.len();
        let off64: u64 = addr - self.base;
        if off64 > len as u64 {
            return None;
        }
        let off: usize = off64 as usize;
        let mut v: Vec<u8> = Vec::new();
        let mut j: usize = off;
        loop
            invariant
                self.wf(),
                off <= j <= len,
                len == self.bytes@.len(),
                off == addr - self.base,
                forall|k: int| off <= k < j ==> self.bytes@[k] != 0,
                v@ == self.bytes@.subrange(off as int, j as int),
            decreases len - j,
        {
            if j >= len {
                proof {
                    lemma_find_nul_skip(self.bytes@, off as int, j as int);
                }
                return None;
            }
            let b = self.bytes[j];
            if b == 0 {
                proof {
                    lemma_find_nul_skip(self.bytes@, off as int, j as int);
                }
                return Some(v);
            }
            v.push(b);
            proof {
                assert(v@ =~= self.bytes@.subrange(off as int, j + 1));
            }
            j = j + 1;
        }
    }
}

} // verus!
