//! Reading the dynamic section of ELF files (32 and 64 bit, little endian): the libraries
//! a binary needs, its soname and its run paths.
//!
//! Offsets are computed exactly, without wrap-around; a byte past the end of the file
//! reads as zero.

use vstd::prelude::*;

use crate::deb::{lossy, utf8_lossy};
use vstd::string::StringSliceAdditionalSpecFns;

verus! {

// ------------------------------------------------------------------ little-endian reads

/// The byte at `off`, or zero past the end.
pub open spec fn byte_at(d: Seq<u8>, off: int) -> u8 {
    if 0 <= off < d.len() {
        d[off]
    } else {
        0
    }
}

/// Little-endian 16-bit value at `off` (missing bytes read as zero).
pub open spec fn rd16(d: Seq<u8>, off: int) -> u16 {
    (byte_at(d, off) as int + 256 * byte_at(d, off + 1) as int) as u16
}

/// Little-endian 32-bit value at `off` (missing bytes read as zero).
pub open spec fn rd32(d: Seq<u8>, off: int) -> u32 {
    (rd16(d, off) as int + 0x1_0000 * rd16(d, off + 2) as int) as u32
}

/// Little-endian 64-bit value at `off` (missing bytes read as zero).
pub open spec fn rd64(d: Seq<u8>, off: int) -> u64 {
    (rd32(d, off) as int + 0x1_0000_0000 * rd32(d, off + 4) as int) as u64
}

fn byte_exec(d: &[u8], off: u128) -> (b: u8)
    ensures
        b == byte_at(d@, off as int),
{
    if off < d.len() as u128 {
        d[off as usize]
    } else {
        0
    }
}

fn rd_u16(d: &[u8], off: u128) -> (r: u16)
    requires
        off < 0x8000_0000_0000_0000_0000_0000_0000_0000,
    ensures
        r == rd16(d@, off as int),
{
    let lo = byte_exec(d, off) as u16;
    let hi = byte_exec(d, off + 1) as u16;
    lo + 256 * hi
}

fn rd_u32(d: &[u8], off: u128) -> (r: u32)
    requires
        off < 0x8000_0000_0000_0000_0000_0000_0000_0000 - 8,
    ensures
        r == rd32(d@, off as int),
{
    let lo = rd_u16(d, off) as u32;
    let hi = rd_u16(d, off + 2) as u32;
    lo + 0x1_0000 * hi
}

fn rd_u64(d: &[u8], off: u128) -> (r: u64)
    requires
        off < 0x8000_0000_0000_0000_0000_0000_0000_0000 - 16,
    ensures
        r == rd64(d@, off as int),
{
    let lo = rd_u32(d, off) as u64;
    let hi = rd_u32(d, off + 4) as u64;
    lo + 0x1_0000_0000 * hi
}

// ------------------------------------------------------------------ headers

/// Whether `d` starts like an ELF file (`\x7fELF`) and holds a whole file header.
pub open spec fn is_elf(d: Seq<u8>) -> bool {
    d.len() >= 64 && d[0] == 0x7fu8 && d[1] == 0x45u8 && d[2] == 0x4cu8 && d[3] == 0x46u8
}

/// Whether the file is 64-bit (class 2).
pub open spec fn is64(d: Seq<u8>) -> bool {
    d[4] == 2u8
}

/// Offset of the program headers.
pub open spec fn phoff(d: Seq<u8>) -> int {
    if is64(d) {
        rd64(d, 32) as int
    } else {
        rd32(d, 28) as int
    }
}

/// Size of one program header.
pub open spec fn phentsize(d: Seq<u8>) -> int {
    if is64(d) {
        rd16(d, 54) as int
    } else {
        rd16(d, 42) as int
    }
}

/// Number of program headers.
pub open spec fn phnum(d: Seq<u8>) -> int {
    if is64(d) {
        rd16(d, 56) as int
    } else {
        rd16(d, 44) as int
    }
}

/// Offset of program header `k`.
pub open spec fn ph_at(d: Seq<u8>, k: int) -> int {
    phoff(d) + k * phentsize(d)
}

/// The file offset of the dynamic section: the field at 8 of the first program header of
/// type 2 from `k` on.
pub open spec fn dynamic_from(d: Seq<u8>, k: int) -> Option<int>
    decreases phnum(d) - k,
{
    if k < 0 || k >= phnum(d) {
        None
    } else if rd32(d, ph_at(d, k)) == 2 {
        Some(
            if is64(d) {
                rd64(d, ph_at(d, k) + 8) as int
            } else {
                rd32(d, ph_at(d, k) + 8) as int
            },
        )
    } else {
        dynamic_from(d, k + 1)
    }
}

/// Size of one dynamic entry.
pub open spec fn dyn_entsize(d: Seq<u8>) -> int {
    if is64(d) {
        16
    } else {
        8
    }
}

/// The dynamic entries `(tag, value)` from offset `off` on, up to the first null tag or
/// the end of the file.
pub open spec fn tags_from(d: Seq<u8>, off: int) -> Seq<(u64, u64)>
    decreases d.len() - off,
{
    let es = dyn_entsize(d);
    if off < 0 || off + es > d.len() {
        Seq::empty()
    } else {
        let tag: u64 = if is64(d) {
            rd64(d, off)
        } else {
            rd32(d, off) as u64
        };
        let val: u64 = if is64(d) {
            rd64(d, off + 8)
        } else {
            rd32(d, off + 4) as u64
        };
        if tag == 0 {
            Seq::empty()
        } else {
            seq![(tag, val)] + tags_from(d, off + es)
        }
    }
}

/// The dynamic entries, when there is a dynamic section.
pub open spec fn dyn_tags_spec(d: Seq<u8>) -> Option<Seq<(u64, u64)>> {
    match dynamic_from(d, 0) {
        Some(off) => Some(tags_from(d, off)),
        None => None,
    }
}

/// The file offset of a virtual address: through the first loadable segment (type 1) from
/// header `k` on that maps it, else the address itself when it lies within the file.
pub open spec fn load_from(d: Seq<u8>, addr: int, k: int) -> Option<int>
    decreases phnum(d) - k,
{
    if k < 0 || k >= phnum(d) {
        if addr < d.len() {
            Some(addr)
        } else {
            None
        }
    } else {
        let b = ph_at(d, k);
        let foff = if is64(d) {
            rd64(d, b + 8) as int
        } else {
            rd32(d, b + 4) as int
        };
        let vaddr = if is64(d) {
            rd64(d, b + 16) as int
        } else {
            rd32(d, b + 8) as int
        };
        let fsz = if is64(d) {
            rd64(d, b + 32) as int
        } else {
            rd32(d, b + 16) as int
        };
        if rd32(d, b) == 1 && vaddr <= addr < vaddr + fsz {
            Some(foff + (addr - vaddr))
        } else {
            load_from(d, addr, k + 1)
        }
    }
}

/// The value of the first entry with tag `t`.
pub open spec fn first_tag(tags: Seq<(u64, u64)>, t: u64) -> Option<u64>
    decreases tags.len(),
{
    if tags.len() == 0 {
        None
    } else if tags[0].0 == t {
        Some(tags[0].1)
    } else {
        first_tag(tags.drop_first(), t)
    }
}

/// The file offset of the dynamic string table (tag 5).
pub open spec fn strtab_spec(d: Seq<u8>) -> Option<int> {
    match dyn_tags_spec(d) {
        Some(tags) => match first_tag(tags, 5) {
            Some(v) => load_from(d, v as int, 0),
            None => None,
        },
        None => None,
    }
}

/// Position of the first zero byte at or after `i`.
pub open spec fn nul_from(d: Seq<u8>, i: int) -> Option<int>
    decreases d.len() - i,
{
    if i < 0 || i >= d.len() {
        None
    } else if d[i] == 0 {
        Some(i)
    } else {
        nul_from(d, i + 1)
    }
}

/// The bytes of the zero-terminated string at `start`; `None` when it is empty, starts
/// past the end, or has no terminator.
pub open spec fn cstr_at(d: Seq<u8>, start: int) -> Option<Seq<u8>> {
    if start < 0 || start >= d.len() {
        None
    } else {
        let len = match nul_from(d, start) {
            Some(j) => j - start,
            None => 0,
        };
        if len == 0 {
            None
        } else {
            Some(d.subrange(start, start + len))
        }
    }
}

/// The dynamic string at `rel` in the string table at `strtab`, as text.
pub open spec fn dyn_str(d: Seq<u8>, strtab: int, rel: int) -> Option<Seq<char>> {
    match cstr_at(d, strtab + rel) {
        Some(b) => Some(utf8_lossy(b)),
        None => None,
    }
}

/// The strings of the entries with tag `t`, in order, those that exist.
pub open spec fn tag_strings(d: Seq<u8>, strtab: int, tags: Seq<(u64, u64)>, t: u64) -> Seq<
    Seq<char>,
>
    decreases tags.len(),
{
    if tags.len() == 0 {
        Seq::empty()
    } else {
        let rest = tag_strings(d, strtab, tags.drop_last(), t);
        if tags.last().0 == t {
            match dyn_str(d, strtab, tags.last().1 as int) {
                Some(s) => rest.push(s),
                None => rest,
            }
        } else {
            rest
        }
    }
}

/// The libraries that an ELF file needs (tag 1), empty without a string table.
pub open spec fn needed_spec(d: Seq<u8>) -> Seq<Seq<char>> {
    match strtab_spec(d) {
        Some(st) => match dyn_tags_spec(d) {
            Some(tags) => tag_strings(d, st, tags, 1),
            None => Seq::empty(),
        },
        None => Seq::empty(),
    }
}

/// The soname of an ELF file (tag 14).
pub open spec fn soname_spec(d: Seq<u8>) -> Option<Seq<char>> {
    match strtab_spec(d) {
        Some(st) => match dyn_tags_spec(d) {
            Some(tags) => match first_tag(tags, 14) {
                Some(v) => dyn_str(d, st, v as int),
                None => None,
            },
            None => None,
        },
        None => None,
    }
}

/// The run-path entries (tags 15 and 29), in order.
pub open spec fn runpath_tags(tags: Seq<(u64, u64)>) -> Seq<(u64, u64)>
    decreases tags.len(),
{
    if tags.len() == 0 {
        Seq::empty()
    } else {
        let rest = runpath_tags(tags.drop_last());
        if tags.last().0 == 15 || tags.last().0 == 29 {
            rest.push(tags.last())
        } else {
            rest
        }
    }
}

/// The string table offset and run-path entries of an ELF file.
pub open spec fn runpath_info_spec(d: Seq<u8>) -> Option<(int, Seq<(u64, u64)>)> {
    match strtab_spec(d) {
        Some(st) => match dyn_tags_spec(d) {
            Some(tags) => Some((st, runpath_tags(tags))),
            None => None,
        },
        None => None,
    }
}

// ------------------------------------------------------------------ reading

/// Offsets stay far below this bound.
pub open spec fn small(x: int) -> bool {
    0 <= x < 0x1_0000_0000_0000_0000_0000
}

/// An ELF file being read.
pub struct Elf<'a> {
    data: &'a [u8],
    is64: bool,
}

impl<'a> Elf<'a> {
    /// The bytes of the file.
    pub closed spec fn bytes(&self) -> Seq<u8> {
        self.data@
    }

    /// The well-formedness of a reader: its flag is the file's class.
    #[verifier::type_invariant]
    spec fn wf(&self) -> bool {
        is_elf(self.data@) && self.is64 == is64(self.data@)
    }

    /// A reader for `data`, when it starts like an ELF file.
    pub fn new(data: &'a [u8]) -> (r: Option<Elf<'a>>)
        ensures
            r is Some <==> is_elf(data@),
            r matches Some(e) ==> e.bytes() == data@ && is_elf(e.bytes()),
    {
        if data.len() < 64 || data[0] != 0x7fu8 || data[1] != 0x45u8 || data[2] != 0x4cu8 || data[3]
            != 0x46u8 {
            return None;
        }
        Some(Elf { data, is64: data[4] == 2u8 })
    }

    fn phoff(&self) -> (r: u128)
        requires
            self.wf(),
        ensures
            r as int == phoff(self.data@),
            small(r as int),
    {
        if self.is64 {
            rd_u64(self.data, 32) as u128
        } else {
            rd_u32(self.data, 28) as u128
        }
    }

    fn phentsize(&self) -> (r: u128)
        requires
            self.wf(),
        ensures
            r as int == phentsize(self.data@),
            r < 0x1_0000,
    {
        if self.is64 {
            rd_u16(self.data, 54) as u128
        } else {
            rd_u16(self.data, 42) as u128
        }
    }

    fn phnum(&self) -> (r: u128)
        requires
            self.wf(),
        ensures
            r as int == phnum(self.data@),
            r < 0x1_0000,
    {
        if self.is64 {
            rd_u16(self.data, 56) as u128
        } else {
            rd_u16(self.data, 44) as u128
        }
    }

    fn ph_at(&self, k: u128) -> (r: u128)
        requires
            self.wf(),
            k < 0x1_0000,
        ensures
            r as int == ph_at(self.data@, k as int),
            r < 0x1_0000_0000_0000_0000_0000 - 0x1_0000,
    {
        let a = self.phoff();
        let b = self.phentsize();
        assert(k * b < 0x1_0000_0000) by (nonlinear_arith)
            requires
                k < 0x1_0000,
                b < 0x1_0000,
        ;
        a + k * b
    }

    fn rd_word(&self, off: u128) -> (r: u64)
        requires
            self.wf(),
            off < 0x1_0000_0000_0000_0000_0000,
        ensures
            r == (if is64(self.data@) {
                rd64(self.data@, off as int)
            } else {
                rd32(self.data@, off as int) as u64
            }),
    {
        if self.is64 {
            rd_u64(self.data, off)
        } else {
            rd_u32(self.data, off) as u64
        }
    }

    /// The file offset of the dynamic section.
    fn dynamic_off(&self) -> (r: Option<u128>)
        requires
            self.wf(),
        ensures
            match r {
                Some(x) => dynamic_from(self.data@, 0) == Some(x as int) && small(x as int),
                None => dynamic_from(self.data@, 0) is None,
            },
    {
        let n = self.phnum();
        let mut k: u128 = 0;
        while k < n
            invariant
                self.wf(),
                n as int == phnum(self.data@),
                n < 0x1_0000,
                k <= n,
                dynamic_from(self.data@, 0) == dynamic_from(self.data@, k as int),
            decreases n - k,
        {
            let off = self.ph_at(k);
            if rd_u32(self.data, off) == 2 {
                let v = if self.is64 {
                    rd_u64(self.data, off + 8)
                } else {
                    rd_u32(self.data, off + 8) as u64
                };
                return Some(v as u128);
            }
            k = k + 1;
        }
        None
    }

    /// The dynamic entries, when there is a dynamic section.
    fn dyn_tags(&self) -> (r: Option<Vec<(u64, u64)>>)
        requires
            self.wf(),
        ensures
            match r {
                Some(v) => dyn_tags_spec(self.data@) == Some(v@),
                None => dyn_tags_spec(self.data@) is None,
            },
    {
        let start = match self.dynamic_off() {
            Some(x) => x,
            None => return None,
        };
        let es: u128 = if self.is64 {
            16
        } else {
            8
        };
        let len = self.data.len() as u128;
        let mut tags: Vec<(u64, u64)> = Vec::new();
        let mut off = start;
        proof {
            assert(tags@ + tags_from(self.data@, off as int) =~= tags_from(self.data@, start as int));
        }
        while off + es <= len
            invariant
                self.wf(),
                es as int == dyn_entsize(self.data@),
                len == self.data@.len(),
                len < 0x1_0000_0000_0000_0000,
                dynamic_from(self.data@, 0) == Some(start as int),
                small(off as int),
                small(start as int),
                tags@ + tags_from(self.data@, off as int) == tags_from(self.data@, start as int),
            decreases len - off,
        {
            let tag = self.rd_word(off);
            let val = if self.is64 {
                rd_u64(self.data, off + 8)
            } else {
                rd_u32(self.data, off + 4) as u64
            };
            if tag == 0 {
                assert(tags_from(self.data@, off as int) =~= Seq::<(u64, u64)>::empty());
                assert(tags@ =~= tags@ + tags_from(self.data@, off as int));
                return Some(tags);
            }
            let ghost before = tags@;
            tags.push((tag, val));
            assert(tags@ + tags_from(self.data@, (off + es) as int) =~= before + tags_from(
                self.data@,
                off as int,
            ));
            off = off + es;
        }
        assert(tags_from(self.data@, off as int) =~= Seq::<(u64, u64)>::empty());
        assert(tags@ =~= tags@ + tags_from(self.data@, off as int));
        Some(tags)
    }

    /// The file offset of virtual address `addr`.
    fn vaddr_to_off(&self, addr: u64) -> (r: Option<u128>)
        requires
            self.wf(),
        ensures
            match r {
                Some(x) => load_from(self.data@, addr as int, 0) == Some(x as int) && small(
                    x as int,
                ),
                None => load_from(self.data@, addr as int, 0) is None,
            },
    {
        let n = self.phnum();
        let a = addr as u128;
        let mut k: u128 = 0;
        while k < n
            invariant
                self.wf(),
                n as int == phnum(self.data@),
                n < 0x1_0000,
                k <= n,
                a == addr as u128,
                load_from(self.data@, addr as int, 0) == load_from(self.data@, addr as int, k as int),
            decreases n - k,
        {
            let b = self.ph_at(k);
            let ptype = rd_u32(self.data, b);
            let (foff, vaddr, fsz): (u128, u128, u128) = if self.is64 {
                (
                    rd_u64(self.data, b + 8) as u128,
                    rd_u64(self.data, b + 16) as u128,
                    rd_u64(self.data, b + 32) as u128,
                )
            } else {
                (
                    rd_u32(self.data, b + 4) as u128,
                    rd_u32(self.data, b + 8) as u128,
                    rd_u32(self.data, b + 16) as u128,
                )
            };
            if ptype == 1 && vaddr <= a && a < vaddr + fsz {
                return Some(foff + (a - vaddr));
            }
            k = k + 1;
        }
        if a < self.data.len() as u128 {
            Some(a)
        } else {
            None
        }
    }

    /// The file offset of the dynamic string table.
    fn strtab_off(&self) -> (r: Option<u128>)
        requires
            self.wf(),
        ensures
            match r {
                Some(x) => strtab_spec(self.data@) == Some(x as int) && small(x as int),
                None => strtab_spec(self.data@) is None,
            },
    {
        let tags = match self.dyn_tags() {
            Some(t) => t,
            None => return None,
        };
        match find_tag(&tags, 5) {
            Some(v) => self.vaddr_to_off(v),
            None => None,
        }
    }

    /// The dynamic string at `rel` in the string table at `strtab`.
    fn dyn_str_at(&self, strtab: u128, rel: u64) -> (r: Option<String>)
        requires
            self.wf(),
            small(strtab as int),
        ensures
            match r {
                Some(s) => dyn_str(self.data@, strtab as int, rel as int) == Some(s@),
                None => dyn_str(self.data@, strtab as int, rel as int) is None,
            },
    {
        let start = strtab + rel as u128;
        let n = self.data.len();
        if start >= n as u128 {
            return None;
        }
        let s = start as usize;
        let mut j = s;
        while j < n && self.data[j] != 0
            invariant
                s <= j <= n == self.data@.len(),
                nul_from(self.data@, s as int) == nul_from(self.data@, j as int),
            decreases n - j,
        {
            j = j + 1;
        }
        if j == n || j == s {
            return None;
        }
        let bytes = crate::deb::bytes_of(self.data, s, j);
        Some(lossy(bytes.as_slice()))
    }

    /// The libraries the file needs (DT_NEEDED), in order.
    pub fn needed(&self) -> (v: Vec<String>)
        ensures
            crate::text::string_views(v@) == needed_spec(self.bytes()),
    {
        proof {
            use_type_invariant(self);
        }
        let mut out: Vec<String> = Vec::new();
        let st = match self.strtab_off() {
            Some(s) => s,
            None => {
                assert(crate::text::string_views(out@) =~= Seq::<Seq<char>>::empty());
                return out;
            },
        };
        let tags = match self.dyn_tags() {
            Some(t) => t,
            None => {
                assert(crate::text::string_views(out@) =~= Seq::<Seq<char>>::empty());
                return out;
            },
        };
        let mut i: usize = 0;
        while i < tags.len()
            invariant
                self.wf(),
                small(st as int),
                i <= tags@.len(),
                crate::text::string_views(out@) == tag_strings(
                    self.data@,
                    st as int,
                    tags@.take(i as int),
                    1,
                ),
            decreases tags@.len() - i,
        {
            let (tag, val) = tags[i];
            let ghost before = out@;
            proof {
                assert(tags@.take(i + 1).drop_last() =~= tags@.take(i as int));
                assert(tags@.take(i + 1).last() == tags@[i as int]);
            }
            if tag == 1 {
                match self.dyn_str_at(st, val) {
                    Some(s) => {
                        out.push(s);
                        assert(crate::text::string_views(out@) =~= crate::text::string_views(
                            before,
                        ).push(s@));
                    },
                    None => {},
                }
            }
            i = i + 1;
        }
        assert(tags@.take(tags@.len() as int) =~= tags@);
        out
    }

    /// The soname of the file (DT_SONAME).
    pub fn soname(&self) -> (r: Option<String>)
        ensures
            match r {
                Some(s) => soname_spec(self.bytes()) == Some(s@),
                None => soname_spec(self.bytes()) is None,
            },
    {
        proof {
            use_type_invariant(self);
        }
        let st = match self.strtab_off() {
            Some(s) => s,
            None => return None,
        };
        let tags = match self.dyn_tags() {
            Some(t) => t,
            None => return None,
        };
        match find_tag(&tags, 14) {
            Some(v) => self.dyn_str_at(st, v),
            None => None,
        }
    }

    /// The string table offset and the run-path entries (DT_RPATH, DT_RUNPATH).
    pub fn runpath_info(&self) -> (r: Option<(u128, Vec<(u64, u64)>)>)
        ensures
            match r {
                Some((st, v)) => runpath_info_spec(self.bytes()) == Some((st as int, v@)) && small(
                    st as int,
                ),
                None => runpath_info_spec(self.bytes()) is None,
            },
    {
        proof {
            use_type_invariant(self);
        }
        let st = match self.strtab_off() {
            Some(s) => s,
            None => return None,
        };
        let tags = match self.dyn_tags() {
            Some(t) => t,
            None => return None,
        };
        let mut out: Vec<(u64, u64)> = Vec::new();
        let mut i: usize = 0;
        while i < tags.len()
            invariant
                i <= tags@.len(),
                out@ == runpath_tags(tags@.take(i as int)),
            decreases tags@.len() - i,
        {
            let (t, v) = tags[i];
            proof {
                assert(tags@.take(i + 1).drop_last() =~= tags@.take(i as int));
                assert(tags@.take(i + 1).last() == tags@[i as int]);
            }
            if t == 15 || t == 29 {
                out.push((t, v));
            }
            i = i + 1;
        }
        assert(tags@.take(tags@.len() as int) =~= tags@);
        Some((st, out))
    }

    /// The libraries the file needs (DT_NEEDED, in order) that the library directory
    /// listing `have` does not hold; empty exactly when every one of them is found.
    pub fn check_needed(&self, have: &Vec<String>) -> (v: Vec<String>)
        ensures
            crate::text::string_views(v@) == not_found(needed_spec(self.bytes()), crate::text::string_views(have@)),
            v@.len() == 0 <==> (forall|k: int|
                0 <= k < needed_spec(self.bytes()).len() ==> crate::text::string_views(have@).contains(
                    #[trigger] needed_spec(self.bytes())[k],
                )),
    {
        proof {
            use_type_invariant(self);
        }
        let needed = self.needed();
        let ghost ns = crate::text::string_views(needed@);
        let ghost hs = crate::text::string_views(have@);
        let mut out: Vec<String> = Vec::new();
        let mut i: usize = 0;
        while i < needed.len()
            invariant
                i <= needed@.len(),
                ns == crate::text::string_views(needed@),
                hs == crate::text::string_views(have@),
                crate::text::string_views(out@) == not_found(ns.take(i as int), hs),
            decreases needed@.len() - i,
        {
            let found = crate::tool::holds(have, needed[i].as_str());
            proof {
                assert(ns.take(i + 1).drop_last() =~= ns.take(i as int));
                assert(ns.take(i + 1).last() == needed@[i as int]@);
            }
            let ghost before = out@;
            if !found {
                out.push(needed[i].clone());
                assert(crate::text::string_views(out@) =~= crate::text::string_views(before).push(needed@[i as int]@));
            }
            i = i + 1;
        }
        assert(ns.take(needed@.len() as int) =~= ns);
        proof {
            lemma_not_found_empty(ns, hs);
        }
        out
    }
}

/// The names of `needed`, in order, that `have` does not hold.
pub open spec fn not_found(needed: Seq<Seq<char>>, have: Seq<Seq<char>>) -> Seq<Seq<char>>
    decreases needed.len(),
{
    if needed.len() == 0 {
        Seq::empty()
    } else {
        let rest = not_found(needed.drop_last(), have);
        if have.contains(needed.last()) {
            rest
        } else {
            rest.push(needed.last())
        }
    }
}

/// Nothing is reported missing exactly when every needed name is in the listing.
pub proof fn lemma_not_found_empty(needed: Seq<Seq<char>>, have: Seq<Seq<char>>)
    ensures
        not_found(needed, have).len() == 0 <==> (forall|k: int|
            0 <= k < needed.len() ==> have.contains(#[trigger] needed[k])),
    decreases needed.len(),
{
    if needed.len() > 0 {
        lemma_not_found_empty(needed.drop_last(), have);
        if not_found(needed, have).len() == 0 {
            assert forall|k: int| 0 <= k < needed.len() implies have.contains(#[trigger] needed[k]) by {
                if k < needed.len() - 1 {
                    assert(needed.drop_last()[k] == needed[k]);
                }
            }
        }
        if forall|k: int| 0 <= k < needed.len() ==> have.contains(#[trigger] needed[k]) {
            assert(have.contains(needed[needed.len() - 1]));
            assert forall|k: int| 0 <= k < needed.len() - 1 implies have.contains(#[trigger] needed.drop_last()[k]) by {
                assert(have.contains(needed[k]));
            }
        }
    }
}

/// The value of the first entry with tag `t`.
fn find_tag(tags: &Vec<(u64, u64)>, t: u64) -> (r: Option<u64>)
    ensures
        r == first_tag(tags@, t),
{
    let mut i: usize = 0;
    assert(tags@.skip(0) =~= tags@);
    while i < tags.len()
        invariant
            i <= tags@.len(),
            first_tag(tags@, t) == first_tag(tags@.skip(i as int), t),
        decreases tags@.len() - i,
    {
        assert(tags@.skip(i as int).drop_first() =~= tags@.skip(i + 1));
        if tags[i].0 == t {
            return Some(tags[i].1);
        }
        i = i + 1;
    }
    None
}

/// The libraries an ELF file needs; empty for other data.
pub fn elf_needed(data: &[u8]) -> (v: Vec<String>)
    ensures
        crate::text::string_views(v@) == (if is_elf(data@) {
            needed_spec(data@)
        } else {
            Seq::empty()
        }),
{
    match Elf::new(data) {
        Some(e) => e.needed(),
        None => {
            let v: Vec<String> = Vec::new();
            assert(crate::text::string_views(v@) =~= Seq::<Seq<char>>::empty());
            v
        },
    }
}

/// The soname of an ELF file; `None` for other data.
pub fn elf_soname(data: &[u8]) -> (r: Option<String>)
    ensures
        match r {
            Some(s) => is_elf(data@) && soname_spec(data@) == Some(s@),
            None => !is_elf(data@) || soname_spec(data@) is None,
        },
{
    match Elf::new(data) {
        Some(e) => e.soname(),
        None => None,
    }
}

// ------------------------------------------------------------------ run-path patching

/// The end of the string at `start`: its terminator, or the end of the file.
pub open spec fn span_end(d: Seq<u8>, start: int) -> int {
    match nul_from(d, start) {
        Some(j) => j,
        None => d.len() as int,
    }
}

/// The bytes of the run-path string at `start`, up to its terminator or the end of the file.
pub open spec fn raw_text(d: Seq<u8>, start: int) -> Seq<u8> {
    d.subrange(start, span_end(d, start))
}

/// The run-path text at `start`, as `String::from_utf8_lossy` reads it.
pub open spec fn old_text(d: Seq<u8>, start: int) -> Seq<char> {
    utf8_lossy(raw_text(d, start))
}

/// The length in UTF-8 bytes of the run-path text at `start`.
pub open spec fn old_len(d: Seq<u8>, start: int) -> int {
    vstd::utf8::encode_utf8(old_text(d, start)).len() as int
}

/// Every run-path string starts within the file.
pub open spec fn runpaths_readable(d: Seq<u8>, strtab: int, rps: Seq<(u64, u64)>) -> bool {
    forall|k: int| 0 <= k < rps.len() ==> strtab + (#[trigger] rps[k]).1 <= d.len()
}

/// The first run path from entry `k` on whose text is shorter than `n` bytes.
pub open spec fn first_too_long(d: Seq<u8>, strtab: int, rps: Seq<(u64, u64)>, n: int, k: int) -> Option<int>
    decreases rps.len() - k,
{
    if k < 0 || k >= rps.len() {
        None
    } else if n > old_len(d, strtab + rps[k].1) {
        Some(k)
    } else {
        first_too_long(d, strtab, rps, n, k + 1)
    }
}

/// The text of every run path lies within the file.
pub open spec fn runpaths_writable(d: Seq<u8>, strtab: int, rps: Seq<(u64, u64)>) -> bool {
    forall|k: int|
        0 <= k < rps.len() ==> strtab + (#[trigger] rps[k]).1 + old_len(d, strtab + rps[k].1) <= d.len()
}

/// `d` with `new` written at `start` and zeros after it up to `start + len`.
pub open spec fn overwrite(d: Seq<u8>, start: int, new: Seq<u8>, len: int) -> Seq<u8> {
    Seq::new(
        d.len(),
        |i: int|
            if start <= i < start + new.len() {
                new[i - start]
            } else if start + new.len() <= i < start + len {
                0u8
            } else {
                d[i]
            },
    )
}

/// The file after the first `k` run paths were rewritten to `new`, each over the length
/// of its old text as read from the original file.
pub open spec fn patched(d: Seq<u8>, strtab: int, rps: Seq<(u64, u64)>, new: Seq<u8>, k: int) -> Seq<u8>
    decreases k,
{
    if k <= 0 || k > rps.len() {
        d
    } else {
        let start = strtab + rps[k - 1].1;
        overwrite(patched(d, strtab, rps, new, k - 1), start, new, old_len(d, start))
    }
}

/// Why run paths cannot be rewritten: the text of one is shorter than the new run path.
pub struct TooLong {
    /// The shorter text.
    pub old: String,
}

/// Rewrites the run-path strings `rps` (values relative to the string table at `strtab`)
/// to `new_rpath`, padding with zeros over each old text; refused when an old text is
/// shorter than the new run path. The number of strings rewritten comes with the bytes.
pub fn patch_runpaths(data: &[u8], strtab: u128, rps: &Vec<(u64, u64)>, new_rpath: &str) -> (r: Result<
    (Vec<u8>, usize),
    TooLong,
>)
    requires
        runpaths_readable(data@, strtab as int, rps@),
        first_too_long(data@, strtab as int, rps@, new_rpath.spec_bytes().len() as int, 0) is None
            ==> runpaths_writable(data@, strtab as int, rps@),
    ensures
        match first_too_long(data@, strtab as int, rps@, new_rpath.spec_bytes().len() as int, 0) {
            Some(k) => r matches Err(e) && e.old@ == old_text(data@, strtab + rps@[k].1),
            None => r matches Ok((out, n)) && n == rps@.len() && out@ == patched(
                data@,
                strtab as int,
                rps@,
                new_rpath.spec_bytes(),
                rps@.len() as int,
            ),
        },
{
    let newb = new_rpath.as_bytes();
    let nl = newb.len();
    let n = data.len();
    let ghost d = data@;
    let ghost nb = newb@;
    // first pass: each old text and its length
    let mut lens: Vec<(usize, u128)> = Vec::new();
    let mut k: usize = 0;
    while k < rps.len()
        invariant
            n == d.len(),
            d == data@,
            nb == newb@,
            nl == nb.len(),
            nb == new_rpath.spec_bytes(),
            k <= rps@.len(),
            runpaths_readable(d, strtab as int, rps@),
            first_too_long(d, strtab as int, rps@, nl as int, 0) == first_too_long(
                d,
                strtab as int,
                rps@,
                nl as int,
                k as int,
            ),
            lens@.len() == k,
            forall|q: int|
                0 <= q < k ==> (#[trigger] lens@[q]).0 == strtab + rps@[q].1 && lens@[q].1 == old_len(
                    d,
                    strtab + rps@[q].1,
                ) && nl <= lens@[q].1,
        decreases rps@.len() - k,
    {
        let ghost rp = rps@[k as int];
        assert(strtab + rp.1 <= d.len());
        let start = (strtab + rps[k].1 as u128) as usize;
        let mut j = start;
        while j < n && data[j] != 0
            invariant
                start <= j <= n == d.len(),
                d == data@,
                nul_from(d, start as int) == nul_from(d, j as int),
            decreases n - j,
        {
            j = j + 1;
        }
        assert(span_end(d, start as int) == j);
        let old = lossy(crate::deb::bytes_of(data, start, j).as_slice());
        let ol = crate::tool::utf8_len(old.as_str());
        if (nl as u128) > ol {
            return Err(TooLong { old });
        }
        lens.push((start, ol));
        k = k + 1;
    }
    assert(first_too_long(d, strtab as int, rps@, nl as int, 0) is None);
    assert(runpaths_writable(d, strtab as int, rps@));
    // second pass: the rewritten copy
    let mut out = crate::deb::bytes_of(data, 0, n);
    assert(d.subrange(0, n as int) =~= d);
    let mut k: usize = 0;
    while k < lens.len()
        invariant
            n == d.len(),
            nb == new_rpath.spec_bytes(),
            nb == newb@,
            nl == nb.len(),
            k <= lens@.len(),
            lens@.len() == rps@.len(),
            runpaths_writable(d, strtab as int, rps@),
            forall|q: int|
                0 <= q < lens@.len() ==> (#[trigger] lens@[q]).0 == strtab + rps@[q].1 && lens@[q].1
                    == old_len(d, strtab + rps@[q].1) && nl <= lens@[q].1,
            out@ == patched(d, strtab as int, rps@, nb, k as int),
            out@.len() == n,
        decreases lens@.len() - k,
    {
        let (start, olw) = lens[k];
        let ghost q = lens@[k as int];
        assert(start + olw <= n) by {
            assert(strtab + (rps@[k as int]).1 + old_len(d, strtab + rps@[k as int].1) <= d.len());
        }
        let ol = olw as usize;
        let ghost before = out@;
        let mut i: usize = 0;
        while i < ol
            invariant
                start + ol <= n == out@.len(),
                nl <= ol,
                nb == newb@,
                nl == nb.len(),
                i <= ol,
                out@ == Seq::new(
                    before.len(),
                    |x: int|
                        if start <= x < start + i {
                            if x < start + nl {
                                nb[x - start]
                            } else {
                                0u8
                            }
                        } else {
                            before[x]
                        },
                ),
                before.len() == n,
            decreases ol - i,
        {
            let b: u8 = if i < nl {
                newb[i]
            } else {
                0
            };
            out.set(start + i, b);
            i = i + 1;
            assert(out@ =~= Seq::new(
                before.len(),
                |x: int|
                    if start <= x < start + i {
                        if x < start + nl {
                            nb[x - start]
                        } else {
                            0u8
                        }
                    } else {
                        before[x]
                    },
            ));
        }
        assert(out@ =~= overwrite(before, start as int, nb, ol as int));
        k = k + 1;
    }
    Ok((out, rps.len()))
}

/// The first too-short text is `None` exactly when no text from `k` on is shorter.
proof fn lemma_first_too_long(d: Seq<u8>, strtab: int, rps: Seq<(u64, u64)>, n: int, k: int)
    requires
        0 <= k <= rps.len(),
    ensures
        first_too_long(d, strtab, rps, n, k) is None <==> forall|q: int|
            k <= q < rps.len() ==> n <= old_len(d, strtab + (#[trigger] rps[q]).1),
    decreases rps.len() - k,
{
    if k < rps.len() {
        lemma_first_too_long(d, strtab, rps, n, k + 1);
    }
}

/// The old text at `start` and its length in UTF-8 bytes.
fn old_text_at(data: &[u8], start: usize) -> (r: (String, u128))
    requires
        start <= data@.len(),
    ensures
        r.0@ == old_text(data@, start as int),
        r.1 == old_len(data@, start as int),
        vstd::utf8::valid_utf8(raw_text(data@, start as int)) ==> r.0@ == vstd::utf8::decode_utf8(
            raw_text(data@, start as int),
        ),
{
    let n = data.len();
    let mut j = start;
    while j < n && data[j] != 0
        invariant
            start <= j <= n == data@.len(),
            nul_from(data@, start as int) == nul_from(data@, j as int),
        decreases n - j,
    {
        j = j + 1;
    }
    assert(span_end(data@, start as int) == j);
    let raw = crate::deb::bytes_of(data, start, j);
    assert(raw@ == raw_text(data@, start as int));
    let old = lossy(raw.as_slice());
    let ol = crate::tool::utf8_len(old.as_str());
    (old, ol)
}

/// Whether every run-path string starts within the file.
pub fn runpaths_in_file(data: &[u8], strtab: u128, rps: &Vec<(u64, u64)>) -> (b: bool)
    ensures
        b == runpaths_readable(data@, strtab as int, rps@),
{
    let n = data.len() as u128;
    let mut k: usize = 0;
    while k < rps.len()
        invariant
            n == data@.len(),
            k <= rps@.len(),
            forall|q: int| 0 <= q < k ==> strtab + (#[trigger] rps@[q]).1 <= data@.len(),
        decreases rps@.len() - k,
    {
        match strtab.checked_add(rps[k].1 as u128) {
            Some(start) => {
                if start > n {
                    return false;
                }
            },
            None => return false,
        }
        k = k + 1;
    }
    true
}

/// Whether [`patch_runpaths`] may be called: every string starts within the file and,
/// unless the rewrite is refused, every old text lies within it.
pub fn runpath_patch_ok(data: &[u8], strtab: u128, rps: &Vec<(u64, u64)>, new_rpath: &str) -> (b: bool)
    ensures
        b == (runpaths_readable(data@, strtab as int, rps@) && (first_too_long(
            data@,
            strtab as int,
            rps@,
            new_rpath.spec_bytes().len() as int,
            0,
        ) is None ==> runpaths_writable(data@, strtab as int, rps@))),
{
    if !runpaths_in_file(data, strtab, rps) {
        return false;
    }
    let nl = new_rpath.as_bytes().len() as u128;
    let n = data.len() as u128;
    let ghost d = data@;
    let mut some_long = false;
    let mut all_fit = true;
    let mut k: usize = 0;
    while k < rps.len()
        invariant
            n == d.len(),
            d.len() <= usize::MAX,
            d == data@,
            nl == new_rpath.spec_bytes().len(),
            k <= rps@.len(),
            runpaths_readable(d, strtab as int, rps@),
            some_long == (exists|q: int| 0 <= q < k && nl > old_len(d, strtab + (#[trigger] rps@[q]).1)),
            all_fit == (forall|q: int|
                0 <= q < k ==> strtab + (#[trigger] rps@[q]).1 + old_len(d, strtab + rps@[q].1) <= d.len()),
        decreases rps@.len() - k,
    {
        let ghost rp = rps@[k as int];
        assert(strtab + rp.1 <= d.len());
        let start = strtab + rps[k].1 as u128;
        let su = start as usize;
        assert(su as int == strtab + rp.1);
        let (_, ol) = old_text_at(data, su);
        assert(ol == old_len(d, strtab + rp.1));
        if nl > ol {
            some_long = true;
        }
        match start.checked_add(ol) {
            Some(e) => {
                if e > n {
                    all_fit = false;
                }
            },
            None => {
                all_fit = false;
            },
        }
        k = k + 1;
    }
    proof {
        lemma_first_too_long(d, strtab as int, rps@, nl as int, 0);
    }
    some_long || all_fit
}

/// The run-path texts of a file, in order; a string that is valid UTF-8 is read as it is.
pub fn runpath_texts(data: &[u8], strtab: u128, rps: &Vec<(u64, u64)>) -> (v: Vec<String>)
    requires
        runpaths_readable(data@, strtab as int, rps@),
    ensures
        v@.len() == rps@.len(),
        forall|k: int| 0 <= k < rps@.len() ==> (#[trigger] v@[k])@ == old_text(data@, strtab + rps@[k].1),
        forall|k: int|
            0 <= k < rps@.len() && vstd::utf8::valid_utf8(raw_text(data@, strtab + rps@[k].1)) ==> (
            #[trigger] v@[k])@ == vstd::utf8::decode_utf8(raw_text(data@, strtab + rps@[k].1)),
{
    let _n = data.len();
    let mut out: Vec<String> = Vec::new();
    let mut k: usize = 0;
    while k < rps.len()
        invariant
            k <= rps@.len(),
            data@.len() <= usize::MAX,
            runpaths_readable(data@, strtab as int, rps@),
            out@.len() == k,
            forall|q: int| 0 <= q < k ==> (#[trigger] out@[q])@ == old_text(data@, strtab + rps@[q].1),
            forall|q: int|
                0 <= q < k && vstd::utf8::valid_utf8(raw_text(data@, strtab + rps@[q].1)) ==> (
                #[trigger] out@[q])@ == vstd::utf8::decode_utf8(raw_text(data@, strtab + rps@[q].1)),
        decreases rps@.len() - k,
    {
        let ghost rp = rps@[k as int];
        assert(strtab + rp.1 <= data@.len());
        let start = strtab + rps[k].1 as u128;
        let su = start as usize;
        assert(su as int == strtab + rp.1);
        let (t, _) = old_text_at(data, su);
        out.push(t);
        k = k + 1;
    }
    out
}

/// Law: rewriting run paths keeps the length of the file and every byte outside the
/// rewritten strings.
pub proof fn law_patch_keeps_other_bytes(
    d: Seq<u8>,
    strtab: int,
    rps: Seq<(u64, u64)>,
    new: Seq<u8>,
    k: int,
    i: int,
)
    requires
        0 <= k <= rps.len(),
        0 <= i < d.len(),
        forall|q: int|
            0 <= q < k ==> !(strtab + (#[trigger] rps[q]).1 <= i < strtab + rps[q].1 + new.len()) && !(
            strtab + rps[q].1 <= i < strtab + rps[q].1 + old_len(d, strtab + rps[q].1)),
    ensures
        patched(d, strtab, rps, new, k).len() == d.len(),
        patched(d, strtab, rps, new, k)[i] == d[i],
    decreases k,
{
    if k > 0 {
        law_patch_keeps_other_bytes(d, strtab, rps, new, k - 1, i);
        let q = k - 1;
        assert(!(strtab + rps[q].1 <= i < strtab + rps[q].1 + new.len()));
    }
}

/// Where run path `q` starts in the file.
pub open spec fn rp_start(strtab: int, rps: Seq<(u64, u64)>, q: int) -> int {
    strtab + rps[q].1
}

/// Whether position `x` lies in the bytes that rewriting run path `q` writes over: from its
/// start, the length of its old text.
pub open spec fn in_region(d: Seq<u8>, strtab: int, rps: Seq<(u64, u64)>, q: int, x: int) -> bool {
    rp_start(strtab, rps, q) <= x < rp_start(strtab, rps, q) + old_len(d, rp_start(strtab, rps, q))
}

/// Run paths `q` and `r` start at the same place, or the bytes written over for them do
/// not meet.
pub open spec fn apart(d: Seq<u8>, strtab: int, rps: Seq<(u64, u64)>, q: int, r: int) -> bool {
    let sq = rp_start(strtab, rps, q);
    let sr = rp_start(strtab, rps, r);
    sq == sr || sq + old_len(d, sq) <= sr || sr + old_len(d, sr) <= sq
}

/// Every two run paths are `apart`.
pub open spec fn regions_apart(d: Seq<u8>, strtab: int, rps: Seq<(u64, u64)>) -> bool {
    forall|q: int, r: int|
        0 <= q < rps.len() && 0 <= r < rps.len() ==> #[trigger] apart(d, strtab, rps, q, r)
}

/// What rewriting a run path that starts at `s` puts at `x`: the new bytes, then zeros.
pub open spec fn written_at(new: Seq<u8>, s: int, x: int) -> u8 {
    if x < s + new.len() {
        new[x - s]
    } else {
        0u8
    }
}

/// Rewriting keeps the length of the file.
proof fn lemma_patched_len(d: Seq<u8>, strtab: int, rps: Seq<(u64, u64)>, new: Seq<u8>, m: int)
    ensures
        patched(d, strtab, rps, new, m).len() == d.len(),
    decreases m,
{
    if m > 0 && m <= rps.len() {
        lemma_patched_len(d, strtab, rps, new, m - 1);
    }
}

/// The byte at `x` after the first `m` run paths were rewritten: what the rewrite of any
/// of them whose bytes hold `x` wrote, or else the original byte.
proof fn lemma_patched_at(d: Seq<u8>, strtab: int, rps: Seq<(u64, u64)>, new: Seq<u8>, m: int, x: int)
    requires
        0 <= m <= rps.len(),
        0 <= x < d.len(),
        regions_apart(d, strtab, rps),
        forall|q: int| 0 <= q < rps.len() ==> new.len() <= old_len(d, #[trigger] rp_start(strtab, rps, q)),
    ensures
        forall|q: int|
            0 <= q < m && #[trigger] in_region(d, strtab, rps, q, x) ==> patched(d, strtab, rps, new, m)[x]
                == written_at(new, rp_start(strtab, rps, q), x),
        (forall|q: int| 0 <= q < m ==> !#[trigger] in_region(d, strtab, rps, q, x)) ==> patched(
            d,
            strtab,
            rps,
            new,
            m,
        )[x] == d[x],
    decreases m,
{
    if m > 0 {
        lemma_patched_at(d, strtab, rps, new, m - 1, x);
        lemma_patched_len(d, strtab, rps, new, m - 1);
        let s = rp_start(strtab, rps, m - 1);
        assert(new.len() <= old_len(d, s));
        let before = patched(d, strtab, rps, new, m - 1);
        let after = patched(d, strtab, rps, new, m);
        assert(after == overwrite(before, s, new, old_len(d, s)));
        if in_region(d, strtab, rps, m - 1, x) {
            assert(after[x] == written_at(new, s, x));
            assert forall|q: int|
                0 <= q < m && #[trigger] in_region(d, strtab, rps, q, x) implies after[x] == written_at(
                new,
                rp_start(strtab, rps, q),
                x,
            ) by {
                assert(apart(d, strtab, rps, q, m - 1));
            }
        } else {
            assert(after[x] == before[x]);
        }
    }
}

/// The first zero byte at or after `s` is at `e` (or there is none, where `e` is the end).
proof fn lemma_span_end(d: Seq<u8>, s: int, e: int)
    requires
        0 <= s <= e <= d.len(),
        forall|x: int| s <= x < e ==> d[x] != 0u8,
        e == d.len() || d[e] == 0u8,
    ensures
        span_end(d, s) == e,
    decreases e - s,
{
    if s < e {
        lemma_span_end(d, s + 1, e);
    }
}

/// Law: after every run path was rewritten to `t`, the string at each run path holds
/// exactly the bytes of `t`, so it reads back as `t` (`runpath_texts` reads valid UTF-8
/// as it is). This holds where `t` fits in each old text and has no zero byte, the
/// rewritten bytes of two run paths start together or do not meet, and the byte after
/// `t` ends the string: it is a padding zero, the end of the file, or a zero that no
/// rewrite touches.
pub proof fn law_patch_read_back(d: Seq<u8>, strtab: int, rps: Seq<(u64, u64)>, t: Seq<char>, k: int)
    requires
        0 <= strtab,
        0 <= k < rps.len(),
        runpaths_writable(d, strtab, rps),
        regions_apart(d, strtab, rps),
        first_too_long(d, strtab, rps, vstd::utf8::encode_utf8(t).len() as int, 0) is None,
        forall|i: int| 0 <= i < vstd::utf8::encode_utf8(t).len() ==> #[trigger] vstd::utf8::encode_utf8(t)[i] != 0u8,
        vstd::utf8::encode_utf8(t).len() < old_len(d, rp_start(strtab, rps, k)) || rp_start(strtab, rps, k)
            + vstd::utf8::encode_utf8(t).len() == d.len() || (d[rp_start(strtab, rps, k) + vstd::utf8::encode_utf8(t).len()]
            == 0u8 && forall|q: int|
            0 <= q < rps.len() ==> !#[trigger] in_region(
                d,
                strtab,
                rps,
                q,
                rp_start(strtab, rps, k) + vstd::utf8::encode_utf8(t).len(),
            )),
    ensures
        raw_text(patched(d, strtab, rps, vstd::utf8::encode_utf8(t), rps.len() as int), strtab + rps[k].1)
            == vstd::utf8::encode_utf8(t),
        vstd::utf8::valid_utf8(
            raw_text(patched(d, strtab, rps, vstd::utf8::encode_utf8(t), rps.len() as int), strtab + rps[k].1),
        ),
        vstd::utf8::decode_utf8(
            raw_text(patched(d, strtab, rps, vstd::utf8::encode_utf8(t), rps.len() as int), strtab + rps[k].1),
        ) == t,
{
    let nb = vstd::utf8::encode_utf8(t);
    let n = rps.len() as int;
    let p = patched(d, strtab, rps, nb, n);
    let s = rp_start(strtab, rps, k);
    let e = s + nb.len();
    lemma_first_too_long(d, strtab, rps, nb.len() as int, 0);
    assert forall|q: int| 0 <= q < rps.len() implies nb.len() <= old_len(d, #[trigger] rp_start(strtab, rps, q)) by {
        assert(nb.len() <= old_len(d, strtab + rps[q].1));
    }
    lemma_patched_len(d, strtab, rps, nb, n);
    assert(s + old_len(d, s) <= d.len()) by {
        assert(strtab + rps[k].1 + old_len(d, strtab + rps[k].1) <= d.len());
    }
    assert forall|x: int| s <= x < e implies p[x] != 0u8 by {
        lemma_patched_at(d, strtab, rps, nb, n, x);
        assert(in_region(d, strtab, rps, k, x));
        assert(p[x] == nb[x - s]);
    }
    if e < d.len() {
        lemma_patched_at(d, strtab, rps, nb, n, e);
        if nb.len() < old_len(d, s) {
            assert(in_region(d, strtab, rps, k, e));
        }
        assert(p[e] == 0u8);
    }
    lemma_span_end(p, s, e);
    assert forall|x: int| 0 <= x < nb.len() implies #[trigger] p.subrange(s, e)[x] == nb[x] by {
        lemma_patched_at(d, strtab, rps, nb, n, s + x);
        assert(in_region(d, strtab, rps, k, s + x));
    }
    assert(p.subrange(s, e) =~= nb);
    vstd::utf8::encode_utf8_valid_utf8(t);
    vstd::utf8::encode_utf8_decode_utf8(t);
}

/// The dynamic section is found from any header before the first program header of
/// type 2.
proof fn lemma_dynamic_from_first(d: Seq<u8>, k: int, j: int)
    requires
        0 <= k <= j < phnum(d),
        rd32(d, ph_at(d, j)) == 2,
        forall|i: int| 0 <= i < j ==> rd32(d, #[trigger] ph_at(d, i)) != 2,
    ensures
        dynamic_from(d, k) == Some(
            if is64(d) {
                rd64(d, ph_at(d, j) + 8) as int
            } else {
                rd32(d, ph_at(d, j) + 8) as int
            },
        ),
    decreases j - k,
{
    if k < j {
        assert(rd32(d, ph_at(d, k)) != 2);
        lemma_dynamic_from_first(d, k + 1, j);
    }
}

/// Without a program header of type 2 from `k` on there is no dynamic section.
proof fn lemma_dynamic_from_none(d: Seq<u8>, k: int)
    requires
        0 <= k,
        forall|i: int| k <= i < phnum(d) ==> rd32(d, #[trigger] ph_at(d, i)) != 2,
    ensures
        dynamic_from(d, k) is None,
    decreases phnum(d) - k,
{
    if k < phnum(d) {
        assert(rd32(d, ph_at(d, k)) != 2);
        lemma_dynamic_from_none(d, k + 1);
    }
}

/// Law: the dynamic entries of a file are read at the offset (the field at 8) of its
/// first program header of type 2 (PT_DYNAMIC), whichever header that is: headers of
/// other types before it (a PT_LOAD first, as in every shared library) are passed over.
/// With no such header among the `phnum` headers there are no dynamic entries.
pub proof fn law_dynamic_section_at_first_pt_dynamic(d: Seq<u8>, j: int)
    requires
        0 <= j < phnum(d),
        rd32(d, ph_at(d, j)) == 2,
        forall|i: int| 0 <= i < j ==> rd32(d, #[trigger] ph_at(d, i)) != 2,
    ensures
        dyn_tags_spec(d) == Some(
            tags_from(
                d,
                if is64(d) {
                    rd64(d, ph_at(d, j) + 8) as int
                } else {
                    rd32(d, ph_at(d, j) + 8) as int
                },
            ),
        ),
{
    lemma_dynamic_from_first(d, 0, j);
}

/// Law: a file none of whose program headers has type 2 has no dynamic entries, so it
/// needs no library and has no soname.
pub proof fn law_no_pt_dynamic_no_entries(d: Seq<u8>)
    requires
        forall|i: int| 0 <= i < phnum(d) ==> rd32(d, #[trigger] ph_at(d, i)) != 2,
    ensures
        dyn_tags_spec(d) is None,
{
    lemma_dynamic_from_none(d, 0);
}

} // verus!
