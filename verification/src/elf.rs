//! A minimal reader for 64-bit ELF images: the header fields the loader needs,
//! the program-header table, and the relocation records of position-independent
//! executables.
use vstd::prelude::*;
use vstd::slice::slice_subrange;
use crate::bytes::{le_u16, le_u32, le_u64, read_le_u16, read_le_u32, read_le_u64};

verus! {

pub const PT_LOAD: u32 = 1;

pub const PT_DYNAMIC: u32 = 2;

pub const DT_NULL: u64 = 0;

pub const DT_RELA: u64 = 7;

pub const DT_RELASZ: u64 = 8;

pub const R_X86_64_RELATIVE: u32 = 8;

pub const RELA_ENTRY_SIZE: u64 = 24;

pub const ET_DYN: u16 = 3;

/// A loadable segment: `filesz` bytes at file offset `offset` go to `vaddr`,
/// followed by `memsz - filesz` zero bytes.
#[derive(Debug, Clone, Copy)]
pub struct Segment {
    pub vaddr: u64,
    pub offset: u64,
    pub filesz: u64,
    pub memsz: u64,
}

/// The bytes start with the ELF magic, name the 64-bit class and hold a whole
/// 64-byte file header.
pub open spec fn is_elf64(d: Seq<u8>) -> bool {
    &&& d.len() >= 64
    &&& d[0] == 0x7fu8
    &&& d[1] == 0x45u8
    &&& d[2] == 0x4cu8
    &&& d[3] == 0x46u8
    &&& d[4] == 2u8
}

pub open spec fn ph_off(d: Seq<u8>) -> int {
    le_u64(d, 32) as int
}

pub open spec fn ph_entsize(d: Seq<u8>) -> int {
    le_u16(d, 54) as int
}

pub open spec fn ph_num(d: Seq<u8>) -> int {
    le_u16(d, 56) as int
}

/// Offset of program header `i`.
pub open spec fn ph_base(d: Seq<u8>, i: int) -> int {
    ph_off(d) + i * ph_entsize(d)
}

/// All the fields the loader reads from program header `i` lie inside the image.
pub open spec fn ph_in_bounds(d: Seq<u8>, i: int) -> bool {
    ph_base(d, i) + 48 <= d.len()
}

pub open spec fn ph_type(d: Seq<u8>, i: int) -> u32 {
    le_u32(d, ph_base(d, i))
}

/// Program header `i` read as a segment.
pub open spec fn ph_segment(d: Seq<u8>, i: int) -> Segment {
    Segment {
        vaddr: le_u64(d, ph_base(d, i) + 16),
        offset: le_u64(d, ph_base(d, i) + 8),
        filesz: le_u64(d, ph_base(d, i) + 32),
        memsz: le_u64(d, ph_base(d, i) + 40),
    }
}

/// Every program header lies inside the image.
pub open spec fn headers_in_bounds(d: Seq<u8>) -> bool {
    forall|i: int| 0 <= i < ph_num(d) ==> #[trigger] ph_in_bounds(d, i)
}

/// The `PT_LOAD` segments among the first `n` program headers, in table order.
pub open spec fn load_segments_upto(d: Seq<u8>, n: int) -> Seq<Segment>
    decreases n,
{
    if n <= 0 {
        Seq::empty()
    } else if ph_type(d, n - 1) == PT_LOAD {
        load_segments_upto(d, n - 1).push(ph_segment(d, n - 1))
    } else {
        load_segments_upto(d, n - 1)
    }
}

/// The `PT_LOAD` segments of the image, in table order.
pub open spec fn load_segments_of(d: Seq<u8>) -> Seq<Segment> {
    load_segments_upto(d, ph_num(d))
}

/// The virtual address of the first `PT_DYNAMIC` header at or after index `i`.
pub open spec fn dynamic_from(d: Seq<u8>, i: int) -> Option<u64>
    decreases ph_num(d) - i,
{
    if i < 0 || i >= ph_num(d) {
        None
    } else if ph_type(d, i) == PT_DYNAMIC {
        Some(ph_segment(d, i).vaddr)
    } else {
        dynamic_from(d, i + 1)
    }
}

/// Every header up to and including the first `PT_DYNAMIC` one lies inside the image.
pub open spec fn dynamic_scan_in_bounds(d: Seq<u8>) -> bool {
    forall|i: int|
        0 <= i < ph_num(d) && (forall|j: int| 0 <= j < i ==> ph_type(d, j) != PT_DYNAMIC)
            ==> #[trigger] ph_in_bounds(d, i)
}

/// A parsed view of an ELF image held in memory.
pub struct ElfFile<'a> {
    data: &'a [u8],
}

impl<'a> View for ElfFile<'a> {
    type V = Seq<u8>;

    closed spec fn view(&self) -> Seq<u8> {
        self.data@
    }
}

impl<'a> ElfFile<'a> {
    #[verifier::type_invariant]
    spec fn inv(self) -> bool {
        is_elf64(self.data@)
    }

    /// Accepts `data` when it starts with a 64-bit ELF header.
    pub fn parse(data: &'a [u8]) -> (r: Option<Self>)
        ensures
            r is Some <==> is_elf64(data@),
            r matches Some(e) ==> e@ == data@,
    {
        if data.len() < 64 || data[0] != 0x7f || data[1] != 0x45 || data[2] != 0x4c || data[3]
            != 0x46 {
            return None;
        }
        if data[4] != 2 {
            return None;
        }
        Some(ElfFile { data })
    }

    fn u16_at(&self, off: usize) -> (r: u16)
        requires
            off + 2 <= self@.len(),
        ensures
            r == le_u16(self@, off as int),
    {
        read_le_u16(self.data, off)
    }

    fn u64_at(&self, off: usize) -> (r: u64)
        requires
            off + 8 <= self@.len(),
        ensures
            r == le_u64(self@, off as int),
    {
        read_le_u64(self.data, off)
    }

    /// `e_entry`: where execution starts.
    pub fn entry_point(&self) -> (r: u64)
        ensures
            r == le_u64(self@, 24),
    {
        proof {
            use_type_invariant(self);
        }
        self.u64_at(24)
    }

    /// `e_type`: 2 for a fixed-address executable, `ET_DYN` for a position-independent one.
    pub fn e_type(&self) -> (r: u16)
        ensures
            r == le_u16(self@, 16),
    {
        proof {
            use_type_invariant(self);
        }
        self.u16_at(16)
    }

    fn phoff(&self) -> (r: u64)
        ensures
            r == ph_off(self@),
    {
        proof {
            use_type_invariant(self);
        }
        self.u64_at(32)
    }

    fn phentsize(&self) -> (r: u16)
        ensures
            r == ph_entsize(self@),
    {
        proof {
            use_type_invariant(self);
        }
        self.u16_at(54)
    }

    fn phnum(&self) -> (r: u16)
        ensures
            r == ph_num(self@),
    {
        proof {
            use_type_invariant(self);
        }
        self.u16_at(56)
    }

    /// Program header `i` as `(p_type, p_offset, p_vaddr, p_filesz, p_memsz)`.
    fn program_header(&self, i: usize) -> (r: (u32, u64, u64, u64, u64))
        requires
            i < ph_num(self@),
            ph_in_bounds(self@, i as int),
        ensures
            r.0 == ph_type(self@, i as int),
            r.1 == ph_segment(self@, i as int).offset,
            r.2 == ph_segment(self@, i as int).vaddr,
            r.3 == ph_segment(self@, i as int).filesz,
            r.4 == ph_segment(self@, i as int).memsz,
    {
        let len = self.data.len();
        let phoff = self.phoff();
        let phentsize = self.phentsize() as usize;
        proof {
            assert(0 <= (i as int) * ph_entsize(self@)) by (nonlinear_arith)
                requires
                    i >= 0,
                    ph_entsize(self@) >= 0,
            ;
        }
        let base = phoff as usize + i * phentsize;
        assert(base == ph_base(self@, i as int));
        let p_type = read_le_u32(self.data, base);
        (p_type, self.u64_at(base + 8), self.u64_at(base + 16), self.u64_at(base + 32), self.u64_at(
            base + 40,
        ))
    }

    /// All program headers, in table order, as
    /// `(p_type, p_offset, p_vaddr, p_filesz, p_memsz)`.
    fn program_headers(&self) -> (r: Vec<(u32, u64, u64, u64, u64)>)
        requires
            headers_in_bounds(self@),
        ensures
            r@.len() == ph_num(self@),
            forall|i: int|
                0 <= i < r@.len() ==> {
                    &&& (#[trigger] r@[i]).0 == ph_type(self@, i)
                    &&& r@[i].1 == ph_segment(self@, i).offset
                    &&& r@[i].2 == ph_segment(self@, i).vaddr
                    &&& r@[i].3 == ph_segment(self@, i).filesz
                    &&& r@[i].4 == ph_segment(self@, i).memsz
                },
    {
        let phnum = self.phnum() as usize;
        let mut out: Vec<(u32, u64, u64, u64, u64)> = Vec::new();
        let mut i: usize = 0;
        while i < phnum
            invariant
                phnum == ph_num(self@),
                headers_in_bounds(self@),
                i <= phnum,
                out@.len() == i,
                forall|k: int|
                    0 <= k < i ==> {
                        &&& (#[trigger] out@[k]).0 == ph_type(self@, k)
                        &&& out@[k].1 == ph_segment(self@, k).offset
                        &&& out@[k].2 == ph_segment(self@, k).vaddr
                        &&& out@[k].3 == ph_segment(self@, k).filesz
                        &&& out@[k].4 == ph_segment(self@, k).memsz
                    },
            decreases phnum - i,
        {
            assert(ph_in_bounds(self@, i as int));
            let h = self.program_header(i);
            out.push(h);
            i = i + 1;
        }
        out
    }

    /// Whether every program header lies within the image.
    pub fn headers_fit(&self) -> (r: bool)
        ensures
            r == headers_in_bounds(self@),
    {
        let len = self.data.len() as u128;
        let off = self.phoff() as u128;
        let ent = self.phentsize() as u128;
        let num = self.phnum() as u128;
        if num == 0 {
            return true;
        }
        assert((num - 1) * ent <= 0xFFFF * 0xFFFF) by (nonlinear_arith)
            requires
                num <= 0xFFFF,
                ent <= 0xFFFF,
                num >= 1,
        ;
        let last = off + (num - 1) * ent + 48;
        let r = last <= len;
        proof {
            let d = self@;
            if r {
                assert forall|i: int| 0 <= i < ph_num(d) implies #[trigger] ph_in_bounds(d, i) by {
                    assert(i * ph_entsize(d) <= (num - 1) * ph_entsize(d)) by (nonlinear_arith)
                        requires
                            0 <= i <= num - 1,
                            ph_entsize(d) >= 0,
                    ;
                }
            } else {
                assert(!ph_in_bounds(d, num - 1));
            }
        }
        r
    }

    /// The `PT_LOAD` segments, in program-header order.
    pub fn load_segments(&self) -> (r: Vec<Segment>)
        requires
            headers_in_bounds(self@),
        ensures
            r@ == load_segments_of(self@),
    {
        let headers = self.program_headers();
        let mut out: Vec<Segment> = Vec::new();
        let mut i: usize = 0;
        while i < headers.len()
            invariant
                headers@.len() == ph_num(self@),
                i <= headers@.len(),
                out@ == load_segments_upto(self@, i as int),
                forall|k: int|
                    0 <= k < headers@.len() ==> {
                        &&& (#[trigger] headers@[k]).0 == ph_type(self@, k)
                        &&& headers@[k].1 == ph_segment(self@, k).offset
                        &&& headers@[k].2 == ph_segment(self@, k).vaddr
                        &&& headers@[k].3 == ph_segment(self@, k).filesz
                        &&& headers@[k].4 == ph_segment(self@, k).memsz
                    },
            decreases headers@.len() - i,
        {
            let (p_type, offset, vaddr, filesz, memsz) = headers[i];
            if p_type == PT_LOAD {
                out.push(Segment { vaddr, offset, filesz, memsz });
            }
            i = i + 1;
        }
        out
    }

    /// The file bytes of `seg`.
    pub fn segment_data(&self, seg: Segment) -> (r: &'a [u8])
        requires
            seg.offset + seg.filesz <= self@.len(),
        ensures
            r@ == self@.subrange(seg.offset as int, seg.offset + seg.filesz),
    {
        let len = self.data.len();
        let start = seg.offset as usize;
        let end = start + seg.filesz as usize;
        slice_subrange(self.data, start, end)
    }

    /// The virtual address of the first `PT_DYNAMIC` header, if there is one.
    pub fn dynamic_vaddr(&self) -> (r: Option<u64>)
        requires
            dynamic_scan_in_bounds(self@),
        ensures
            r == dynamic_from(self@, 0),
    {
        let phnum = self.phnum() as usize;
        let mut i: usize = 0;
        while i < phnum
            invariant
                phnum == ph_num(self@),
                dynamic_scan_in_bounds(self@),
                i <= phnum,
                forall|j: int| 0 <= j < i ==> ph_type(self@, j) != PT_DYNAMIC,
                dynamic_from(self@, 0) == dynamic_from(self@, i as int),
            decreases phnum - i,
        {
            assert(ph_in_bounds(self@, i as int));
            let (p_type, _, vaddr, _, _) = self.program_header(i);
            if p_type == PT_DYNAMIC {
                return Some(vaddr);
            }
            i = i + 1;
        }
        None
    }
}

/// What the scan of a dynamic section has found so far.
pub struct DynamicScan {
    pub rela: Option<u64>,
    pub rela_size: Option<u64>,
}

impl DynamicScan {
    pub fn new() -> (r: Self)
        ensures
            r.rela is None,
            r.rela_size is None,
    {
        DynamicScan { rela: None, rela_size: None }
    }
}

/// Takes in one `(d_tag, d_val)` entry of a dynamic section. Returns `false` at
/// the terminating `DT_NULL` entry; the last `DT_RELA` and `DT_RELASZ` values win.
pub fn scan_dynamic_entry(scan: &mut DynamicScan, tag: u64, val: u64) -> (more: bool)
    ensures
        more == (tag != DT_NULL),
        final(scan).rela == (if tag == DT_RELA {
            Some(val)
        } else {
            old(scan).rela
        }),
        final(scan).rela_size == (if tag == DT_RELASZ {
            Some(val)
        } else {
            old(scan).rela_size
        }),
{
    if tag == DT_NULL {
        return false;
    }
    if tag == DT_RELA {
        scan.rela = Some(val);
    } else if tag == DT_RELASZ {
        scan.rela_size = Some(val);
    }
    true
}

/// Where the relocation table lies once the image is loaded at `bias`, and how
/// many 24-byte records it holds; `None` unless both `DT_RELA` and `DT_RELASZ` were seen.
pub fn relocation_table(scan: &DynamicScan, bias: u64) -> (r: Option<(u64, u64)>)
    requires
        scan.rela_size is Some ==> (scan.rela matches Some(a) ==> bias + a <= u64::MAX),
    ensures
        r == (match (scan.rela, scan.rela_size) {
            (Some(a), Some(s)) => Some(((bias + a) as u64, s / RELA_ENTRY_SIZE)),
            _ => None,
        }),
{
    match (scan.rela, scan.rela_size) {
        (Some(rela_vaddr), Some(size)) => Some((bias + rela_vaddr, size / RELA_ENTRY_SIZE)),
        _ => None,
    }
}

/// The write that one relocation record asks for: `R_X86_64_RELATIVE` records
/// store `bias + addend` (wrapping) at `bias + r_offset`; other types are skipped.
pub fn relative_relocation(bias: u64, r_offset: u64, r_info: u64, r_addend: i64) -> (r: Option<
    (u64, u64),
>)
    requires
        (r_info & 0xFFFF_FFFFu64) as u32 == R_X86_64_RELATIVE ==> bias + r_offset <= u64::MAX,
    ensures
        r == (if (r_info & 0xFFFF_FFFFu64) as u32 != R_X86_64_RELATIVE {
            None
        } else {
            Some(((bias + r_offset) as u64, bias.wrapping_add(r_addend as u64)))
        }),
{
    let r_type = (r_info & 0xFFFF_FFFF) as u32;
    if r_type != R_X86_64_RELATIVE {
        return None;
    }
    let target = bias + r_offset;
    let value = bias.wrapping_add(r_addend as u64);
    Some((target, value))
}

} // verus!
