//! The initial ramdisk: a flat archive of the user programs the kernel can
//! start, and the lookup that finds one of them by name.
//!
//! Layout: a little-endian `u32` entry count, then per entry a `u32` name
//! length, the name bytes, a `u32` data length and the data bytes.
use vstd::prelude::*;
use vstd::slice::{slice_subrange, slice_to_vec};
use vstd::utf8::valid_utf8;
use vstd::string::StringSliceAdditionalSpecFns;
use crate::bytes::{
    le_u16, le_u32, le_u64, u16_le, u32_le, u64_le, push_le_u16, push_le_u32, push_le_u64, push_all,
    read_le_u32, bytes_equal, lemma_le_u16_at, lemma_le_u32_at, lemma_le_u64_at, lemma_le_concat_left,
    lemma_le_concat_right, lemma_le_u32_field, lemma_le_u64_field, group_encoded_lengths,
};
use crate::elf::{
    Segment, PT_LOAD, PT_DYNAMIC, DT_NULL, DT_RELA, DT_RELASZ, R_X86_64_RELATIVE, ET_DYN, is_elf64, ph_num, ph_type, ph_segment, ph_in_bounds, headers_in_bounds,
    load_segments_upto, load_segments_of, dynamic_from,
};

verus! {

broadcast use group_encoded_lengths;

/// Reads files by name.
pub trait FileSystem {
    fn read(&self, name: &str) -> Option<Vec<u8>>;
}

/// An initrd image held in memory.
pub struct Initrd {
    data: Vec<u8>,
}

impl View for Initrd {
    type V = Seq<u8>;

    closed spec fn view(&self) -> Seq<u8> {
        self.data@
    }
}

/// The bytes of one archive entry.
pub open spec fn entry_bytes(name: Seq<u8>, contents: Seq<u8>) -> Seq<u8> {
    u32_le(name.len() as u32) + name + u32_le(contents.len() as u32) + contents
}

/// The bytes of a run of archive entries.
#[verifier::opaque]
pub open spec fn entries_bytes(files: Seq<(Seq<u8>, Seq<u8>)>) -> Seq<u8>
    decreases files.len(),
{
    if files.len() == 0 {
        Seq::empty()
    } else {
        entry_bytes(files[0].0, files[0].1) + entries_bytes(files.drop_first())
    }
}

/// The bytes of a whole archive holding `files` in order.
pub open spec fn archive_bytes(files: Seq<(Seq<u8>, Seq<u8>)>) -> Seq<u8> {
    u32_le(files.len() as u32) + entries_bytes(files)
}

/// What the lookup finds for `name` among the `remaining` entries starting at
/// offset `pos`: the data of the first entry with that name; nothing once an
/// entry runs past the end of the image or has a name that is not UTF-8.
pub open spec fn lookup_from(d: Seq<u8>, pos: int, remaining: int, name: Seq<u8>) -> Option<
    Seq<u8>,
>
    decreases remaining,
{
    if remaining <= 0 || pos < 0 || pos + 4 > d.len() {
        None
    } else {
        let name_len = le_u32(d, pos) as int;
        let p1 = pos + 4;
        if p1 + name_len > d.len() {
            None
        } else if !valid_utf8(d.subrange(p1, p1 + name_len)) {
            None
        } else {
            let p2 = p1 + name_len;
            if p2 + 4 > d.len() {
                None
            } else {
                let data_len = le_u32(d, p2) as int;
                let p3 = p2 + 4;
                if p3 + data_len > d.len() {
                    None
                } else if d.subrange(p1, p1 + name_len) == name {
                    Some(d.subrange(p3, p3 + data_len))
                } else {
                    lookup_from(d, p3 + data_len, remaining - 1, name)
                }
            }
        }
    }
}

/// What a lookup of `name` in the archive image `d` finds.
pub open spec fn lookup(d: Seq<u8>, name: Seq<u8>) -> Option<Seq<u8>> {
    if d.len() < 4 {
        None
    } else {
        lookup_from(d, 4, le_u32(d, 0) as int, name)
    }
}

/// The data of the first file called `name`.
pub open spec fn first_match(files: Seq<(Seq<u8>, Seq<u8>)>, name: Seq<u8>) -> Option<Seq<u8>>
    decreases files.len(),
{
    if files.len() == 0 {
        None
    } else if files[0].0 == name {
        Some(files[0].1)
    } else {
        first_match(files.drop_first(), name)
    }
}

pub open spec fn opt_bytes(r: Option<Vec<u8>>) -> Option<Seq<u8>> {
    match r {
        Some(v) => Some(v@),
        None => None,
    }
}

/// `core::str::from_utf8`: claims that it succeeds exactly when `bytes` is valid UTF-8.
#[verifier::external_body]
fn is_utf8(bytes: &[u8]) -> (r: bool)
    ensures
        r == valid_utf8(bytes@),
{
    core::str::from_utf8(bytes).is_ok()
}

/// Reads the little-endian `u32` at `*pos` and steps past it, or leaves `*pos`
/// alone when fewer than four bytes remain.
fn read_u32(data: &[u8], pos: &mut usize) -> (r: Option<u32>)
    ensures
        match r {
            Some(v) => {
                &&& *old(pos) + 4 <= data@.len()
                &&& v == le_u32(data@, *old(pos) as int)
                &&& *final(pos) == *old(pos) + 4
            },
            None => *old(pos) + 4 > data@.len() && *final(pos) == *old(pos),
        },
{
    if data.len() < 4 || *pos > data.len() - 4 {
        return None;
    }
    let v = read_le_u32(data, *pos);
    *pos = *pos + 4;
    Some(v)
}

/// Appends one archive entry.
fn write_entry(out: &mut Vec<u8>, name: &str, contents: &[u8])
    ensures
        final(out)@ == old(out)@ + entry_bytes(name.spec_bytes(), contents@),
{
    let name_bytes = name.as_bytes();
    push_le_u32(out, name_bytes.len() as u32);
    push_all(out, name_bytes);
    push_le_u32(out, contents.len() as u32);
    push_all(out, contents);
    assert(out@ =~= old(out)@ + entry_bytes(name.spec_bytes(), contents@));
}

impl FileSystem for Initrd {
    /// The data of the first entry called `name`.
    fn read(&self, name: &str) -> (r: Option<Vec<u8>>)
        ensures
            opt_bytes(r) == lookup(self@, name.spec_bytes()),
    {
        let data = self.data.as_slice();
        let wanted = name.as_bytes();
        let mut pos: usize = 0;
        let count = match read_u32(data, &mut pos) {
            Some(c) => c,
            None => return None,
        };
        let mut i: u32 = 0;
        while i < count
            invariant
                data@ == self@,
                wanted@ == name.spec_bytes(),
                4 <= pos <= data@.len(),
                data@.len() >= 4,
                count == le_u32(data@, 0),
                i <= count,
                lookup(data@, wanted@) == lookup_from(data@, pos as int, count - i, wanted@),
            decreases count - i,
        {
            let name_len = match read_u32(data, &mut pos) {
                Some(n) => n as usize,
                None => return None,
            };
            if name_len > data.len() - pos {
                return None;
            }
            let entry_name = slice_subrange(data, pos, pos + name_len);
            if !is_utf8(entry_name) {
                return None;
            }
            pos = pos + name_len;
            let data_len = match read_u32(data, &mut pos) {
                Some(n) => n as usize,
                None => return None,
            };
            if data_len > data.len() - pos {
                return None;
            }
            let entry_data = slice_subrange(data, pos, pos + data_len);
            pos = pos + data_len;
            if bytes_equal(entry_name, wanted) {
                return Some(slice_to_vec(entry_data));
            }
            i = i + 1;
        }
        None
    }
}

/// The first `k` entries can be read back: each name is UTF-8 and each
/// length fits the archive's 32-bit fields.
pub open spec fn entries_wf(files: Seq<(Seq<u8>, Seq<u8>)>, k: int) -> bool {
    forall|i: int|
        0 <= i < k && i < files.len() ==> {
            &&& (#[trigger] files[i]).0.len() <= u32::MAX
            &&& files[i].1.len() <= u32::MAX
            &&& valid_utf8(files[i].0)
        }
}

/// Every name is UTF-8, and the count of files and every length fit the
/// archive's 32-bit fields.
pub open spec fn archive_wf(files: Seq<(Seq<u8>, Seq<u8>)>) -> bool {
    &&& files.len() <= u32::MAX
    &&& entries_wf(files, files.len() as int)
}

proof fn lemma_entries_lookup(p: Seq<u8>, files: Seq<(Seq<u8>, Seq<u8>)>, k: int, name: Seq<u8>)
    requires
        entries_wf(files, k),
        0 <= k <= files.len(),
    ensures
        lookup_from(p + entries_bytes(files), p.len() as int, k, name) == first_match(
            files.take(k),
            name,
        ),
    decreases files.len(),
{
    reveal(entries_bytes);
    if k == 0 {
        assert(files.take(k) =~= Seq::<(Seq<u8>, Seq<u8>)>::empty());
    } else {
        let n0 = files[0].0;
        let c0 = files[0].1;
        assert(files[0] == files[0]);
        let e0 = entry_bytes(n0, c0);
        let rest = files.drop_first();
        let d = p + entries_bytes(files);
        let pos = p.len() as int;
        assert(d =~= (p + e0) + entries_bytes(rest));
        let p1 = pos + 4;
        let p2 = p1 + n0.len();
        let p3 = p2 + 4;
        assert(d.subrange(pos, pos + 4) =~= u32_le(n0.len() as u32));
        lemma_le_u32_at(d, pos, n0.len() as u32);
        assert(d.subrange(p1, p2) =~= n0);
        assert(d.subrange(p2, p2 + 4) =~= u32_le(c0.len() as u32));
        lemma_le_u32_at(d, p2, c0.len() as u32);
        assert(d.subrange(p3, p3 + c0.len()) =~= c0);
        assert forall|i: int| 0 <= i < rest.len() implies #[trigger] rest[i] == files[i + 1] by {}
        assert(entries_wf(rest, k - 1)) by {
            assert forall|i: int| 0 <= i < k - 1 && i < rest.len() implies {
                &&& (#[trigger] rest[i]).0.len() <= u32::MAX
                &&& rest[i].1.len() <= u32::MAX
                &&& valid_utf8(rest[i].0)
            } by {
                assert(rest[i] == files[i + 1]);
            }
        }
        lemma_entries_lookup(p + e0, rest, k - 1, name);
        assert((p + e0).len() == p3 + c0.len());
        assert(files.take(k)[0] == files[0]);
        assert(files.take(k).drop_first() =~= rest.take(k - 1));
    }
}

/// Looking a name up in an archive finds the data of the first file of that name.
pub proof fn lemma_archive_lookup(files: Seq<(Seq<u8>, Seq<u8>)>, name: Seq<u8>)
    requires
        archive_wf(files),
    ensures
        lookup(archive_bytes(files), name) == first_match(files, name),
{
    let d = archive_bytes(files);
    let count = u32_le(files.len() as u32);
    assert(d.subrange(0, 4) =~= count);
    lemma_le_u32_at(d, 0, files.len() as u32);
    lemma_entries_lookup(count, files, files.len() as int, name);
    assert(files.take(files.len() as int) =~= files);
}

/// An archive image whose count `k` is smaller than the number of entries
/// that follow it: a lookup finds the data of the first of the first `k`
/// files with that name, and nothing past them.
pub proof fn lemma_archive_lookup_counted(k: u32, files: Seq<(Seq<u8>, Seq<u8>)>, name: Seq<u8>)
    requires
        entries_wf(files, k as int),
        k <= files.len(),
    ensures
        lookup(u32_le(k) + entries_bytes(files), name) == first_match(files.take(k as int), name),
{
    let count = u32_le(k);
    let d = count + entries_bytes(files);
    assert(d.subrange(0, 4) =~= count);
    lemma_le_u32_at(d, 0, k);
    lemma_entries_lookup(count, files, k as int, name);
}

/// The 64-byte header of a little-endian x86-64 ELF image with its program
/// headers right after it and no section headers.
pub open spec fn elf_header_bytes(e_type: u16, entry: u64, phnum: u16) -> Seq<u8> {
    seq![0x7fu8, 0x45u8, 0x4cu8, 0x46u8, 2u8, 1u8, 1u8, 0u8, 0u8, 0u8, 0u8, 0u8, 0u8, 0u8, 0u8, 0u8]
        + u16_le(e_type) + u16_le(0x3e) + u32_le(1) + u64_le(entry) + u64_le(64) + u64_le(0)
        + u32_le(0) + u16_le(64) + u16_le(56) + u16_le(phnum) + u16_le(0) + u16_le(0) + u16_le(0)
}

/// A 56-byte program header.
pub open spec fn program_header_bytes(
    p_type: u32,
    flags: u32,
    offset: u64,
    vaddr: u64,
    paddr: u64,
    filesz: u64,
    memsz: u64,
    align: u64,
) -> Seq<u8> {
    u32_le(p_type) + u32_le(flags) + u64_le(offset) + u64_le(vaddr) + u64_le(paddr) + u64_le(
        filesz,
    ) + u64_le(memsz) + u64_le(align)
}

proof fn lemma_elf_header_fields(e_type: u16, entry: u64, phnum: u16)
    ensures
        ({
            let h = elf_header_bytes(e_type, entry, phnum);
            &&& h.len() == 64
            &&& is_elf64(h)
            &&& le_u16(h, 16) == e_type
            &&& le_u64(h, 24) == entry
            &&& le_u64(h, 32) == 64
            &&& le_u16(h, 54) == 56
            &&& le_u16(h, 56) == phnum
        }),
{
    let h = elf_header_bytes(e_type, entry, phnum);
    assert(h.subrange(16, 18) =~= u16_le(e_type));
    lemma_le_u16_at(h, 16, e_type);
    assert(h.subrange(24, 32) =~= u64_le(entry));
    lemma_le_u64_at(h, 24, entry);
    assert(h.subrange(32, 40) =~= u64_le(64));
    lemma_le_u64_at(h, 32, 64);
    assert(h.subrange(54, 56) =~= u16_le(56));
    lemma_le_u16_at(h, 54, 56);
    assert(h.subrange(56, 58) =~= u16_le(phnum));
    lemma_le_u16_at(h, 56, phnum);
}

proof fn lemma_program_header_fields(
    p_type: u32,
    flags: u32,
    offset: u64,
    vaddr: u64,
    paddr: u64,
    filesz: u64,
    memsz: u64,
    align: u64,
)
    ensures
        ({
            let ph = program_header_bytes(p_type, flags, offset, vaddr, paddr, filesz, memsz, align);
            &&& ph.len() == 56
            &&& le_u32(ph, 0) == p_type
            &&& le_u64(ph, 8) == offset
            &&& le_u64(ph, 16) == vaddr
            &&& le_u64(ph, 32) == filesz
            &&& le_u64(ph, 40) == memsz
        }),
{
    let ph = program_header_bytes(p_type, flags, offset, vaddr, paddr, filesz, memsz, align);
    assert(ph.subrange(0, 4) =~= u32_le(p_type));
    lemma_le_u32_at(ph, 0, p_type);
    assert(ph.subrange(8, 16) =~= u64_le(offset));
    lemma_le_u64_at(ph, 8, offset);
    assert(ph.subrange(16, 24) =~= u64_le(vaddr));
    lemma_le_u64_at(ph, 16, vaddr);
    assert(ph.subrange(32, 40) =~= u64_le(filesz));
    lemma_le_u64_at(ph, 32, filesz);
    assert(ph.subrange(40, 48) =~= u64_le(memsz));
    lemma_le_u64_at(ph, 40, memsz);
}

/// Reading program header `i` of an image whose headers start at offset 64 and
/// are 56 bytes apart.
proof fn lemma_read_program_header(d: Seq<u8>, i: int, ph: Seq<u8>, rest: Seq<u8>, front: Seq<u8>)
    requires
        0 <= i,
        front.len() == 64 + 56 * i,
        ph.len() == 56,
        d == front + (ph + rest),
        le_u64(d, 32) == 64,
        le_u16(d, 54) == 56,
    ensures
        ph_in_bounds(d, i),
        ph_type(d, i) == le_u32(ph, 0),
        ph_segment(d, i) == (Segment {
            vaddr: le_u64(ph, 16),
            offset: le_u64(ph, 8),
            filesz: le_u64(ph, 32),
            memsz: le_u64(ph, 40),
        }),
{
    assert(i * 56 == 56 * i) by (nonlinear_arith);
    lemma_le_concat_right(front, ph + rest, 0);
    lemma_le_concat_right(front, ph + rest, 8);
    lemma_le_concat_right(front, ph + rest, 16);
    lemma_le_concat_right(front, ph + rest, 32);
    lemma_le_concat_right(front, ph + rest, 40);
    lemma_le_concat_left(ph, rest, 0);
    lemma_le_concat_left(ph, rest, 8);
    lemma_le_concat_left(ph, rest, 16);
    lemma_le_concat_left(ph, rest, 32);
    lemma_le_concat_left(ph, rest, 40);
}

/// Appends an ELF file header.
fn push_elf_header(out: &mut Vec<u8>, e_type: u16, entry: u64, phnum: u16)
    ensures
        final(out)@ == old(out)@ + elf_header_bytes(e_type, entry, phnum),
{
    out.push(0x7f);
    out.push(0x45);
    out.push(0x4c);
    out.push(0x46);
    out.push(2);
    out.push(1);
    out.push(1);
    out.push(0);
    let mut k: usize = 0;
    while k < 8
        invariant
            k <= 8,
            out@ == old(out)@ + seq![0x7fu8, 0x45u8, 0x4cu8, 0x46u8, 2u8, 1u8, 1u8, 0u8] + Seq::new(
                k as nat,
                |j: int| 0u8,
            ),
        decreases 8 - k,
    {
        out.push(0);
        k = k + 1;
        proof {
            assert(out@ =~= old(out)@ + seq![0x7fu8, 0x45u8, 0x4cu8, 0x46u8, 2u8, 1u8, 1u8, 0u8]
                + Seq::new(k as nat, |j: int| 0u8));
        }
    }
    push_le_u16(out, e_type);
    push_le_u16(out, 0x3e);
    push_le_u32(out, 1);
    push_le_u64(out, entry);
    push_le_u64(out, 64);
    push_le_u64(out, 0);
    push_le_u32(out, 0);
    push_le_u16(out, 64);
    push_le_u16(out, 56);
    push_le_u16(out, phnum);
    push_le_u16(out, 0);
    push_le_u16(out, 0);
    push_le_u16(out, 0);
    assert(out@ =~= old(out)@ + elf_header_bytes(e_type, entry, phnum));
}

/// Appends a program header.
fn push_program_header(
    out: &mut Vec<u8>,
    p_type: u32,
    flags: u32,
    offset: u64,
    vaddr: u64,
    paddr: u64,
    filesz: u64,
    memsz: u64,
    align: u64,
)
    ensures
        final(out)@ == old(out)@ + program_header_bytes(
            p_type,
            flags,
            offset,
            vaddr,
            paddr,
            filesz,
            memsz,
            align,
        ),
{
    push_le_u32(out, p_type);
    push_le_u32(out, flags);
    push_le_u64(out, offset);
    push_le_u64(out, vaddr);
    push_le_u64(out, paddr);
    push_le_u64(out, filesz);
    push_le_u64(out, memsz);
    push_le_u64(out, align);
    assert(out@ =~= old(out)@ + program_header_bytes(
        p_type,
        flags,
        offset,
        vaddr,
        paddr,
        filesz,
        memsz,
        align,
    ));
}

/// The image that `build_elf` writes.
#[verifier::opaque]
pub open spec fn elf_image_bytes(code: Seq<u8>, entry: u64) -> Seq<u8> {
    elf_header_bytes(2, entry, 1) + (program_header_bytes(
        PT_LOAD,
        5,
        120,
        entry,
        entry,
        code.len() as u64,
        code.len() as u64,
        0x1000,
    ) + code)
}

/// The image `build_elf` writes is read back as an executable whose single
/// loadable segment is `code` at `entry`, where execution starts.
pub proof fn lemma_elf_image(code: Seq<u8>, entry: u64)
    ensures
        ({
            let d = elf_image_bytes(code, entry);
            &&& is_elf64(d)
            &&& le_u16(d, 16) == 2
            &&& le_u64(d, 24) == entry
            &&& ph_num(d) == 1
            &&& headers_in_bounds(d)
            &&& load_segments_of(d) == seq![
                Segment {
                    vaddr: entry,
                    offset: 120,
                    filesz: code.len() as u64,
                    memsz: code.len() as u64,
                },
            ]
            &&& dynamic_from(d, 0) is None
            &&& d.len() == 120 + code.len()
            &&& d.subrange(120, d.len() as int) == code
        }),
{
    reveal(elf_image_bytes);
    let len = code.len() as u64;
    let h = elf_header_bytes(2, entry, 1);
    let ph = program_header_bytes(PT_LOAD, 5, 120, entry, entry, len, len, 0x1000);
    let d = elf_image_bytes(code, entry);
    lemma_elf_header_fields(2, entry, 1);
    lemma_program_header_fields(PT_LOAD, 5, 120, entry, entry, len, len, 0x1000);
    lemma_le_concat_left(h, ph + code, 16);
    lemma_le_concat_left(h, ph + code, 24);
    lemma_le_concat_left(h, ph + code, 32);
    lemma_le_concat_left(h, ph + code, 48);
    lemma_le_concat_left(h, ph + code, 54);
    assert(le_u16(d, 56) == 1) by {
        assert(d[56] == h[56] && d[57] == h[57]);
    }
    lemma_read_program_header(d, 0, ph, code, h);
    assert(headers_in_bounds(d));
    assert(load_segments_upto(d, 0) =~= Seq::<Segment>::empty());
    assert(dynamic_from(d, 1) is None);
    assert(d.subrange(120, d.len() as int) =~= code);
}

/// A fixed-address executable (`e_type` 2) whose single read+execute `PT_LOAD`
/// segment maps `code` at `entry_vaddr`, where execution also starts.
fn build_elf(code: &[u8], entry_vaddr: u64) -> (r: Vec<u8>)
    ensures
        r@ == elf_image_bytes(code@, entry_vaddr),
{
    let mut elf: Vec<u8> = Vec::new();
    push_elf_header(&mut elf, 2, entry_vaddr, 1);
    let code_offset: u64 = 64 + 56;
    let len = code.len() as u64;
    push_program_header(
        &mut elf,
        PT_LOAD,
        5,
        code_offset,
        entry_vaddr,
        entry_vaddr,
        len,
        len,
        0x1000,
    );
    push_all(&mut elf, code);
    proof {
        assert(elf@ =~= elf_image_bytes(code@, entry_vaddr)) by {
            reveal(elf_image_bytes);
        }
    }
    elf
}

/// "hello from a relocated (PIE) pointer!\n"
#[verifier::opaque]
pub open spec fn pie_message() -> Seq<u8> {
    seq![0x68u8, 0x65u8, 0x6cu8, 0x6cu8, 0x6fu8, 0x20u8, 0x66u8, 0x72u8, 0x6fu8, 0x6du8, 0x20u8, 0x61u8, 0x20u8, 0x72u8, 0x65u8, 0x6cu8, 0x6fu8, 0x63u8, 0x61u8, 0x74u8, 0x65u8, 0x64u8, 0x20u8, 0x28u8, 0x50u8, 0x49u8, 0x45u8, 0x29u8, 0x20u8, 0x70u8, 0x6fu8, 0x69u8, 0x6eu8, 0x74u8, 0x65u8, 0x72u8, 0x21u8, 0xau8]
}

/// The demo's machine code: `write(1, *slot, 38)` through a RIP-relative load of
/// the pointer slot 19 bytes past the end of the `lea`, then `exit(0)`.
#[verifier::opaque]
pub open spec fn pie_code() -> Seq<u8> {
    seq![0xB8u8, 0x01u8, 0x00u8, 0x00u8, 0x00u8, 0xBFu8, 0x01u8, 0x00u8, 0x00u8, 0x00u8, 0x48u8, 0x8Du8, 0x35u8]
        + u32_le(19) + seq![0x48u8, 0x8Bu8, 0x36u8, 0xBAu8] + u32_le(38) + seq![
        0x0Fu8,
        0x05u8,
        0xB8u8,
        0x02u8,
        0x00u8,
        0x00u8,
        0x00u8,
        0x31u8,
        0xFFu8,
        0x0Fu8,
        0x05u8,
    ]
}

/// The position-independent demo image: a header, a `PT_LOAD` covering the
/// whole file at address 0, a `PT_DYNAMIC` at 220, the code at 176, an 8-byte
/// pointer slot at 212, the dynamic section (`DT_RELA` = 268, `DT_RELASZ` = 24,
/// `DT_NULL`), one `R_X86_64_RELATIVE` record that points the slot at the
/// message, and the message at 292.
#[verifier::opaque]
pub open spec fn pie_demo_image() -> Seq<u8> {
    pie_headers() + (pie_code() + (u64_le(0) + (pie_dynamic() + (pie_rela() + pie_message()))))
}

/// The file header and the two program headers of the demo.
pub open spec fn pie_headers() -> Seq<u8> {
    elf_header_bytes(ET_DYN, 176, 2) + (program_header_bytes(PT_LOAD, 6, 0, 0, 0, 330, 330, 0x1000)
        + program_header_bytes(PT_DYNAMIC, 6, 220, 220, 220, 48, 48, 8))
}

/// The demo's dynamic section.
pub open spec fn pie_dynamic() -> Seq<u8> {
    u64_le(DT_RELA) + (u64_le(268) + (u64_le(DT_RELASZ) + (u64_le(24) + (u64_le(DT_NULL) + u64_le(
        0,
    )))))
}

/// The demo's single relocation record.
pub open spec fn pie_rela() -> Seq<u8> {
    u64_le(212) + (u64_le(R_X86_64_RELATIVE as u64) + u64_le(292))
}

proof fn lemma_pie_lengths()
    ensures
        pie_code().len() == 36,
        pie_message().len() == 38,
{
    reveal(pie_code);
    reveal(pie_message);
}

fn pie_message_bytes() -> (r: Vec<u8>)
    ensures
        r@ == pie_message(),
        r@.len() == 38,
{
    reveal(pie_message);
    vec![0x68u8, 0x65, 0x6c, 0x6c, 0x6f, 0x20, 0x66, 0x72, 0x6f, 0x6d, 0x20, 0x61, 0x20, 0x72, 0x65, 0x6c, 0x6f, 0x63, 0x61, 0x74, 0x65, 0x64, 0x20, 0x28, 0x50, 0x49, 0x45, 0x29, 0x20, 0x70, 0x6f, 0x69, 0x6e, 0x74, 0x65, 0x72, 0x21, 0xa]
}

/// Builds the position-independent demo program.
fn build_pie_demo() -> (r: Vec<u8>)
    ensures
        r@ == pie_demo_image(),
{
    let message = pie_message_bytes();
    let code_off: u64 = 64 + 2 * 56;
    let code_len: u64 = 36;
    let ptr_slot_off = code_off + code_len;
    let dynamic_off = ptr_slot_off + 8;
    let rela_off = dynamic_off + 48;
    let message_off = rela_off + 24;
    let file_end = message_off + message.len() as u64;
    let lea_disp_pos = code_off + 10 + 3;
    let next_instr = lea_disp_pos + 4;
    let disp = (ptr_slot_off - next_instr) as u32;

    let mut elf: Vec<u8> = Vec::new();
    push_elf_header(&mut elf, ET_DYN, code_off, 2);
    push_program_header(&mut elf, PT_LOAD, 6, 0, 0, 0, file_end, file_end, 0x1000);
    push_program_header(&mut elf, PT_DYNAMIC, 6, dynamic_off, dynamic_off, dynamic_off, 48, 48, 8);
    let ghost front = elf@;

    let code_head = vec![0xB8u8, 0x01, 0x00, 0x00, 0x00, 0xBF, 0x01, 0x00, 0x00, 0x00, 0x48, 0x8D, 0x35];
    push_all(&mut elf, code_head.as_slice());
    push_le_u32(&mut elf, disp);
    let code_mid = vec![0x48u8, 0x8B, 0x36, 0xBA];
    push_all(&mut elf, code_mid.as_slice());
    push_le_u32(&mut elf, message.len() as u32);
    let code_tail = vec![0x0Fu8, 0x05, 0xB8, 0x02, 0x00, 0x00, 0x00, 0x31, 0xFF, 0x0F, 0x05];
    push_all(&mut elf, code_tail.as_slice());
    let ghost with_code = elf@;
    proof {
        assert(with_code =~= front + pie_code()) by {
            reveal(pie_code);
        }
    }

    push_le_u64(&mut elf, 0);
    push_le_u64(&mut elf, DT_RELA);
    push_le_u64(&mut elf, rela_off);
    push_le_u64(&mut elf, DT_RELASZ);
    push_le_u64(&mut elf, 24);
    push_le_u64(&mut elf, DT_NULL);
    push_le_u64(&mut elf, 0);
    push_le_u64(&mut elf, ptr_slot_off);
    push_le_u64(&mut elf, R_X86_64_RELATIVE as u64);
    push_le_u64(&mut elf, message_off);
    push_all(&mut elf, message.as_slice());
    proof {
        let d = elf@;
        assert(d =~= pie_demo_image()) by {
            reveal(pie_demo_image);
        }

    }
    elf
}

/// The demo image is read back as a position-independent executable with one
/// loadable segment covering the whole file and a dynamic section at 220.
pub proof fn lemma_pie_headers()
    ensures
        ({
            let d = pie_demo_image();
            &&& d.len() == 330
            &&& is_elf64(d)
            &&& le_u16(d, 16) == ET_DYN
            &&& le_u64(d, 24) == 176
            &&& ph_num(d) == 2
            &&& headers_in_bounds(d)
            &&& load_segments_of(d) == seq![
                Segment { vaddr: 0, offset: 0, filesz: 330, memsz: 330 },
            ]
            &&& dynamic_from(d, 0) == Some(220u64)
        }),
{
    lemma_pie_lengths();
    reveal(pie_demo_image);
    let d = pie_demo_image();
    let h = elf_header_bytes(ET_DYN, 176, 2);
    let ph0 = program_header_bytes(PT_LOAD, 6, 0, 0, 0, 330, 330, 0x1000);
    let ph1 = program_header_bytes(PT_DYNAMIC, 6, 220, 220, 220, 48, 48, 8);
    let tail = pie_code() + (u64_le(0) + (pie_dynamic() + (pie_rela() + pie_message())));
    assert(d =~= h + (ph0 + (ph1 + tail)));
    lemma_elf_header_fields(ET_DYN, 176, 2);
    lemma_program_header_fields(PT_LOAD, 6, 0, 0, 0, 330, 330, 0x1000);
    lemma_program_header_fields(PT_DYNAMIC, 6, 220, 220, 220, 48, 48, 8);
    let rest = ph0 + (ph1 + tail);
    lemma_le_concat_left(h, rest, 16);
    lemma_le_concat_left(h, rest, 24);
    lemma_le_concat_left(h, rest, 32);
    lemma_le_concat_left(h, rest, 48);
    lemma_le_concat_left(h, rest, 54);
    assert(le_u16(d, 56) == 2) by {
        assert(d[56] == h[56] && d[57] == h[57]);
    }
    lemma_read_program_header(d, 0, ph0, ph1 + tail, h);
    assert(d =~= (h + ph0) + (ph1 + tail));
    lemma_read_program_header(d, 1, ph1, tail, h + ph0);
    assert(headers_in_bounds(d));
    assert(load_segments_upto(d, 0) =~= Seq::<Segment>::empty());
    assert(load_segments_upto(d, 1) =~= seq![
        Segment { vaddr: 0, offset: 0, filesz: 330, memsz: 330 },
    ]);
    assert(dynamic_from(d, 1) == Some(220u64));
}

/// The demo's dynamic section points at one relative relocation that stores
/// the message's address into the pointer slot the code loads.
pub proof fn lemma_pie_body()
    ensures
        ({
            let d = pie_demo_image();
            &&& le_u64(d, 220) == DT_RELA
            &&& le_u64(d, 228) == 268
            &&& le_u64(d, 236) == DT_RELASZ
            &&& le_u64(d, 244) == 24
            &&& le_u64(d, 252) == DT_NULL
            &&& le_u64(d, 268) == 212
            &&& le_u64(d, 276) == R_X86_64_RELATIVE as u64
            &&& le_u64(d, 284) == 292
            &&& 193 + le_u32(d, 189) == 212
            &&& d.subrange(292, 330) == pie_message()
        }),
{
    lemma_pie_lengths();
    reveal(pie_demo_image);
    let d = pie_demo_image();
    let hd = pie_headers();
    let code = pie_code();
    let g = u64_le(0);
    let dy = pie_dynamic();
    let re = pie_rela();
    let m = pie_message();
    let x3 = dy + (re + m);
    let x2 = g + x3;
    let x1 = code + x2;
    assert(hd.len() == 176);
    assert(d == hd + x1);
    lemma_pie_code_disp();
    lemma_le_concat_right(hd, x1, 13);
    lemma_le_concat_left(code, x2, 13);
    // the dynamic section
    lemma_pie_dynamic_fields();
    assert forall|o: int| 0 <= o <= 32 && o % 8 == 0 implies le_u64(d, 220 + o) == le_u64(dy, o)
        by {
        lemma_le_concat_right(hd, x1, 44 + o);
        lemma_le_concat_right(code, x2, 8 + o);
        lemma_le_concat_right(g, x3, o);
        lemma_le_concat_left(dy, re + m, o);
    }
    assert(le_u64(d, 220) == le_u64(dy, 0));
    assert(le_u64(d, 228) == le_u64(dy, 8));
    assert(le_u64(d, 236) == le_u64(dy, 16));
    assert(le_u64(d, 244) == le_u64(dy, 24));
    assert(le_u64(d, 252) == le_u64(dy, 32));
    // the relocation record
    lemma_pie_rela_fields();
    assert forall|o: int| 0 <= o <= 16 && o % 8 == 0 implies le_u64(d, 268 + o) == le_u64(re, o)
        by {
        lemma_le_concat_right(hd, x1, 92 + o);
        lemma_le_concat_right(code, x2, 56 + o);
        lemma_le_concat_right(g, x3, 48 + o);
        lemma_le_concat_right(dy, re + m, o);
        lemma_le_concat_left(re, m, o);
    }
    assert(le_u64(d, 268) == le_u64(re, 0));
    assert(le_u64(d, 276) == le_u64(re, 8));
    assert(le_u64(d, 284) == le_u64(re, 16));
    // the message
    assert(d.subrange(292, 330) =~= m);
}

proof fn lemma_pie_code_disp()
    ensures
        le_u32(pie_code(), 13) == 19,
{
    reveal(pie_code);
    let c = pie_code();
    let w = u32_le(19);
    assert(c[13] == w[0] && c[14] == w[1] && c[15] == w[2] && c[16] == w[3]);
    crate::bytes::lemma_u32_le_roundtrip(19);
}

proof fn lemma_pie_dynamic_fields()
    ensures
        pie_dynamic().len() == 48,
        le_u64(pie_dynamic(), 0) == DT_RELA,
        le_u64(pie_dynamic(), 8) == 268,
        le_u64(pie_dynamic(), 16) == DT_RELASZ,
        le_u64(pie_dynamic(), 24) == 24,
        le_u64(pie_dynamic(), 32) == DT_NULL,
{
    let e = Seq::<u8>::empty();
    let (a, b, c, dd, f, g) = (
        u64_le(DT_RELA),
        u64_le(268),
        u64_le(DT_RELASZ),
        u64_le(24),
        u64_le(DT_NULL),
        u64_le(0),
    );
    lemma_le_u64_field(e, DT_RELA, b + (c + (dd + (f + g))));
    assert(e + (a + (b + (c + (dd + (f + g))))) =~= pie_dynamic());
    lemma_le_u64_field(a, 268, c + (dd + (f + g)));
    assert(a + (b + (c + (dd + (f + g)))) =~= pie_dynamic());
    lemma_le_u64_field(a + b, DT_RELASZ, dd + (f + g));
    assert((a + b) + (c + (dd + (f + g))) =~= pie_dynamic());
    lemma_le_u64_field(a + b + c, 24, f + g);
    assert((a + b + c) + (dd + (f + g)) =~= pie_dynamic());
    lemma_le_u64_field(a + b + c + dd, DT_NULL, g);
    assert((a + b + c + dd) + (f + g) =~= pie_dynamic());
}

proof fn lemma_pie_rela_fields()
    ensures
        pie_rela().len() == 24,
        le_u64(pie_rela(), 0) == 212,
        le_u64(pie_rela(), 8) == R_X86_64_RELATIVE as u64,
        le_u64(pie_rela(), 16) == 292,
{
    let e = Seq::<u8>::empty();
    let (x, y, z) = (u64_le(212), u64_le(R_X86_64_RELATIVE as u64), u64_le(292));
    lemma_le_u64_field(e, 212, y + z);
    assert(e + (x + (y + z)) =~= pie_rela());
    lemma_le_u64_field(x, R_X86_64_RELATIVE as u64, z);
    lemma_le_u64_field(x + y, 292, Seq::<u8>::empty());
    assert((x + y) + (z + Seq::<u8>::empty()) =~= pie_rela());
}

pub const INIT_ENTRY_VADDR: u64 = 0x7777_7777_0000;

/// The machine code of the `init` program.
#[verifier::opaque]
pub open spec fn init_code() -> Seq<u8> {
    seq![
        0xB8u8, 0x03u8, 0x00u8, 0x00u8, 0x00u8, 0x0Fu8, 0x05u8, 0x89u8, 0xC7u8, 0xB8u8, 0x02u8, 0x00u8,
        0x00u8, 0x00u8, 0x0Fu8, 0x05u8,
    ]
}

fn init_code_bytes() -> (r: Vec<u8>)
    ensures
        r@ == init_code(),
{
    reveal(init_code);
    vec![
        0xB8u8, 0x03u8, 0x00u8, 0x00u8, 0x00u8, 0x0Fu8, 0x05u8, 0x89u8, 0xC7u8, 0xB8u8, 0x02u8, 0x00u8,
        0x00u8, 0x00u8, 0x0Fu8, 0x05u8,
    ]
}

pub const PRODUCER_ENTRY_VADDR: u64 = 0x2222_2222_0000;

/// The machine code of the `producer` program.
#[verifier::opaque]
pub open spec fn producer_code() -> Seq<u8> {
    seq![
        0xB8u8, 0x01u8, 0x00u8, 0x00u8, 0x00u8, 0xBFu8, 0x04u8, 0x00u8, 0x00u8, 0x00u8, 0x48u8, 0x8Du8,
        0x35u8, 0x10u8, 0x00u8, 0x00u8, 0x00u8, 0xBAu8, 0x05u8, 0x00u8, 0x00u8, 0x00u8, 0x0Fu8, 0x05u8,
        0xB8u8, 0x02u8, 0x00u8, 0x00u8, 0x00u8, 0x31u8, 0xFFu8, 0x0Fu8, 0x05u8, 0x70u8, 0x69u8, 0x6Eu8,
        0x67u8, 0x0Au8,
    ]
}

fn producer_code_bytes() -> (r: Vec<u8>)
    ensures
        r@ == producer_code(),
{
    reveal(producer_code);
    vec![
        0xB8u8, 0x01u8, 0x00u8, 0x00u8, 0x00u8, 0xBFu8, 0x04u8, 0x00u8, 0x00u8, 0x00u8, 0x48u8, 0x8Du8,
        0x35u8, 0x10u8, 0x00u8, 0x00u8, 0x00u8, 0xBAu8, 0x05u8, 0x00u8, 0x00u8, 0x00u8, 0x0Fu8, 0x05u8,
        0xB8u8, 0x02u8, 0x00u8, 0x00u8, 0x00u8, 0x31u8, 0xFFu8, 0x0Fu8, 0x05u8, 0x70u8, 0x69u8, 0x6Eu8,
        0x67u8, 0x0Au8,
    ]
}

pub const CONSUMER_ENTRY_VADDR: u64 = 0x3333_3333_0000;

/// The machine code of the `consumer` program.
#[verifier::opaque]
pub open spec fn consumer_code() -> Seq<u8> {
    seq![
        0xB8u8, 0x05u8, 0x00u8, 0x00u8, 0x00u8, 0xBFu8, 0x03u8, 0x00u8, 0x00u8, 0x00u8, 0x48u8, 0x81u8,
        0xECu8, 0x40u8, 0x00u8, 0x00u8, 0x00u8, 0x48u8, 0x89u8, 0xE6u8, 0xBAu8, 0x20u8, 0x00u8, 0x00u8,
        0x00u8, 0x0Fu8, 0x05u8, 0x89u8, 0xC2u8, 0xB8u8, 0x01u8, 0x00u8, 0x00u8, 0x00u8, 0xBFu8, 0x01u8,
        0x00u8, 0x00u8, 0x00u8, 0x48u8, 0x89u8, 0xE6u8, 0x0Fu8, 0x05u8, 0xB8u8, 0x02u8, 0x00u8, 0x00u8,
        0x00u8, 0x31u8, 0xFFu8, 0x0Fu8, 0x05u8,
    ]
}

fn consumer_code_bytes() -> (r: Vec<u8>)
    ensures
        r@ == consumer_code(),
{
    reveal(consumer_code);
    vec![
        0xB8u8, 0x05u8, 0x00u8, 0x00u8, 0x00u8, 0xBFu8, 0x03u8, 0x00u8, 0x00u8, 0x00u8, 0x48u8, 0x81u8,
        0xECu8, 0x40u8, 0x00u8, 0x00u8, 0x00u8, 0x48u8, 0x89u8, 0xE6u8, 0xBAu8, 0x20u8, 0x00u8, 0x00u8,
        0x00u8, 0x0Fu8, 0x05u8, 0x89u8, 0xC2u8, 0xB8u8, 0x01u8, 0x00u8, 0x00u8, 0x00u8, 0xBFu8, 0x01u8,
        0x00u8, 0x00u8, 0x00u8, 0x48u8, 0x89u8, 0xE6u8, 0x0Fu8, 0x05u8, 0xB8u8, 0x02u8, 0x00u8, 0x00u8,
        0x00u8, 0x31u8, 0xFFu8, 0x0Fu8, 0x05u8,
    ]
}

pub const FORKER_ENTRY_VADDR: u64 = 0x4000_0000_0000;

/// The machine code of the `forker` program.
#[verifier::opaque]
pub open spec fn forker_code() -> Seq<u8> {
    seq![
        0xB8u8, 0x09u8, 0x00u8, 0x00u8, 0x00u8, 0x0Fu8, 0x05u8, 0x85u8, 0xC0u8, 0x75u8, 0x2Du8, 0xB8u8,
        0x01u8, 0x00u8, 0x00u8, 0x00u8, 0xBFu8, 0x01u8, 0x00u8, 0x00u8, 0x00u8, 0x48u8, 0x8Du8, 0x35u8,
        0x60u8, 0x00u8, 0x00u8, 0x00u8, 0xBAu8, 0x15u8, 0x00u8, 0x00u8, 0x00u8, 0x0Fu8, 0x05u8, 0xB8u8,
        0x0Au8, 0x00u8, 0x00u8, 0x00u8, 0xBFu8, 0x01u8, 0x00u8, 0x00u8, 0x00u8, 0x0Fu8, 0x05u8, 0xB8u8,
        0x02u8, 0x00u8, 0x00u8, 0x00u8, 0x31u8, 0xFFu8, 0x0Fu8, 0x05u8, 0x89u8, 0xC3u8, 0xB8u8, 0x01u8,
        0x00u8, 0x00u8, 0x00u8, 0xBFu8, 0x01u8, 0x00u8, 0x00u8, 0x00u8, 0x48u8, 0x8Du8, 0x35u8, 0x46u8,
        0x00u8, 0x00u8, 0x00u8, 0xBAu8, 0x15u8, 0x00u8, 0x00u8, 0x00u8, 0x0Fu8, 0x05u8, 0xB8u8, 0x07u8,
        0x00u8, 0x00u8, 0x00u8, 0x89u8, 0xDFu8, 0x0Fu8, 0x05u8, 0xB8u8, 0x01u8, 0x00u8, 0x00u8, 0x00u8,
        0xBFu8, 0x01u8, 0x00u8, 0x00u8, 0x00u8, 0x48u8, 0x8Du8, 0x35u8, 0x3Au8, 0x00u8, 0x00u8, 0x00u8,
        0xBAu8, 0x13u8, 0x00u8, 0x00u8, 0x00u8, 0x0Fu8, 0x05u8, 0xB8u8, 0x02u8, 0x00u8, 0x00u8, 0x00u8,
        0x31u8, 0xFFu8, 0x0Fu8, 0x05u8, 0x63u8, 0x68u8, 0x69u8, 0x6Cu8, 0x64u8, 0x3Au8, 0x20u8, 0x65u8,
        0x78u8, 0x65u8, 0x63u8, 0x20u8, 0x70u8, 0x72u8, 0x6Fu8, 0x64u8, 0x75u8, 0x63u8, 0x65u8, 0x72u8,
        0x0Au8, 0x70u8, 0x61u8, 0x72u8, 0x65u8, 0x6Eu8, 0x74u8, 0x3Au8, 0x20u8, 0x66u8, 0x6Fu8, 0x72u8,
        0x6Bu8, 0x65u8, 0x64u8, 0x20u8, 0x63u8, 0x68u8, 0x69u8, 0x6Cu8, 0x64u8, 0x0Au8, 0x70u8, 0x61u8,
        0x72u8, 0x65u8, 0x6Eu8, 0x74u8, 0x3Au8, 0x20u8, 0x63u8, 0x68u8, 0x69u8, 0x6Cu8, 0x64u8, 0x20u8,
        0x64u8, 0x6Fu8, 0x6Eu8, 0x65u8, 0x0Au8,
    ]
}

fn forker_code_bytes() -> (r: Vec<u8>)
    ensures
        r@ == forker_code(),
{
    reveal(forker_code);
    vec![
        0xB8u8, 0x09u8, 0x00u8, 0x00u8, 0x00u8, 0x0Fu8, 0x05u8, 0x85u8, 0xC0u8, 0x75u8, 0x2Du8, 0xB8u8,
        0x01u8, 0x00u8, 0x00u8, 0x00u8, 0xBFu8, 0x01u8, 0x00u8, 0x00u8, 0x00u8, 0x48u8, 0x8Du8, 0x35u8,
        0x60u8, 0x00u8, 0x00u8, 0x00u8, 0xBAu8, 0x15u8, 0x00u8, 0x00u8, 0x00u8, 0x0Fu8, 0x05u8, 0xB8u8,
        0x0Au8, 0x00u8, 0x00u8, 0x00u8, 0xBFu8, 0x01u8, 0x00u8, 0x00u8, 0x00u8, 0x0Fu8, 0x05u8, 0xB8u8,
        0x02u8, 0x00u8, 0x00u8, 0x00u8, 0x31u8, 0xFFu8, 0x0Fu8, 0x05u8, 0x89u8, 0xC3u8, 0xB8u8, 0x01u8,
        0x00u8, 0x00u8, 0x00u8, 0xBFu8, 0x01u8, 0x00u8, 0x00u8, 0x00u8, 0x48u8, 0x8Du8, 0x35u8, 0x46u8,
        0x00u8, 0x00u8, 0x00u8, 0xBAu8, 0x15u8, 0x00u8, 0x00u8, 0x00u8, 0x0Fu8, 0x05u8, 0xB8u8, 0x07u8,
        0x00u8, 0x00u8, 0x00u8, 0x89u8, 0xDFu8, 0x0Fu8, 0x05u8, 0xB8u8, 0x01u8, 0x00u8, 0x00u8, 0x00u8,
        0xBFu8, 0x01u8, 0x00u8, 0x00u8, 0x00u8, 0x48u8, 0x8Du8, 0x35u8, 0x3Au8, 0x00u8, 0x00u8, 0x00u8,
        0xBAu8, 0x13u8, 0x00u8, 0x00u8, 0x00u8, 0x0Fu8, 0x05u8, 0xB8u8, 0x02u8, 0x00u8, 0x00u8, 0x00u8,
        0x31u8, 0xFFu8, 0x0Fu8, 0x05u8, 0x63u8, 0x68u8, 0x69u8, 0x6Cu8, 0x64u8, 0x3Au8, 0x20u8, 0x65u8,
        0x78u8, 0x65u8, 0x63u8, 0x20u8, 0x70u8, 0x72u8, 0x6Fu8, 0x64u8, 0x75u8, 0x63u8, 0x65u8, 0x72u8,
        0x0Au8, 0x70u8, 0x61u8, 0x72u8, 0x65u8, 0x6Eu8, 0x74u8, 0x3Au8, 0x20u8, 0x66u8, 0x6Fu8, 0x72u8,
        0x6Bu8, 0x65u8, 0x64u8, 0x20u8, 0x63u8, 0x68u8, 0x69u8, 0x6Cu8, 0x64u8, 0x0Au8, 0x70u8, 0x61u8,
        0x72u8, 0x65u8, 0x6Eu8, 0x74u8, 0x3Au8, 0x20u8, 0x63u8, 0x68u8, 0x69u8, 0x6Cu8, 0x64u8, 0x20u8,
        0x64u8, 0x6Fu8, 0x6Eu8, 0x65u8, 0x0Au8,
    ]
}

/// The files of the initrd, in order.
pub open spec fn initrd_files(hello_elf: Seq<u8>) -> Seq<(Seq<u8>, Seq<u8>)> {
    seq![
        ("init".spec_bytes(), elf_image_bytes(init_code(), INIT_ENTRY_VADDR)),
        ("producer".spec_bytes(), elf_image_bytes(producer_code(), PRODUCER_ENTRY_VADDR)),
        ("consumer".spec_bytes(), elf_image_bytes(consumer_code(), CONSUMER_ENTRY_VADDR)),
        ("forker".spec_bytes(), elf_image_bytes(forker_code(), FORKER_ENTRY_VADDR)),
        ("hello".spec_bytes(), hello_elf),
        ("pie_demo".spec_bytes(), pie_demo_image()),
    ]
}

proof fn lemma_entries_push(files: Seq<(Seq<u8>, Seq<u8>)>, f: (Seq<u8>, Seq<u8>))
    ensures
        entries_bytes(files.push(f)) == entries_bytes(files) + entry_bytes(f.0, f.1),
    decreases files.len(),
{
    reveal(entries_bytes);
    if files.len() == 0 {
        assert(files.push(f).drop_first() =~= Seq::<(Seq<u8>, Seq<u8>)>::empty());
        assert(files.push(f)[0] == f);
        assert(entries_bytes(files.push(f).drop_first()) =~= Seq::<u8>::empty());
        assert(entries_bytes(files.push(f)) =~= entry_bytes(f.0, f.1));
    } else {
        assert(files.push(f).drop_first() =~= files.drop_first().push(f));
        lemma_entries_push(files.drop_first(), f);
        assert(entries_bytes(files.push(f)) =~= entries_bytes(files) + entry_bytes(f.0, f.1));
    }
}

/// Appends one entry and keeps track of the files written so far.
fn push_file(
    data: &mut Vec<u8>,
    name: &str,
    contents: &[u8],
    Ghost(written): Ghost<Seq<(Seq<u8>, Seq<u8>)>>,
)
    requires
        old(data)@ == u32_le(6) + entries_bytes(written),
    ensures
        final(data)@ == u32_le(6) + entries_bytes(written.push((name.spec_bytes(), contents@))),
{
    write_entry(data, name, contents);
    proof {
        lemma_entries_push(written, (name.spec_bytes(), contents@));
        assert(data@ =~= u32_le(6) + entries_bytes(written.push((name.spec_bytes(), contents@))));
    }
}

impl Initrd {
    /// The initrd holding the built-in programs and the compiled `hello`
    /// program, whose image is `hello_elf`.
    pub fn build(hello_elf: &[u8]) -> (r: Self)
        ensures
            r@ == archive_bytes(initrd_files(hello_elf@)),
    {
        let mut data: Vec<u8> = Vec::new();
        push_le_u32(&mut data, 6);
        let ghost w = Seq::<(Seq<u8>, Seq<u8>)>::empty();
        proof {
            assert(entries_bytes(w) =~= Seq::<u8>::empty()) by {
                reveal(entries_bytes);
            }
            assert(data@ =~= u32_le(6) + entries_bytes(w));
        }
        let init = build_elf(init_code_bytes().as_slice(), INIT_ENTRY_VADDR);
        push_file(&mut data, "init", init.as_slice(), Ghost(w));
        let ghost w = w.push(("init".spec_bytes(), init@));
        let producer = build_elf(producer_code_bytes().as_slice(), PRODUCER_ENTRY_VADDR);
        push_file(&mut data, "producer", producer.as_slice(), Ghost(w));
        let ghost w = w.push(("producer".spec_bytes(), producer@));
        let consumer = build_elf(consumer_code_bytes().as_slice(), CONSUMER_ENTRY_VADDR);
        push_file(&mut data, "consumer", consumer.as_slice(), Ghost(w));
        let ghost w = w.push(("consumer".spec_bytes(), consumer@));
        let forker = build_elf(forker_code_bytes().as_slice(), FORKER_ENTRY_VADDR);
        push_file(&mut data, "forker", forker.as_slice(), Ghost(w));
        let ghost w = w.push(("forker".spec_bytes(), forker@));
        push_file(&mut data, "hello", hello_elf, Ghost(w));
        let ghost w = w.push(("hello".spec_bytes(), hello_elf@));
        let pie = build_pie_demo();
        push_file(&mut data, "pie_demo", pie.as_slice(), Ghost(w));
        let ghost w = w.push(("pie_demo".spec_bytes(), pie@));
        proof {
            assert(w =~= initrd_files(hello_elf@));
        }
        Initrd { data }
    }
}

} // verus!
