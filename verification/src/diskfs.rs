//! OXFS, the kernel's on-disk file system, at the level of sector contents.
//!
//! Sector 0 holds the superblock: the magic "OXFS", a version, the file count
//! (bytes 8..12) and the first free sector (bytes 12..20). Sectors 1..9 hold
//! the file table: 64-byte entries, eight to a sector, each a NUL-padded
//! 52-byte name, the start sector (`u32`) and the size in bytes (`u32`). File
//! data fills whole sectors from the start sector on.
//!
//! The functions here decide what goes into and comes out of each sector; the
//! block driver moves the sectors.
use vstd::prelude::*;
use vstd::utf8::{valid_utf8, decode_utf8, encode_utf8, encode_utf8_decode_utf8, encode_utf8_valid_utf8};
use vstd::string::StringSliceAdditionalSpecFns;
use crate::bytes::{
    le_u32, le_u64, u32_le, u64_le, read_le_u32, read_le_u64, bytes_equal, push_all, lemma_le_u32_at,
    lemma_le_u64_at, group_encoded_lengths,
};

verus! {

broadcast use group_encoded_lengths;

pub const SECTOR_SIZE: usize = 512;

pub const TABLE_START_SECTOR: u64 = 1;

pub const ENTRY_SIZE: usize = 64;

pub const ENTRIES_PER_SECTOR: usize = 8;

pub const MAX_ENTRIES_SECTORS: u64 = 8;

/// The first sector past the file table, where file data may start.
pub const FIRST_DATA_SECTOR: u64 = TABLE_START_SECTOR + MAX_ENTRIES_SECTORS;

pub const MAX_ENTRIES: usize = 64;

pub const NAME_FIELD_LEN: usize = 52;

/// One file of the table.
pub struct DiskFile {
    pub name: String,
    pub start_sector: u64,
    pub size_bytes: u32,
}

/// The fields of the superblock that change.
pub struct Superblock {
    pub file_count: u32,
    pub next_free_sector: u64,
}

/// What `String::from_utf8_lossy` makes of `bytes`.
pub uninterp spec fn utf8_lossy(bytes: Seq<u8>) -> Seq<char>;

/// `String::from_utf8_lossy` (then `into_owned`): claims the result is the
/// lossy decoding of `bytes`, which is the plain decoding when `bytes` is
/// valid UTF-8. What it makes of invalid bytes is left unsaid.
#[verifier::external_body]
fn lossy_string(bytes: &[u8]) -> (r: String)
    ensures
        r@ == utf8_lossy(bytes@),
        valid_utf8(bytes@) ==> r@ == decode_utf8(bytes@),
{
    String::from_utf8_lossy(bytes).into_owned()
}

/// `s` with `bytes` written over it from offset `at`.
pub open spec fn put_bytes(s: Seq<u8>, at: int, bytes: Seq<u8>) -> Seq<u8> {
    s.subrange(0, at) + bytes + s.subrange(at + bytes.len(), s.len() as int)
}

/// The sector starts with the magic "OXFS".
pub open spec fn has_magic(s: Seq<u8>) -> bool {
    &&& s[0] == 0x4fu8
    &&& s[1] == 0x58u8
    &&& s[2] == 0x46u8
    &&& s[3] == 0x53u8
}

/// Decodes the superblock held in sector 0; `None` without the magic.
pub fn read_superblock(sector0: &[u8; 512]) -> (r: Option<Superblock>)
    ensures
        r is Some <==> has_magic(sector0@),
        r matches Some(sb) ==> sb.file_count == le_u32(sector0@, 8) && sb.next_free_sector
            == le_u64(sector0@, 12),
{
    let s = sector0.as_slice();
    if s[0] != 0x4f || s[1] != 0x58 || s[2] != 0x46 || s[3] != 0x53 {
        return None;
    }
    Some(Superblock { file_count: read_le_u32(s, 8), next_free_sector: read_le_u64(s, 12) })
}

/// Sector 0 with the file count and the first free sector of `sb` stored in it.
pub open spec fn superblock_written(sector0: Seq<u8>, sb: Superblock) -> Seq<u8> {
    put_bytes(put_bytes(sector0, 8, u32_le(sb.file_count)), 12, u64_le(sb.next_free_sector))
}

/// Stores the file count and the first free sector into sector 0, leaving its
/// other bytes as they were.
pub fn write_superblock(sector0: &mut [u8; 512], sb: &Superblock)
    ensures
        final(sector0)@ == superblock_written(old(sector0)@, *sb),
{
    put_u32(sector0, 8, sb.file_count);
    put_u64(sector0, 12, sb.next_free_sector);
}

fn put_u32(sector: &mut [u8; 512], at: usize, v: u32)
    requires
        at + 4 <= 512,
    ensures
        final(sector)@ == put_bytes(old(sector)@, at as int, u32_le(v)),
{
    reveal(u32_le);
    sector[at] = v as u8;
    sector[at + 1] = (v >> 8u32) as u8;
    sector[at + 2] = (v >> 16u32) as u8;
    sector[at + 3] = (v >> 24u32) as u8;
    assert(sector@ =~= put_bytes(old(sector)@, at as int, u32_le(v)));
}

fn put_u64(sector: &mut [u8; 512], at: usize, v: u64)
    requires
        at + 8 <= 512,
    ensures
        final(sector)@ == put_bytes(old(sector)@, at as int, u64_le(v)),
{
    reveal(u64_le);
    sector[at] = v as u8;
    sector[at + 1] = (v >> 8u64) as u8;
    sector[at + 2] = (v >> 16u64) as u8;
    sector[at + 3] = (v >> 24u64) as u8;
    sector[at + 4] = (v >> 32u64) as u8;
    sector[at + 5] = (v >> 40u64) as u8;
    sector[at + 6] = (v >> 48u64) as u8;
    sector[at + 7] = (v >> 56u64) as u8;
    assert(sector@ =~= put_bytes(old(sector)@, at as int, u64_le(v)));
}

/// The table sector holding entry `index`, and the entry's byte offset in it.
pub fn entry_location(index: usize) -> (r: (u64, usize))
    ensures
        r.0 == TABLE_START_SECTOR + index / ENTRIES_PER_SECTOR,
        r.1 == (index % ENTRIES_PER_SECTOR) * ENTRY_SIZE,
        r.1 + ENTRY_SIZE <= SECTOR_SIZE,
{
    let sector = TABLE_START_SECTOR + (index / ENTRIES_PER_SECTOR) as u64;
    let offset_in_sector = (index % ENTRIES_PER_SECTOR) * 64;
    (sector, offset_in_sector)
}

/// The length of a NUL-padded name: the bytes before the first zero.
pub open spec fn name_len_from(s: Seq<u8>, off: int, k: int) -> int
    decreases NAME_FIELD_LEN - k,
{
    if k >= NAME_FIELD_LEN || k < 0 {
        NAME_FIELD_LEN as int
    } else if s[off + k] == 0 {
        k
    } else {
        name_len_from(s, off, k + 1)
    }
}

/// The stored name bytes of the entry at `off`.
pub open spec fn stored_name(s: Seq<u8>, off: int) -> Seq<u8> {
    s.subrange(off, off + name_len_from(s, off, 0))
}

/// Decodes entry `index` from the table sector that holds it.
pub fn read_entry_at(sector: &[u8; 512], index: usize) -> (r: DiskFile)
    ensures
        ({
            let off = ((index % ENTRIES_PER_SECTOR) * ENTRY_SIZE) as int;
            &&& r.name@ == utf8_lossy(stored_name(sector@, off))
            &&& valid_utf8(stored_name(sector@, off)) ==> r.name@ == decode_utf8(
                stored_name(sector@, off),
            )
            &&& r.start_sector == le_u32(sector@, off + 52) as u64
            &&& r.size_bytes == le_u32(sector@, off + 56)
        }),
{
    let (_, off) = entry_location(index);
    let s = sector.as_slice();
    let mut name_len: usize = 0;
    while name_len < NAME_FIELD_LEN && s[off + name_len] != 0
        invariant
            off + 64 <= 512,
            s@ == sector@,
            name_len <= NAME_FIELD_LEN,
            name_len_from(s@, off as int, 0) == name_len_from(s@, off as int, name_len as int),
        decreases NAME_FIELD_LEN - name_len,
    {
        name_len = name_len + 1;
    }
    let name_bytes = vstd::slice::slice_subrange(s, off, off + name_len);
    let name = lossy_string(name_bytes);
    let start_sector = read_le_u32(s, off + 52) as u64;
    let size_bytes = read_le_u32(s, off + 56);
    DiskFile { name, start_sector, size_bytes }
}

/// The 52-byte name field for `name`: its bytes, then zeros.
pub open spec fn name_field(name: Seq<u8>) -> Seq<u8> {
    name + Seq::new((NAME_FIELD_LEN - name.len()) as nat, |i: int| 0u8)
}

/// The table sector holding entry `index` with the entry set to `name`, the
/// start sector (kept to 32 bits) and the size.
pub open spec fn entry_written(
    sector: Seq<u8>,
    index: int,
    name: Seq<u8>,
    start_sector: u64,
    size_bytes: u32,
) -> Seq<u8> {
    let off = (index % ENTRIES_PER_SECTOR as int) * ENTRY_SIZE;
    put_bytes(
        put_bytes(put_bytes(sector, off, name_field(name)), off + 52, u32_le(start_sector as u32)),
        off + 56,
        u32_le(size_bytes),
    )
}

/// Stores entry `index` into the table sector that holds it, leaving the
/// other entries of the sector as they were.
pub fn write_entry_at(
    sector: &mut [u8; 512],
    index: usize,
    name: &str,
    start_sector: u64,
    size_bytes: u32,
)
    requires
        name.spec_bytes().len() <= NAME_FIELD_LEN,
    ensures
        final(sector)@ == entry_written(
            old(sector)@,
            index as int,
            name.spec_bytes(),
            start_sector,
            size_bytes,
        ),
{
    let (_, off) = entry_location(index);
    let name_bytes = name.as_bytes();
    let mut k: usize = 0;
    while k < NAME_FIELD_LEN
        invariant
            off + 64 <= 512,
            name_bytes@ == name.spec_bytes(),
            name_bytes@.len() <= NAME_FIELD_LEN,
            k <= NAME_FIELD_LEN,
            sector@ == old(sector)@.subrange(0, off as int) + name_field(name_bytes@).subrange(
                0,
                k as int,
            ) + old(sector)@.subrange(off + k, 512),
        decreases NAME_FIELD_LEN - k,
    {
        let b = if k < name_bytes.len() {
            name_bytes[k]
        } else {
            0u8
        };
        sector[off + k] = b;
        k = k + 1;
        assert(sector@ =~= old(sector)@.subrange(0, off as int) + name_field(
            name_bytes@,
        ).subrange(0, k as int) + old(sector)@.subrange(off + k, 512));
    }
    assert(name_field(name_bytes@).subrange(0, 52) =~= name_field(name_bytes@));
    assert(sector@ =~= put_bytes(old(sector)@, off as int, name_field(name.spec_bytes())));
    put_u32(sector, off + 52, start_sector as u32);
    put_u32(sector, off + 56, size_bytes);
}

/// Whether the file is called `name`.
pub fn is_named(file: &DiskFile, name: &str) -> (r: bool)
    ensures
        r == (file.name@ == name@),
{
    let a = file.name.as_str().as_bytes();
    let b = name.as_bytes();
    let r = bytes_equal(a, b);
    proof {
        encode_utf8_decode_utf8(file.name@);
        encode_utf8_decode_utf8(name@);
    }
    r
}

/// How many table entries a listing reads: the file count, at most 64.
pub fn entry_count(sb: &Superblock) -> (r: usize)
    ensures
        r == if sb.file_count <= MAX_ENTRIES {
            sb.file_count as int
        } else {
            MAX_ENTRIES as int
        },
{
    if (sb.file_count as usize) < MAX_ENTRIES {
        sb.file_count as usize
    } else {
        MAX_ENTRIES
    }
}

/// Whole sectors needed for `len` bytes; an empty file still takes one.
pub open spec fn sectors_for_spec(len: int) -> int {
    if len <= SECTOR_SIZE {
        1
    } else {
        (len + SECTOR_SIZE - 1) / SECTOR_SIZE as int
    }
}

/// Whole sectors needed for `len` bytes; an empty file still takes one.
pub fn sectors_for(len: usize) -> (r: u64)
    ensures
        r == sectors_for_spec(len as int),
        r >= 1,
        (r - 1) * SECTOR_SIZE < len || r == 1,
        len <= r * SECTOR_SIZE,
{
    let n = len / SECTOR_SIZE + if len % SECTOR_SIZE == 0 {
        0
    } else {
        1
    };
    let r = if n == 0 {
        1
    } else {
        n
    };
    proof {
        assert(len <= SECTOR_SIZE ==> r == 1);
        assert(len > SECTOR_SIZE ==> r == (len + SECTOR_SIZE - 1) / SECTOR_SIZE as int);
    }
    r as u64
}

/// Where and how a write puts a file.
pub struct WritePlan {
    pub index: usize,
    pub start_sector: u64,
    pub sectors_needed: u64,
    pub grows_file_count: bool,
}

/// The placement a write of `data_len` bytes gets. A file that exists
/// (`existing` is its table index, start sector and size) keeps its place
/// when the new data fits in the sectors it had and moves to the first free
/// sector otherwise; a new file takes the next table entry and the first free
/// sector, and is refused when the table is full. Nothing is placed past the
/// end of the disk.
pub open spec fn write_placement(
    sb: Superblock,
    existing: Option<(usize, u64, u32)>,
    data_len: int,
    capacity_sectors: u64,
) -> Option<WritePlan> {
    let needed = sectors_for_spec(data_len);
    let placed: Option<(usize, u64, bool)> = match existing {
        Some((index, start, size)) => if needed <= sectors_for_spec(size as int) {
            Some((index, start, false))
        } else {
            Some((index, sb.next_free_sector, false))
        },
        None => if sb.file_count >= MAX_ENTRIES {
            None
        } else {
            Some((sb.file_count as usize, sb.next_free_sector, true))
        },
    };
    match placed {
        None => None,
        Some((index, start, grows)) => if start + needed > capacity_sectors {
            None
        } else {
            Some(
                WritePlan {
                    index,
                    start_sector: start,
                    sectors_needed: needed as u64,
                    grows_file_count: grows,
                },
            )
        },
    }
}

/// Decides where a write of `data_len` bytes goes (see `write_placement`).
pub fn plan_write(
    sb: &Superblock,
    existing: Option<(usize, u64, u32)>,
    data_len: usize,
    capacity_sectors: u64,
) -> (r: Option<WritePlan>)
    ensures
        r == write_placement(*sb, existing, data_len as int, capacity_sectors),
        r matches Some(p) ==> p.start_sector + p.sectors_needed <= capacity_sectors,
{
    let sectors_needed = sectors_for(data_len);
    let (index, start_sector, grows) = match existing {
        Some((index, start, size)) => {
            let old_sectors = sectors_for(size as usize);
            if sectors_needed <= old_sectors {
                (index, start, false)
            } else {
                (index, sb.next_free_sector, false)
            }
        },
        None => {
            if sb.file_count as usize >= MAX_ENTRIES {
                return None;
            }
            (sb.file_count as usize, sb.next_free_sector, true)
        },
    };
    if sectors_needed > capacity_sectors || start_sector > capacity_sectors - sectors_needed {
        return None;
    }
    Some(WritePlan { index, start_sector, sectors_needed, grows_file_count: grows })
}

/// The superblock after a planned write: the first free sector moves past
/// the data when it went there, and a new file is counted.
pub fn finish_write(sb: &mut Superblock, plan: &WritePlan)
    requires
        plan.start_sector == old(sb).next_free_sector ==> old(sb).next_free_sector
            + plan.sectors_needed <= u64::MAX,
        plan.grows_file_count ==> old(sb).file_count < u32::MAX,
    ensures
        final(sb).next_free_sector == if plan.start_sector == old(sb).next_free_sector {
            old(sb).next_free_sector + plan.sectors_needed
        } else {
            old(sb).next_free_sector as int
        },
        final(sb).file_count == if plan.grows_file_count {
            old(sb).file_count + 1
        } else {
            old(sb).file_count as int
        },
{
    if plan.start_sector == sb.next_free_sector {
        sb.next_free_sector = sb.next_free_sector + plan.sectors_needed;
    }
    if plan.grows_file_count {
        sb.file_count = sb.file_count + 1;
    }
}

/// Sector `i` of a file's data: bytes `512 * i ..` of `data`, zero-padded.
pub open spec fn data_chunk(data: Seq<u8>, i: int) -> Seq<u8> {
    Seq::new(
        SECTOR_SIZE as nat,
        |k: int|
            if i * SECTOR_SIZE + k < data.len() {
                data[i * SECTOR_SIZE + k]
            } else {
                0u8
            },
    )
}

/// The contents of the `i`-th data sector a write of `data` stores.
pub fn data_sector(data: &[u8], i: u64) -> (r: [u8; 512])
    requires
        (i as int) * SECTOR_SIZE <= usize::MAX,
    ensures
        r@ == data_chunk(data@, i as int),
{
    let chunk_start = (i as usize) * SECTOR_SIZE;
    let avail = if chunk_start < data.len() {
        data.len() - chunk_start
    } else {
        0
    };
    let mut buf = [0u8; 512];
    let mut k: usize = 0;
    while k < SECTOR_SIZE
        invariant
            chunk_start == i * SECTOR_SIZE,
            avail == (if chunk_start < data@.len() { data@.len() - chunk_start } else { 0 }),
            k <= SECTOR_SIZE,
            forall|j: int| 0 <= j < k ==> buf@[j] == data_chunk(data@, i as int)[j],
            forall|j: int| k <= j < SECTOR_SIZE ==> buf@[j] == 0u8,
        decreases SECTOR_SIZE - k,
    {
        if k < avail {
            buf[k] = data[chunk_start + k];
        }
        k = k + 1;
    }
    assert(buf@ =~= data_chunk(data@, i as int));
    buf
}

/// The bytes of a run of sectors, in order.
pub open spec fn flatten(sectors: Seq<[u8; 512]>) -> Seq<u8>
    decreases sectors.len(),
{
    if sectors.len() == 0 {
        Seq::empty()
    } else {
        flatten(sectors.drop_last()) + sectors.last()@
    }
}

/// The first `n` bytes of `s`, or all of it when it is shorter.
pub open spec fn prefix(s: Seq<u8>, n: int) -> Seq<u8> {
    if n < s.len() {
        s.subrange(0, n)
    } else {
        s
    }
}

/// A file's contents from its data sectors: their bytes, cut to the file size.
pub fn file_contents(sectors: &[[u8; 512]], size_bytes: u32) -> (r: Vec<u8>)
    ensures
        r@ == prefix(flatten(sectors@), size_bytes as int),
{
    let mut data: Vec<u8> = Vec::new();
    let mut j: usize = 0;
    while j < sectors.len()
        invariant
            j <= sectors@.len(),
            data@ == flatten(sectors@.take(j as int)),
        decreases sectors@.len() - j,
    {
        let sector: &[u8; 512] = &sectors[j];
        push_all(&mut data, sector.as_slice());
        proof {
            assert(sectors@.take(j + 1).drop_last() =~= sectors@.take(j as int));
        }
        j = j + 1;
    }
    assert(sectors@.take(sectors@.len() as int) =~= sectors@);
    data.truncate(size_bytes as usize);
    proof {
        if (size_bytes as int) < flatten(sectors@).len() {
            assert(data@ =~= flatten(sectors@).subrange(0, size_bytes as int));
        }
    }
    data
}

proof fn lemma_name_len(s: Seq<u8>, off: int, name: Seq<u8>, k: int)
    requires
        0 <= off,
        off + NAME_FIELD_LEN <= s.len(),
        name.len() <= NAME_FIELD_LEN,
        0 <= k <= name.len(),
        forall|j: int| 0 <= j < name.len() ==> name[j] != 0u8,
        s.subrange(off, off + NAME_FIELD_LEN) == name_field(name),
    ensures
        name_len_from(s, off, k) == name.len(),
    decreases NAME_FIELD_LEN - k,
{
    if k < NAME_FIELD_LEN {
        assert(s[off + k] == s.subrange(off, off + NAME_FIELD_LEN)[k]);
    }
    if k < name.len() {
        lemma_name_len(s, off, name, k + 1);
    }
}

/// An entry written into a table sector reads back with the same name, start
/// sector (kept to 32 bits) and size, as long as the name holds no NUL byte;
/// the sector's other entries are unchanged.
pub proof fn lemma_entry_roundtrip(
    sector: Seq<u8>,
    index: usize,
    name: Seq<char>,
    start_sector: u64,
    size_bytes: u32,
)
    requires
        sector.len() == SECTOR_SIZE,
        encode_utf8(name).len() <= NAME_FIELD_LEN,
        forall|j: int| 0 <= j < encode_utf8(name).len() ==> encode_utf8(name)[j] != 0u8,
    ensures
        ({
            let off = ((index % ENTRIES_PER_SECTOR) * ENTRY_SIZE) as int;
            let w = entry_written(sector, index as int, encode_utf8(name), start_sector, size_bytes);
            &&& w.len() == SECTOR_SIZE
            &&& stored_name(w, off) == encode_utf8(name)
            &&& decode_utf8(stored_name(w, off)) == name
            &&& valid_utf8(stored_name(w, off))
            &&& le_u32(w, off + 52) as u64 == start_sector as u32 as u64
            &&& le_u32(w, off + 56) == size_bytes
            &&& forall|j: int|
                0 <= j < SECTOR_SIZE && !(off <= j < off + ENTRY_SIZE) ==> w[j] == sector[j]
        }),
{
    let off = ((index % ENTRIES_PER_SECTOR) * ENTRY_SIZE) as int;
    let nb = encode_utf8(name);
    let w1 = put_bytes(sector, off, name_field(nb));
    let w2 = put_bytes(w1, off + 52, u32_le(start_sector as u32));
    let w = put_bytes(w2, off + 56, u32_le(size_bytes));
    assert(w.subrange(off, off + NAME_FIELD_LEN) =~= name_field(nb));
    lemma_name_len(w, off, nb, 0);
    assert(stored_name(w, off) =~= nb);
    encode_utf8_decode_utf8(name);
    encode_utf8_valid_utf8(name);
    assert(w.subrange(off + 52, off + 56) =~= u32_le(start_sector as u32));
    lemma_le_u32_at(w, off + 52, start_sector as u32);
    assert(w.subrange(off + 56, off + 60) =~= u32_le(size_bytes));
    lemma_le_u32_at(w, off + 56, size_bytes);
}

/// A superblock written into sector 0 reads back unchanged, and the magic stays.
pub proof fn lemma_superblock_roundtrip(sector0: Seq<u8>, sb: Superblock)
    requires
        sector0.len() == SECTOR_SIZE,
    ensures
        ({
            let w = superblock_written(sector0, sb);
            &&& has_magic(w) == has_magic(sector0)
            &&& le_u32(w, 8) == sb.file_count
            &&& le_u64(w, 12) == sb.next_free_sector
        }),
{
    let w1 = put_bytes(sector0, 8, u32_le(sb.file_count));
    let w = put_bytes(w1, 12, u64_le(sb.next_free_sector));
    assert(w.subrange(8, 12) =~= u32_le(sb.file_count));
    lemma_le_u32_at(w, 8, sb.file_count);
    assert(w.subrange(12, 20) =~= u64_le(sb.next_free_sector));
    lemma_le_u64_at(w, 12, sb.next_free_sector);
    assert(w[0] == sector0[0] && w[1] == sector0[1] && w[2] == sector0[2] && w[3] == sector0[3]);
}

proof fn lemma_flatten_index(sectors: Seq<[u8; 512]>, k: int)
    requires
        0 <= k < sectors.len() * SECTOR_SIZE,
    ensures
        flatten(sectors).len() == sectors.len() * SECTOR_SIZE,
        flatten(sectors)[k] == sectors[k / SECTOR_SIZE as int]@[k % SECTOR_SIZE as int],
    decreases sectors.len(),
{
    let n = sectors.len() as int;
    let init = sectors.drop_last();
    if n > 1 {
        if k < (n - 1) * SECTOR_SIZE {
            lemma_flatten_index(init, k);
            assert(init[k / SECTOR_SIZE as int] == sectors[k / SECTOR_SIZE as int]);
        } else {
            lemma_flatten_index(init, 0);
            assert(k / SECTOR_SIZE as int == n - 1);
            assert(k % SECTOR_SIZE as int == k - (n - 1) * SECTOR_SIZE);
        }
    } else {
        assert(flatten(init) =~= Seq::<u8>::empty());
    }
}

/// Reading back the `sectors_for(len)` sectors a write stored and cutting them
/// to the file size gives the data that was written.
pub proof fn lemma_data_roundtrip(data: Seq<u8>, sectors: Seq<[u8; 512]>)
    requires
        sectors.len() == sectors_for_spec(data.len() as int),
        forall|i: int| 0 <= i < sectors.len() ==> #[trigger] sectors[i]@ == data_chunk(data, i),
    ensures
        prefix(flatten(sectors), data.len() as int) == data,
{
    let n = sectors.len() as int;
    assert(data.len() <= n * SECTOR_SIZE);
    lemma_flatten_index(sectors, 0);
    let f = flatten(sectors);
    assert forall|k: int| 0 <= k < data.len() implies f[k] == data[k] by {
        lemma_flatten_index(sectors, k);
        let i = k / SECTOR_SIZE as int;
        let j = k % SECTOR_SIZE as int;
        assert(i * SECTOR_SIZE + j == k);
        assert(sectors[i]@ == data_chunk(data, i));
    }
    assert(prefix(f, data.len() as int) =~= data);
}

/// The name, start sector and size that entry `index` of the table holds,
/// `table` being the table sectors from sector 1 on.
pub open spec fn file_at(table: Seq<[u8; 512]>, index: int) -> (Seq<char>, u64, u32) {
    let s = table[index / ENTRIES_PER_SECTOR as int]@;
    let off = (index % ENTRIES_PER_SECTOR as int) * ENTRY_SIZE;
    (entry_name(stored_name(s, off)), le_u32(s, off + 52) as u64, le_u32(s, off + 56))
}

/// The name a listing gives stored name bytes: their decoding, lossy where
/// they are not valid UTF-8.
pub open spec fn entry_name(bytes: Seq<u8>) -> Seq<char> {
    if valid_utf8(bytes) {
        decode_utf8(bytes)
    } else {
        utf8_lossy(bytes)
    }
}

/// How many table entries the superblock in `sector0` makes count: the file
/// count, at most 64.
pub open spec fn listed_count(sector0: Seq<u8>) -> int {
    if le_u32(sector0, 8) <= MAX_ENTRIES {
        le_u32(sector0, 8) as int
    } else {
        MAX_ENTRIES as int
    }
}

/// The table sectors that hold the first `count` entries.
pub open spec fn table_sectors_for(count: int) -> int {
    (count + ENTRIES_PER_SECTOR - 1) / ENTRIES_PER_SECTOR as int
}

/// The files of the disk, from sector 0 and the table sectors that could be
/// read (`table`, in order from sector 1). `None` when sector 0 holds no
/// superblock or a table sector that holds a counted entry is missing.
pub fn list(sector0: &[u8; 512], table: &[[u8; 512]]) -> (r: Option<Vec<DiskFile>>)
    ensures
        r is Some <==> has_magic(sector0@) && table_sectors_for(listed_count(sector0@))
            <= table@.len(),
        r matches Some(files) ==> {
            &&& files@.len() == listed_count(sector0@)
            &&& forall|i: int|
                0 <= i < files@.len() ==> (#[trigger] files@[i].name@, files@[i].start_sector,
                files@[i].size_bytes) == file_at(table@, i)
        },
{
    let sb = match read_superblock(sector0) {
        Some(sb) => sb,
        None => return None,
    };
    let count = entry_count(&sb);
    let mut files: Vec<DiskFile> = Vec::new();
    let mut index: usize = 0;
    while index < count
        invariant
            count == listed_count(sector0@),
            count <= MAX_ENTRIES,
            index <= count,
            index == 0 || (index - 1) / 8 < table@.len(),
            files@.len() == index,
            forall|i: int|
                0 <= i < index ==> (#[trigger] files@[i].name@, files@[i].start_sector,
                files@[i].size_bytes) == file_at(table@, i),
        decreases count - index,
    {
        if index / ENTRIES_PER_SECTOR >= table.len() {
            proof {
                assert(table_sectors_for(count as int) > table@.len()) by (nonlinear_arith)
                    requires
                        index < count,
                        index / 8 >= table@.len(),
                        table_sectors_for(count as int) == (count + 7) / 8,
                ;
            }
            return None;
        }
        let f = read_entry_at(&table[index / ENTRIES_PER_SECTOR], index);
        files.push(f);
        index = index + 1;
    }
    proof {
        if count > 0 {
            assert(table_sectors_for(count as int) <= table@.len()) by (nonlinear_arith)
                requires
                    (count - 1) / 8 < table@.len(),
                    count >= 1,
                    table_sectors_for(count as int) == (count + 7) / 8,
            ;
        }
    }
    Some(files)
}

/// The first file called `name`, by its index in `files`.
pub fn find_file(files: &[DiskFile], name: &str) -> (r: Option<usize>)
    ensures
        match r {
            Some(i) => i < files@.len() && files@[i as int].name@ == name@ && forall|j: int|
                0 <= j < i ==> #[trigger] files@[j].name@ != name@,
            None => forall|j: int| 0 <= j < files@.len() ==> #[trigger] files@[j].name@ != name@,
        },
{
    let mut i: usize = 0;
    while i < files.len()
        invariant
            i <= files@.len(),
            forall|j: int| 0 <= j < i ==> #[trigger] files@[j].name@ != name@,
        decreases files@.len() - i,
    {
        if is_named(&files[i], name) {
            return Some(i);
        }
        i = i + 1;
    }
    None
}

/// A file's contents from the data sectors that could be read, in order from
/// its start sector: `None` when fewer than the file's sectors are there.
pub fn read(file: &DiskFile, sectors: &[[u8; 512]]) -> (r: Option<Vec<u8>>)
    ensures
        r is Some <==> sectors@.len() >= sectors_for_spec(file.size_bytes as int),
        r matches Some(d) ==> d@ == prefix(
            flatten(sectors@.take(sectors_for_spec(file.size_bytes as int))),
            file.size_bytes as int,
        ),
{
    let needed = sectors_for(file.size_bytes as usize);
    if (sectors.len() as u64) < needed {
        return None;
    }
    let used = vstd::slice::slice_subrange(sectors, 0, needed as usize);
    assert(used@ =~= sectors@.take(needed as int));
    Some(file_contents(used, file.size_bytes))
}

/// How a write searches the table for an existing file called `name`, from
/// entry `i` on: `None` when a table sector it needs is missing, else the
/// index of the first entry with that name, if any.
pub open spec fn search_from(table: Seq<[u8; 512]>, count: int, name: Seq<char>, i: int) -> Option<
    Option<int>,
>
    decreases count - i,
{
    if i >= count || i < 0 {
        Some(None)
    } else if i / ENTRIES_PER_SECTOR as int >= table.len() {
        None
    } else if file_at(table, i).0 == name {
        Some(Some(i))
    } else {
        search_from(table, count, name, i + 1)
    }
}

/// The superblock after a planned write.
pub open spec fn finished(sb: Superblock, plan: WritePlan) -> Superblock {
    Superblock {
        file_count: if plan.grows_file_count {
            (sb.file_count + 1) as u32
        } else {
            sb.file_count
        },
        next_free_sector: if plan.start_sector == sb.next_free_sector {
            (sb.next_free_sector + plan.sectors_needed) as u64
        } else {
            sb.next_free_sector
        },
    }
}

/// What a write of `data_len` bytes under `name` decides, before any sector is
/// written: its placement and the superblock to store afterwards, or `None`
/// when the name is too long, sector 0 holds no superblock, a table sector the
/// search needs is missing, the table is full or the disk too small.
pub open spec fn write_decision(
    name_bytes: Seq<u8>,
    name: Seq<char>,
    data_len: int,
    sector0: Seq<u8>,
    table: Seq<[u8; 512]>,
    capacity_sectors: u64,
) -> Option<(WritePlan, Superblock)> {
    let sb = Superblock { file_count: le_u32(sector0, 8), next_free_sector: le_u64(sector0, 12) };
    if name_bytes.len() > NAME_FIELD_LEN || !has_magic(sector0) {
        None
    } else {
        match search_from(table, listed_count(sector0), name, 0) {
            None => None,
            Some(found) => {
                let existing: Option<(usize, u64, u32)> = match found {
                    Some(i) => Some((i as usize, file_at(table, i).1, file_at(table, i).2)),
                    None => None,
                };
                match write_placement(sb, existing, data_len, capacity_sectors) {
                    None => None,
                    Some(plan) => Some((plan, finished(sb, plan))),
                }
            },
        }
    }
}

/// Searches the first `count` table entries for one called `name`; `None`
/// when a table sector the search needs is missing.
fn search_table(table: &[[u8; 512]], count: usize, name: &str) -> (r: Option<
    Option<(usize, u64, u32)>,
>)
    ensures
        ({
            let s = search_from(table@, count as int, name@, 0);
            match r {
                None => s is None,
                Some(None) => s == Some(None::<int>),
                Some(Some((i, start, size))) => s == Some(Some(i as int)) && (start, size) == (
                    file_at(table@, i as int).1,
                    file_at(table@, i as int).2,
                ),
            }
        }),
{
    let mut index: usize = 0;
    while index < count
        invariant
            index <= count,
            search_from(table@, count as int, name@, 0) == search_from(
                table@,
                count as int,
                name@,
                index as int,
            ),
        decreases count - index,
    {
        if index / ENTRIES_PER_SECTOR >= table.len() {
            return None;
        }
        let entry = read_entry_at(&table[index / ENTRIES_PER_SECTOR], index);
        if is_named(&entry, name) {
            return Some(Some((index, entry.start_sector, entry.size_bytes)));
        }
        index = index + 1;
    }
    Some(None)
}

/// What a write stores: where the file goes, the superblock fields to store
/// into sector 0 at the end, and the data sectors, to go from the start
/// sector on.
pub struct WriteJob {
    pub plan: WritePlan,
    pub superblock: Superblock,
    pub data_sectors: Vec<[u8; 512]>,
}

/// Decides a write of `data` under `name`, from sector 0, the table sectors
/// that could be read (in order from sector 1) and the disk's size. The data
/// sectors go first, then the entry (`write_entry_at` on its table sector),
/// then the superblock (`write_superblock` on sector 0).
pub fn write(
    name: &str,
    data: &[u8],
    sector0: &[u8; 512],
    table: &[[u8; 512]],
    capacity_sectors: u64,
) -> (r: Option<WriteJob>)
    ensures
        r is Some <==> write_decision(
            name.spec_bytes(),
            name@,
            data@.len() as int,
            sector0@,
            table@,
            capacity_sectors,
        ) is Some,
        r matches Some(job) ==> {
            &&& (job.plan, job.superblock) == write_decision(
                name.spec_bytes(),
                name@,
                data@.len() as int,
                sector0@,
                table@,
                capacity_sectors,
            )->0
            &&& job.data_sectors@.len() == job.plan.sectors_needed
            &&& forall|i: int|
                0 <= i < job.data_sectors@.len() ==> #[trigger] job.data_sectors@[i]@ == data_chunk(
                    data@,
                    i,
                )
        },
{
    let ghost decision = write_decision(
        name.spec_bytes(),
        name@,
        data@.len() as int,
        sector0@,
        table@,
        capacity_sectors,
    );
    if name.as_bytes().len() > NAME_FIELD_LEN {
        return None;
    }
    let mut sb = match read_superblock(sector0) {
        Some(sb) => sb,
        None => return None,
    };
    let existing = match search_table(table, entry_count(&sb), name) {
        Some(found) => found,
        None => return None,
    };
    let plan = match plan_write(&sb, existing, data.len(), capacity_sectors) {
        Some(p) => p,
        None => return None,
    };
    finish_write(&mut sb, &plan);
    let mut data_sectors: Vec<[u8; 512]> = Vec::new();
    let mut i: u64 = 0;
    let dlen = data.len();
    while i < plan.sectors_needed
        invariant
            dlen == data@.len(),
            plan.sectors_needed == sectors_for_spec(data@.len() as int),
            (plan.sectors_needed - 1) * 512 < data@.len() || plan.sectors_needed == 1,
            i <= plan.sectors_needed,
            data_sectors@.len() == i,
            forall|j: int|
                0 <= j < i ==> #[trigger] data_sectors@[j]@ == data_chunk(data@, j),
        decreases plan.sectors_needed - i,
    {
        assert((i as int) * SECTOR_SIZE <= data@.len()) by (nonlinear_arith)
            requires
                i < plan.sectors_needed,
                (plan.sectors_needed - 1) * 512 < data@.len() || plan.sectors_needed == 1,
        ;
        data_sectors.push(data_sector(data, i));
        i = i + 1;
    }
    Some(WriteJob { plan, superblock: sb, data_sectors })
}

proof fn lemma_name_len_window(s: Seq<u8>, w: Seq<u8>, off: int, k: int)
    requires
        0 <= off,
        off + ENTRY_SIZE <= s.len(),
        off + ENTRY_SIZE <= w.len(),
        forall|j: int| off <= j < off + ENTRY_SIZE ==> s[j] == w[j],
    ensures
        name_len_from(s, off, k) == name_len_from(w, off, k),
    decreases NAME_FIELD_LEN - k,
{
    if 0 <= k < NAME_FIELD_LEN {
        lemma_name_len_window(s, w, off, k + 1);
    }
}

/// What `file_at` reads of an entry depends on its 64 bytes alone.
proof fn lemma_entry_window(s: Seq<u8>, w: Seq<u8>, off: int)
    requires
        0 <= off,
        off + ENTRY_SIZE <= s.len(),
        off + ENTRY_SIZE <= w.len(),
        forall|j: int| off <= j < off + ENTRY_SIZE ==> s[j] == w[j],
    ensures
        stored_name(s, off) == stored_name(w, off),
        le_u32(s, off + 52) == le_u32(w, off + 52),
        le_u32(s, off + 56) == le_u32(w, off + 56),
{
    lemma_name_len_window(s, w, off, 0);
    lemma_name_len_bound(s, off, 0);
    assert(stored_name(s, off) =~= stored_name(w, off));
}

proof fn lemma_name_len_bound(s: Seq<u8>, off: int, k: int)
    requires
        0 <= k,
    ensures
        k <= name_len_from(s, off, k) <= NAME_FIELD_LEN || k > NAME_FIELD_LEN,
        0 <= name_len_from(s, off, k) <= NAME_FIELD_LEN,
    decreases NAME_FIELD_LEN - k,
{
    if k < NAME_FIELD_LEN {
        lemma_name_len_bound(s, off, k + 1);
    }
}

/// None of the entries `i..k` is called `name`.
pub open spec fn passed_over(t: Seq<[u8; 512]>, name: Seq<char>, i: int, k: int) -> bool {
    forall|j: int| i <= j < k ==> #[trigger] file_at(t, j).0 != name
}

/// What a search that came back with `Some` tells of the entries it passed.
proof fn lemma_search_facts(t: Seq<[u8; 512]>, c: int, name: Seq<char>, i: int)
    requires
        0 <= i,
    ensures
        search_from(t, c, name, i) matches Some(Some(k)) ==> {
            &&& i <= k < c
            &&& k / (ENTRIES_PER_SECTOR as int) < t.len()
            &&& file_at(t, k).0 == name
            &&& passed_over(t, name, i, k)
        },
        search_from(t, c, name, i) == Some(None::<int>) ==> passed_over(t, name, i, c),
    decreases c - i,
{
    if i < c && i / (ENTRIES_PER_SECTOR as int) < t.len() && file_at(t, i).0 != name {
        lemma_search_facts(t, c, name, i + 1);
        assert(search_from(t, c, name, i) == search_from(t, c, name, i + 1));
    }
}

/// A search from `i` stops at the first entry called `name`.
proof fn lemma_search_finds(t: Seq<[u8; 512]>, c: int, name: Seq<char>, i: int, k: int)
    requires
        0 <= i <= k < c,
        k / (ENTRIES_PER_SECTOR as int) < t.len(),
        forall|j: int| i <= j < k ==> #[trigger] file_at(t, j).0 != name,
        file_at(t, k).0 == name,
    ensures
        search_from(t, c, name, i) == Some(Some(k)),
    decreases k - i,
{
    if i < k {
        assert(file_at(t, i).0 != name);
        lemma_search_finds(t, c, name, i + 1, k);
    }
}

/// Writing a file, then reading the disk back. Once the data sectors, the
/// entry and the superblock of the job that `write` decided are stored (the
/// entry with the size of `data`, as the kernel stores it), the superblock
/// keeps its magic and counts the entry, a search for `name` stops at the
/// planned entry, that entry holds `name`, the start sector and the size, and
/// the file's sectors read back as `data`. This holds while the name has no
/// NUL byte (a NUL ends a stored name) and the size and start sector fit the
/// entry's 32-bit fields.
pub proof fn lemma_write_then_read(
    name: Seq<char>,
    data: Seq<u8>,
    sector0: Seq<u8>,
    table: Seq<[u8; 512]>,
    capacity_sectors: u64,
    plan: WritePlan,
    sb: Superblock,
    new_sector0: Seq<u8>,
    new_table: Seq<[u8; 512]>,
    stored: Seq<[u8; 512]>,
)
    requires
        sector0.len() == SECTOR_SIZE,
        write_decision(encode_utf8(name), name, data.len() as int, sector0, table, capacity_sectors)
            == Some((plan, sb)),
        forall|j: int| 0 <= j < encode_utf8(name).len() ==> encode_utf8(name)[j] != 0u8,
        data.len() <= u32::MAX,
        plan.start_sector <= u32::MAX,
        plan.index / ENTRIES_PER_SECTOR < table.len(),
        new_table.len() == table.len(),
        forall|k: int|
            0 <= k < table.len() && k != plan.index / ENTRIES_PER_SECTOR ==> new_table[k]
                == table[k],
        new_table[(plan.index / ENTRIES_PER_SECTOR) as int]@ == entry_written(
            table[(plan.index / ENTRIES_PER_SECTOR) as int]@,
            plan.index as int,
            encode_utf8(name),
            plan.start_sector,
            data.len() as u32,
        ),
        new_sector0 == superblock_written(sector0, sb),
        stored.len() == plan.sectors_needed,
        forall|i: int| 0 <= i < stored.len() ==> #[trigger] stored[i]@ == data_chunk(data, i),
    ensures
        has_magic(new_sector0),
        plan.index < listed_count(new_sector0),
        file_at(new_table, plan.index as int) == (name, plan.start_sector, data.len() as u32),
        search_from(new_table, listed_count(new_sector0), name, 0) == Some(
            Some(plan.index as int),
        ),
        prefix(
            flatten(stored.take(sectors_for_spec((data.len() as u32) as int))),
            (data.len() as u32) as int,
        ) == data,
{
    let old_sb = Superblock {
        file_count: le_u32(sector0, 8),
        next_free_sector: le_u64(sector0, 12),
    };
    let count = listed_count(sector0);
    let idx = plan.index as int;
    let sec = idx / ENTRIES_PER_SECTOR as int;
    let off = (idx % ENTRIES_PER_SECTOR as int) * ENTRY_SIZE;
    lemma_superblock_roundtrip(sector0, sb);
    lemma_search_facts(table, count, name, 0);
    let found = search_from(table, count, name, 0)->0;
    let existing: Option<(usize, u64, u32)> = match found {
        Some(i) => Some((i as usize, file_at(table, i).1, file_at(table, i).2)),
        None => None,
    };
    assert(write_placement(old_sb, existing, data.len() as int, capacity_sectors) == Some(plan));
    assert(sb == finished(old_sb, plan));
    // The planned entry is the one found, or the next free one.
    match found {
        Some(i) => {
            assert(idx == i);
            assert(!plan.grows_file_count);
        },
        None => {
            assert(plan.grows_file_count && idx == old_sb.file_count);
            assert(old_sb.file_count < MAX_ENTRIES);
        },
    }
    let new_count = listed_count(new_sector0);
    assert(idx < new_count);
    assert(count <= new_count);
    // The entry reads back.
    lemma_entry_roundtrip(
        table[sec]@,
        plan.index,
        name,
        plan.start_sector,
        data.len() as u32,
    );
    vstd::utf8::encode_utf8_decode_utf8(name);
    assert(file_at(new_table, idx).0 == name);
    assert(file_at(new_table, idx) == (name, plan.start_sector, data.len() as u32));
    // The entries before it are unchanged, and none is called `name`.
    assert forall|j: int| 0 <= j < idx implies #[trigger] file_at(new_table, j).0 != name by {
        assert(j < count);
        assert(file_at(table, j).0 != name);
        let sj = j / ENTRIES_PER_SECTOR as int;
        let oj = (j % ENTRIES_PER_SECTOR as int) * ENTRY_SIZE;
        if sj != sec {
            assert(new_table[sj] == table[sj]);
        } else {
            assert(oj + ENTRY_SIZE <= off);
            lemma_entry_window(table[sj]@, new_table[sj]@, oj);
        }
    }
    lemma_search_finds(new_table, new_count, name, 0, idx);
    // The data reads back.
    assert(plan.sectors_needed == sectors_for_spec(data.len() as int));
    assert(stored.take(sectors_for_spec((data.len() as u32) as int)) =~= stored);
    lemma_data_roundtrip(data, stored);
}

/// Storing entry `index` into its table sector leaves it reading back as
/// the name, start sector (kept to 32 bits) and size, and every other entry
/// of the table reading as before.
proof fn lemma_written_table(
    table: Seq<[u8; 512]>,
    new_table: Seq<[u8; 512]>,
    index: usize,
    name: Seq<char>,
    start_sector: u64,
    size_bytes: u32,
)
    requires
        encode_utf8(name).len() <= NAME_FIELD_LEN,
        forall|j: int| 0 <= j < encode_utf8(name).len() ==> encode_utf8(name)[j] != 0u8,
        index / ENTRIES_PER_SECTOR < table.len(),
        new_table.len() == table.len(),
        forall|k: int|
            0 <= k < table.len() && k != index / ENTRIES_PER_SECTOR ==> new_table[k] == table[k],
        new_table[(index / ENTRIES_PER_SECTOR) as int]@ == entry_written(
            table[(index / ENTRIES_PER_SECTOR) as int]@,
            index as int,
            encode_utf8(name),
            start_sector,
            size_bytes,
        ),
    ensures
        file_at(new_table, index as int) == (name, start_sector as u32 as u64, size_bytes),
        forall|j: int|
            0 <= j && j / (ENTRIES_PER_SECTOR as int) < table.len() && j != index ==> #[trigger] file_at(
                new_table,
                j,
            ) == file_at(table, j),
{
    let idx = index as int;
    let sec = idx / ENTRIES_PER_SECTOR as int;
    let off = (idx % ENTRIES_PER_SECTOR as int) * ENTRY_SIZE;
    lemma_entry_roundtrip(table[sec]@, index, name, start_sector, size_bytes);
    vstd::utf8::encode_utf8_decode_utf8(name);
    assert forall|j: int|
        0 <= j && j / (ENTRIES_PER_SECTOR as int) < table.len() && j != index implies #[trigger] file_at(
            new_table,
            j,
        ) == file_at(table, j) by {
        let sj = j / ENTRIES_PER_SECTOR as int;
        let oj = (j % ENTRIES_PER_SECTOR as int) * ENTRY_SIZE;
        if sj != sec {
            assert(new_table[sj] == table[sj]);
        } else {
            assert(oj + ENTRY_SIZE <= off || off + ENTRY_SIZE <= oj);
            lemma_entry_window(table[sj]@, new_table[sj]@, oj);
        }
    }
}

/// A listed entry's table sector is among those that hold the listed entries.
proof fn lemma_listed_sector(count: int, sectors: int, j: int)
    requires
        0 <= j < count,
        table_sectors_for(count) <= sectors,
    ensures
        j / (ENTRIES_PER_SECTOR as int) < sectors,
{
    assert(j / 8 <= (count - 1) / 8);
    assert((count - 1) / 8 < (count + 7) / 8);
}

/// The first sector of file `j` of the table.
pub open spec fn file_start(table: Seq<[u8; 512]>, j: int) -> int {
    file_at(table, j).1 as int
}

/// The sector just past the data of file `j` of the table.
pub open spec fn file_end(table: Seq<[u8; 512]>, j: int) -> int {
    file_at(table, j).1 + sectors_for_spec(file_at(table, j).2 as int)
}

/// Two sector ranges `a0..a1` and `b0..b1` share no sector.
pub open spec fn ranges_apart(a0: int, a1: int, b0: int, b1: int) -> bool {
    a1 <= b0 || b1 <= a0
}

/// A well-formed disk: sector 0 holds a superblock, the table sectors of
/// every listed entry were read, the first free sector lies past the table,
/// and every listed file's sectors lie between the table and the first free
/// sector, apart from every other listed file's.
pub open spec fn disk_wf(sector0: Seq<u8>, table: Seq<[u8; 512]>) -> bool {
    let count = listed_count(sector0);
    let next = le_u64(sector0, 12);
    &&& has_magic(sector0)
    &&& table_sectors_for(count) <= table.len()
    &&& FIRST_DATA_SECTOR <= next
    &&& forall|j: int|
        0 <= j < count ==> FIRST_DATA_SECTOR <= #[trigger] file_start(table, j) && file_end(table, j)
            <= next
    &&& forall|i: int, j: int|
        #![trigger file_end(table, i), file_end(table, j)]
        0 <= i < j < count ==> ranges_apart(
            file_start(table, i),
            file_end(table, i),
            file_start(table, j),
            file_end(table, j),
        )
}

/// A write leaves the other files alone. On a well-formed disk, once the
/// job that `write` decided is stored (as in `lemma_write_then_read`): the
/// data sectors it writes share no sector with any other listed file; every
/// other entry reads as before; the listing grows by one entry exactly when
/// the file is new, and a new file is appended after the old entries, at the
/// old first free sector; and the disk is well-formed again.
pub proof fn lemma_write_keeps_others(
    name: Seq<char>,
    data: Seq<u8>,
    sector0: Seq<u8>,
    table: Seq<[u8; 512]>,
    capacity_sectors: u64,
    plan: WritePlan,
    sb: Superblock,
    new_sector0: Seq<u8>,
    new_table: Seq<[u8; 512]>,
)
    requires
        sector0.len() == SECTOR_SIZE,
        disk_wf(sector0, table),
        write_decision(encode_utf8(name), name, data.len() as int, sector0, table, capacity_sectors)
            == Some((plan, sb)),
        forall|j: int| 0 <= j < encode_utf8(name).len() ==> encode_utf8(name)[j] != 0u8,
        data.len() <= u32::MAX,
        plan.start_sector <= u32::MAX,
        plan.index / ENTRIES_PER_SECTOR < table.len(),
        new_table.len() == table.len(),
        forall|k: int|
            0 <= k < table.len() && k != plan.index / ENTRIES_PER_SECTOR ==> new_table[k]
                == table[k],
        new_table[(plan.index / ENTRIES_PER_SECTOR) as int]@ == entry_written(
            table[(plan.index / ENTRIES_PER_SECTOR) as int]@,
            plan.index as int,
            encode_utf8(name),
            plan.start_sector,
            data.len() as u32,
        ),
        new_sector0 == superblock_written(sector0, sb),
    ensures
        forall|j: int|
            0 <= j < listed_count(sector0) && j != plan.index ==> ranges_apart(
                plan.start_sector as int,
                plan.start_sector + plan.sectors_needed,
                file_start(table, j),
                #[trigger] file_end(table, j),
            ),
        forall|j: int|
            0 <= j < listed_count(sector0) && j != plan.index ==> #[trigger] file_at(new_table, j)
                == file_at(table, j),
        listed_count(new_sector0) == listed_count(sector0) + (if plan.grows_file_count {
            1int
        } else {
            0int
        }),
        plan.grows_file_count ==> plan.index == listed_count(sector0) && plan.start_sector
            == le_u64(sector0, 12),
        disk_wf(new_sector0, new_table),
{
    let old_sb = Superblock {
        file_count: le_u32(sector0, 8),
        next_free_sector: le_u64(sector0, 12),
    };
    let count = listed_count(sector0);
    let next = le_u64(sector0, 12);
    let idx = plan.index as int;
    let start = plan.start_sector as int;
    let end = plan.start_sector + plan.sectors_needed;
    lemma_superblock_roundtrip(sector0, sb);
    lemma_search_facts(table, count, name, 0);
    let found = search_from(table, count, name, 0)->0;
    let existing: Option<(usize, u64, u32)> = match found {
        Some(i) => Some((i as usize, file_at(table, i).1, file_at(table, i).2)),
        None => None,
    };
    assert(write_placement(old_sb, existing, data.len() as int, capacity_sectors) == Some(plan));
    assert(sb == finished(old_sb, plan));
    assert(plan.sectors_needed == sectors_for_spec(data.len() as int));
    assert(start + plan.sectors_needed <= capacity_sectors);
    lemma_written_table(table, new_table, plan.index, name, plan.start_sector, data.len() as u32);
    assert(file_at(new_table, idx) == (name, plan.start_sector, data.len() as u32));
    assert(file_start(new_table, idx) == start);
    assert(file_end(new_table, idx) == end);
    // Where the data goes, and where the first free sector ends up.
    let in_place = match found {
        Some(i) => plan.sectors_needed <= sectors_for_spec(file_at(table, i).2 as int),
        None => false,
    };
    match found {
        Some(i) => {
            assert(idx == i);
            assert(!plan.grows_file_count);
            assert(FIRST_DATA_SECTOR <= file_start(table, i) && file_end(table, i) <= next);
            if in_place {
                assert(start == file_start(table, i));
                assert(end <= file_end(table, i));
                assert(start < next);
                assert(sb.next_free_sector == next);
            } else {
                assert(start == next);
                assert(sb.next_free_sector == end);
            }
        },
        None => {
            assert(plan.grows_file_count && idx == old_sb.file_count);
            assert(old_sb.file_count < MAX_ENTRIES);
            assert(idx == count);
            assert(start == next);
            assert(sb.next_free_sector == end);
        },
    }
    let new_next = sb.next_free_sector as int;
    assert(next <= new_next);
    assert(le_u64(new_sector0, 12) == sb.next_free_sector);
    let new_count = listed_count(new_sector0);
    assert(new_count == count + (if plan.grows_file_count { 1int } else { 0int }));
    // The data sectors are apart from every other listed file.
    assert forall|j: int|
        0 <= j < count && j != plan.index implies ranges_apart(
        start,
        end,
        file_start(table, j),
        #[trigger] file_end(table, j),
    ) by {
        assert(FIRST_DATA_SECTOR <= file_start(table, j) && file_end(table, j) <= next);
        if in_place {
            let i = found->0;
            if i < j {
                assert(ranges_apart(
                    file_start(table, i),
                    file_end(table, i),
                    file_start(table, j),
                    file_end(table, j),
                ));
            } else {
                assert(ranges_apart(
                    file_start(table, j),
                    file_end(table, j),
                    file_start(table, i),
                    file_end(table, i),
                ));
            }
        }
    }
    // The other entries read as before.
    assert forall|j: int| 0 <= j < count && j != plan.index implies #[trigger] file_at(
        new_table,
        j,
    ) == file_at(table, j) by {
        lemma_listed_sector(count, table.len() as int, j);
    }
    // The disk is well-formed again.
    assert(table_sectors_for(new_count) <= new_table.len()) by {
        if plan.grows_file_count {
            assert((idx + 1 + 7) / 8 <= idx / 8 + 1);
        }
    }
    assert forall|j: int| 0 <= j < new_count implies FIRST_DATA_SECTOR <= #[trigger] file_start(
        new_table,
        j,
    ) && file_end(new_table, j) <= new_next by {
        if j != idx {
            assert(j < count);
            lemma_listed_sector(count, table.len() as int, j);
            assert(file_at(new_table, j) == file_at(table, j));
            assert(FIRST_DATA_SECTOR <= file_start(table, j) && file_end(table, j) <= next);
        }
    }
    assert forall|a: int, b: int|
        #![trigger file_end(new_table, a), file_end(new_table, b)]
        0 <= a < b < new_count implies ranges_apart(
        file_start(new_table, a),
        file_end(new_table, a),
        file_start(new_table, b),
        file_end(new_table, b),
    ) by {
        if a != idx && b != idx {
            assert(a < count && b < count);
            lemma_listed_sector(count, table.len() as int, a);
            lemma_listed_sector(count, table.len() as int, b);
            assert(file_at(new_table, a) == file_at(table, a));
            assert(file_at(new_table, b) == file_at(table, b));
            assert(ranges_apart(
                file_start(table, a),
                file_end(table, a),
                file_start(table, b),
                file_end(table, b),
            ));
        } else if a == idx {
            assert(b < count);
            lemma_listed_sector(count, table.len() as int, b);
            assert(file_at(new_table, b) == file_at(table, b));
            assert(ranges_apart(start, end, file_start(table, b), file_end(table, b)));
        } else {
            assert(a < count);
            lemma_listed_sector(count, table.len() as int, a);
            assert(file_at(new_table, a) == file_at(table, a));
            assert(ranges_apart(start, end, file_start(table, a), file_end(table, a)));
        }
    }
}

} // verus!
