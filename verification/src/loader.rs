//! Loading a program image into a process: where each segment goes, which
//! pages get mapped, where the relocations are, and where the process
//! starts; and the built-in programs the kernel runs this way.
use vstd::prelude::*;
use vstd::string::StringSliceAdditionalSpecFns;
use vstd::utf8::{is_ascii_chars, is_ascii_chars_encode_utf8, encode_utf8_valid_utf8};
use crate::bytes::{le_u16, le_u64};
use crate::elf::{
    ElfFile, Segment, ET_DYN, is_elf64, headers_in_bounds, dynamic_scan_in_bounds, load_segments_of,
    dynamic_from, ph_num, ph_in_bounds,
};
use crate::initrd::{
    FileSystem, Initrd, archive_bytes, archive_wf, first_match, initrd_files, lookup, opt_bytes,
    elf_image_bytes, init_code, forker_code, pie_demo_image, lemma_archive_lookup, lemma_elf_image,
    lemma_pie_headers, INIT_ENTRY_VADDR, FORKER_ENTRY_VADDR,
};
use crate::usermode::page_of;

verus! {

pub const INIT_STACK_TOP: u64 = 0x7aaa_aaaa_0000;

pub const PRODUCER_STACK_TOP: u64 = 0x1aaa_aaaa_0000;

pub const CONSUMER_STACK_TOP: u64 = 0x1bbb_bbbb_0000;

pub const FORKER_STACK_TOP: u64 = 0x4aaa_aaaa_0000;

pub const HELLO_STACK_TOP: u64 = 0x6aaa_aaaa_0000;

pub const PIE_DEMO_STACK_TOP: u64 = 0x3aaa_aaaa_0000;

pub const PIE_DEMO_LOAD_BASE: u64 = 0x3000_0000_0000;

/// What the image is moved by: the load base for a position-independent
/// image, nothing for a fixed-address one.
pub open spec fn bias_of(d: Seq<u8>, base: u64) -> u64 {
    if le_u16(d, 16) == ET_DYN {
        base
    } else {
        0
    }
}

/// At least one byte: an empty segment still takes its first page.
pub open spec fn span(memsz: u64) -> int {
    if memsz == 0 {
        1
    } else {
        memsz as int
    }
}

/// Segment `s`, moved by `bias`, fits in the address space and its file
/// bytes lie in the image of `len` bytes.
pub open spec fn segment_fits(s: Segment, bias: u64, len: int) -> bool {
    &&& s.vaddr + bias + span(s.memsz) <= u64::MAX
    &&& s.offset + s.filesz <= len
}

/// The image `d` can be loaded at `base` and run with its stack below
/// `stack_top`: it is a 64-bit ELF image whose headers lie in it, and no
/// address it gives overflows once moved.
pub open spec fn loadable(d: Seq<u8>, stack_top: u64, base: u64) -> bool {
    let bias = bias_of(d, base);
    &&& is_elf64(d)
    &&& headers_in_bounds(d)
    &&& dynamic_scan_in_bounds(d)
    &&& stack_top >= 4096
    &&& le_u64(d, 24) + bias <= u64::MAX
    &&& forall|i: int|
        0 <= i < load_segments_of(d).len() ==> segment_fits(
            #[trigger] load_segments_of(d)[i],
            bias,
            d.len() as int,
        )
    &&& dynamic_from(d, 0) matches Some(v) ==> v + bias <= u64::MAX
}

/// How one segment is loaded.
#[derive(Debug, Clone, Copy)]
pub struct SegmentLoad {
    /// The segment as the image describes it.
    pub segment: Segment,
    /// Where it goes: its address moved by the bias.
    pub vaddr: u64,
    /// The first and last pages to map.
    pub first_page: u64,
    pub last_page: u64,
    /// The range the process may touch: `vaddr .. vaddr + memsz`.
    pub region: (u64, u64),
}

/// The load of segment `s` moved by `bias`.
pub open spec fn segment_load(s: Segment, bias: u64) -> SegmentLoad {
    let vaddr = (s.vaddr + bias) as u64;
    SegmentLoad {
        segment: s,
        vaddr,
        first_page: page_of(vaddr),
        last_page: page_of((vaddr + span(s.memsz) - 1) as u64),
        region: (vaddr, (vaddr + s.memsz) as u64),
    }
}

/// How a program is loaded and started. Each segment's file bytes are
/// copied to its address and the rest of its memory zeroed; then the
/// relocations (if any) are applied; then the stack page is mapped.
pub struct ExecPlan {
    pub bias: u64,
    pub segments: Vec<SegmentLoad>,
    /// The moved address of the dynamic section, whose relative relocations
    /// are applied with the bias.
    pub dynamic: Option<u64>,
    pub stack_page: u64,
    pub stack_region: (u64, u64),
    pub entry: u64,
    pub user_stack: u64,
}

/// `r` is how the image `d` is loaded at `base` and started with its stack
/// below `user_stack_top`: every segment moved by the bias, the moved
/// dynamic section, one stack page right below the stack top, and the moved
/// entry point.
pub open spec fn plans(d: Seq<u8>, user_stack_top: u64, base: u64, r: ExecPlan) -> bool {
    &&& r.bias == bias_of(d, base)
    &&& r.segments@.len() == load_segments_of(d).len()
    &&& forall|i: int|
        0 <= i < r.segments@.len() ==> #[trigger] r.segments@[i] == segment_load(
            load_segments_of(d)[i],
            r.bias,
        )
    &&& r.dynamic == (match dynamic_from(d, 0) {
        Some(v) => Some((v + r.bias) as u64),
        None => None::<u64>,
    })
    &&& r.stack_page == page_of((user_stack_top - 1) as u64)
    &&& r.stack_region == ((user_stack_top - 4096) as u64, user_stack_top)
    &&& r.entry == le_u64(d, 24) + r.bias
    &&& r.user_stack == user_stack_top - user_stack_top % 16
}

/// Decides how the image behind `elf` is loaded at `base` and started with
/// its stack below `user_stack_top`.
pub fn load_and_exec(elf: &ElfFile, user_stack_top: u64, base: u64) -> (r: ExecPlan)
    requires
        loadable(elf@, user_stack_top, base),
    ensures
        plans(elf@, user_stack_top, base, r),
{
    let bias = if elf.e_type() == ET_DYN {
        base
    } else {
        0
    };
    let segs = elf.load_segments();
    let mut loads: Vec<SegmentLoad> = Vec::new();
    let mut i: usize = 0;
    while i < segs.len()
        invariant
            segs@ == load_segments_of(elf@),
            bias == bias_of(elf@, base),
            loadable(elf@, user_stack_top, base),
            i <= segs@.len(),
            loads@.len() == i,
            forall|k: int| 0 <= k < i ==> #[trigger] loads@[k] == segment_load(segs@[k], bias),
        decreases segs@.len() - i,
    {
        let seg = segs[i];
        assert(segment_fits(load_segments_of(elf@)[i as int], bias, elf@.len() as int));
        let vaddr = seg.vaddr + bias;
        let extent = if seg.memsz == 0 {
            1
        } else {
            seg.memsz
        };
        let end_addr = vaddr + extent - 1;
        loads.push(
            SegmentLoad {
                segment: seg,
                vaddr,
                first_page: vaddr - vaddr % 4096,
                last_page: end_addr - end_addr % 4096,
                region: (vaddr, vaddr + seg.memsz),
            },
        );
        i = i + 1;
    }
    let dynamic = match elf.dynamic_vaddr() {
        Some(v) => Some(v + bias),
        None => None,
    };
    let below_top = user_stack_top - 1;
    ExecPlan {
        bias,
        segments: loads,
        dynamic,
        stack_page: below_top - below_top % 4096,
        stack_region: (user_stack_top - 4096, user_stack_top),
        entry: elf.entry_point() + bias,
        user_stack: user_stack_top - user_stack_top % 16,
    }
}

/// Each loaded segment's region is its whole memory image: it starts at the
/// segment's address moved by the bias (the load base for an `ET_DYN` image,
/// nothing otherwise) and runs `memsz` bytes, zero-filled tail included; and
/// the pages the plan maps, from its first page to its last, cover it.
pub proof fn lemma_regions_are_memory_images(d: Seq<u8>, stack_top: u64, base: u64, r: ExecPlan)
    requires
        loadable(d, stack_top, base),
        plans(d, stack_top, base, r),
    ensures
        r.bias == (if le_u16(d, 16) == ET_DYN {
            base
        } else {
            0
        }),
        r.segments@.len() == load_segments_of(d).len(),
        forall|i: int|
            0 <= i < r.segments@.len() ==> {
                let s = load_segments_of(d)[i];
                let l = #[trigger] r.segments@[i];
                &&& l.segment == s
                &&& l.region.0 == s.vaddr + r.bias
                &&& l.region.1 == s.vaddr + r.bias + s.memsz
                &&& l.first_page <= l.region.0
                &&& l.first_page % 4096 == 0
                &&& l.region.1 <= l.last_page + 4096
                &&& l.last_page % 4096 == 0
            },
{
    assert forall|i: int| 0 <= i < r.segments@.len() implies {
        let s = load_segments_of(d)[i];
        let l = #[trigger] r.segments@[i];
        &&& l.segment == s
        &&& l.region.0 == s.vaddr + r.bias
        &&& l.region.1 == s.vaddr + r.bias + s.memsz
        &&& l.first_page <= l.region.0
        &&& l.first_page % 4096 == 0
        &&& l.region.1 <= l.last_page + 4096
        &&& l.last_page % 4096 == 0
    } by {
        let s = load_segments_of(d)[i];
        assert(segment_fits(s, r.bias, d.len() as int));
        assert(r.segments@[i] == segment_load(s, r.bias));
    }
}

/// Whether the image `bytes` can be loaded at `base` with its stack below
/// `stack_top` (see `loadable`).
pub fn can_load(bytes: &[u8], stack_top: u64, base: u64) -> (r: bool)
    ensures
        r == loadable(bytes@, stack_top, base),
{
    let elf = match ElfFile::parse(bytes) {
        Some(e) => e,
        None => return false,
    };
    if stack_top < 4096 || !elf.headers_fit() {
        return false;
    }
    assert(dynamic_scan_in_bounds(bytes@));
    let bias = if elf.e_type() == ET_DYN {
        base
    } else {
        0
    };
    if elf.entry_point() > u64::MAX - bias {
        return false;
    }
    let segs = elf.load_segments();
    let mut i: usize = 0;
    while i < segs.len()
        invariant
            segs@ == load_segments_of(bytes@),
            elf@ == bytes@,
            bias == bias_of(bytes@, base),
            i <= segs@.len(),
            forall|k: int| 0 <= k < i ==> segment_fits(#[trigger] segs@[k], bias, bytes@.len() as int),
        decreases segs@.len() - i,
    {
        let seg = segs[i];
        let extent = if seg.memsz == 0 {
            1
        } else {
            seg.memsz
        };
        if seg.vaddr > u64::MAX - bias || extent > u64::MAX - bias - seg.vaddr {
            assert(!segment_fits(segs@[i as int], bias, bytes@.len() as int));
            return false;
        }
        if seg.offset > bytes.len() as u64 || seg.filesz > bytes.len() as u64 - seg.offset {
            assert(!segment_fits(segs@[i as int], bias, bytes@.len() as int));
            return false;
        }
        i = i + 1;
    }
    match elf.dynamic_vaddr() {
        Some(v) => v <= u64::MAX - bias,
        None => true,
    }
}

/// The bytes of an ASCII string literal are its characters.
proof fn lemma_ascii_bytes(s: &str)
    requires
        is_ascii_chars(s@),
    ensures
        s.spec_bytes().len() == s@.len(),
        forall|i: int| 0 <= i < s@.len() ==> #[trigger] s.spec_bytes()[i] == s@[i] as u8,
        vstd::utf8::valid_utf8(s.spec_bytes()),
{
    is_ascii_chars_encode_utf8(s@);
    encode_utf8_valid_utf8(s@);
}

/// The names of the initrd's files, as bytes.
proof fn lemma_initrd_names()
    ensures
        "init".spec_bytes() == seq![0x69u8, 0x6eu8, 0x69u8, 0x74u8],
        "producer".spec_bytes() == seq![0x70u8, 0x72u8, 0x6fu8, 0x64u8, 0x75u8, 0x63u8, 0x65u8, 0x72u8],
        "consumer".spec_bytes() == seq![0x63u8, 0x6fu8, 0x6eu8, 0x73u8, 0x75u8, 0x6du8, 0x65u8, 0x72u8],
        "forker".spec_bytes() == seq![0x66u8, 0x6fu8, 0x72u8, 0x6bu8, 0x65u8, 0x72u8],
        "hello".spec_bytes() == seq![0x68u8, 0x65u8, 0x6cu8, 0x6cu8, 0x6fu8],
        "pie_demo".spec_bytes() == seq![0x70u8, 0x69u8, 0x65u8, 0x5fu8, 0x64u8, 0x65u8, 0x6du8, 0x6fu8],
        vstd::utf8::valid_utf8("init".spec_bytes()),
        vstd::utf8::valid_utf8("producer".spec_bytes()),
        vstd::utf8::valid_utf8("consumer".spec_bytes()),
        vstd::utf8::valid_utf8("forker".spec_bytes()),
        vstd::utf8::valid_utf8("hello".spec_bytes()),
        vstd::utf8::valid_utf8("pie_demo".spec_bytes()),
{
    reveal_strlit("init");
    reveal_strlit("producer");
    reveal_strlit("consumer");
    reveal_strlit("forker");
    reveal_strlit("hello");
    reveal_strlit("pie_demo");
    lemma_ascii_bytes("init");
    lemma_ascii_bytes("producer");
    lemma_ascii_bytes("consumer");
    lemma_ascii_bytes("forker");
    lemma_ascii_bytes("hello");
    lemma_ascii_bytes("pie_demo");
    assert("init".spec_bytes() =~= seq![0x69u8, 0x6eu8, 0x69u8, 0x74u8]);
    assert("producer".spec_bytes() =~= seq![
        0x70u8,
        0x72u8,
        0x6fu8,
        0x64u8,
        0x75u8,
        0x63u8,
        0x65u8,
        0x72u8,
    ]);
    assert("consumer".spec_bytes() =~= seq![
        0x63u8,
        0x6fu8,
        0x6eu8,
        0x73u8,
        0x75u8,
        0x6du8,
        0x65u8,
        0x72u8,
    ]);
    assert("forker".spec_bytes() =~= seq![0x66u8, 0x6fu8, 0x72u8, 0x6bu8, 0x65u8, 0x72u8]);
    assert("hello".spec_bytes() =~= seq![0x68u8, 0x65u8, 0x6cu8, 0x6cu8, 0x6fu8]);
    assert("pie_demo".spec_bytes() =~= seq![
        0x70u8,
        0x69u8,
        0x65u8,
        0x5fu8,
        0x64u8,
        0x65u8,
        0x6du8,
        0x6fu8,
    ]);
}

/// The built-in programs' code is short.
proof fn lemma_code_lengths()
    ensures
        init_code().len() <= 0x1000,
        crate::initrd::producer_code().len() <= 0x1000,
        crate::initrd::consumer_code().len() <= 0x1000,
        forker_code().len() <= 0x1000,
{
    lemma_init_code_len();
    lemma_producer_code_len();
    lemma_consumer_code_len();
    lemma_forker_code_len();
}

proof fn lemma_init_code_len()
    ensures
        init_code().len() <= 0x1000,
{
    reveal(init_code);
}

proof fn lemma_producer_code_len()
    ensures
        crate::initrd::producer_code().len() <= 0x1000,
{
    reveal(crate::initrd::producer_code);
}

proof fn lemma_consumer_code_len()
    ensures
        crate::initrd::consumer_code().len() <= 0x1000,
{
    reveal(crate::initrd::consumer_code);
}

proof fn lemma_forker_code_len()
    ensures
        forker_code().len() <= 0x1000,
{
    reveal(forker_code);
}

/// The initrd's files fit its format.
proof fn lemma_initrd_wf(hello_elf: Seq<u8>)
    requires
        hello_elf.len() <= u32::MAX,
    ensures
        archive_wf(initrd_files(hello_elf)),
{
    lemma_initrd_names();
    lemma_code_lengths();
    lemma_elf_image(init_code(), INIT_ENTRY_VADDR);
    lemma_elf_image(crate::initrd::producer_code(), crate::initrd::PRODUCER_ENTRY_VADDR);
    lemma_elf_image(crate::initrd::consumer_code(), crate::initrd::CONSUMER_ENTRY_VADDR);
    lemma_elf_image(forker_code(), FORKER_ENTRY_VADDR);
    lemma_pie_headers();
    let files = initrd_files(hello_elf);
    assert forall|i: int| 0 <= i < files.len() implies {
        &&& (#[trigger] files[i]).0.len() <= u32::MAX
        &&& files[i].1.len() <= u32::MAX
        &&& vstd::utf8::valid_utf8(files[i].0)
    } by {}
}

/// Each program of the initrd is found under its name.
proof fn lemma_initrd_contents(hello_elf: Seq<u8>)
    requires
        hello_elf.len() <= u32::MAX,
    ensures
        archive_wf(initrd_files(hello_elf)),
        first_match(initrd_files(hello_elf), "init".spec_bytes()) == Some(
            elf_image_bytes(init_code(), INIT_ENTRY_VADDR),
        ),
        first_match(initrd_files(hello_elf), "forker".spec_bytes()) == Some(
            elf_image_bytes(forker_code(), FORKER_ENTRY_VADDR),
        ),
        first_match(initrd_files(hello_elf), "hello".spec_bytes()) == Some(hello_elf),
        first_match(initrd_files(hello_elf), "pie_demo".spec_bytes()) == Some(pie_demo_image()),
{
    lemma_initrd_wf(hello_elf);
    lemma_initrd_names();
    let files = initrd_files(hello_elf);
    let f1 = files.drop_first();
    let f2 = f1.drop_first();
    let f3 = f2.drop_first();
    let f4 = f3.drop_first();
    let f5 = f4.drop_first();
    assert(f1[0] == files[1] && f2[0] == files[2] && f3[0] == files[3] && f4[0] == files[4]
        && f5[0] == files[5]);
    assert(files[0].0[0] != "forker".spec_bytes()[0]);
    assert(files[1].0.len() != "forker".spec_bytes().len());
    assert(files[2].0.len() != "forker".spec_bytes().len());
    assert(files[0].0.len() != "hello".spec_bytes().len());
    assert(files[1].0.len() != "hello".spec_bytes().len());
    assert(files[2].0.len() != "hello".spec_bytes().len());
    assert(files[3].0.len() != "hello".spec_bytes().len());
    assert(files[0].0.len() != "pie_demo".spec_bytes().len());
    assert(files[1].0[1] != "pie_demo".spec_bytes()[1]);
    assert(files[2].0[0] != "pie_demo".spec_bytes()[0]);
    assert(files[3].0.len() != "pie_demo".spec_bytes().len());
    assert(files[4].0.len() != "pie_demo".spec_bytes().len());
    let fk = "forker".spec_bytes();
    assert(first_match(f3, fk) == Some(files[3].1));
    assert(first_match(f2, fk) == first_match(f3, fk));
    assert(first_match(f1, fk) == first_match(f2, fk));
    assert(first_match(files, fk) == first_match(f1, fk));
    let h = "hello".spec_bytes();
    assert(first_match(f4, h) == Some(files[4].1));
    assert(first_match(f3, h) == first_match(f4, h));
    assert(first_match(f2, h) == first_match(f3, h));
    assert(first_match(f1, h) == first_match(f2, h));
    assert(first_match(files, h) == first_match(f1, h));
    let pd = "pie_demo".spec_bytes();
    assert(first_match(f5, pd) == Some(files[5].1));
    assert(first_match(f4, pd) == first_match(f5, pd));
    assert(first_match(f3, pd) == first_match(f4, pd));
    assert(first_match(f2, pd) == first_match(f3, pd));
    assert(first_match(f1, pd) == first_match(f2, pd));
    assert(first_match(files, pd) == first_match(f1, pd));
}

/// A program of the initrd, read by name: its image, found in the initrd
/// the kernel builds.
fn read_program(hello_elf: &[u8], name: &str) -> (r: Option<Vec<u8>>)
    requires
        hello_elf@.len() <= u32::MAX,
    ensures
        opt_bytes(r) == first_match(initrd_files(hello_elf@), name.spec_bytes()),
{
    let initrd = Initrd::build(hello_elf);
    proof {
        lemma_initrd_contents(hello_elf@);
        lemma_archive_lookup(initrd_files(hello_elf@), name.spec_bytes());
    }
    initrd.read(name)
}

/// A built-in program image, as the kernel builds it, can be loaded.
proof fn lemma_builtin_loadable(code: Seq<u8>, entry: u64, stack_top: u64)
    requires
        code.len() <= 0x1000,
        entry <= 0x8000_0000_0000,
        stack_top >= 4096,
    ensures
        loadable(elf_image_bytes(code, entry), stack_top, 0),
{
    lemma_elf_image(code, entry);
    let d = elf_image_bytes(code, entry);
    assert(dynamic_scan_in_bounds(d)) by {
        assert forall|i: int|
            0 <= i < ph_num(d) && (forall|j: int|
                0 <= j < i ==> crate::elf::ph_type(d, j) != crate::elf::PT_DYNAMIC) implies
            #[trigger] ph_in_bounds(d, i) by {}
    }
    assert(segment_fits(load_segments_of(d)[0], 0, d.len() as int));
}

/// Starts `init`: its image from the initrd, and how it is loaded, with its
/// stack below `INIT_STACK_TOP`.
pub fn run_init(hello_elf: &[u8]) -> (r: (Vec<u8>, ExecPlan))
    requires
        hello_elf@.len() <= u32::MAX,
    ensures
        r.0@ == elf_image_bytes(init_code(), INIT_ENTRY_VADDR),
        plans(r.0@, INIT_STACK_TOP, 0, r.1),
{
    proof {
        lemma_initrd_contents(hello_elf@);
        lemma_code_lengths();
        lemma_builtin_loadable(init_code(), INIT_ENTRY_VADDR, INIT_STACK_TOP);
    }
    let bytes = match read_program(hello_elf, "init") {
        Some(b) => b,
        None => {
            assert(false);
            Vec::new()
        },
    };
    let plan = load_image(bytes.as_slice(), INIT_STACK_TOP, 0);
    (bytes, plan)
}

/// Starts `forker`: its image from the initrd, and how it is loaded, with
/// its stack below `FORKER_STACK_TOP`.
pub fn run_forker(hello_elf: &[u8]) -> (r: (Vec<u8>, ExecPlan))
    requires
        hello_elf@.len() <= u32::MAX,
    ensures
        r.0@ == elf_image_bytes(forker_code(), FORKER_ENTRY_VADDR),
        plans(r.0@, FORKER_STACK_TOP, 0, r.1),
{
    proof {
        lemma_initrd_contents(hello_elf@);
        lemma_code_lengths();
        lemma_builtin_loadable(forker_code(), FORKER_ENTRY_VADDR, FORKER_STACK_TOP);
    }
    let bytes = match read_program(hello_elf, "forker") {
        Some(b) => b,
        None => {
            assert(false);
            Vec::new()
        },
    };
    let plan = load_image(bytes.as_slice(), FORKER_STACK_TOP, 0);
    (bytes, plan)
}

/// Starts the position-independent demo: its image from the initrd, and how
/// it is loaded at `PIE_DEMO_LOAD_BASE`, with its stack below
/// `PIE_DEMO_STACK_TOP`.
pub fn run_pie_demo(hello_elf: &[u8]) -> (r: (Vec<u8>, ExecPlan))
    requires
        hello_elf@.len() <= u32::MAX,
    ensures
        r.0@ == pie_demo_image(),
        plans(r.0@, PIE_DEMO_STACK_TOP, PIE_DEMO_LOAD_BASE, r.1),
{
    proof {
        lemma_initrd_contents(hello_elf@);
        lemma_pie_headers();
        let d = pie_demo_image();
        assert(dynamic_scan_in_bounds(d)) by {
            assert forall|i: int|
                0 <= i < ph_num(d) && (forall|j: int|
                    0 <= j < i ==> crate::elf::ph_type(d, j) != crate::elf::PT_DYNAMIC) implies
                #[trigger] ph_in_bounds(d, i) by {}
        }
        assert(segment_fits(load_segments_of(d)[0], PIE_DEMO_LOAD_BASE, d.len() as int));
        assert(loadable(d, PIE_DEMO_STACK_TOP, PIE_DEMO_LOAD_BASE));
    }
    let bytes = match read_program(hello_elf, "pie_demo") {
        Some(b) => b,
        None => {
            assert(false);
            Vec::new()
        },
    };
    let plan = load_image(bytes.as_slice(), PIE_DEMO_STACK_TOP, PIE_DEMO_LOAD_BASE);
    (bytes, plan)
}

/// Starts `hello`, the compiled user program: its image from the initrd, and
/// how it is loaded, with its stack below `HELLO_STACK_TOP`. The image must
/// be loadable (`can_load` says whether it is).
pub fn run_hello(hello_elf: &[u8]) -> (r: (Vec<u8>, ExecPlan))
    requires
        hello_elf@.len() <= u32::MAX,
        loadable(hello_elf@, HELLO_STACK_TOP, 0),
    ensures
        r.0@ == hello_elf@,
        plans(r.0@, HELLO_STACK_TOP, 0, r.1),
{
    proof {
        lemma_initrd_contents(hello_elf@);
    }
    let bytes = match read_program(hello_elf, "hello") {
        Some(b) => b,
        None => {
            assert(false);
            Vec::new()
        },
    };
    let plan = load_image(bytes.as_slice(), HELLO_STACK_TOP, 0);
    (bytes, plan)
}

/// How an image that parses and fits is loaded.
fn load_image(bytes: &[u8], stack_top: u64, base: u64) -> (r: ExecPlan)
    requires
        loadable(bytes@, stack_top, base),
    ensures
        plans(bytes@, stack_top, base, r),
{
    match ElfFile::parse(bytes) {
        Some(elf) => load_and_exec(&elf, stack_top, base),
        None => {
            assert(false);
            empty_plan()
        },
    }
}

/// A plan that loads nothing: no segments, no dynamic section, every
/// address and the bias zero.
fn empty_plan() -> (r: ExecPlan)
    ensures
        r.bias == 0,
        r.segments@.len() == 0,
        r.dynamic is None,
        r.stack_page == 0,
        r.stack_region == (0u64, 0u64),
        r.entry == 0,
        r.user_stack == 0,
{
    ExecPlan {
        bias: 0,
        segments: Vec::new(),
        dynamic: None,
        stack_page: 0,
        stack_region: (0, 0),
        entry: 0,
        user_stack: 0,
    }
}

} // verus!
