//! What the kernel takes from the ACPI tables: the PM1a control block (for
//! shutting down), the local APIC's address and the APIC ids of the usable
//! processors.
//!
//! Tables are handed in as the bytes the firmware left in memory.
use vstd::prelude::*;
use crate::bytes::{le_u32, read_le_u32};

verus! {

/// The root pointer's signature, `"RSD PTR "`.
pub const RSDP_SIGNATURE: [u8; 8] = [0x52, 0x53, 0x44, 0x20, 0x50, 0x54, 0x52, 0x20];

/// `"RSDT"`.
pub const RSDT_SIGNATURE: [u8; 4] = [0x52, 0x53, 0x44, 0x54];

/// `"FACP"`, the fixed ACPI description table.
pub const FADT_SIGNATURE: [u8; 4] = [0x46, 0x41, 0x43, 0x50];

/// `"APIC"`, the multiple APIC description table.
pub const MADT_SIGNATURE: [u8; 4] = [0x41, 0x50, 0x49, 0x43];

/// The size of a system description table's header.
pub const SDT_HEADER_LEN: usize = 36;

/// The sleep-enable bit of the PM1 control register.
pub const SLP_EN: u16 = 0x2000;

/// The sleep type for S5 (soft off).
pub const SLP_TYPA_S5: u16 = 0;

/// `s` starts with the bytes `sig`.
pub open spec fn has_signature(s: Seq<u8>, sig: Seq<u8>) -> bool {
    s.len() >= sig.len() && s.take(sig.len() as int) == sig
}

fn signature_is(s: &[u8], sig: &[u8]) -> (r: bool)
    ensures
        r == has_signature(s@, sig@),
{
    if s.len() < sig.len() {
        return false;
    }
    let mut i: usize = 0;
    while i < sig.len()
        invariant
            s@.len() >= sig@.len(),
            i <= sig@.len(),
            forall|j: int| 0 <= j < i ==> s@[j] == sig@[j],
        decreases sig@.len() - i,
    {
        if s[i] != sig[i] {
            assert(s@.take(sig@.len() as int)[i as int] != sig@[i as int]);
            return false;
        }
        i = i + 1;
    }
    assert(s@.take(sig@.len() as int) =~= sig@);
    true
}

/// The RSDT's physical address from the root pointer `rsdp`, or `None` when
/// the signature is wrong.
pub fn rsdt_address(rsdp: &[u8]) -> (r: Option<u32>)
    requires
        rsdp@.len() >= 20,
    ensures
        r == (if has_signature(rsdp@, RSDP_SIGNATURE@) {
            Some(le_u32(rsdp@, 16))
        } else {
            None::<u32>
        }),
{
    if !signature_is(rsdp, RSDP_SIGNATURE.as_slice()) {
        return None;
    }
    Some(read_le_u32(rsdp, 16))
}

/// The number of table addresses an RSDT of `length` bytes lists.
pub open spec fn rsdt_entry_count(length: u32) -> int {
    if length < SDT_HEADER_LEN {
        0
    } else {
        (length - SDT_HEADER_LEN) / 4
    }
}

/// The physical addresses of the tables the RSDT lists, or `None` when the
/// signature is wrong. `rsdt` holds at least the table's length in bytes.
pub fn rsdt_entries(rsdt: &[u8]) -> (r: Option<Vec<u32>>)
    requires
        rsdt@.len() >= SDT_HEADER_LEN,
        rsdt@.len() >= le_u32(rsdt@, 4),
    ensures
        r is Some <==> has_signature(rsdt@, RSDT_SIGNATURE@),
        r matches Some(v) ==> {
            &&& v@.len() == rsdt_entry_count(le_u32(rsdt@, 4))
            &&& forall|i: int|
                0 <= i < v@.len() ==> #[trigger] v@[i] == le_u32(rsdt@, SDT_HEADER_LEN + 4 * i)
        },
{
    if !signature_is(rsdt, RSDT_SIGNATURE.as_slice()) {
        return None;
    }
    let length = read_le_u32(rsdt, 4);
    let bytes: u32 = if length < 36 {
        0
    } else {
        length - 36
    };
    let count = (bytes / 4) as usize;
    let mut v: Vec<u32> = Vec::new();
    let mut i: usize = 0;
    while i < count
        invariant
            count == rsdt_entry_count(length),
            length == le_u32(rsdt@, 4),
            rsdt@.len() >= length,
            i <= count,
            v@.len() == i,
            forall|k: int| 0 <= k < i ==> #[trigger] v@[k] == le_u32(rsdt@, SDT_HEADER_LEN + 4 * k),
        decreases count - i,
    {
        v.push(read_le_u32(rsdt, 36 + 4 * i));
        i = i + 1;
    }
    Some(v)
}

/// The APIC ids of the enabled processor-local-APIC entries of a MADT whose
/// interrupt-controller records run from `off` to `len`: each record gives
/// its type and length in its first two bytes, and the walk stops at a
/// record shorter than two bytes or running past the end.
pub open spec fn madt_ids(t: Seq<u8>, len: int, off: int) -> Seq<u8>
    decreases len - off,
{
    if off < 0 || off + 2 > len {
        Seq::empty()
    } else {
        let ty = t[off];
        let el = t[off + 1] as int;
        if el < 2 || off + el > len {
            Seq::empty()
        } else {
            (if ty == 0 && el >= 8 && le_u32(t, off + 4) & 1 != 0 {
                seq![t[off + 3]]
            } else {
                Seq::empty()
            }) + madt_ids(t, len, off + el)
        }
    }
}

/// A MADT interrupt-controller record as it is laid out: a type byte, then
/// its own length in bytes.
pub open spec fn is_record(r: Seq<u8>) -> bool {
    r.len() >= 2 && r[1] == r.len()
}

/// A record that announces a usable processor: a processor-local-APIC
/// record (type 0, at least 8 bytes) whose flags (bytes 4..8) have bit 0,
/// "enabled", set.
pub open spec fn enabled_cpu_record(r: Seq<u8>) -> bool {
    r.len() >= 8 && r[0] == 0 && le_u32(r, 4) & 1 != 0
}

/// The APIC ids the records announce: byte 3 of each enabled processor's
/// record, in order.
pub open spec fn announced_apic_ids(recs: Seq<Seq<u8>>) -> Seq<u8> {
    recs.filter(|r: Seq<u8>| enabled_cpu_record(r)).map_values(|r: Seq<u8>| r[3])
}

proof fn lemma_madt_walk(t: Seq<u8>, len: int, o: int, recs: Seq<Seq<u8>>)
    requires
        o >= 0,
        forall|i: int| 0 <= i < recs.len() ==> is_record(#[trigger] recs[i]),
        len == o + recs.flatten().len(),
        t.len() >= len,
        t.subrange(o, len) == recs.flatten(),
    ensures
        madt_ids(t, len, o) == announced_apic_ids(recs),
    decreases recs.len(),
{
    let pred = |r: Seq<u8>| enabled_cpu_record(r);
    let f = |r: Seq<u8>| r[3];
    if recs.len() == 0 {
        assert(recs.filter(pred) =~= Seq::<Seq<u8>>::empty()) by {
            reveal(Seq::filter);
        }
        assert(announced_apic_ids(recs) =~= Seq::<u8>::empty());
    } else {
        let r = recs[0];
        let rest = recs.drop_first();
        assert(is_record(r));
        assert forall|i: int| 0 <= i < rest.len() implies is_record(#[trigger] rest[i]) by {
            assert(rest[i] == recs[i + 1]);
        }
        let flat = recs.flatten();
        assert(flat == r + rest.flatten());
        let el = r.len() as int;
        assert(t[o] == r[0]) by {
            assert(t.subrange(o, len)[0] == flat[0]);
        }
        assert(t[o + 1] == r[1]) by {
            assert(t.subrange(o, len)[1] == flat[1]);
        }
        assert forall|k: int| 0 <= k < el implies #[trigger] t[o + k] == r[k] by {
            assert(t.subrange(o, len)[k] == flat[k]);
        }
        assert(t.subrange(o + el, len) =~= rest.flatten()) by {
            assert forall|k: int| 0 <= k < len - (o + el) implies #[trigger] t.subrange(
                o + el,
                len,
            )[k] == rest.flatten()[k] by {
                assert(t.subrange(o, len)[el + k] == flat[el + k]);
            }
        }
        lemma_madt_walk(t, len, o + el, rest);
        let here = if r[0] == 0 && el >= 8 && le_u32(t, o + 4) & 1 != 0 {
            seq![t[o + 3]]
        } else {
            Seq::empty()
        };
        assert(madt_ids(t, len, o) == here + madt_ids(t, len, o + el));
        if el >= 8 {
            assert(t[o + 3] == r[3]);
            assert(t[o + 4] == r[4] && t[o + 5] == r[5] && t[o + 6] == r[6] && t[o + 7] == r[7]);
            assert(le_u32(t, o + 4) == le_u32(r, 4));
        }
        assert(recs =~= seq![r] + rest);
        Seq::filter_distributes_over_add(seq![r], rest, pred);
        assert(seq![r].filter(pred) == (if pred(r) {
            seq![r]
        } else {
            Seq::<Seq<u8>>::empty()
        })) by {
            reveal(Seq::filter);
            let e = Seq::<Seq<u8>>::empty();
            assert(seq![r].drop_last() =~= e);
            assert(e.filter(pred) == e);
            assert(seq![r].last() == r);
            assert(e.push(r) =~= seq![r]);
        }
        let a = seq![r].filter(pred);
        let b = rest.filter(pred);
        assert((a + b).map_values(f) =~= a.map_values(f) + b.map_values(f));
        assert(a.map_values(f) =~= here);
    }
}

/// The processors a MADT announces: when the table's interrupt-controller
/// records (from byte 44 to the table's length) are `recs`, the APIC ids
/// read from it are byte 3 of each record that is an enabled processor-
/// local-APIC record, in the order the records come.
pub proof fn lemma_madt_announced_ids(t: Seq<u8>, recs: Seq<Seq<u8>>)
    requires
        forall|i: int| 0 <= i < recs.len() ==> is_record(#[trigger] recs[i]),
        le_u32(t, 4) == 44 + recs.flatten().len(),
        t.len() >= le_u32(t, 4),
        t.subrange(44, le_u32(t, 4) as int) == recs.flatten(),
    ensures
        madt_ids(t, le_u32(t, 4) as int, 44) == announced_apic_ids(recs),
{
    lemma_madt_walk(t, le_u32(t, 4) as int, 44, recs);
}

/// What the kernel learned from the ACPI tables.
pub struct AcpiInfo {
    pub pm1a_cnt_blk: u16,
    pub found: bool,
    pub local_apic_phys: u64,
    pub cpu_apic_ids: Vec<u8>,
}

impl AcpiInfo {
    /// Nothing learned yet.
    pub fn new() -> (r: Self)
        ensures
            r.pm1a_cnt_blk == 0,
            !r.found,
            r.local_apic_phys == 0,
            r.cpu_apic_ids@.len() == 0,
    {
        AcpiInfo { pm1a_cnt_blk: 0, found: false, local_apic_phys: 0, cpu_apic_ids: Vec::new() }
    }
}

/// Takes in a MADT: the local APIC's address, and the APIC id of every
/// enabled processor after those already known.
pub fn parse_madt(info: &mut AcpiInfo, table: &[u8])
    requires
        table@.len() >= 40,
        table@.len() >= le_u32(table@, 4),
    ensures
        final(info).local_apic_phys == le_u32(table@, 36) as u64,
        final(info).cpu_apic_ids@ == old(info).cpu_apic_ids@ + madt_ids(
            table@,
            le_u32(table@, 4) as int,
            44,
        ),
        final(info).pm1a_cnt_blk == old(info).pm1a_cnt_blk,
        final(info).found == old(info).found,
{
    let table_len = read_le_u32(table, 4) as usize;
    info.local_apic_phys = read_le_u32(table, 36) as u64;
    let ghost t = table@;
    let ghost len = table_len as int;
    let mut offset: usize = 44;
    let mut done = false;
    while !done && table_len >= 2 && offset <= table_len - 2
        invariant
            done ==> madt_ids(t, len, offset as int) == Seq::<u8>::empty(),
            table_len == le_u32(t, 4),
            t == table@,
            len == table_len,
            t.len() >= table_len,
            offset >= 44,
            info.local_apic_phys == le_u32(t, 36) as u64,
            info.pm1a_cnt_blk == old(info).pm1a_cnt_blk,
            info.found == old(info).found,
            old(info).cpu_apic_ids@ + madt_ids(t, len, 44) == info.cpu_apic_ids@ + madt_ids(
                t,
                len,
                offset as int,
            ),
        decreases table_len - offset + (if done {
            0int
        } else {
            1int
        }),
    {
        let entry_type = table[offset];
        let entry_len = table[offset + 1] as usize;
        if entry_len < 2 || entry_len > table_len - offset {
            assert(madt_ids(t, len, offset as int) =~= Seq::<u8>::empty());
            done = true;
            continue;
        }
        let ghost before = info.cpu_apic_ids@;
        if entry_type == 0 && entry_len >= 8 {
            let apic_id = table[offset + 3];
            let flags = read_le_u32(table, offset + 4);
            if flags & 0x1 != 0 {
                info.cpu_apic_ids.push(apic_id);
            }
        }
        proof {
            let here = if entry_type == 0 && entry_len >= 8 && le_u32(t, offset + 4) & 1 != 0 {
                seq![t[offset + 3]]
            } else {
                Seq::empty()
            };
            assert(madt_ids(t, len, offset as int) == here + madt_ids(
                t,
                len,
                offset + entry_len,
            ));
            assert(info.cpu_apic_ids@ == before + here);
            assert(before + madt_ids(t, len, offset as int) =~= info.cpu_apic_ids@ + madt_ids(
                t,
                len,
                offset + entry_len,
            ));
        }
        offset = offset + entry_len;
    }
    proof {
        if !done {
            assert(madt_ids(t, len, offset as int) =~= Seq::<u8>::empty());
        }
    }
    assert(info.cpu_apic_ids@ =~= old(info).cpu_apic_ids@ + madt_ids(t, len, 44));
}

/// Takes in one of the tables the RSDT lists: the FADT gives the PM1a
/// control block, the MADT the processors; others are skipped. `table`
/// holds at least the table's length in bytes, and at least 68.
pub fn absorb_table(info: &mut AcpiInfo, table: &[u8])
    requires
        table@.len() >= 68,
        table@.len() >= le_u32(table@, 4),
    ensures
        has_signature(table@, FADT_SIGNATURE@) ==> {
            &&& final(info).pm1a_cnt_blk == le_u32(table@, 64) as u16
            &&& final(info).found
            &&& final(info).local_apic_phys == old(info).local_apic_phys
            &&& final(info).cpu_apic_ids@ == old(info).cpu_apic_ids@
        },
        !has_signature(table@, FADT_SIGNATURE@) && has_signature(table@, MADT_SIGNATURE@) ==> {
            &&& final(info).local_apic_phys == le_u32(table@, 36) as u64
            &&& final(info).cpu_apic_ids@ == old(info).cpu_apic_ids@ + madt_ids(
                table@,
                le_u32(table@, 4) as int,
                44,
            )
            &&& final(info).pm1a_cnt_blk == old(info).pm1a_cnt_blk
            &&& final(info).found == old(info).found
        },
        !has_signature(table@, FADT_SIGNATURE@) && !has_signature(table@, MADT_SIGNATURE@)
            ==> final(info).pm1a_cnt_blk == old(info).pm1a_cnt_blk && final(info).found
            == old(info).found && final(info).local_apic_phys == old(info).local_apic_phys
            && final(info).cpu_apic_ids@ == old(info).cpu_apic_ids@,
{
    if signature_is(table, FADT_SIGNATURE.as_slice()) {
        info.pm1a_cnt_blk = read_le_u32(table, 64) as u16;
        info.found = true;
    } else if signature_is(table, MADT_SIGNATURE.as_slice()) {
        parse_madt(info, table);
    }
}

/// The APIC ids of the usable processors, in the order the MADT lists them.
pub fn cpu_apic_ids(info: &AcpiInfo) -> (r: Vec<u8>)
    ensures
        r@ == info.cpu_apic_ids@,
{
    let mut r: Vec<u8> = Vec::new();
    let mut i: usize = 0;
    while i < info.cpu_apic_ids.len()
        invariant
            i <= info.cpu_apic_ids@.len(),
            r@ == info.cpu_apic_ids@.take(i as int),
        decreases info.cpu_apic_ids@.len() - i,
    {
        r.push(info.cpu_apic_ids[i]);
        i = i + 1;
        assert(r@ =~= info.cpu_apic_ids@.take(i as int));
    }
    assert(info.cpu_apic_ids@.take(i as int) =~= info.cpu_apic_ids@);
    r
}

/// The local APIC's physical address, if a MADT gave a nonzero one.
pub fn local_apic_phys(info: &AcpiInfo) -> (r: Option<u64>)
    ensures
        r == (if info.local_apic_phys != 0 {
            Some(info.local_apic_phys)
        } else {
            None::<u64>
        }),
{
    if info.local_apic_phys != 0 {
        Some(info.local_apic_phys)
    } else {
        None
    }
}

/// Whether the FADT was found, so that shutting down is possible.
pub fn available(info: &AcpiInfo) -> (r: bool)
    ensures
        r == info.found,
{
    info.found
}

/// The port write that powers the machine off (S5), when the FADT was found.
pub fn shutdown_write(info: &AcpiInfo) -> (r: Option<(u16, u16)>)
    ensures
        r == (if info.found {
            Some((info.pm1a_cnt_blk, SLP_EN))
        } else {
            None::<(u16, u16)>
        }),
{
    if info.found {
        let value = SLP_EN | (SLP_TYPA_S5 << 10u16);
        assert(value == SLP_EN) by (bit_vector)
            requires
                value == 0x2000u16 | (0u16 << 10u16),
        ;
        Some((info.pm1a_cnt_blk, value))
    } else {
        None
    }
}

} // verus!
