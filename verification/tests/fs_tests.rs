use oxide::diskfs::{
    self, file_contents, find_file, list, plan_write, read, read_superblock, sectors_for,
    write_entry_at, write_superblock, DiskFile, Superblock,
};
use oxide::initrd::{FileSystem, Initrd};

fn empty_disk() -> ([u8; 512], Vec<[u8; 512]>) {
    let mut s0 = [0u8; 512];
    s0[0..4].copy_from_slice(b"OXFS");
    s0[4] = 1;
    write_superblock(&mut s0, &Superblock { file_count: 0, next_free_sector: 9 });
    (s0, vec![[0u8; 512]; 8])
}

#[test]
fn superblock_roundtrip() {
    let (s0, _) = empty_disk();
    let sb = read_superblock(&s0).unwrap();
    assert_eq!(sb.file_count, 0);
    assert_eq!(sb.next_free_sector, 9);
    assert!(read_superblock(&[0u8; 512]).is_none());
}

#[test]
fn sectors_needed() {
    assert_eq!(sectors_for(0), 1);
    assert_eq!(sectors_for(512), 1);
    assert_eq!(sectors_for(513), 2);
    assert_eq!(sectors_for(1024), 2);
}

#[test]
fn write_then_list_and_read() {
    let (mut s0, mut table) = empty_disk();
    let data = b"hello, disk!\n".to_vec();
    let job = diskfs::write("hello.txt", &data, &s0, &table, 2048).expect("room on the disk");
    assert_eq!(job.plan.index, 0);
    assert_eq!(job.plan.start_sector, 9);
    assert_eq!(job.plan.sectors_needed, 1);
    assert!(job.plan.grows_file_count);
    assert_eq!(job.superblock.file_count, 1);
    assert_eq!(job.superblock.next_free_sector, 10);
    assert_eq!(job.data_sectors.len(), 1);
    write_entry_at(&mut table[0], job.plan.index, "hello.txt", job.plan.start_sector, data.len() as u32);
    write_superblock(&mut s0, &job.superblock);
    let files = list(&s0, &table).unwrap();
    assert_eq!(files.len(), 1);
    assert_eq!(files[0].name, "hello.txt");
    assert_eq!(files[0].start_sector, 9);
    assert_eq!(files[0].size_bytes, 13);
    let i = find_file(&files, "hello.txt").unwrap();
    assert_eq!(read(&files[i], &job.data_sectors).unwrap(), data);
    assert!(find_file(&files, "nope").is_none());
    assert!(read(&files[i], &[]).is_none());
}

#[test]
fn rewrite_in_place_and_move_when_growing() {
    let (mut s0, mut table) = empty_disk();
    write_entry_at(&mut table[0], 0, "a", 9, 100);
    write_superblock(&mut s0, &Superblock { file_count: 1, next_free_sector: 10 });
    let job = diskfs::write("a", &[7u8; 200], &s0, &table, 2048).unwrap();
    assert_eq!(job.plan.start_sector, 9);
    assert!(!job.plan.grows_file_count);
    assert_eq!(job.superblock.next_free_sector, 10);
    let job = diskfs::write("a", &[7u8; 600], &s0, &table, 2048).unwrap();
    assert_eq!(job.plan.start_sector, 10);
    assert_eq!(job.plan.sectors_needed, 2);
    assert_eq!(job.superblock.next_free_sector, 12);
    assert_eq!(job.superblock.file_count, 1);
}

#[test]
fn write_refusals() {
    let (s0, table) = empty_disk();
    let long = "x".repeat(53);
    assert!(diskfs::write(&long, b"x", &s0, &table, 2048).is_none());
    assert!(diskfs::write("a", b"x", &[0u8; 512], &table, 2048).is_none());
    assert!(diskfs::write("a", &[0u8; 1024], &s0, &table, 10).is_none());
    let mut full = s0;
    write_superblock(&mut full, &Superblock { file_count: 64, next_free_sector: 9 });
    assert!(diskfs::write("new", b"x", &full, &table, 2048).is_none());
    assert!(diskfs::write("new", b"x", &full, &table[..2], 2048).is_none());
}

#[test]
fn list_needs_counted_sectors() {
    let (mut s0, table) = empty_disk();
    write_superblock(&mut s0, &Superblock { file_count: 9, next_free_sector: 9 });
    assert!(list(&s0, &table[..1]).is_none());
    assert_eq!(list(&s0, &table[..2]).unwrap().len(), 9);
}

#[test]
fn plan_keeps_file_that_fits() {
    let sb = Superblock { file_count: 3, next_free_sector: 40 };
    let p = plan_write(&sb, Some((1, 20, 1000)), 900, 2048).unwrap();
    assert_eq!((p.index, p.start_sector, p.sectors_needed), (1, 20, 2));
    let p = plan_write(&sb, None, 10, 2048).unwrap();
    assert_eq!((p.index, p.start_sector), (3, 40));
    assert!(plan_write(&sb, None, 10, 40).is_none());
}

#[test]
fn contents_are_cut_to_size() {
    let sectors = [[1u8; 512], [2u8; 512]];
    let d = file_contents(&sectors, 600);
    assert_eq!(d.len(), 600);
    assert_eq!(d[511], 1);
    assert_eq!(d[512], 2);
    let _ = DiskFile { name: String::new(), start_sector: 0, size_bytes: 0 };
}

#[test]
fn initrd_holds_the_programs() {
    let hello = b"\x7fELF-not-really".to_vec();
    let rd = Initrd::build(&hello);
    for name in ["init", "producer", "consumer", "forker", "pie_demo"] {
        let bytes = rd.read(name).unwrap();
        assert_eq!(&bytes[0..4], b"\x7fELF");
    }
    assert_eq!(rd.read("hello").unwrap(), hello);
    assert!(rd.read("missing").is_none());
}

#[test]
fn write_leaves_other_files_alone() {
    let (mut s0, mut table) = empty_disk();
    write_entry_at(&mut table[0], 0, "a", 9, 100);
    write_entry_at(&mut table[0], 1, "b", 10, 700);
    write_superblock(&mut s0, &Superblock { file_count: 2, next_free_sector: 12 });
    let before = list(&s0, &table).unwrap();
    // Rewriting `a` in place touches neither `b`'s entry nor its sectors.
    let job = diskfs::write("a", &[1u8; 300], &s0, &table, 2048).unwrap();
    assert_eq!((job.plan.index, job.plan.start_sector, job.plan.sectors_needed), (0, 9, 1));
    assert!(job.plan.start_sector + job.plan.sectors_needed <= 10);
    let mut t2 = table.clone();
    write_entry_at(&mut t2[0], 0, "a", 9, 300);
    let mut s2 = s0;
    write_superblock(&mut s2, &job.superblock);
    let after = list(&s2, &t2).unwrap();
    assert_eq!(after.len(), 2);
    assert_eq!((after[1].name.as_str(), after[1].start_sector, after[1].size_bytes), ("b", 10, 700));
    assert_eq!((after[0].name.as_str(), after[0].size_bytes), ("a", 300));
    // A new file is appended at the old first free sector.
    let job = diskfs::write("c", &[2u8; 10], &s0, &table, 2048).unwrap();
    assert_eq!((job.plan.index, job.plan.start_sector), (2, 12));
    let mut t3 = table.clone();
    write_entry_at(&mut t3[0], 2, "c", 12, 10);
    let mut s3 = s0;
    write_superblock(&mut s3, &job.superblock);
    let after = list(&s3, &t3).unwrap();
    assert_eq!(after.len(), 3);
    for k in 0..2 {
        assert_eq!(after[k].name, before[k].name);
        assert_eq!(after[k].start_sector, before[k].start_sector);
        assert_eq!(after[k].size_bytes, before[k].size_bytes);
    }
    assert_eq!((after[2].name.as_str(), after[2].start_sector, after[2].size_bytes), ("c", 12, 10));
}
