use brentos::fat32::bytes::{copy_range, read_le_u16, read_le_u32};
use brentos::fat32::cluster::Cluster;
use brentos::fat32::dir::{
    lfn_name, Dir, DirIterator, Entry, File, SeekFrom, VFatLfnDirEntry, VFatRegularDirEntry, VFatUnknownDirEntry,
};
use brentos::fat32::ebpb::BiosParameterBlock;
use brentos::fat32::mbr::{Error as MbrError, MasterBootRecord};
use brentos::fat32::metadata::{Metadata, Timestamp};
use brentos::fat32::names::{decode_utf16_lossy, short_name};
use brentos::fat32::vfat::Error as VFatError;
use brentos::fat32::volume::{fat_status, Status, VFat, END_OF_CHAIN};
use brentos::kern::fs::FileSystem;
use brentos::kernel_api::IoErrorKind;

const SECTORS: usize = 10;

fn put_fat(v: &mut VFat, c: u32, value: u32) {
    let o = 4 * c as usize;
    v.sectors[1][o..o + 4].copy_from_slice(&value.to_le_bytes());
}

fn blank_volume() -> VFat {
    let mut v = VFat {
        bytes_per_sector: 512,
        sectors_per_cluster: 1,
        sectors_per_fat: 1,
        fat_start_sector: 1,
        data_start_sector: 2,
        rootdir_cluster: Cluster(2),
        sectors: vec![vec![0u8; 512]; SECTORS],
    };
    put_fat(&mut v, 0, 0x0FFF_FFF8);
    put_fat(&mut v, 1, 0x0FFF_FFFF);
    v
}

fn regular(name: &[u8; 8], ext: &[u8; 3], attr: u8, cluster: u32, size: u32) -> [u8; 32] {
    let mut e = [0u8; 32];
    e[0..8].copy_from_slice(name);
    e[8..11].copy_from_slice(ext);
    e[11] = attr;
    e[14..16].copy_from_slice(&((12u16 << 11) | (30 << 5) | 5).to_le_bytes());
    e[16..18].copy_from_slice(&((40u16 << 9) | (6 << 5) | 7).to_le_bytes());
    e[20..22].copy_from_slice(&((cluster >> 16) as u16).to_le_bytes());
    e[26..28].copy_from_slice(&(cluster as u16).to_le_bytes());
    e[28..32].copy_from_slice(&size.to_le_bytes());
    e
}

fn lfn(seq: u8, name: &str) -> [u8; 32] {
    let mut units: Vec<u16> = name.encode_utf16().collect();
    if units.len() < 13 {
        units.push(0);
    }
    while units.len() < 13 {
        units.push(0xFFFF);
    }
    let mut e = [0u8; 32];
    e[0] = seq;
    e[11] = 0x0F;
    let spots = [1, 3, 5, 7, 9, 14, 16, 18, 20, 22, 24, 28, 30];
    for (u, at) in units.iter().zip(spots.iter()) {
        e[*at..*at + 2].copy_from_slice(&u.to_le_bytes());
    }
    e
}

/// Root directory in cluster 2, a short file in cluster 3, a directory in
/// cluster 4, a two-cluster file in clusters 5 and 6, an empty file in 7.
fn sample_volume() -> VFat {
    let mut v = blank_volume();
    for c in [2u32, 3, 4, 6, 7] {
        put_fat(&mut v, c, END_OF_CHAIN);
    }
    put_fat(&mut v, 5, 6);
    let entries = [
        lfn(0x41, "long name.txt"),
        regular(b"LONGNA~1", b"TXT", 0x20, 3, 11),
        {
            let mut d = regular(b"DELETED ", b"   ", 0x20, 9, 1);
            d[0] = 0xE5;
            d
        },
        regular(b"SUB     ", b"   ", 0x10, 4, 0),
        regular(b"README  ", b"MD ", 0x01, 5, 700),
    ];
    for (i, e) in entries.iter().enumerate() {
        v.sectors[2][32 * i..32 * i + 32].copy_from_slice(e);
    }
    v.sectors[3][0..11].copy_from_slice(b"hello world");
    for k in 0..700usize {
        v.sectors[5 + k / 512][k % 512] = (k % 251) as u8;
    }
    v
}

fn big_file_bytes() -> Vec<u8> {
    (0..700usize).map(|k| (k % 251) as u8).collect()
}

fn root_entries(v: &VFat) -> DirIterator {
    let root = Dir { first_cluster: Cluster(2), name: String::new(), metadata: Metadata::zeroed(), size: 0 };
    root.entries(v).ok().unwrap()
}

fn name_of(e: &Entry) -> String {
    match e {
        Entry::File(f) => f.name.clone(),
        Entry::Dir(d) => d.name.clone(),
    }
}

#[test]
fn fat_status_decodes_entries() {
    assert_eq!(fat_status(0), Status::Free);
    assert_eq!(fat_status(1), Status::Reserved);
    assert_eq!(fat_status(0xF000_0000), Status::Free);
    assert_eq!(fat_status(42), Status::Data(Cluster(42)));
    assert_eq!(fat_status(0x1000_002A), Status::Data(Cluster(42)));
    assert_eq!(fat_status(0x0FFF_FFF3), Status::Reserved);
    assert_eq!(fat_status(0x0FFF_FFF7), Status::Bad);
    assert_eq!(fat_status(0x0FFF_FFF8), Status::Eoc(0x0FFF_FFF8));
    assert_eq!(fat_status(0xFFFF_FFFF), Status::Eoc(0xFFFF_FFFF));
}

#[test]
fn cluster_numbers() {
    assert_eq!(Cluster::from_raw(0xF000_0005), Cluster(5));
    assert_eq!(Cluster(9).fat_address(), 9);
    assert_eq!(Cluster(9).data_address(), 7);
}

#[test]
fn little_endian_reads() {
    let b = [0x34, 0x12, 0x78, 0x56, 0xff];
    assert_eq!(read_le_u16(&b, 0), 0x1234);
    assert_eq!(read_le_u32(&b, 0), 0x5678_1234);
    assert_eq!(read_le_u32(&b, 1), 0xff56_7812);
    assert_eq!(copy_range(&b, 1, 3), vec![0x12, 0x78, 0x56]);
}

#[test]
fn fat_entries_read_and_write_back() {
    let mut v = sample_volume();
    assert_eq!(v.bytes_per_cluster(), 512);
    assert_eq!(v.fat_entry(Cluster(5)), Ok(6));
    assert_eq!(v.fat_entry(Cluster(8)), Ok(0));
    v.set_fat_entry(Cluster(8), 0x0ABC_DEF0);
    assert_eq!(v.fat_entry(Cluster(8)), Ok(0x0ABC_DEF0));
    assert_eq!(v.fat_entry(Cluster(5)), Ok(6));
    assert_eq!(v.fat_entry(Cluster(300)), Err(IoErrorKind::NotFound));
}

#[test]
fn fat_entry_outside_partition_is_invalid_input() {
    let mut v = blank_volume();
    v.sectors.truncate(1);
    assert_eq!(v.fat_entry(Cluster(3)), Err(IoErrorKind::InvalidInput));
}

#[test]
fn clusters_read_and_write_back() {
    let mut v = sample_volume();
    assert_eq!(v.read_cluster(Cluster(3), 0, 11), Ok(b"hello world".to_vec()));
    assert_eq!(v.read_cluster(Cluster(3), 6, 100).unwrap()[..5], b"world"[..]);
    assert_eq!(v.read_cluster(Cluster(3), 0, 1000).unwrap().len(), 512);
    assert_eq!(v.read_cluster(Cluster(3), 600, 10), Ok(Vec::new()));
    assert_eq!(v.write_cluster(Cluster(8), 500, b"0123456789abcdef"), Ok(12));
    assert_eq!(v.read_cluster(Cluster(8), 500, 12), Ok(b"0123456789ab".to_vec()));
    assert_eq!(v.read_cluster(Cluster(8), 0, 4), Ok(vec![0, 0, 0, 0]));
    assert_eq!(v.read_cluster(Cluster(3), 0, 5), Ok(b"hello".to_vec()));
    assert_eq!(v.read_cluster(Cluster(40), 0, 4), Err(IoErrorKind::InvalidInput));
    assert_eq!(v.write_cluster(Cluster(40), 0, b"x"), Err(IoErrorKind::InvalidInput));
}

#[test]
fn chains_are_measured_and_read() {
    let v = sample_volume();
    assert_eq!(v.size_to_chain_end(5), Ok(1024));
    assert_eq!(v.size_to_chain_end(6), Ok(512));
    assert_eq!(v.size_to_chain_end(8), Err(IoErrorKind::InvalidData));
    let mut buf = b"xy".to_vec();
    assert_eq!(v.read_chain(Cluster(5), &mut buf), Ok(1024));
    assert_eq!(buf.len(), 1026);
    assert_eq!(&buf[2..702], &big_file_bytes()[..]);
}

#[test]
fn chain_read_stops_at_a_broken_link() {
    let mut v = sample_volume();
    put_fat(&mut v, 6, 0);
    let mut buf: Vec<u8> = Vec::new();
    assert_eq!(v.read_chain(Cluster(5), &mut buf), Err(IoErrorKind::InvalidData));
}

#[test]
fn chains_are_written_and_read_back() {
    let mut v = sample_volume();
    let data: Vec<u8> = (0..700u32).map(|i| (i % 7 + 100) as u8).collect();
    assert_eq!(v.write_chain(Cluster(5), &data), Ok(700));
    let mut buf: Vec<u8> = Vec::new();
    assert_eq!(v.read_chain(Cluster(5), &mut buf), Ok(1024));
    assert_eq!(&buf[..700], &data[..]);
    assert!(buf[700..].iter().all(|&b| b == 0));
    let long: Vec<u8> = vec![7u8; 2000];
    assert_eq!(v.write_chain(Cluster(5), &long), Ok(1024));
    assert_eq!(v.read_cluster(Cluster(6), 511, 1), Ok(vec![7]));
    assert_eq!(v.write_chain(Cluster(5), &Vec::new()), Ok(0));
}

#[test]
fn chain_write_refuses_a_free_cluster() {
    let mut v = sample_volume();
    assert_eq!(v.write_chain(Cluster(8), &b"abc".to_vec()), Err(IoErrorKind::InvalidData));
    assert_eq!(v.read_cluster(Cluster(8), 0, 3), Ok(vec![0, 0, 0]));
    put_fat(&mut v, 6, 0);
    assert_eq!(v.write_chain(Cluster(5), &vec![1u8; 600]), Err(IoErrorKind::InvalidData));
    assert_eq!(v.read_cluster(Cluster(5), 0, 2), Ok(vec![1, 1]));
}

#[test]
fn free_clusters_are_found_and_linked() {
    let mut v = sample_volume();
    assert_eq!(v.find_free_cluster(), Ok(Cluster(8)));
    assert_eq!(v.add_cluster_to_chain(Cluster(5), Cluster(8)), Ok(()));
    assert_eq!(v.fat_entry(Cluster(6)), Ok(8));
    assert_eq!(v.fat_entry(Cluster(8)), Ok(END_OF_CHAIN));
    assert_eq!(v.size_to_chain_end(5), Ok(1536));
    assert_eq!(v.find_free_cluster(), Ok(Cluster(9)));
    assert_eq!(v.add_cluster_to_chain(Cluster(3), Cluster(4)), Err(IoErrorKind::InvalidData));
    put_fat(&mut v, 9, 0x0FFF_FFFF);
    assert_eq!(v.find_free_cluster(), Err(IoErrorKind::NotFound));
}

#[test]
fn directory_entries_are_listed() {
    let v = sample_volume();
    let mut it = root_entries(&v);
    assert_eq!(it.len(), 3);
    assert_eq!(it.offset(), 0);
    let first = it.next_entry().unwrap();
    assert_eq!(name_of(&first), "long name.txt");
    match &first {
        Entry::File(f) => {
            assert_eq!(f.size, 11);
            assert_eq!(f.first_cluster, Cluster(3));
            assert_eq!(f.metadata.created().year(), 2020);
            assert_eq!(f.metadata.created().hour(), 12);
        }
        Entry::Dir(_) => panic!("a file"),
    }
    let second = it.next_entry().unwrap();
    assert_eq!(name_of(&second), "SUB");
    assert!(matches!(second, Entry::Dir(_)));
    let third = it.next_entry().unwrap();
    assert_eq!(name_of(&third), "README.MD");
    assert_eq!(third.size(), 700);
    assert_eq!(it.offset(), 3);
    assert!(it.next_entry().is_none());
    assert_eq!(it.offset(), 3);
    assert!(it.next_entry().is_none());
    assert_eq!(it.offset(), 3);
}

#[test]
fn directory_iterator_seeks() {
    let v = sample_volume();
    let mut it = root_entries(&v);
    assert_eq!(it.set_offset(2), Ok(2));
    assert_eq!(name_of(&it.next_entry().unwrap()), "README.MD");
    // Positions count the entries passed: there is no position 0 to go back to.
    assert_eq!(it.seek(SeekFrom::Start(0)), Err(IoErrorKind::InvalidInput));
    assert_eq!(it.seek(SeekFrom::Start(1)), Ok(1));
    assert_eq!(name_of(&it.next_entry().unwrap()), "SUB");
    assert_eq!(it.seek(SeekFrom::End(-2)), Ok(1));
    assert_eq!(name_of(&it.next_entry().unwrap()), "SUB");
    assert_eq!(it.seek(SeekFrom::Current(-1)), Ok(1));
    assert_eq!(it.seek(SeekFrom::Start(4)), Err(IoErrorKind::InvalidInput));
    assert_eq!(it.seek(SeekFrom::Current(-2)), Err(IoErrorKind::InvalidInput));
    assert_eq!(it.set_offset(9), Err(IoErrorKind::InvalidInput));
    assert_eq!(it.offset(), 1);
}

#[test]
fn directory_iterator_from_raw_bytes() {
    let mut bytes: Vec<u8> = Vec::new();
    bytes.extend_from_slice(&regular(b"A       ", b"B  ", 0, 2, 1));
    bytes.extend_from_slice(&regular(b"C       ", b"   ", 0, 2, 1));
    let mut it = DirIterator::from_chain(bytes, 512);
    assert_eq!(it.len(), 2);
    assert_eq!(name_of(&it.next_entry().unwrap()), "A.B");
    assert_eq!(name_of(&it.next_entry().unwrap()), "C");
    assert!(it.next_entry().is_none());
    assert_eq!(it.offset(), 2);
}

#[test]
fn files_read_across_clusters() {
    let v = sample_volume();
    let mut f = File::from_parts(Cluster(5), "README.MD".to_string(), Metadata::zeroed(), 700, 512, None);
    let first = f.read(&v, 600).unwrap();
    assert_eq!(first, big_file_bytes()[..600].to_vec());
    assert_eq!(f.offset, 600);
    assert_eq!(f.current_cluster, Some(Cluster(6)));
    let rest = f.read(&v, 600).unwrap();
    assert_eq!(rest, big_file_bytes()[600..].to_vec());
    assert_eq!(f.offset, 700);
    assert_eq!(f.read(&v, 10).unwrap(), Vec::<u8>::new());
}

#[test]
fn file_seek_positions() {
    let v = sample_volume();
    let mut f = File::from_parts(Cluster(3), "hello".to_string(), Metadata::zeroed(), 11, 512, None);
    assert_eq!(f.seek(&v, SeekFrom::Start(11)), Ok(11));
    assert_eq!(f.seek(&v, SeekFrom::Start(12)), Err(IoErrorKind::InvalidInput));
    assert_eq!(f.offset, 11);
    assert_eq!(f.seek(&v, SeekFrom::End(-5)), Ok(6));
    assert_eq!(f.seek(&v, SeekFrom::Current(2)), Ok(8));
    assert_eq!(f.seek(&v, SeekFrom::Current(4)), Err(IoErrorKind::InvalidInput));
    assert_eq!(f.seek(&v, SeekFrom::End(-12)), Err(IoErrorKind::InvalidInput));
    assert_eq!(f.seek(&v, SeekFrom::End(1)), Err(IoErrorKind::InvalidInput));
    assert_eq!(f.seek(&v, SeekFrom::End(0)), Ok(11));
    assert_eq!(f.offset, 11);
}

#[test]
fn file_reads_from_where_it_seeks() {
    let v = sample_volume();
    let mut f = File::from_parts(Cluster(5), "README.MD".to_string(), Metadata::zeroed(), 700, 512, None);
    assert_eq!(f.seek(&v, SeekFrom::Start(600)), Ok(600));
    assert_eq!(f.current_cluster, Some(Cluster(6)));
    assert_eq!(f.read(&v, 100), Ok(big_file_bytes()[600..700].to_vec()));
    assert_eq!(f.seek(&v, SeekFrom::Start(10)), Ok(10));
    assert_eq!(f.current_cluster, Some(Cluster(5)));
    assert_eq!(f.read(&v, 600), Ok(big_file_bytes()[10..610].to_vec()));
    assert_eq!(f.seek(&v, SeekFrom::Current(-100)), Ok(510));
    assert_eq!(f.read(&v, 4), Ok(big_file_bytes()[510..514].to_vec()));
}

#[test]
fn file_seek_past_a_broken_chain() {
    let v = sample_volume();
    // Cluster 8 is free, so the chain cannot be followed past it.
    let mut f = File::from_parts(Cluster(8), "broken".to_string(), Metadata::zeroed(), 700, 512, None);
    assert_eq!(f.seek(&v, SeekFrom::Start(600)), Ok(600));
    assert_eq!(f.offset, 600);
    assert_eq!(f.current_cluster, None);
    assert_eq!(f.read(&v, 10), Err(IoErrorKind::InvalidInput));
    assert_eq!(f.offset, 600);
    assert_eq!(f.read(&v, 0), Ok(Vec::new()));
    assert_eq!(f.seek(&v, SeekFrom::Start(20)), Ok(20));
    assert_eq!(f.current_cluster, Some(Cluster(8)));
}

#[test]
fn file_write_grows_the_chain() {
    let mut v = sample_volume();
    let data: Vec<u8> = (0..600u32).map(|k| (k * 7 % 256) as u8).collect();
    let mut f = File::from_parts(Cluster(7), "new".to_string(), Metadata::zeroed(), 0, 512, None);
    assert_eq!(f.write(&mut v, &data), Ok(600));
    assert_eq!(f.offset, 600);
    assert_eq!(f.size, 600);
    assert_eq!(v.fat_entry(Cluster(7)), Ok(8));
    assert_eq!(v.fat_entry(Cluster(8)), Ok(END_OF_CHAIN));
    let mut again = File::from_parts(Cluster(7), "new".to_string(), Metadata::zeroed(), 600, 512, None);
    assert_eq!(again.read(&v, 600), Ok(data));
    let mut detached = File::from_parts(Cluster(7), "x".to_string(), Metadata::zeroed(), 0, 512, None);
    detached.current_cluster = None;
    assert_eq!(detached.write(&mut v, b"abc"), Err(IoErrorKind::InvalidInput));
}

#[test]
fn file_write_reads_back_from_the_same_place() {
    let mut v = sample_volume();
    let data: Vec<u8> = (0..400u32).map(|k| (k * 13 % 256) as u8).collect();
    let mut f = File::from_parts(Cluster(5), "README.MD".to_string(), Metadata::zeroed(), 700, 512, None);
    f.offset = 300;
    assert_eq!(f.write(&mut v, &data), Ok(400));
    assert_eq!(f.size, 700);
    assert_eq!(f.current_cluster, Some(Cluster(6)));
    let mut again = File::from_parts(Cluster(5), "README.MD".to_string(), Metadata::zeroed(), f.size, 512, None);
    again.offset = 300;
    assert_eq!(again.read(&v, 400), Ok(data));
    assert_eq!(again.current_cluster, f.current_cluster);
    assert_eq!(again.offset, 700);
}

#[test]
fn file_write_data_and_reserve() {
    let mut v = sample_volume();
    let f = File::from_parts(Cluster(3), "hello".to_string(), Metadata::zeroed(), 11, 512, None);
    assert_eq!(f.write_data(&mut v, b"HELLO"), Ok((5, Some(Cluster(3)))));
    assert_eq!(v.read_cluster(Cluster(3), 0, 11), Ok(b"HELLO world".to_vec()));
    assert_eq!(File::reserve(&mut v, Cluster(3), 1000), Ok(()));
    assert_eq!(v.size_to_chain_end(3), Ok(1024));
    assert_eq!(File::reserve(&mut v, Cluster(3), 100), Ok(()));
    assert_eq!(v.size_to_chain_end(3), Ok(1024));
}

#[test]
fn entries_show_names_and_sizes() {
    let d = Entry::Dir(Dir { first_cluster: Cluster(4), name: "SUB".to_string(), metadata: Metadata::zeroed(), size: 0 });
    assert_eq!(d.display_name(), "SUB/");
    let f = Entry::File(File::from_parts(Cluster(5), "a.bin".to_string(), Metadata::zeroed(), 1500, 512, None));
    assert_eq!(f.display_name(), "a.bin");
    let mut out: Vec<u8> = Vec::new();
    f.write_size(&mut out);
    out.push(b' ');
    f.write_human_size(&mut out);
    assert_eq!(String::from_utf8(out).unwrap(), "1500 1 KiB");
    let sizes = [(1023usize, "1023 B"), (1024, "1 KiB"), (5 * 1_048_576 + 3, "5 MiB"), (3 * 1_073_741_824, "3 GiB")];
    for (size, text) in sizes {
        let e = Entry::File(File::from_parts(Cluster(5), "s".to_string(), Metadata::zeroed(), size, 512, None));
        let mut out: Vec<u8> = Vec::new();
        e.write_human_size(&mut out);
        assert_eq!(String::from_utf8(out).unwrap(), text);
    }
}

#[test]
fn raw_directory_entries_decode() {
    let e = regular(b"README  ", b"MD ", 0x11, 0x0001_0005, 700);
    let r = VFatRegularDirEntry::parse(&e, 0);
    assert_eq!(r.cluster(), 0x0001_0005);
    assert!(r.is_dir());
    assert_eq!(r.file_size, 700);
    assert!(r.metadata().read_only());
    let l = VFatLfnDirEntry::parse(&lfn(0x42, "abc"), 0);
    assert_eq!(l.sequence_number(), 2);
    assert!(l.last_entry());
    assert_eq!(l.units()[..4], [0x61, 0x62, 0x63, 0][..]);
    let u = VFatUnknownDirEntry::parse(&lfn(0x01, "x"), 0);
    assert!(u.is_lfn());
    assert!(!u.is_unused());
    assert!(!u.is_end());
    let mut gone = [0u8; 32];
    gone[0] = 0xE5;
    assert!(VFatUnknownDirEntry::parse(&gone, 0).is_unused());
    assert!(VFatUnknownDirEntry::parse(&[0u8; 32], 0).is_end());
}

#[test]
fn names_decode() {
    assert_eq!(short_name(b"README  ", b"MD "), "README.MD");
    assert_eq!(short_name(b"SUB\0    ", b"\0  "), "SUB");
    assert_eq!(decode_utf16_lossy(&vec![0x48, 0xD800, 0x69]), "H\u{FFFD}i");
    assert_eq!(decode_utf16_lossy(&vec![0xD83D, 0xDE00]), "\u{1F600}");
    let first = VFatLfnDirEntry::parse(&lfn(0x01, "a very long n"), 0);
    let second = VFatLfnDirEntry::parse(&lfn(0x42, "ame.txt"), 0);
    assert_eq!(lfn_name(&vec![second, first]), "a very long name.txt");
    assert_eq!(lfn_name(&vec![first, second]), "a very long name.txt");
}

#[test]
fn timestamps_set_then_get() {
    let mut t = Timestamp::from_raw((0, 0));
    t.set_year(2024);
    t.set_month(7);
    t.set_day(31);
    t.set_hour(23);
    t.set_minute(59);
    t.set_second(59);
    assert_eq!((t.year(), t.month(), t.day()), (2024, 7, 31));
    assert_eq!((t.hour(), t.minute(), t.second()), (23, 59, 58));
    assert_eq!(t.text(), b"2024-07-31 23:59:58 UTC".to_vec());
    t.set_month(12);
    assert_eq!(t.month(), 12);
    assert_eq!(t.text(), b"2024-12-31 23:59:58 UTC".to_vec());
}

#[test]
fn metadata_flags_set_and_clear() {
    let mut m = Metadata::zeroed();
    m.set_read_only();
    m.set_hidden();
    m.set_directory();
    assert!(m.read_only() && m.hidden() && m.directory());
    m.clear_hidden();
    assert!(!m.hidden());
    m.set_system();
    m.set_volume_id();
    m.set_archive();
    assert!(m.system() && m.volume_id() && m.archive());
    m.clear_system();
    m.clear_volume_id();
    m.clear_archive();
    m.clear_read_only();
    m.clear_directory();
    assert_eq!(m.raw().0, 0);
    m.set_modified_timestamp(2001, 2, 3, 4, 5, 6);
    assert_eq!(m.modified().year(), 2001);
    assert_eq!(m.modified().second(), 6);
    assert_eq!(Metadata::from_raw(m.raw()), m);
    assert_eq!(
        String::from_utf8(m.text()).unwrap(),
        "-f-----  1980-00-00 00:00:00 UTC  2001-02-03 04:05:06 UTC"
    );
}

fn mbr_sector() -> [u8; 512] {
    let mut b = [0u8; 512];
    b[436..446].copy_from_slice(b"DISK-ID-01");
    b[446] = 0x80;
    b[446 + 4] = 0x0C;
    b[446 + 8..446 + 12].copy_from_slice(&2048u32.to_le_bytes());
    b[446 + 12..446 + 16].copy_from_slice(&100_000u32.to_le_bytes());
    b[462 + 4] = 0x83;
    b[510] = 0x55;
    b[511] = 0xAA;
    b
}

#[test]
fn master_boot_record_parses() {
    let m = MasterBootRecord::from_sector(&mbr_sector()).unwrap();
    let p = m.get_partition(0);
    assert!(p.bootable());
    assert!(p.is_fat32());
    assert_eq!(p.start_sector(), 2048);
    assert_eq!(p.total_sectors(), 100_000);
    assert_eq!(p.start_chs.sector(), 0);
    assert_eq!(p.start_chs.cylinder(), 0);
    assert!(!m.get_partition(1).is_fat32());
    assert!(!m.get_partition(1).bootable());
    assert_eq!(&m.disk_id, b"DISK-ID-01");
}

#[test]
fn master_boot_record_errors() {
    let mut b = mbr_sector();
    b[511] = 0;
    assert_eq!(MasterBootRecord::from_sector(&b), Err(MbrError::BadSignature));
    let mut b = mbr_sector();
    b[478] = 0x12;
    b[494] = 0x34;
    assert_eq!(MasterBootRecord::from_sector(&b), Err(MbrError::UnknownBootIndicator(2)));
}

fn ebpb_sector() -> [u8; 512] {
    let mut b = [0u8; 512];
    b[11..13].copy_from_slice(&512u16.to_le_bytes());
    b[13] = 1;
    b[14..16].copy_from_slice(&1u16.to_le_bytes());
    b[16] = 1;
    b[36..40].copy_from_slice(&1u32.to_le_bytes());
    b[44..48].copy_from_slice(&2u32.to_le_bytes());
    b[510] = 0x55;
    b[511] = 0xAA;
    b
}

#[test]
fn parameter_block_parses() {
    let e = BiosParameterBlock::from_sector(&ebpb_sector()).unwrap();
    assert_eq!(e.bytes_per_sector(), 512);
    assert_eq!(e.sectors_per_cluster(), 1);
    assert_eq!(e.sectors_per_fat(), 1);
    assert_eq!(e.fat_start_sector(), 1);
    assert_eq!(e.data_start_sector(), 2);
    assert_eq!(e.root_dir_cluster(), 2);
    let mut bad = ebpb_sector();
    bad[510] = 0;
    assert_eq!(BiosParameterBlock::from_sector(&bad), Err(VFatError::BadSignature));
}

#[test]
fn volume_mounts_from_partition() {
    let m = MasterBootRecord::from_sector(&mbr_sector()).unwrap();
    let e = BiosParameterBlock::from_sector(&ebpb_sector()).unwrap();
    let sectors = sample_volume().sectors;
    let v = VFat::from(m.get_partition(0), &e, sectors).ok().unwrap();
    assert_eq!(v.bytes_per_sector, 512);
    assert_eq!(v.data_start_sector, 2);
    assert_eq!(v.rootdir_cluster, Cluster(2));
    assert_eq!(v.read_cluster(Cluster(3), 0, 5), Ok(b"hello".to_vec()));
    assert!(matches!(VFat::from(m.get_partition(1), &e, Vec::new()), Err(VFatError::NotFound)));
}

#[test]
fn file_system_mounts_a_volume() {
    let mut fs = FileSystem::uninitialized();
    assert!(matches!(fs.volume(), Err(IoErrorKind::NotConnected)));
    fs.initialize(sample_volume());
    let v = fs.volume().ok().unwrap();
    assert_eq!(v.fat_entry(Cluster(5)), Ok(6));
}

#[test]
fn file_write_updates_the_size_in_its_directory() {
    let mut v = sample_volume();
    let mut f = match v.open(b"/long name.txt") {
        Ok(Entry::File(f)) => f,
        _ => panic!("file not found"),
    };
    assert_eq!(f.parent_first_cluster, Some(Cluster(2)));
    assert_eq!(f.write(&mut v, b"HELLO WORLD, AGAIN!!"), Ok(20));
    assert_eq!(f.size, 20);
    assert_eq!(read_le_u32(&v.sectors[2], 32 + 28), 20);
    match v.open(b"/long name.txt") {
        Ok(Entry::File(g)) => assert_eq!(g.size, 20),
        _ => panic!("file not found"),
    }
    let mut g = match v.open(b"/long name.txt") {
        Ok(Entry::File(g)) => g,
        _ => panic!("file not found"),
    };
    assert_eq!(g.write(&mut v, b"short"), Ok(5));
    assert_eq!(read_le_u32(&v.sectors[2], 32 + 28), 20);
}

fn small_disk() -> Vec<[u8; 512]> {
    let mut m = mbr_sector();
    m[446 + 8..446 + 12].copy_from_slice(&1u32.to_le_bytes());
    m[446 + 12..446 + 16].copy_from_slice(&(SECTORS as u32).to_le_bytes());
    let mut disk = vec![m];
    for s in sample_volume().sectors {
        let mut b = [0u8; 512];
        b.copy_from_slice(&s);
        disk.push(b);
    }
    disk[1] = ebpb_sector();
    disk
}

#[test]
fn disks_mount_their_first_partition() {
    let disk = small_disk();
    let v = VFat::mount(&disk).ok().unwrap();
    assert_eq!(v.bytes_per_sector, 512);
    assert_eq!(v.fat_start_sector, 1);
    assert_eq!(v.data_start_sector, 2);
    assert_eq!(v.sectors.len(), SECTORS);
    assert_eq!(v.read_cluster(Cluster(3), 0, 11), Ok(b"hello world".to_vec()));
    assert!(matches!(VFat::mount(&Vec::new()), Err(VFatError::Io(IoErrorKind::UnexpectedEof))));
    let mut bad = disk.clone();
    bad[0][510] = 0;
    assert!(matches!(VFat::mount(&bad), Err(VFatError::Mbr(MbrError::BadSignature))));
    let mut other = disk.clone();
    other[0][446 + 4] = 0x83;
    assert!(matches!(VFat::mount(&other), Err(VFatError::NotFound)));
    let mut far = disk.clone();
    far[0][446 + 8..446 + 12].copy_from_slice(&100u32.to_le_bytes());
    assert!(matches!(VFat::mount(&far), Err(VFatError::Io(IoErrorKind::UnexpectedEof))));
    let mut odd = disk.clone();
    odd[1][11..13].copy_from_slice(&100u16.to_le_bytes());
    assert!(matches!(VFat::mount(&odd), Err(VFatError::Io(IoErrorKind::InvalidData))));
}
