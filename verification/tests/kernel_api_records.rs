use brentos::kernel_api::fs::{
    push_flag, Attributes, Date, DirEnt, DirType, Handle, HandleDescriptor, Metadata, Stat, Time, Timestamp,
};
use brentos::kernel_api::network::IpAddr;
use brentos::kernel_api::syscall::ArgReader;
use brentos::kernel_api::{IoErrorKind, OsError};

const ALL_ERRORS: [OsError; 22] = [
    OsError::Unknown,
    OsError::Success,
    OsError::Utf8Error,
    OsError::FmtError,
    OsError::InvalidPid,
    OsError::MaxPidExceeded,
    OsError::NoEntry,
    OsError::NoMemory,
    OsError::NoVmSpace,
    OsError::NoAccess,
    OsError::BadAddress,
    OsError::FileExists,
    OsError::InvalidArgument,
    OsError::NotAFile,
    OsError::NotADir,
    OsError::IoError,
    OsError::IoErrorEof,
    OsError::IoErrorInvalidData,
    OsError::IoErrorInvalidInput,
    OsError::IoErrorTimedOut,
    OsError::InvalidSocket,
    OsError::IllegalSocketOperation,
];

#[test]
fn os_error_codes() {
    assert_eq!(OsError::Success.code(), 1);
    assert_eq!(OsError::NoEntry.code(), 10);
    assert_eq!(OsError::IoErrorEof.code(), 102);
    assert_eq!(OsError::IllegalSocketOperation.code(), 201);
    assert_eq!(OsError::from_code(60), OsError::FileExists);
    assert_eq!(OsError::from_code(7), OsError::Unknown);
    assert_eq!(OsError::from_code(105), OsError::Unknown);
}

#[test]
fn os_error_code_round_trip() {
    for e in ALL_ERRORS {
        if e != OsError::IoErrorTimedOut {
            assert_eq!(OsError::from_code(e.code()), e);
        }
    }
}

#[test]
fn os_error_names_match_debug() {
    for e in ALL_ERRORS {
        if e != OsError::Success {
            assert_eq!(e.debug_name(), format!("{:?}", e));
        }
    }
    assert_eq!(OsError::Success.debug_name(), "Ok");
}

#[test]
fn os_error_check_and_io() {
    assert_eq!(OsError::check(1, 5u64), Ok(5));
    assert_eq!(OsError::check(10, 5u64), Err(OsError::NoEntry));
    assert_eq!(OsError::check(0, ()), Err(OsError::Unknown));
    assert_eq!(OsError::from_io(IoErrorKind::UnexpectedEof), OsError::IoErrorEof);
    assert_eq!(OsError::from_io(IoErrorKind::NotFound), OsError::NoEntry);
    assert_eq!(OsError::from_io(IoErrorKind::TimedOut), OsError::IoErrorTimedOut);
    assert_eq!(OsError::from_io(IoErrorKind::BrokenPipe), OsError::IoError);
}

#[test]
fn handles_and_descriptors() {
    let d = HandleDescriptor::from_raw(42);
    assert_eq!(d.raw(), 42);
    assert_eq!(HandleDescriptor::from_handle(Handle::File(HandleDescriptor(7))).raw(), 7);
    assert_eq!(HandleDescriptor::from_handle(Handle::StdErr).raw(), 2);
    assert_eq!(Handle::StdOut.raw(), 1);
    assert_eq!(Handle::Socket(HandleDescriptor(9)).raw(), 9);
}

#[test]
fn dirent_name_round_trip() {
    let mut e = DirEnt::new(DirType::File, "hello.txt");
    assert_eq!(e.name().unwrap(), "hello.txt");
    assert_eq!(*e.d_type(), DirType::File);
    assert!(e.set_name("other").is_ok());
    assert_eq!(e.name().unwrap(), "other");
    assert!(e.set_name("h\u{e9}llo \u{1F600}").is_ok());
    assert_eq!(e.name().unwrap(), "h\u{e9}llo \u{1F600}");
    assert!(e.set_name("other").is_ok());
    let long = "x".repeat(513);
    assert!(e.set_name(&long).is_err());
    assert_eq!(e.name().unwrap(), "other");
    e.set_d_type(DirType::Dir);
    assert_eq!(*e.d_type(), DirType::Dir);
    let d = DirEnt::default_entry();
    assert_eq!(d.name().unwrap(), "");
    assert_eq!(*d.d_type(), DirType::NoType);
}

#[test]
fn timestamp_fields() {
    // 2019-03-15 13:45:20
    let date: u16 = ((2019 - 1980) << 9) | (3 << 5) | 15;
    let time: u16 = (13 << 11) | (45 << 5) | 10;
    let t = Timestamp::from_raw((date, time));
    assert_eq!(t.year(), 2019);
    assert_eq!(t.month(), 3);
    assert_eq!(t.day(), 15);
    assert_eq!(t.hour(), 13);
    assert_eq!(t.minute(), 45);
    assert_eq!(t.second(), 20);
    assert_eq!(t.text(), b"2019-03-15 13:45:20 UTC".to_vec());
}

#[test]
fn timestamp_months_read_in_full() {
    let date: u16 = (40 << 9) | (8 << 5) | 1;
    assert_eq!(Timestamp::from_raw((date, 0)).month(), 8);
    let date: u16 = (40 << 9) | (12 << 5) | 1;
    assert_eq!(Timestamp::from_raw((date, 0)).month(), 12);
}

#[test]
fn metadata_flags_and_text() {
    let date: u16 = (41 << 9) | (1 << 5) | 2;
    let time: u16 = (3 << 11) | (4 << 5) | 5;
    let m = Metadata::from_raw((0x10 | 0x01 | 0x20, [date, time, date, date, time]));
    assert!(m.directory());
    assert!(m.read_only());
    assert!(m.archive());
    assert!(!m.hidden());
    assert!(!m.system());
    assert!(!m.volume_id());
    assert_eq!(m.attributes, Attributes(0x31));
    assert_eq!(m.accessed().date, Date(date));
    assert_eq!(m.accessed().time, Time(0));
    assert_eq!(m.created(), m.modified());
    let s = String::from_utf8(m.text()).unwrap();
    assert_eq!(s, "d-r---a  2021-01-02 03:04:10 UTC  2021-01-02 03:04:10 UTC");
    let f = Metadata::from_raw((0x02, [0, 0, 0, 0, 0]));
    assert_eq!(String::from_utf8(f.text()).unwrap(), "-f-h---  1980-00-00 00:00:00 UTC  1980-00-00 00:00:00 UTC");
}

#[test]
fn push_flag_letters() {
    let mut out: Vec<u8> = Vec::new();
    push_flag(&mut out, true, b'r');
    push_flag(&mut out, false, b'h');
    assert_eq!(out, b"r-".to_vec());
}

#[test]
fn stat_records() {
    let mut s = Stat::default_stat();
    assert_eq!(s.size(), 0);
    s.set_size(4096);
    s.set_metadata_from_raw((0x01, [1, 2, 3, 4, 5]));
    assert_eq!(s.size(), 4096);
    assert_eq!(s.metadata(), Metadata::from_raw((0x01, [1, 2, 3, 4, 5])));
    assert_eq!(s.metadata().attributes.value(), 0x01);
}

#[test]
fn ip_addr_octets_round_trip() {
    let a = IpAddr::new((192, 168, 1, 20), 8080);
    assert_eq!(a.ip, 0xC0A8_0114);
    assert_eq!(a.port, 8080);
    assert_eq!(a.octets(), (192, 168, 1, 20));
}

#[test]
fn arg_reader_reassembles_chunks() {
    let arg: Vec<u8> = (0..150u32).map(|i| (i % 251) as u8).collect();
    let mut r = ArgReader::new();
    let mut offset = 0;
    loop {
        let mut buf = [0u8; 64];
        let n = std::cmp::min(64, arg.len() - offset);
        buf[..n].copy_from_slice(&arg[offset..offset + n]);
        offset += n;
        if r.absorb(&buf, n) {
            break;
        }
    }
    assert_eq!(r.finish(), arg);
}
