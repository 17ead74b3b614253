use brentos::fat32::cluster::Cluster;
use brentos::fat32::dir::{Dir, DirIterator, Entry, File};
use brentos::fat32::lookup::{bytes_eq_ignore_ascii_case, next_entries, path_components};
use brentos::fat32::metadata::Metadata;
use brentos::fat32::volume::{VFat, END_OF_CHAIN};
use brentos::kern::commands::{cat_exec, cd_exec, ls_exec, run_line, LineOutcome};
use brentos::kern::fs::FileSystem;
use brentos::kern::fs_calls::{
    check_user_path, sys_chdir_exec, sys_getdents_exec, sys_open_exec, sys_read_exec, sys_stat_exec,
    sys_write_exec, ReadOutcome,
};
use brentos::kern::process::{IOHandle, Process, State};
use brentos::kern::scheduler::Scheduler;
use brentos::kern::shell::{Command, MAX_ARGS};
use brentos::kern::syscall::USER_IMG_BASE;
use brentos::kern::traps::TrapFrame;
use brentos::kernel_api::fs::{DirEnt, DirType};
use brentos::kernel_api::IoErrorKind;

fn put_fat(v: &mut VFat, c: u32, value: u32) {
    let o = 4 * c as usize;
    v.sectors[1][o..o + 4].copy_from_slice(&value.to_le_bytes());
}

fn regular(name: &[u8; 8], ext: &[u8; 3], attr: u8, cluster: u32, size: u32) -> [u8; 32] {
    let mut e = [0u8; 32];
    e[0..8].copy_from_slice(name);
    e[8..11].copy_from_slice(ext);
    e[11] = attr;
    e[16..18].copy_from_slice(&((41u16 << 9) | (2 << 5) | 3).to_le_bytes());
    e[24..26].copy_from_slice(&((41u16 << 9) | (2 << 5) | 3).to_le_bytes());
    e[20..22].copy_from_slice(&((cluster >> 16) as u16).to_le_bytes());
    e[26..28].copy_from_slice(&(cluster as u16).to_le_bytes());
    e[28..32].copy_from_slice(&size.to_le_bytes());
    e
}

fn lfn(seq: u8, name: &str) -> [u8; 32] {
    let mut units: Vec<u16> = name.encode_utf16().collect();
    if units.len() < 13 {
        units.push(0);
    }
    while units.len() < 13 {
        units.push(0xFFFF);
    }
    let mut e = [0u8; 32];
    e[0] = seq;
    e[11] = 0x0F;
    let spots = [1, 3, 5, 7, 9, 14, 16, 18, 20, 22, 24, 28, 30];
    for (u, at) in units.iter().zip(spots.iter()) {
        e[*at..*at + 2].copy_from_slice(&u.to_le_bytes());
    }
    e
}

/// Root directory in cluster 2 holding `long name.txt` (cluster 3),
/// `SUB` (cluster 4, holding `INNER.TXT` in cluster 7) and `README.MD`
/// (clusters 5 and 6).
fn volume() -> VFat {
    let mut v = VFat {
        bytes_per_sector: 512,
        sectors_per_cluster: 1,
        sectors_per_fat: 1,
        fat_start_sector: 1,
        data_start_sector: 2,
        rootdir_cluster: Cluster(2),
        sectors: vec![vec![0u8; 512]; 12],
    };
    put_fat(&mut v, 0, 0x0FFF_FFF8);
    put_fat(&mut v, 1, 0x0FFF_FFFF);
    for c in [2u32, 3, 4, 6, 7] {
        put_fat(&mut v, c, END_OF_CHAIN);
    }
    put_fat(&mut v, 5, 6);
    let root = [
        lfn(0x41, "long name.txt"),
        regular(b"LONGNA~1", b"TXT", 0x20, 3, 11),
        regular(b"SUB     ", b"   ", 0x10, 4, 0),
        regular(b"README  ", b"MD ", 0x01, 5, 700),
    ];
    for (i, e) in root.iter().enumerate() {
        v.sectors[2][32 * i..32 * i + 32].copy_from_slice(e);
    }
    v.sectors[4][0..32].copy_from_slice(&regular(b"INNER   ", b"TXT", 0x20, 7, 5));
    v.sectors[3][0..11].copy_from_slice(b"hello world");
    for k in 0..700usize {
        v.sectors[5 + k / 512][k % 512] = (k % 251) as u8;
    }
    v.sectors[7][0..5].copy_from_slice(b"inner");
    v
}

fn mounted() -> FileSystem {
    let mut fs = FileSystem::uninitialized();
    fs.initialize(volume());
    fs
}

fn root_dir() -> Dir {
    Dir { first_cluster: Cluster(2), name: String::new(), metadata: Metadata::zeroed(), size: 0 }
}

fn name_of(e: &Entry) -> String {
    match e {
        Entry::File(f) => f.name.clone(),
        Entry::Dir(d) => d.name.clone(),
    }
}

fn kcmd(line: &str) -> Command {
    Command::parse(line.as_bytes(), MAX_ARGS).unwrap_or_else(|e| panic!("{:?}", e))
}

fn text(v: &[u8]) -> String {
    String::from_utf8(v.to_vec()).unwrap()
}

fn path(p: &str) -> Option<&[u8]> {
    Some(p.as_bytes())
}

fn process() -> Process {
    Process {
        context: TrapFrame::zeroed(),
        state: State::Ready,
        handles: vec![IOHandle::Console],
        stack_base: 0x10_0000,
        heap_ptr: 0x2_0000,
        heap_page: 0x2_0000,
        cwd: b"/".to_vec(),
        args: Vec::new(),
    }
}

fn caller() -> (Scheduler, TrapFrame) {
    let mut s = Scheduler::new();
    let id = s.add(process()).unwrap();
    let mut tf = TrapFrame::zeroed();
    tf.tpidr = id;
    (s, tf)
}

#[test]
fn names_compare_without_ascii_case() {
    assert!(bytes_eq_ignore_ascii_case(b"ReadMe.MD", b"readme.md"));
    assert!(!bytes_eq_ignore_ascii_case(b"readme", b"readme.md"));
    assert!(!bytes_eq_ignore_ascii_case(b"a[", b"A{"));
}

#[test]
fn path_components_skip_dots_and_slashes() {
    let parts = path_components(b"/a//b/./c/../");
    assert_eq!(parts, vec![b"a".to_vec(), b"b".to_vec(), b"c".to_vec()]);
    assert!(path_components(b"/").is_empty());
    assert_eq!(path_components(b"x/...").len(), 2);
}

#[test]
fn find_looks_names_up() {
    let v = volume();
    let root = root_dir();
    match root.find(&v, b"readme.md") {
        Ok(Entry::File(f)) => {
            assert_eq!(f.name, "README.MD");
            assert_eq!(f.size, 700);
            assert_eq!(f.first_cluster, Cluster(5));
        }
        _ => panic!("README.MD is a file"),
    }
    assert!(matches!(root.find(&v, b"Sub"), Ok(Entry::Dir(_))));
    assert!(matches!(root.find(&v, b"LONG NAME.TXT"), Ok(Entry::File(_))));
    assert!(matches!(root.find(&v, b"missing"), Err(IoErrorKind::NotFound)));
    assert!(matches!(root.find(&v, &[0xff]), Err(IoErrorKind::InvalidInput)));
}

#[test]
fn next_entries_takes_at_most_k() {
    let v = volume();
    let mut it: DirIterator = root_dir().entries(&v).ok().unwrap();
    let first = next_entries(&mut it, 2);
    assert_eq!(first.iter().map(name_of).collect::<Vec<_>>(), vec!["long name.txt", "SUB"]);
    let rest = next_entries(&mut it, 5);
    assert_eq!(rest.iter().map(name_of).collect::<Vec<_>>(), vec!["README.MD"]);
    assert!(next_entries(&mut it, 5).is_empty());
}

#[test]
fn open_walks_paths() {
    let v = volume();
    match v.open(b"/") {
        Ok(Entry::Dir(d)) => {
            assert_eq!(d.first_cluster, Cluster(2));
            assert_eq!(d.name, "");
        }
        _ => panic!("the root is a directory"),
    }
    match v.open(b"/sub/inner.txt") {
        Ok(Entry::File(f)) => {
            assert_eq!(f.name, "INNER.TXT");
            assert_eq!(f.size, 5);
        }
        _ => panic!("a file"),
    }
    assert!(matches!(v.open(b"//SUB/./"), Ok(Entry::Dir(_))));
    assert!(matches!(v.open(b"/sub/../README.MD"), Err(IoErrorKind::NotFound)));
    assert!(matches!(v.open(b"/long name.txt/x"), Err(IoErrorKind::NotFound)));
    assert!(matches!(v.open(b"sub"), Err(IoErrorKind::InvalidInput)));
}

#[test]
fn file_system_open_needs_a_volume() {
    let fs = FileSystem::uninitialized();
    assert!(matches!(fs.open(b"/"), Err(IoErrorKind::NotConnected)));
    assert!(fs.vfat().is_none());
    let fs = mounted();
    assert!(matches!(fs.open(b"/README.MD"), Ok(Entry::File(_))));
    assert!(fs.vfat().is_some());
}

#[test]
fn kernel_cd_follows_directories() {
    let fs = mounted();
    let mut cwd = b"/".to_vec();
    assert!(cd_exec(&fs, &kcmd("cd sub"), &mut cwd).is_ok());
    assert_eq!(cwd, b"/sub".to_vec());
    let e = cd_exec(&fs, &kcmd("cd inner.txt"), &mut cwd).err().unwrap();
    assert_eq!(text(&e.result), "cd: not a directory: inner.txt\n");
    let e = cd_exec(&fs, &kcmd("cd nope"), &mut cwd).err().unwrap();
    assert_eq!(text(&e.result), "cd: no such file or directory: nope\n");
    assert!(cd_exec(&fs, &kcmd("cd"), &mut cwd).is_ok());
    assert_eq!(cwd, b"/".to_vec());
}

#[test]
fn kernel_ls_lists_directories_and_files() {
    let fs = mounted();
    let o = ls_exec(&fs, &kcmd("ls"), b"/").ok().unwrap();
    assert_eq!(text(&o.result), "long name.txt  SUB/           README.MD      \n");
    let o = ls_exec(&fs, &kcmd("ls -l inner.txt"), b"/sub").ok().unwrap();
    assert_eq!(
        text(&o.result),
        "-f----a  2021-02-03 00:00:00 UTC  2021-02-03 00:00:00 UTC  5         INNER.TXT\n"
    );
    let e = ls_exec(&fs, &kcmd("ls nope"), b"/").err().unwrap();
    assert_eq!(text(&e.result), "ls: no such file or directory: nope\n");
    let e = ls_exec(&fs, &kcmd("ls -q"), b"/").err().unwrap();
    assert_eq!(text(&e.result), "ls: invalid option: -q\n");
}

#[test]
fn kernel_cat_prints_files() {
    let fs = mounted();
    let o = cat_exec(&fs, &kcmd("cat /sub/inner.txt inner.txt"), b"/sub").ok().unwrap();
    assert_eq!(text(&o.result), "inner\ninner\n");
    let e = cat_exec(&fs, &kcmd("cat /README.MD"), b"/").err().unwrap();
    assert_eq!(text(&e.result), "cat: /README.MD: file not valid UTF-8\n");
    let e = cat_exec(&fs, &kcmd("cat sub"), b"/").err().unwrap();
    assert_eq!(text(&e.result), "cat: sub: is a directory\n");
    let e = cat_exec(&fs, &kcmd("cat sub/inner.txt nope"), b"/").err().unwrap();
    assert_eq!(text(&e.result), "inner\ncat: nope no such fhe or directory\n");
}

#[test]
fn kernel_lines_dispatch() {
    let fs = mounted();
    let mut cwd = b"/".to_vec();
    match run_line(&fs, b"echo hi  there", &mut cwd) {
        LineOutcome::Ran(out, code) => assert_eq!((text(&out), code), ("hi there\n".to_string(), 0)),
        _ => panic!("echo runs"),
    }
    assert!(matches!(run_line(&fs, b"   ", &mut cwd), LineOutcome::Refused(t) if t.is_empty()));
    assert!(matches!(run_line(&fs, b"panic!", &mut cwd), LineOutcome::Panic));
    assert!(matches!(run_line(&fs, b"cd sub", &mut cwd), LineOutcome::Ran(_, 0)));
    assert_eq!(cwd, b"/sub".to_vec());
    match run_line(&fs, b"pwd", &mut cwd) {
        LineOutcome::Ran(out, code) => assert_eq!((text(&out), code), ("/sub\n".to_string(), 0)),
        _ => panic!("pwd runs"),
    }
    match run_line(&fs, b"frob", &mut cwd) {
        LineOutcome::Ran(out, code) => assert_eq!((text(&out), code), ("bwsh: command not found: frob\n".to_string(), 1)),
        _ => panic!("unknown commands run"),
    }
    let many = vec!["a"; 65].join(" ");
    match run_line(&fs, many.as_bytes(), &mut cwd) {
        LineOutcome::Refused(t) => assert_eq!(text(&t), "bwsh: too many arguments\n"),
        _ => panic!("too many arguments"),
    }
}

#[test]
fn user_paths_are_checked() {
    let mut tf = TrapFrame::zeroed();
    assert!(!check_user_path(None, &mut tf));
    assert_eq!(tf.x[7], 50);
    assert!(!check_user_path(Some(&[0xc0u8][..]), &mut tf));
    assert_eq!(tf.x[7], 2);
    let mut tf = TrapFrame::zeroed();
    assert!(check_user_path(path("/a"), &mut tf));
    assert_eq!(tf, TrapFrame::zeroed());
}

#[test]
fn chdir_call_moves_the_process() {
    let fs = mounted();
    let (mut s, mut tf) = caller();
    sys_chdir_exec(&mut s, &fs, path("sub"), &mut tf);
    assert_eq!(tf.x[7], 1);
    assert_eq!(s.process(0).cwd, b"/sub".to_vec());
    sys_chdir_exec(&mut s, &fs, path("inner.txt"), &mut tf);
    assert_eq!(tf.x[7], 90);
    sys_chdir_exec(&mut s, &fs, path("/nope"), &mut tf);
    assert_eq!(tf.x[7], 10);
    assert_eq!(s.process(0).cwd, b"/sub".to_vec());
}

#[test]
fn open_read_write_calls_use_the_file_table() {
    let fs = mounted();
    let (mut s, mut tf) = caller();
    let mut files: Vec<File> = Vec::new();
    sys_open_exec(&mut s, &fs, &mut files, path("/sub/inner.txt"), &mut tf);
    assert_eq!((tf.x[0], tf.x[7]), (1, 1));
    assert_eq!(files.len(), 1);
    assert_eq!(s.process(0).handles[1], IOHandle::File(0));
    sys_open_exec(&mut s, &fs, &mut files, path("/sub"), &mut tf);
    assert_eq!(tf.x[7], 104);
    let v = fs.vfat().unwrap();
    match sys_read_exec(&s, v, &mut files, 1, USER_IMG_BASE, 3, &mut tf) {
        ReadOutcome::Bytes(b) => assert_eq!(b, b"inn".to_vec()),
        _ => panic!("a file is read"),
    }
    assert_eq!((tf.x[0], tf.x[7]), (3, 1));
    match sys_read_exec(&s, v, &mut files, 1, USER_IMG_BASE, 10, &mut tf) {
        ReadOutcome::Bytes(b) => assert_eq!(b, b"er".to_vec()),
        _ => panic!("a file is read"),
    }
    assert!(matches!(sys_read_exec(&s, v, &mut files, 0, USER_IMG_BASE, 1, &mut tf), ReadOutcome::Console));
    assert!(matches!(sys_read_exec(&s, v, &mut files, 9, USER_IMG_BASE, 1, &mut tf), ReadOutcome::Done));
    assert_eq!(tf.x[7], 10);
    assert!(matches!(sys_read_exec(&s, v, &mut files, 1, USER_IMG_BASE, 0, &mut tf), ReadOutcome::Done));
    assert_eq!((tf.x[0], tf.x[7]), (0, 1));
}

#[test]
fn write_calls_reach_console_and_files() {
    let (mut s, mut tf) = caller();
    let mut v = volume();
    let mut files = vec![File::from_parts(Cluster(7), "INNER.TXT".to_string(), Metadata::zeroed(), 5, 512, None)];
    s.replace_process(0, Process { handles: vec![IOHandle::Console, IOHandle::File(0)], ..s.process(0).clone() });
    assert_eq!(sys_write_exec(&s, &mut v, &mut files, 0, USER_IMG_BASE, 3, b"hey", &mut tf), Some("hey"));
    assert_eq!((tf.x[0], tf.x[7]), (3, 1));
    assert_eq!(sys_write_exec(&s, &mut v, &mut files, 0, USER_IMG_BASE, 1, &[0xff], &mut tf), None);
    assert_eq!(tf.x[7], 2);
    assert_eq!(sys_write_exec(&s, &mut v, &mut files, 1, USER_IMG_BASE, 6, b"OUTER!", &mut tf), None);
    assert_eq!((tf.x[0], tf.x[7]), (6, 1));
    assert_eq!(files[0].size, 6);
    assert_eq!(v.read_cluster(Cluster(7), 0, 6), Ok(b"OUTER!".to_vec()));
    assert_eq!(sys_write_exec(&s, &mut v, &mut files, 1, 0x10, 6, b"", &mut tf), None);
    assert_eq!(tf.x[7], 50);
}

#[test]
fn stat_call_reports_metadata() {
    let fs = mounted();
    let (s, mut tf) = caller();
    let st = sys_stat_exec(&s, &fs, path("/README.MD"), USER_IMG_BASE, &mut tf).unwrap();
    assert_eq!(st.size, 700);
    assert!(st.metadata.read_only());
    assert_eq!(tf.x[7], 1);
    let root = sys_stat_exec(&s, &fs, path("/"), USER_IMG_BASE, &mut tf).unwrap();
    assert_eq!(root.size, 0);
    assert!(sys_stat_exec(&s, &fs, path("/x"), USER_IMG_BASE, &mut tf).is_none());
    assert_eq!(tf.x[7], 10);
    assert!(sys_stat_exec(&s, &fs, path("/README.MD"), 0x10, &mut tf).is_none());
    assert_eq!(tf.x[7], 50);
}

#[test]
fn getdents_call_lists_entries() {
    let fs = mounted();
    let (s, mut tf) = caller();
    let mut buf = vec![DirEnt::default_entry(); 2];
    sys_getdents_exec(&s, &fs, path("/"), USER_IMG_BASE, &mut buf, 0, &mut tf);
    assert_eq!((tf.x[0], tf.x[7]), (2, 1));
    assert_eq!(buf[0].name().unwrap(), "long name.txt");
    assert_eq!(*buf[1].d_type(), DirType::Dir);
    sys_getdents_exec(&s, &fs, path("/"), USER_IMG_BASE, &mut buf, 2, &mut tf);
    assert_eq!((tf.x[0], tf.x[7]), (1, 1));
    assert_eq!(buf[0].name().unwrap(), "README.MD");
    sys_getdents_exec(&s, &fs, path("/"), USER_IMG_BASE, &mut buf, 9, &mut tf);
    assert_eq!(tf.x[7], 104);
    sys_getdents_exec(&s, &fs, path("/sub/inner.txt"), USER_IMG_BASE, &mut buf, 0, &mut tf);
    assert_eq!((tf.x[0], tf.x[7]), (1, 1));
    assert_eq!(buf[0].name().unwrap(), "INNER.TXT");
    assert_eq!(*buf[0].d_type(), DirType::File);
    let mut none: Vec<DirEnt> = Vec::new();
    sys_getdents_exec(&s, &fs, None, 0, &mut none, 0, &mut tf);
    assert_eq!((tf.x[0], tf.x[7]), (0, 1));
}
