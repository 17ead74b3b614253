use brentos::kern::io_calls::{
    check_dents_buffer, check_path, check_user_range, console_write, finish_transfer, sys_chdir_finish,
    sys_getdents_dir, sys_getdents_file, sys_load_finish, sys_open_finish, sys_read_target, sys_stat_finish,
    sys_write_str_target, sys_write_target, working_path, IoTarget,
};
use brentos::kern::irq::{Irq, IRQ_COUNT};
use brentos::kern::mutex::Mutex;
use brentos::kern::net_calls::{
    attach_error, claim_port, connect_endpoint, sys_attach_finish, sys_transfer_finish, sys_transfer_target,
    transfer_error, NetErrorKind,
};
use brentos::kern::process::{IOHandle, Process, State};
use brentos::kern::scheduler::Scheduler;
use brentos::kern::syscall::USER_IMG_BASE;
use brentos::kern::traps::TrapFrame;
use brentos::kernel_api::fs::{DirEnt, DirType};
use brentos::kernel_api::{IoErrorKind, OsError};
use smoltcp::wire::{IpAddress, IpEndpoint};

fn process() -> Process {
    Process {
        context: TrapFrame::zeroed(),
        state: State::Ready,
        handles: vec![IOHandle::Console, IOHandle::File(5), IOHandle::Socket(9)],
        stack_base: 0x10_0000,
        heap_ptr: 0x2_0000,
        heap_page: 0x2_0000,
        cwd: b"/home".to_vec(),
        args: Vec::new(),
    }
}

fn setup() -> (Scheduler, TrapFrame) {
    let mut s = Scheduler::new();
    let id = s.add(process()).unwrap();
    let mut tf = TrapFrame::zeroed();
    tf.tpidr = id;
    (s, tf)
}

#[test]
fn user_range_and_path_checks() {
    let (_, mut tf) = setup();
    assert!(check_user_range(USER_IMG_BASE, 10, &mut tf));
    assert!(!check_user_range(0x8000, 10, &mut tf));
    assert_eq!(tf.x[7], 50);
    let (_, mut tf) = setup();
    assert!(check_path(b"/a/b", &mut tf));
    assert!(!check_path(&[0xc3, 0x28], &mut tf));
    assert_eq!(tf.x[7], 2);
    assert!(check_dents_buffer(USER_IMG_BASE, 4, &mut tf));
    assert!(!check_dents_buffer(u64::MAX - 600, 2, &mut tf));
    assert_eq!(tf.x[7], 50);
}

#[test]
fn read_and_write_targets_follow_handles() {
    let (s, mut tf) = setup();
    assert_eq!(sys_read_target(&s, 0, USER_IMG_BASE, 8, &mut tf), IoTarget::Console);
    assert_eq!(sys_read_target(&s, 1, USER_IMG_BASE, 8, &mut tf), IoTarget::File(5));
    assert_eq!(sys_write_target(&s, 2, USER_IMG_BASE, 8, &mut tf), IoTarget::Done);
    assert_eq!(tf.x[7], 80);
    assert_eq!(sys_write_target(&s, 7, USER_IMG_BASE, 8, &mut tf), IoTarget::Done);
    assert_eq!(tf.x[7], 10);
    assert_eq!(sys_read_target(&s, 0, 0x10, 8, &mut tf), IoTarget::Done);
    assert_eq!(tf.x[7], 50);
    assert_eq!(sys_read_target(&s, 0, 0x10, 0, &mut tf), IoTarget::Done);
    assert_eq!((tf.x[0], tf.x[7]), (0, 1));
}

#[test]
fn write_str_targets() {
    let (s, mut tf) = setup();
    assert_eq!(sys_write_str_target(&s, 0, b"hi", &mut tf), IoTarget::Console);
    assert_eq!(sys_write_str_target(&s, 2, b"hi", &mut tf), IoTarget::Done);
    assert_eq!(tf.x[7], 101);
    assert_eq!(sys_write_str_target(&s, 0, &[0xff], &mut tf), IoTarget::Done);
    assert_eq!(tf.x[7], 70);
}

#[test]
fn console_write_and_transfers() {
    let (_, mut tf) = setup();
    assert_eq!(console_write(b"hello", &mut tf), Some("hello"));
    assert_eq!((tf.x[0], tf.x[7]), (5, 1));
    assert_eq!(console_write(&[0x80], &mut tf), None);
    assert_eq!(tf.x[7], 2);
    finish_transfer(Ok(12), &mut tf);
    assert_eq!((tf.x[0], tf.x[7]), (12, 1));
    finish_transfer(Err(IoErrorKind::UnexpectedEof), &mut tf);
    assert_eq!(tf.x[7], 102);
}

#[test]
fn working_path_uses_cwd() {
    let (s, tf) = setup();
    assert_eq!(working_path(&s, b"notes.txt", &tf), b"/home/notes.txt".to_vec());
    assert_eq!(working_path(&s, b"/etc/../bin", &tf), b"/bin".to_vec());
}

#[test]
fn open_adds_a_file_handle() {
    let (mut s, mut tf) = setup();
    sys_open_finish(&mut s, Ok(Some(42)), &mut tf);
    assert_eq!((tf.x[0], tf.x[7]), (3, 1));
    assert_eq!(s.process(0).handles[3], IOHandle::File(42));
    sys_open_finish(&mut s, Ok(None), &mut tf);
    assert_eq!(tf.x[7], 104);
    sys_open_finish(&mut s, Err(IoErrorKind::NotFound), &mut tf);
    assert_eq!(tf.x[7], 10);
    assert_eq!(s.process(0).handles.len(), 4);
}

#[test]
fn chdir_changes_cwd_only_for_directories() {
    let (mut s, mut tf) = setup();
    sys_chdir_finish(&mut s, b"/home/a.txt".to_vec(), Ok(false), &mut tf);
    assert_eq!(tf.x[7], 90);
    assert_eq!(s.process(0).cwd, b"/home".to_vec());
    sys_chdir_finish(&mut s, b"/usr".to_vec(), Ok(true), &mut tf);
    assert_eq!(tf.x[7], 1);
    assert_eq!(s.process(0).cwd, b"/usr".to_vec());
    sys_chdir_finish(&mut s, b"/x".to_vec(), Err(IoErrorKind::NotFound), &mut tf);
    assert_eq!(tf.x[7], 10);
}

#[test]
fn stat_records_metadata() {
    let (_, mut tf) = setup();
    let st = sys_stat_finish(Ok(((0x10, [1, 2, 3, 4, 5]), 77)), &mut tf).unwrap();
    assert_eq!(st.size, 77);
    assert!(st.metadata.directory());
    assert_eq!(tf.x[7], 1);
    assert!(sys_stat_finish(Err(IoErrorKind::InvalidData), &mut tf).is_none());
    assert_eq!(tf.x[7], 103);
}

#[test]
fn getdents_fills_records() {
    let (_, mut tf) = setup();
    let mut buf = vec![DirEnt::default_entry(); 2];
    let entries = vec![("a.txt".to_string(), true), ("sub".to_string(), false), ("c".to_string(), true)];
    sys_getdents_dir(&mut buf, &entries, &mut tf);
    assert_eq!((tf.x[0], tf.x[7]), (2, 1));
    assert_eq!(buf[0].name().unwrap(), "a.txt");
    assert_eq!(*buf[0].d_type(), DirType::File);
    assert_eq!(buf[1].name().unwrap(), "sub");
    assert_eq!(*buf[1].d_type(), DirType::Dir);
    let mut one = vec![DirEnt::default_entry(); 3];
    sys_getdents_file(&mut one, "f.bin", 0, &mut tf);
    assert_eq!(tf.x[0], 1);
    assert_eq!(one[0].name().unwrap(), "f.bin");
    assert_eq!(one[1].name().unwrap(), "");
    sys_getdents_file(&mut one, "g.bin", 1, &mut tf);
    assert_eq!(tf.x[0], 0);
    assert_eq!(one[0].name().unwrap(), "f.bin");
}

#[test]
fn load_queues_the_process() {
    let (mut s, mut tf) = setup();
    sys_load_finish(&mut s, Ok(process()), &mut tf);
    assert_eq!(tf.x[7], 1);
    let pid = tf.x[0];
    assert_eq!(s.find_process_by_pid(pid), Some(1));
    sys_load_finish(&mut s, Err(OsError::NoMemory), &mut tf);
    assert_eq!(tf.x[7], 20);
    assert_eq!(s.len(), 2);
}

#[test]
fn network_statuses() {
    assert_eq!(attach_error(NetErrorKind::Illegal), OsError::IllegalSocketOperation);
    assert_eq!(attach_error(NetErrorKind::Unaddressable), OsError::BadAddress);
    assert_eq!(attach_error(NetErrorKind::Other), OsError::Unknown);
    assert_eq!(transfer_error(NetErrorKind::Unaddressable), OsError::Unknown);
    let mut tf = TrapFrame::zeroed();
    sys_attach_finish(Ok(()), &mut tf);
    assert_eq!(tf.x[7], 1);
    sys_attach_finish(Err(smoltcp::Error::Illegal), &mut tf);
    assert_eq!(tf.x[7], 201);
    sys_attach_finish(Err(smoltcp::Error::Unaddressable), &mut tf);
    assert_eq!(tf.x[7], 50);
    sys_attach_finish(Err(smoltcp::Error::Exhausted), &mut tf);
    assert_eq!(tf.x[7], 0);
    sys_transfer_finish(Ok(64), &mut tf);
    assert_eq!((tf.x[0], tf.x[7]), (64, 1));
    sys_transfer_finish(Err(smoltcp::Error::Illegal), &mut tf);
    assert_eq!(tf.x[7], 201);
    sys_transfer_finish(Err(smoltcp::Error::Unaddressable), &mut tf);
    assert_eq!(tf.x[7], 0);
}

#[test]
fn connect_endpoint_from_registers() {
    let e = connect_endpoint(0xdead_C0A8_0114, 0x1_0050);
    assert_eq!(e, IpEndpoint::new(IpAddress::v4(192, 168, 1, 20), 80));
    assert_eq!(e.port, 80);
}

#[test]
fn ports_and_socket_targets() {
    let (s, mut tf) = setup();
    assert_eq!(claim_port(Some(1025), &mut tf), Some(1025));
    assert_eq!(claim_port(None, &mut tf), None);
    assert_eq!(tf.x[7], 10);
    assert_eq!(sys_transfer_target(&s, 2, USER_IMG_BASE, 4, &mut tf), Some(9));
    assert_eq!(sys_transfer_target(&s, 1, USER_IMG_BASE, 4, &mut tf), None);
    assert_eq!(tf.x[7], 200);
    assert_eq!(sys_transfer_target(&s, 2, 0, 4, &mut tf), None);
    assert_eq!(tf.x[7], 50);
    assert_eq!(sys_transfer_target(&s, 2, 0, 0, &mut tf), None);
    assert_eq!((tf.x[0], tf.x[7]), (0, 1));
}

#[test]
fn mutex_lock_cycle() {
    let mut m = Mutex::new(5u32);
    assert!(m.try_lock(1, true));
    assert!(!m.try_lock(2, true));
    assert!(!m.try_lock(1, true));
    m.unlock(2, true);
    assert!(!m.try_lock(2, true));
    m.unlock(1, true);
    assert!(m.try_lock(2, true));
    m.unlock(2, true);
    {
        let g = m.lock(0, false);
        assert_eq!(*g.get(), 5);
    }
    assert!(m.try_lock(0, false));
    m.unlock(0, false);
    *m.get_mut() = 6;
    assert_eq!(*m.peek(), 6);
}

#[test]
fn irq_table_registers_handlers() {
    let mut irq = Irq::uninitialized();
    irq.initialize();
    irq.register(3, 1234);
    irq.register(IRQ_COUNT - 1, 99);
    assert_eq!(irq.invoke(3), 1234);
    assert_eq!(irq.invoke(IRQ_COUNT - 1), 99);
    irq.register(3, 55);
    assert_eq!(irq.invoke(3), 55);
}
