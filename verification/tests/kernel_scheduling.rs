use brentos::kern::process::{IOHandle, Process, State, WaitEvent};
use brentos::kern::scheduler::Scheduler;
use brentos::kern::syscall::{
    handle_syscall, rand_in_range, read_from_offset, set_status, set_value_ok, sleep_state, sock_lookup,
    sys_args_count, sys_brk, sys_exit, sys_getcwd, sys_getpid, sys_push_arg, sys_read_arg, sys_sbrk, sys_sleep,
    sys_rand, sys_sock_create, sys_sock_status, sys_time, to_user_slice, Syscall, PAGE_SIZE, USER_IMG_BASE,
};
use brentos::kern::traps::TrapFrame;
use brentos::kernel_api::network::SocketStatus;
use brentos::kernel_api::OsError;

fn process(cwd: &str) -> Process {
    Process {
        context: TrapFrame::zeroed(),
        state: State::Ready,
        handles: vec![IOHandle::Console],
        stack_base: 0x10_0000,
        heap_ptr: 0x2_0000,
        heap_page: 0x2_0000,
        cwd: cwd.as_bytes().to_vec(),
        args: vec![b"prog".to_vec(), b"first argument".to_vec()],
    }
}

fn frame_of(id: u64) -> TrapFrame {
    let mut tf = TrapFrame::zeroed();
    tf.tpidr = id;
    tf
}

#[test]
fn scheduler_assigns_increasing_ids() {
    let mut s = Scheduler::new();
    assert_eq!(s.len(), 0);
    let a = s.add(process("/")).unwrap();
    let b = s.add(process("/")).unwrap();
    let c = s.add(process("/")).unwrap();
    assert!(a < b && b < c);
    assert_eq!(s.len(), 3);
    assert_eq!(s.process(0).context.tpidr, a);
    assert_eq!(s.find_process_by_pid(b), Some(1));
    assert_eq!(s.find_process_by_pid(99), None);
}

#[test]
fn scheduler_switches_round_robin() {
    let mut s = Scheduler::new();
    let a = s.add(process("/")).unwrap();
    let b = s.add(process("/")).unwrap();
    let mut tf = TrapFrame::zeroed();
    assert_eq!(s.switch_to(&mut tf, 0), Some(a));
    assert_eq!(tf.tpidr, a);
    assert_eq!(s.process(0).state, State::Running);
    assert!(s.schedule_out(State::Ready, &tf));
    assert_eq!(s.switch_to(&mut tf, 0), Some(b));
    assert!(s.schedule_out(State::Ready, &tf));
    assert_eq!(s.switch_to(&mut tf, 0), Some(a));
}

#[test]
fn scheduler_wakes_sleepers_when_due() {
    let mut s = Scheduler::new();
    let a = s.add(process("/")).unwrap();
    let mut tf = TrapFrame::zeroed();
    assert_eq!(s.switch_to(&mut tf, 0), Some(a));
    assert!(sys_sleep(5, 1_000, &mut s, &tf));
    assert_eq!(s.switch_to(&mut tf, 3_000), None);
    assert_eq!(s.switch_to(&mut tf, 6_000), Some(a));
    assert_eq!(tf.x[0], 5);
    assert_eq!(tf.x[7], 1);
}

#[test]
fn scheduler_kill_removes_process() {
    let mut s = Scheduler::new();
    let a = s.add(process("/")).unwrap();
    let b = s.add(process("/")).unwrap();
    assert_eq!(sys_exit(&mut s, &frame_of(a)), Some(a));
    assert_eq!(s.len(), 1);
    assert_eq!(s.find_process_by_pid(a), None);
    assert_eq!(s.find_process_by_pid(b), Some(0));
    assert_eq!(s.kill(&frame_of(a)), None);
    assert!(!s.schedule_out(State::Ready, &frame_of(a)));
}

#[test]
fn process_is_ready_polls_sleep() {
    let mut p = process("/");
    p.state = sleep_state(2, 100);
    assert_eq!(p.state, State::Waiting(WaitEvent::Sleep { start: 100, end: 2_100 }));
    assert!(!p.is_ready(2_000));
    assert!(p.is_ready(4_100));
    assert_eq!(p.state, State::Ready);
    assert_eq!(p.context.x[0], 4);
}

#[test]
fn syscall_registers() {
    let mut tf = frame_of(7);
    sys_getpid(&mut tf);
    assert_eq!((tf.x[0], tf.x[7]), (7, 1));
    sys_time(3_500_001, &mut tf);
    assert_eq!((tf.x[0], tf.x[1], tf.x[7]), (3, 500_001_000, 1));
    set_status(&mut tf, OsError::NoMemory);
    assert_eq!(tf.x[7], 20);
    set_value_ok(&mut tf, 9);
    assert_eq!((tf.x[0], tf.x[7]), (9, 1));
}

#[test]
fn syscall_decoding() {
    let mut tf = TrapFrame::zeroed();
    tf.x[0] = 3;
    tf.x[1] = 0x1000;
    tf.x[2] = 12;
    assert_eq!(handle_syscall(4, &mut tf), Syscall::Write { handle: 3, va: 0x1000, len: 12 });
    assert_eq!(handle_syscall(1, &mut tf), Syscall::Sleep { ms: 3 });
    assert_eq!(handle_syscall(34, &mut tf), Syscall::GetCwd { va: 3, len: 0x1000, offset: 12 });
    assert_eq!(tf.x[7], 0);
    tf.x[7] = 1;
    assert_eq!(handle_syscall(11, &mut tf), Syscall::Unknown);
    assert_eq!(tf.x[7], 0);
}

#[test]
fn rand_in_range_stays_in_bounds() {
    assert_eq!(rand_in_range(17, 10, 15), 12);
    assert_eq!(rand_in_range(u32::MAX, 0, 1), 0);
    for raw in 0..200u32 {
        let r = rand_in_range(raw.wrapping_mul(2654435761), 5, 9);
        assert!((5..9).contains(&r));
    }
}

#[test]
fn user_slices_and_offsets() {
    assert_eq!(to_user_slice(USER_IMG_BASE, 16), Ok(()));
    assert_eq!(to_user_slice(0x1000, 16), Err(OsError::BadAddress));
    assert_eq!(to_user_slice(u64::MAX, 2), Err(OsError::BadAddress));
    assert_eq!(read_from_offset(b"hello", 1, 3), Ok(b"ell".to_vec()));
    assert_eq!(read_from_offset(b"hello", 3, 10), Ok(b"lo".to_vec()));
    assert_eq!(read_from_offset(b"hello", 5, 10), Ok(Vec::new()));
    assert_eq!(read_from_offset(b"hello", 6, 10), Err(OsError::IoErrorInvalidData));
}

#[test]
fn sbrk_grows_heap_page_by_page() {
    let mut s = Scheduler::new();
    let a = s.add(process("/")).unwrap();
    let mut tf = frame_of(a);
    let pages = sys_sbrk(&mut s, 2 * PAGE_SIZE + 10, &mut tf);
    assert_eq!(pages, vec![0x3_0000, 0x4_0000]);
    assert_eq!((tf.x[0], tf.x[7]), (0x4_000A, 1));
    assert_eq!(s.process(0).heap_ptr, 0x4_000A);
    let mut tf = frame_of(a);
    let pages = sys_sbrk(&mut s, 0x20_0000, &mut tf);
    assert_eq!(tf.x[7], 30);
    assert!(pages.iter().all(|p| *p < 0x10_0000));
    assert_eq!(s.process(0).heap_ptr, 0x4_000A);
}

#[test]
fn brk_moves_break_or_refuses() {
    let mut s = Scheduler::new();
    let a = s.add(process("/")).unwrap();
    let mut tf = frame_of(a);
    let pages = sys_brk(&mut s, 0x3_8000, &mut tf);
    assert_eq!(pages, vec![0x3_0000]);
    assert_eq!(tf.x[7], 1);
    assert_eq!(s.process(0).heap_ptr, 0x3_8000);
    let mut tf = frame_of(a);
    assert!(sys_brk(&mut s, 0x1_0000, &mut tf).is_empty());
    assert_eq!(tf.x[7], 50);
}

#[test]
fn cwd_and_args_are_read_in_pieces() {
    let mut s = Scheduler::new();
    let a = s.add(process("/home/user")).unwrap();
    let mut tf = frame_of(a);
    assert_eq!(sys_getcwd(&s, 4, 0, &mut tf), b"/hom".to_vec());
    assert_eq!((tf.x[0], tf.x[7]), (4, 1));
    assert_eq!(sys_getcwd(&s, 64, 4, &mut tf), b"e/user".to_vec());
    assert_eq!(sys_getcwd(&s, 64, 11, &mut tf), Vec::<u8>::new());
    assert_eq!(tf.x[7], 103);
    sys_args_count(&s, &mut tf);
    assert_eq!(tf.x[0], 2);
    assert_eq!(sys_read_arg(&s, 1, 5, 6, &mut tf), b"argum".to_vec());
    assert_eq!(sys_read_arg(&s, 2, 5, 0, &mut tf), Vec::<u8>::new());
    assert_eq!(tf.x[7], 10);
}

#[test]
fn push_arg_targets_a_pid() {
    let mut s = Scheduler::new();
    let a = s.add(process("/")).unwrap();
    let mut tf = frame_of(a);
    sys_push_arg(&mut s, a, b"extra".to_vec(), &mut tf);
    assert_eq!(tf.x[7], 1);
    assert_eq!(s.process(0).args.len(), 3);
    assert_eq!(s.process(0).args[2], b"extra".to_vec());
    sys_push_arg(&mut s, a + 100, b"lost".to_vec(), &mut tf);
    assert_eq!(tf.x[7], 4);
}

#[test]
fn sockets_get_handles() {
    let mut s = Scheduler::new();
    let a = s.add(process("/")).unwrap();
    let mut tf = frame_of(a);
    sys_sock_create(&mut s, 77, &mut tf);
    assert_eq!((tf.x[0], tf.x[7]), (1, 1));
    let mut tf = frame_of(a);
    assert_eq!(sock_lookup(&s, 1, &mut tf), Ok(77));
    assert_eq!(sock_lookup(&s, 0, &mut tf), Err(OsError::InvalidSocket));
    assert_eq!(tf.x[7], 200);
    assert_eq!(sock_lookup(&s, 5, &mut tf), Err(OsError::InvalidSocket));
    let closed = SocketStatus { is_active: false, is_listening: false, can_send: false, can_recv: false };
    let open = SocketStatus { is_active: true, is_listening: false, can_send: true, can_recv: false };
    let mut statuses = vec![closed; 78];
    statuses[77] = open;
    let mut tf = frame_of(a);
    sys_sock_status(&s, 1, &statuses, &mut tf);
    assert_eq!(&tf.x[0..4], &[1, 0, 1, 0]);
    assert_eq!(tf.x[7], 1);
    let mut tf = frame_of(a);
    sys_sock_status(&s, 0, &statuses, &mut tf);
    assert_eq!((tf.x[0], tf.x[7]), (0, 200));
}

#[test]
fn rand_maps_the_raw_word_into_the_range() {
    let mut tf = TrapFrame::zeroed();
    sys_rand(17, 10, 15, &mut tf);
    assert_eq!((tf.x[0], tf.x[7]), (12, 1));
    sys_rand(u32::MAX, 0, 1, &mut tf);
    assert_eq!((tf.x[0], tf.x[7]), (0, 1));
}
