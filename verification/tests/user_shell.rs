use brentos::bwsh::{
    cd_refused, cd_target, command_of, echo, fail, fib, int_error_message, pwd, roll_line, start_failed,
    wait_failed, BwshCommand, Command, Dice,
};
use brentos::command::ParseError;
use brentos::decimal::IntErrorKind;
use brentos::kernel_api::OsError;
use brentos::kernel_api::fs::{Attributes, Stat};
use brentos::ls::{ls_listing, LsEntry, LsOptions, SCREEN_WIDTH};

fn cmd(line: &str) -> Command {
    match Command::parse(line.as_bytes()) {
        Ok(c) => c,
        Err(e) => panic!("{:?}", e),
    }
}

fn text(v: &[u8]) -> String {
    String::from_utf8(v.to_vec()).unwrap()
}

#[test]
fn bwsh_command_parse_and_path() {
    let c = cmd("cat  /a.txt");
    assert_eq!(c.path(), &b"cat".to_vec());
    assert_eq!(c.args(), vec![b"cat".to_vec(), b"/a.txt".to_vec()]);
    assert!(matches!(Command::parse(b"   "), Err(ParseError::Empty)));
}

#[test]
fn bwsh_echo_and_pwd() {
    assert_eq!(echo(&cmd("echo hi there")).result, b"hi there\n".to_vec());
    let ok = pwd(&cmd("pwd"), b"/home").ok().unwrap();
    assert_eq!(ok.result, b"/home\n".to_vec());
    let err = pwd(&cmd("pwd x"), b"/home").err().unwrap();
    assert_eq!(text(&err.result), "pwd: too many arguments\n");
    assert_eq!(err.code, 1);
}

#[test]
fn bwsh_cd_arguments() {
    assert_eq!(cd_target(&cmd("cd")).ok().unwrap(), b"/".to_vec());
    assert_eq!(cd_target(&cmd("cd docs")).ok().unwrap(), b"docs".to_vec());
    let err = cd_target(&cmd("cd a b")).err().unwrap();
    assert_eq!(text(&err.result), "cd: too many arguments\n");
    assert_eq!(text(&cd_refused(b"nowhere").result), "cd: no such file or directory: nowhere\n");
}

#[test]
fn bwsh_error_lines() {
    let e = start_failed(b"/bin/x", OsError::NoEntry);
    assert_eq!(text(&e.result), "bwsh: error starting /bin/x: NoEntry\n");
    assert_eq!(e.code, 1);
    let w = wait_failed(OsError::InvalidPid);
    assert_eq!(text(&w.result), "bwsh: error calling wait(): InvalidPid\n");
    let f = fail("oops: ", b"tail");
    assert_eq!(text(&f.result), "oops: tail\n");
}

#[test]
fn dice_defaults_and_options() {
    let mut d = Dice::new();
    assert!(d.verbose);
    assert_eq!(d.count, 1);
    assert!(d.configure(&cmd("dice -q 3")).is_ok());
    assert!(!d.verbose);
    assert_eq!(d.count, 3);
    assert!(d.configure(&cmd("dice --verbose")).is_ok());
    assert!(d.verbose);
    assert!(d.configure(&cmd("dice -vq 12")).is_ok());
    assert!(!d.verbose);
    assert_eq!(d.count, 12);
}

#[test]
fn dice_rejects_bad_arguments() {
    let mut d = Dice::new();
    let e = d.configure(&cmd("dice --loud")).err().unwrap();
    assert_eq!(text(&e.result), "dice: invalid option: --loud\n");
    let e = d.configure(&cmd("dice -x")).err().unwrap();
    assert_eq!(text(&e.result), "dice: invalid option: -x\n");
    let e = d.configure(&cmd("dice many")).err().unwrap();
    assert_eq!(
        text(&e.result),
        "dice: invalid argument, count should be a positive integer: ParseIntError { kind: InvalidDigit }\n"
    );
    let e = d.configure(&cmd("dice 99999999999999999999999")).err().unwrap();
    assert_eq!(e.code, 1);
    assert!(text(&e.result).ends_with("PosOverflow }\n"));
}

#[test]
fn int_error_messages_follow_debug_format() {
    assert_eq!(int_error_message(IntErrorKind::Empty), "ParseIntError { kind: Empty }");
    assert_eq!(int_error_message(IntErrorKind::InvalidDigit), "ParseIntError { kind: InvalidDigit }");
    assert_eq!(int_error_message(IntErrorKind::PosOverflow), "ParseIntError { kind: PosOverflow }");
    let real = format!("{:?}", "x".parse::<usize>().unwrap_err());
    assert_eq!(real, int_error_message(IntErrorKind::InvalidDigit));
}

#[test]
fn roll_lines() {
    assert_eq!(roll_line(0, 4, true), b"Die #1: 4\n".to_vec());
    assert_eq!(roll_line(9, 6, true), b"Die #10: 6\n".to_vec());
    assert_eq!(roll_line(3, 2, false), b"2\n".to_vec());
}

#[test]
fn builtin_dispatch() {
    assert_eq!(command_of(b"echo"), BwshCommand::Echo);
    assert_eq!(command_of(b"pwd"), BwshCommand::Pwd);
    assert_eq!(command_of(b"cd"), BwshCommand::Cd);
    assert_eq!(command_of(b"exit"), BwshCommand::Exit);
    assert_eq!(command_of(b"dice"), BwshCommand::Dice);
    assert_eq!(command_of(b"/fib"), BwshCommand::Program);
    assert_eq!(command_of(b"ech"), BwshCommand::Program);
}

#[test]
fn fib_values() {
    assert_eq!(fib(0), 1);
    assert_eq!(fib(1), 1);
    assert_eq!(fib(2), 2);
    assert_eq!(fib(10), 89);
    assert_eq!(fib(20), 10946);
}

fn words(ws: &[&str]) -> Vec<Vec<u8>> {
    ws.iter().map(|w| w.as_bytes().to_vec()).collect()
}

#[test]
fn ls_options_set_flags_and_take_the_path() {
    let o = LsOptions::parse(&words(&["ls", "-la", "--human-readable", "docs"]));
    assert!(o.show_hidden && o.long && o.human_readable);
    assert_eq!(o.path, Some(b"docs".to_vec()));
    assert_eq!(o.messages, Vec::<u8>::new());
    let plain = LsOptions::parse(&words(&["ls"]));
    assert!(!plain.show_hidden && !plain.long && !plain.human_readable);
    assert_eq!(plain.path, None);
}

#[test]
fn ls_options_complain_and_go_on() {
    let o = LsOptions::parse(&words(&["ls", "-az", "--bogus", "-", "--long", "a", "b"]));
    assert!(o.show_hidden && o.long && !o.human_readable);
    assert_eq!(o.path, Some(b"a".to_vec()));
    assert_eq!(
        String::from_utf8(o.messages).unwrap(),
        "ls: invalid option: -z\nls: invalid option: --bogus\nls: too many ags\n"
    );
}

fn ls_entry(name: &str, size: u64, hidden: bool) -> LsEntry {
    let mut stat = Stat::default_stat();
    stat.size = size;
    stat.metadata.attributes = Attributes(if hidden { 0x02 } else { 0x00 });
    LsEntry { name: name.to_string(), stat }
}

#[test]
fn ls_lays_names_out_in_columns() {
    let entries = vec![ls_entry("a", 1, false), ls_entry("bbb", 2, false), ls_entry(".h", 3, true), ls_entry("cc", 4, false)];
    let plain = LsOptions::parse(&words(&["ls"]));
    // Columns are 5 wide (longest name 3, plus 2); 12 / 5 = 2 columns, and a
    // line ends after the name in column 2 or after the last entry.
    assert_eq!(String::from_utf8(ls_listing(&entries, &plain, 12)).unwrap(), "a    bbb  cc   \n");
    let all = LsOptions::parse(&words(&["ls", "-a"]));
    assert_eq!(String::from_utf8(ls_listing(&entries, &all, 12)).unwrap(), "a    bbb  .h   \ncc   \n");
    let wide = ls_listing(&entries, &plain, SCREEN_WIDTH);
    assert_eq!(String::from_utf8(wide).unwrap(), "a    bbb  cc   \n");
}

#[test]
fn ls_long_form_and_complaints() {
    let entries = vec![ls_entry("notes.txt", 2048, false), ls_entry(".secret", 1, true)];
    let o = LsOptions::parse(&words(&["ls", "-lz", "-h"]));
    let text = String::from_utf8(ls_listing(&entries, &o, SCREEN_WIDTH)).unwrap();
    assert!(text.starts_with("ls: invalid option: -z\n"));
    assert!(text.ends_with("  2 KiB     notes.txt\n"));
    assert_eq!(text.lines().count(), 2);
}
