use brentos::command::ParseError;
use brentos::kern::shell::{
    builtin_of, bytes_eq_str, cat_step, cd_finish, cd_target, echo_exec, ls_args, ls_error_message, ls_missing,
    parse_error_message, pwd_exec, set_working_dir, unknown_exec, Builtin, CatOutcome, Command, LsArgError,
    LsFlags, MAX_ARGS,
};
use brentos::kernel_api::IoErrorKind;

fn kcmd(line: &str) -> Command {
    Command::parse(line.as_bytes(), MAX_ARGS).unwrap_or_else(|e| panic!("{:?}", e))
}

fn text(v: &[u8]) -> String {
    String::from_utf8(v.to_vec()).unwrap()
}

const NO_FLAGS: LsFlags = LsFlags { show_hidden: false, human_readable: false, long: false };

#[test]
fn kernel_command_parse_respects_capacity() {
    assert_eq!(kcmd("ls -a /").args.len(), 3);
    assert_eq!(kcmd("ls -a /").path(), &b"ls".to_vec());
    assert!(matches!(Command::parse(b"a b c", 2), Err(ParseError::TooManyArgs)));
    assert!(matches!(Command::parse(b"", 2), Err(ParseError::Empty)));
}

#[test]
fn kernel_echo_pwd_unknown() {
    let o = echo_exec(&kcmd("echo one two"));
    assert_eq!((text(&o.result), o.code), ("one two\n".to_string(), 0));
    let o = pwd_exec(&kcmd("pwd"), b"/usr").ok().unwrap();
    assert_eq!((text(&o.result), o.code), ("/usr\n".to_string(), 0));
    let e = pwd_exec(&kcmd("pwd x"), b"/usr").err().unwrap();
    assert_eq!((text(&e.result), e.code), ("pwd: too many arguments\n".to_string(), 1));
    let e = unknown_exec(&kcmd("frob x"));
    assert_eq!(text(&e.result), "bwsh: command not found: frob\n");
}

#[test]
fn kernel_cd_resolves_against_cwd() {
    assert_eq!(set_working_dir(b"docs", b"/home"), b"/home/docs".to_vec());
    let (p, arg) = cd_target(&kcmd("cd ../etc"), b"/home/user").ok().unwrap();
    assert_eq!((p, arg), (b"/home/etc".to_vec(), b"../etc".to_vec()));
    let (p, arg) = cd_target(&kcmd("cd"), b"/home/user").ok().unwrap();
    assert_eq!((p, arg), (b"/".to_vec(), b"/".to_vec()));
    let e = cd_target(&kcmd("cd a b"), b"/").err().unwrap();
    assert_eq!(text(&e.result), "cd: too many arguments\n");
}

#[test]
fn kernel_cd_finish_outcomes() {
    let mut cwd = b"/".to_vec();
    let r = cd_finish(&mut cwd, b"/docs".to_vec(), b"docs", Ok(true));
    assert!(r.is_ok());
    assert_eq!(cwd, b"/docs".to_vec());
    let e = cd_finish(&mut cwd, b"/docs/a.txt".to_vec(), b"a.txt", Ok(false)).err().unwrap();
    assert_eq!(text(&e.result), "cd: not a directory: a.txt\n");
    let e = cd_finish(&mut cwd, b"/docs/none".to_vec(), b"none", Err(IoErrorKind::NotFound)).err().unwrap();
    assert_eq!(text(&e.result), "cd: no such file or directory: none\n");
    assert_eq!(cwd, b"/docs".to_vec());
}

#[test]
fn ls_flag_parsing() {
    assert_eq!(ls_args(&kcmd("ls")), Ok((NO_FLAGS, b".".to_vec())));
    let all = LsFlags { show_hidden: true, human_readable: true, long: true };
    assert_eq!(ls_args(&kcmd("ls -ahl /x")), Ok((all, b"/x".to_vec())));
    let long = LsFlags { long: true, ..NO_FLAGS };
    assert_eq!(ls_args(&kcmd("ls --long")), Ok((long, b".".to_vec())));
    let hidden = LsFlags { show_hidden: true, ..NO_FLAGS };
    assert_eq!(ls_args(&kcmd("ls --all dir")), Ok((hidden, b"dir".to_vec())));
    assert_eq!(ls_args(&kcmd("ls --wide")), Err(LsArgError::InvalidLong(b"wide".to_vec())));
    assert_eq!(ls_args(&kcmd("ls -z")), Err(LsArgError::InvalidShort(b'z')));
    assert_eq!(ls_args(&kcmd("ls a b")), Err(LsArgError::TooManyArgs));
}

#[test]
fn ls_messages() {
    assert_eq!(text(&ls_error_message(&LsArgError::InvalidLong(b"wide".to_vec())).result), "ls: invalid option: --wide\n");
    assert_eq!(text(&ls_error_message(&LsArgError::InvalidShort(b'z')).result), "ls: invalid option: -z\n");
    let e = ls_error_message(&LsArgError::TooManyArgs);
    assert_eq!((text(&e.result), e.code), ("ls: too many arguments\n".to_string(), 1));
    assert_eq!(text(&ls_missing(b"/nope").result), "ls: no such file or directory: /nope\n");
}

#[test]
fn cat_steps() {
    let mut out: Vec<u8> = Vec::new();
    assert!(cat_step(&mut out, b"/a", CatOutcome::Content(b"hello".to_vec())));
    assert_eq!(text(&out), "hello\n");
    assert!(!cat_step(&mut out, b"/d", CatOutcome::IsDir));
    assert!(!cat_step(&mut out, b"/m", CatOutcome::Missing));
    assert!(!cat_step(&mut out, b"/u", CatOutcome::Unreadable));
    assert!(!cat_step(&mut out, b"/b", CatOutcome::Content(vec![0xff, 0xfe])));
    assert_eq!(
        text(&out),
        "hello\ncat: /d: is a directory\ncat: /m no such fhe or directory\ncat: /u: file could not be opened\ncat: /b: file not valid UTF-8\n"
    );
}

#[test]
fn builtin_names() {
    assert_eq!(builtin_of(b"echo"), Builtin::Echo);
    assert_eq!(builtin_of(b"pwd"), Builtin::Pwd);
    assert_eq!(builtin_of(b"cd"), Builtin::Cd);
    assert_eq!(builtin_of(b"ls"), Builtin::Ls);
    assert_eq!(builtin_of(b"cat"), Builtin::Cat);
    assert_eq!(builtin_of(b"panic!"), Builtin::Panic);
    assert_eq!(builtin_of(b"panic"), Builtin::Unknown);
    assert!(bytes_eq_str(b"abc", "abc"));
    assert!(!bytes_eq_str(b"abc", "abd"));
    assert!(!bytes_eq_str(b"ab", "abc"));
}

#[test]
fn parse_error_lines() {
    assert!(parse_error_message(ParseError::Empty).is_empty());
    assert_eq!(text(&parse_error_message(ParseError::TooManyArgs)), "bwsh: too many arguments\n");
}
