use brentos::command::{
    echo_output, edit_input, error_message, parse_args, push_bytes, push_str, InputAction, ParseError,
};
use brentos::decimal::{parse_usize, push_decimal, push_zero_padded, IntErrorKind};
use brentos::path::{join_path, normalize, resolve_path};

fn args(line: &str, cap: Option<usize>) -> Result<Vec<Vec<u8>>, ParseError> {
    parse_args(line.as_bytes(), cap)
}

fn owned(words: &[&str]) -> Vec<Vec<u8>> {
    words.iter().map(|w| w.as_bytes().to_vec()).collect()
}

#[test]
fn parse_splits_on_spaces() {
    assert_eq!(args("echo a b", None), Ok(owned(&["echo", "a", "b"])));
    assert_eq!(args("  ls   -a  ", None), Ok(owned(&["ls", "-a"])));
    assert_eq!(args("x", Some(1)), Ok(owned(&["x"])));
}

#[test]
fn parse_keeps_quoted_spaces() {
    assert_eq!(args("echo \"hello world\"", None), Ok(owned(&["echo", "hello world"])));
    assert_eq!(args("cat \"a b\"c", None), Ok(owned(&["cat", "a b", "c"])));
}

#[test]
fn parse_reports_empty_line() {
    assert_eq!(args("", None), Err(ParseError::Empty));
    assert_eq!(args("    ", Some(4)), Err(ParseError::Empty));
    assert_eq!(args("\"\"", None), Err(ParseError::Empty));
}

#[test]
fn parse_reports_too_many_args() {
    assert_eq!(args("a b c", Some(2)), Err(ParseError::TooManyArgs));
    assert_eq!(args("a b", Some(2)), Ok(owned(&["a", "b"])));
}

#[test]
fn echo_joins_arguments() {
    assert_eq!(echo_output(&owned(&["echo", "a", "b"])), b"a b\n".to_vec());
    assert_eq!(echo_output(&owned(&["echo"])), b"\n".to_vec());
    assert_eq!(echo_output(&owned(&["echo", "hello world"])), b"hello world\n".to_vec());
}

#[test]
fn error_message_appends_tail_and_newline() {
    let e = error_message("unknown command: ", b"frob");
    assert_eq!(e.result, b"unknown command: frob\n".to_vec());
    assert_eq!(e.code, 1);
}

#[test]
fn push_helpers_append() {
    let mut out = b"ab".to_vec();
    push_bytes(&mut out, b"cd");
    push_str(&mut out, "ef");
    assert_eq!(out, b"abcdef".to_vec());
}

#[test]
fn edit_input_handles_keys() {
    let mut line: Vec<u8> = Vec::new();
    assert_eq!(edit_input(&mut line, 8, None), InputAction::Bell);
    assert_eq!(edit_input(&mut line, b'a', Some(2)), InputAction::Echo(b'a'));
    assert_eq!(edit_input(&mut line, b'b', Some(2)), InputAction::Echo(b'b'));
    assert_eq!(edit_input(&mut line, b'c', Some(2)), InputAction::Bell);
    assert_eq!(line, b"ab".to_vec());
    assert_eq!(edit_input(&mut line, 127, Some(2)), InputAction::Erased);
    assert_eq!(line, b"a".to_vec());
    assert_eq!(edit_input(&mut line, 7, None), InputAction::Bell);
    assert_eq!(edit_input(&mut line, 0x0d, None), InputAction::Enter);
    assert_eq!(edit_input(&mut line, 0x0a, None), InputAction::Enter);
    assert_eq!(line, b"a".to_vec());
}

#[test]
fn resolve_path_handles_relative_and_absolute() {
    assert_eq!(resolve_path(b"/", b"foo"), b"/foo".to_vec());
    assert_eq!(resolve_path(b"/a/b", b"c"), b"/a/b/c".to_vec());
    assert_eq!(resolve_path(b"/a/b", b".."), b"/a".to_vec());
    assert_eq!(resolve_path(b"/a/b", b"/x/./y"), b"/x/y".to_vec());
    assert_eq!(resolve_path(b"/a", b"../../.."), b"/".to_vec());
    assert_eq!(resolve_path(b"/a", b""), b"/a".to_vec());
}

#[test]
fn normalize_cleans_components() {
    assert_eq!(normalize(b"/"), b"/".to_vec());
    assert_eq!(normalize(b"//a//b/"), b"/a/b".to_vec());
    assert_eq!(normalize(b"/a/./b/../c"), b"/a/c".to_vec());
    let once = normalize(b"/x/../y/z/.");
    assert_eq!(normalize(&once), once);
}

#[test]
fn decimal_writing() {
    let mut out: Vec<u8> = Vec::new();
    push_decimal(&mut out, 0);
    out.push(b' ');
    push_decimal(&mut out, 1024);
    out.push(b' ');
    push_decimal(&mut out, u64::MAX);
    assert_eq!(out, b"0 1024 18446744073709551615".to_vec());
    let mut padded: Vec<u8> = Vec::new();
    push_zero_padded(&mut padded, 7, 2);
    push_zero_padded(&mut padded, 123, 2);
    push_zero_padded(&mut padded, 0, 4);
    assert_eq!(padded, b"071230000".to_vec());
}

#[test]
fn parse_usize_matches_std() {
    assert_eq!(parse_usize(b"0"), Ok(0));
    assert_eq!(parse_usize(b"42"), Ok(42));
    assert_eq!(parse_usize(b"+7"), Ok(7));
    assert_eq!(parse_usize(b"007"), Ok(7));
    assert_eq!(parse_usize(b""), Err(IntErrorKind::Empty));
    assert_eq!(parse_usize(b"+"), Err(IntErrorKind::InvalidDigit));
    assert_eq!(parse_usize(b"-"), Err(IntErrorKind::InvalidDigit));
    assert_eq!(parse_usize(b"-1"), Err(IntErrorKind::InvalidDigit));
    assert_eq!(parse_usize(b"12a"), Err(IntErrorKind::InvalidDigit));
    assert_eq!(parse_usize(b"99999999999999999999"), Err(IntErrorKind::PosOverflow));
    for s in ["0", "42", "+7", "", "+", "-", "12a", "18446744073709551616", " 1"] {
        let ours = parse_usize(s.as_bytes()).ok();
        let theirs = s.parse::<usize>().ok();
        assert_eq!(ours, theirs, "{}", s);
    }
}

#[test]
fn normalizing_twice_is_normalizing_once() {
    for p in [&b"/a//b/./c/../d/"[..], b"x/../../y", b"/..", b"", b"/usr/lib/.."] {
        let once = normalize(p);
        assert_eq!(normalize(&once), once);
        assert_eq!(resolve_path(b"/some/where", &once), once);
    }
    assert_eq!(normalize(b"/a//b/./c/../d/"), b"/a/b/d".to_vec());
}

#[test]
fn decimals_read_back() {
    for n in [0u64, 7, 10, 99, 1000, 4_294_967_296, u64::MAX] {
        let mut out = Vec::new();
        push_decimal(&mut out, n);
        assert_eq!(parse_usize(&out), Ok(n as usize));
    }
}

#[test]
fn join_path_appends_or_replaces() {
    assert_eq!(join_path(b"/", b"docs"), b"/docs".to_vec());
    assert_eq!(join_path(b"/home", b"docs"), b"/home/docs".to_vec());
    assert_eq!(join_path(b"/home/", b"docs/a"), b"/home/docs/a".to_vec());
    assert_eq!(join_path(b"/home", b"/etc"), b"/etc".to_vec());
    assert_eq!(join_path(b"", b"docs"), b"docs".to_vec());
    assert_eq!(join_path(b"/home", b".."), b"/home/..".to_vec());
}
