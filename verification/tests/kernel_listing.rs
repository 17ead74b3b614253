use brentos::fat32::metadata::Metadata;
use brentos::kern::listing::{list_dir, list_file, ListEntry};
use brentos::kern::shell::LsFlags;

const PLAIN: LsFlags = LsFlags { show_hidden: false, human_readable: false, long: false };

fn entry(name: &str, attr: u8, size: usize) -> ListEntry {
    let date: u16 = (43 << 9) | (5 << 5) | 17;
    let time: u16 = (9 << 11) | (8 << 5) | 3;
    ListEntry { name: name.to_string(), metadata: Metadata::from_raw((attr, [date, time, date, date, time])), size }
}

fn text(v: Vec<u8>) -> String {
    String::from_utf8(v).unwrap()
}

#[test]
fn short_listing_in_columns() {
    let es = vec![entry("a.txt", 0, 1), entry("docs/", 0x10, 0), entry(".secret", 0x02, 5)];
    assert_eq!(text(list_dir(&es, PLAIN)), "a.txt    docs/    \n");
    let all = LsFlags { show_hidden: true, ..PLAIN };
    assert_eq!(text(list_dir(&es, all)), "a.txt    docs/    .secret  \n");
}

#[test]
fn short_listing_wraps_at_console_width() {
    let names: Vec<String> = (0..8).map(|i| format!("f-{:011}", i)).collect();
    let es: Vec<ListEntry> = names.iter().map(|n| entry(n, 0, 1)).collect();
    let out = text(list_dir(&es, PLAIN));
    let lines: Vec<&str> = out.split('\n').collect();
    assert_eq!(lines.len(), 3);
    assert_eq!(lines[0].len(), 75);
    assert!(lines[0].starts_with("f-00000000000  f-00000000001"));
    assert_eq!(lines[1].len(), 45);
    assert!(lines[1].starts_with("f-00000000005"));
    assert_eq!(lines[2], "");
}

#[test]
fn long_listing_lines() {
    let es = vec![entry("a.txt", 0x20, 1500), entry(".h", 0x02, 3)];
    let long = LsFlags { long: true, ..PLAIN };
    assert_eq!(
        text(list_dir(&es, long)),
        "-f----a  2023-05-17 09:08:06 UTC  2023-05-17 09:08:06 UTC  1500      a.txt\n"
    );
    let human = LsFlags { long: true, human_readable: true, show_hidden: true };
    assert_eq!(
        text(list_dir(&es, human)),
        "-f----a  2023-05-17 09:08:06 UTC  2023-05-17 09:08:06 UTC  1 KiB     a.txt\n\
         -f-h---  2023-05-17 09:08:06 UTC  2023-05-17 09:08:06 UTC  3 B       .h\n"
    );
}

#[test]
fn empty_directory_lists_a_newline() {
    assert_eq!(text(list_dir(&Vec::new(), PLAIN)), "\n");
    let long = LsFlags { long: true, ..PLAIN };
    assert_eq!(text(list_dir(&Vec::new(), long)), "");
}

#[test]
fn single_file_listing() {
    let e = entry("notes.md", 0, 42);
    assert_eq!(text(list_file(&e, PLAIN)), "notes.md\n");
    let long = LsFlags { long: true, ..PLAIN };
    assert!(text(list_file(&e, long)).ends_with("  42        notes.md\n"));
    let hidden = entry(".h", 0x02, 1);
    assert_eq!(text(list_file(&hidden, PLAIN)), "");
    assert_eq!(text(list_file(&hidden, LsFlags { show_hidden: true, ..PLAIN })), ".h\n");
}
