use oxide::shell::{parse_command, Command, edit_line, Edit};

fn s(v: &[char]) -> String {
    v.iter().collect()
}

#[test]
fn parses_echo_with_collapsed_spaces() {
    match parse_command("  echo   hello    world  ") {
        Command::Echo(t) => assert_eq!(s(&t), "hello world"),
        other => panic!("unexpected {:?}", other),
    }
}

#[test]
fn parses_blank_line_as_empty() {
    assert!(matches!(parse_command("   \t "), Command::Empty));
}

#[test]
fn parses_kill_with_number() {
    assert!(matches!(parse_command("kill 42"), Command::Kill(Some(42))));
    assert!(matches!(parse_command("kill +7"), Command::Kill(Some(7))));
    assert!(matches!(parse_command("kill abc"), Command::Kill(None)));
    assert!(matches!(parse_command("kill"), Command::Kill(None)));
    assert!(matches!(parse_command("kill 18446744073709551616"), Command::Kill(None)));
    assert!(matches!(parse_command("kill 18446744073709551615"), Command::Kill(Some(u64::MAX))));
}

#[test]
fn parses_write_to_disk() {
    match parse_command("write /disk/notes.txt a  b") {
        Command::WriteDisk(p, n, t) => {
            assert_eq!(s(&p), "/disk/notes.txt");
            assert_eq!(s(&n), "notes.txt");
            assert_eq!(s(&t), "a b\n");
        }
        other => panic!("unexpected {:?}", other),
    }
    assert!(matches!(parse_command("write"), Command::WriteUsage));
    assert!(matches!(parse_command("write /tmp/x hi"), Command::WriteNotDisk));
}

#[test]
fn parses_cat_paths() {
    match parse_command("cat") {
        Command::CatDevice(p) => assert_eq!(s(&p), "/dev/keyboard"),
        other => panic!("unexpected {:?}", other),
    }
    match parse_command("cat /disk/hello.txt") {
        Command::CatDisk(p, n) => {
            assert_eq!(s(&p), "/disk/hello.txt");
            assert_eq!(s(&n), "hello.txt");
        }
        other => panic!("unexpected {:?}", other),
    }
}

#[test]
fn parses_unknown_command() {
    match parse_command("frobnicate now") {
        Command::Unknown(w) => assert_eq!(s(&w), "frobnicate"),
        other => panic!("unexpected {:?}", other),
    }
}

#[test]
fn edits_a_line() {
    let mut line = Vec::new();
    assert_eq!(edit_line(&mut line, 'a'), Edit::Typed);
    assert_eq!(edit_line(&mut line, 'b'), Edit::Typed);
    assert_eq!(edit_line(&mut line, '\u{8}'), Edit::Erased);
    assert_eq!(edit_line(&mut line, '\u{1b}'), Edit::Ignored);
    assert_eq!(line, vec!['a']);
    assert_eq!(edit_line(&mut line, '\u{7f}'), Edit::Erased);
    assert_eq!(edit_line(&mut line, '\u{7f}'), Edit::NothingToErase);
    assert_eq!(edit_line(&mut line, '\n'), Edit::Submit);
}
