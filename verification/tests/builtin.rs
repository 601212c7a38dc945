use rsh::builtin::{
    builtin_cd, process_builtin, process_line, same_text, split, split_line, trim, Builtin,
    Dispatch, Separator,
};

#[test]
fn split_line_splits_at_each_whitespace_character() {
    assert_eq!(split_line("cd /tmp"), vec!["cd", "/tmp"]);
    assert_eq!(split_line("a\tb\nc"), vec!["a", "b", "c"]);
    assert_eq!(split_line("one"), vec!["one"]);
}

#[test]
fn split_line_keeps_the_empty_fields() {
    assert_eq!(split_line(""), vec![""]);
    assert_eq!(split_line("a  b"), vec!["a", "", "b"]);
    assert_eq!(split_line(" a "), vec!["", "a", ""]);
    assert_eq!(split_line("  "), vec!["", "", ""]);
}

#[test]
fn split_line_agrees_with_the_standard_library() {
    for line in ["", " ", "a", "a b", "a  b ", "\u{3000}x\u{e9} y\tz", "ls -l | wc"] {
        let expected: Vec<&str> = line.split(|c: char| c.is_whitespace()).collect();
        assert_eq!(split_line(line), expected, "{:?}", line);
    }
}

#[test]
fn split_at_colons_gives_the_entries_of_a_search_path() {
    assert_eq!(split("/bin:/usr/bin", Separator::Colon), vec!["/bin", "/usr/bin"]);
    assert_eq!(split("/bin::/usr bin:", Separator::Colon), vec!["/bin", "", "/usr bin", ""]);
    assert_eq!(split("", Separator::Colon), vec![""]);
    assert!(Separator::Colon.separates(':'));
    assert!(!Separator::Colon.separates(' '));
    assert!(Separator::Whitespace.separates(' '));
    assert!(!Separator::Whitespace.separates(':'));
}

#[test]
fn same_text_compares_character_by_character() {
    assert!(same_text("cd", "cd"));
    assert!(same_text("", ""));
    assert!(!same_text("cd", "cdx"));
    assert!(!same_text("cd", "ce"));
    assert!(!same_text("cd", ""));
    assert!(same_text("\u{e9}", "\u{e9}"));
    assert!(!same_text("\u{e9}", "e"));
}

#[test]
fn trim_drops_whitespace_at_both_ends_only() {
    assert_eq!(trim("  ls -l \n"), "ls -l");
    assert_eq!(trim("ls"), "ls");
    assert_eq!(trim(""), "");
    assert_eq!(trim(" \t\n"), "");
    assert_eq!(trim("\u{3000}a b\u{a0}"), "a b");
}

#[test]
fn cd_goes_to_its_argument_or_home() {
    assert_eq!(builtin_cd(&["/tmp"], Some("/home/me")), Builtin::ChangeDirectory { dir: "/tmp" });
    assert_eq!(builtin_cd(&["/tmp", "x"], None), Builtin::ChangeDirectory { dir: "/tmp" });
    assert_eq!(builtin_cd(&[], Some("/home/me")), Builtin::ChangeDirectory { dir: "/home/me" });
    assert_eq!(builtin_cd(&[], None), Builtin::CannotChange);
}

#[test]
fn cd_is_the_only_builtin() {
    assert_eq!(process_builtin("cd", &["/"], None), Builtin::ChangeDirectory { dir: "/" });
    assert_eq!(process_builtin("cd", &[], None), Builtin::CannotChange);
    assert_eq!(process_builtin("ls", &["/"], Some("/home/me")), Builtin::NotBuiltin);
    assert_eq!(process_builtin("", &[], Some("/home/me")), Builtin::NotBuiltin);
    assert_eq!(process_builtin("cdx", &[], Some("/home/me")), Builtin::NotBuiltin);
    assert!(Builtin::CannotChange.handled());
    assert!(Builtin::ChangeDirectory { dir: "/" }.handled());
    assert!(!Builtin::NotBuiltin.handled());
}

#[test]
fn a_line_is_skipped_handled_or_spawned() {
    assert_eq!(process_line("", Some("/h")), Dispatch::Skip);
    assert_eq!(process_line("  \n", Some("/h")), Dispatch::Skip);
    assert_eq!(
        process_line("cd /tmp\n", Some("/h")),
        Dispatch::Handle { builtin: Builtin::ChangeDirectory { dir: "/tmp" } }
    );
    assert_eq!(
        process_line("  cd\n", Some("/h")),
        Dispatch::Handle { builtin: Builtin::ChangeDirectory { dir: "/h" } }
    );
    assert_eq!(process_line("cd", None), Dispatch::Handle { builtin: Builtin::CannotChange });
    assert_eq!(process_line("ls -l | wc\n", Some("/h")), Dispatch::Spawn);
    assert_eq!(process_line("cdx\n", None), Dispatch::Spawn);
}

#[test]
fn cd_takes_the_field_behind_it_even_where_that_is_empty() {
    assert_eq!(
        process_line("cd  /tmp", Some("/h")),
        Dispatch::Handle { builtin: Builtin::ChangeDirectory { dir: "" } }
    );
}
