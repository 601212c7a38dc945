use rsh::command::{Command, RedirectMode};
use rsh::parser::parse_cmd;
use rsh::printer::render;

#[test]
fn the_canonical_text_of_an_exec_is_its_words() {
    assert_eq!(render(&Command::Exec { argv: vec!["ls", "-l"] }), "ls -l");
    assert_eq!(render(&Command::Exec { argv: vec![] }), "");
}

#[test]
fn the_canonical_text_puts_each_child_in_a_group() {
    assert_eq!(render(&parse_cmd("a | b").unwrap()), "( a ) | ( b )");
    assert_eq!(render(&parse_cmd("a|b|c").unwrap()), "( a ) | ( ( b ) | ( c ) )");
    assert_eq!(render(&parse_cmd("a;b").unwrap()), "( a ) ; ( b )");
    assert_eq!(render(&parse_cmd("a&").unwrap()), "( a ) &");
    assert_eq!(render(&parse_cmd("a x>out").unwrap()), "( a x ) > out");
    assert_eq!(render(&parse_cmd("a>>out").unwrap()), "( a ) >> out");
    assert_eq!(render(&parse_cmd("a<in").unwrap()), "( a ) < in");
    assert_eq!(render(&parse_cmd("a > f1 > f2").unwrap()), "( ( a ) > f1 ) > f2");
}

#[test]
fn the_canonical_text_of_a_redirection_goes_by_its_mode() {
    let tree = Command::Redirect {
        inner: Box::new(Command::Exec { argv: vec!["sort"] }),
        target_path: "names",
        mode: RedirectMode::Read,
        target_fd: 0,
    };
    assert_eq!(render(&tree), "( sort ) < names");
}

#[test]
fn parsing_the_canonical_text_gives_the_tree_back() {
    let lines = [
        "",
        "   ",
        "cmd",
        "ls -l /tmp",
        "a | b | c",
        "(a | b) | c",
        "cmd > out",
        "cmd >> out",
        "cmd < in > out arg",
        "a ; b ; c",
        "a & b & c ; d",
        "(a ; b) > out &",
        "((a | b) < in ; c >> log) | (d &) ; e",
        "caf\u{e9} | na\u{ef}ve\u{3000}x",
    ];
    for line in lines {
        let tree = parse_cmd(line).unwrap();
        let text = render(&tree);
        assert_eq!(parse_cmd(&text), Ok(tree.clone()), "{:?} as {:?}", line, text);
        assert_eq!(render(&parse_cmd(&text).unwrap()), text);
    }
}
