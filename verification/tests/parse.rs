use rsh::command::{mode_fd, Command, RedirectMode};
use rsh::grammar::SyntaxError;
use rsh::parser::{
    parse_backs, parse_block, parse_cmd, parse_exec, parse_line, parse_pipe, parse_redirs,
    redirect_mode,
};
use rsh::token::TokenKind;

fn exec<'b>(argv: &[&'b str]) -> Command<'b> {
    Command::Exec { argv: argv.to_vec() }
}

fn redirect<'b>(inner: Command<'b>, path: &'b str, mode: RedirectMode) -> Command<'b> {
    let target_fd = match mode {
        RedirectMode::Read => 0,
        _ => 1,
    };
    Command::Redirect { inner: Box::new(inner), target_path: path, mode, target_fd }
}

fn pipe<'b>(left: Command<'b>, right: Command<'b>) -> Command<'b> {
    Command::Pipe { left: Box::new(left), right: Box::new(right) }
}

fn sequence<'b>(left: Command<'b>, right: Command<'b>) -> Command<'b> {
    Command::Sequence { left: Box::new(left), right: Box::new(right) }
}

fn background<'b>(inner: Command<'b>) -> Command<'b> {
    Command::Background { inner: Box::new(inner) }
}

#[test]
fn sh_parse_redir_test() {
    let execcmd = Command::Exec { argv: vec!["some_cmd"] };
    let mut s = " > some_file";
    let p = &mut s;
    let redircmd = parse_redirs(execcmd.clone(), p);
    assert!(
        redircmd
            == Ok(Command::Redirect {
                inner: Box::new(execcmd),
                target_path: "some_file",
                mode: RedirectMode::WriteTruncate,
                target_fd: 1 as i32,
            })
    );
}

#[test]
fn sh_parse_exec_simple_test() {
    let cmd = Command::Exec { argv: vec!["some_cmd"] };
    let cmdline = "some_cmd".to_string();
    assert!(Ok(cmd) == parse_cmd(&cmdline));
}

#[test]
fn sh_parse_exec_block_test() {
    let mut s = "(some_cmd | other_cmd)";
    let ps = &mut s;
    let cmd = Command::Pipe {
        left: Box::new(Command::Exec { argv: vec!["some_cmd"] }),
        right: Box::new(Command::Exec { argv: vec!["other_cmd"] }),
    };
    let parsed = parse_exec(ps);
    println!("{:?}", parsed);
    assert!(Ok(cmd) == parsed);
}

#[test]
fn sh_parse_pipe_cmd_test() {
    let mut s = "some_cmd | other_cmd | another_cmd";
    let ps = &mut s;
    let cmd = Command::Pipe {
        left: Box::new(Command::Exec { argv: vec!["some_cmd"] }),
        right: Box::new(Command::Pipe {
            left: Box::new(Command::Exec { argv: vec!["other_cmd"] }),
            right: Box::new(Command::Exec { argv: vec!["another_cmd"] }),
        }),
    };
    let parsed = parse_pipe(ps);
    println!("{:?}", parsed);
    assert!(Ok(cmd) == parsed);
}

#[test]
fn test_parse_redir_test() {
    let execcmd = Command::Exec { argv: vec!["some_cmd"] };
    let mut s = " > some_file";
    let p = &mut s;
    let redircmd = parse_redirs(execcmd.clone(), p);
    assert!(
        redircmd
            == Ok(Command::Redirect {
                inner: Box::new(execcmd),
                target_path: "some_file",
                mode: RedirectMode::WriteTruncate,
                target_fd: 1 as i32,
            })
    );
}

#[test]
fn test_parse_exec_simple_test() {
    let cmd = Command::Exec { argv: vec!["some_cmd"] };
    let cmdline = "some_cmd".to_string();
    assert!(Ok(cmd) == parse_cmd(&cmdline));
}

#[test]
fn test_parse_exec_block_test() {
    let mut s = "(some_cmd | other_cmd)";
    let ps = &mut s;
    let cmd = Command::Pipe {
        left: Box::new(Command::Exec { argv: vec!["some_cmd"] }),
        right: Box::new(Command::Exec { argv: vec!["other_cmd"] }),
    };
    let parsed = parse_exec(ps);
    println!("{:?}", parsed);
    assert!(Ok(cmd) == parsed);
}

#[test]
fn test_parse_pipe_cmd_test() {
    let mut s = "some_cmd | other_cmd | another_cmd";
    let ps = &mut s;
    let cmd = Command::Pipe {
        left: Box::new(Command::Exec { argv: vec!["some_cmd"] }),
        right: Box::new(Command::Pipe {
            left: Box::new(Command::Exec { argv: vec!["other_cmd"] }),
            right: Box::new(Command::Exec { argv: vec!["another_cmd"] }),
        }),
    };
    let parsed = parse_pipe(ps);
    println!("{:?}", parsed);
    assert!(Ok(cmd) == parsed);
}

#[test]
fn a_single_word_is_an_exec() {
    assert_eq!(parse_cmd("cmd"), Ok(exec(&["cmd"])));
    assert_eq!(parse_cmd("  ls -l  /tmp "), Ok(exec(&["ls", "-l", "/tmp"])));
}

#[test]
fn pipes_associate_to_the_right() {
    assert_eq!(
        parse_cmd("a | b | c"),
        Ok(pipe(exec(&["a"]), pipe(exec(&["b"]), exec(&["c"]))))
    );
}

#[test]
fn truncating_redirection_rebinds_standard_output() {
    assert_eq!(
        parse_cmd("cmd > out"),
        Ok(Command::Redirect {
            inner: Box::new(exec(&["cmd"])),
            target_path: "out",
            mode: RedirectMode::WriteTruncate,
            target_fd: 1,
        })
    );
}

#[test]
fn appending_redirection_rebinds_standard_output() {
    assert_eq!(
        parse_cmd("cmd >> out"),
        Ok(Command::Redirect {
            inner: Box::new(exec(&["cmd"])),
            target_path: "out",
            mode: RedirectMode::WriteAppend,
            target_fd: 1,
        })
    );
}

#[test]
fn reading_redirection_rebinds_standard_input() {
    assert_eq!(
        parse_cmd("cmd < in"),
        Ok(Command::Redirect {
            inner: Box::new(exec(&["cmd"])),
            target_path: "in",
            mode: RedirectMode::Read,
            target_fd: 0,
        })
    );
}

#[test]
fn a_group_has_the_tree_of_its_line() {
    assert_eq!(parse_cmd("(a | b)"), parse_cmd("a | b"));
    assert_eq!(parse_cmd("(a | b)"), Ok(pipe(exec(&["a"]), exec(&["b"]))));
    assert_eq!(parse_cmd("((a))"), Ok(exec(&["a"])));
}

#[test]
fn a_group_changes_how_pipes_associate() {
    assert_eq!(
        parse_cmd("(a | b) | c"),
        Ok(pipe(pipe(exec(&["a"]), exec(&["b"])), exec(&["c"])))
    );
}

#[test]
fn a_blank_line_is_the_empty_command() {
    assert_eq!(parse_cmd(""), Ok(exec(&[])));
    assert_eq!(parse_cmd("   "), Ok(exec(&[])));
    assert_eq!(parse_cmd(" \t\r\n\u{3000}"), Ok(exec(&[])));
}

#[test]
fn a_trailing_pipe_is_a_syntax_error() {
    assert_eq!(parse_cmd("a | "), Err(SyntaxError::StrayOperator));
    assert_eq!(parse_cmd("a |"), Err(SyntaxError::StrayOperator));
}

#[test]
fn later_redirections_wrap_earlier_ones() {
    assert_eq!(
        parse_cmd("cmd > f1 > f2"),
        Ok(redirect(
            redirect(exec(&["cmd"]), "f1", RedirectMode::WriteTruncate),
            "f2",
            RedirectMode::WriteTruncate
        ))
    );
    assert_eq!(
        parse_cmd("cmd < in >> log"),
        Ok(redirect(
            redirect(exec(&["cmd"]), "in", RedirectMode::Read),
            "log",
            RedirectMode::WriteAppend
        ))
    );
}

#[test]
fn redirections_may_stand_among_the_words() {
    assert_eq!(
        parse_cmd("cmd > out arg"),
        Ok(redirect(exec(&["cmd", "arg"]), "out", RedirectMode::WriteTruncate))
    );
    assert_eq!(
        parse_cmd("cmd a < in b > out c"),
        Ok(redirect(
            redirect(exec(&["cmd", "a", "b", "c"]), "in", RedirectMode::Read),
            "out",
            RedirectMode::WriteTruncate
        ))
    );
}

#[test]
fn redirections_behind_a_group_wrap_the_group() {
    assert_eq!(
        parse_cmd("(a | b) > out"),
        Ok(redirect(pipe(exec(&["a"]), exec(&["b"])), "out", RedirectMode::WriteTruncate))
    );
    assert_eq!(
        parse_cmd("(a; b) < in >> out"),
        Ok(redirect(
            redirect(sequence(exec(&["a"]), exec(&["b"])), "in", RedirectMode::Read),
            "out",
            RedirectMode::WriteAppend
        ))
    );
}

#[test]
fn pipes_bind_tighter_than_sequencing() {
    assert_eq!(
        parse_cmd("a | b ; c | d"),
        Ok(sequence(pipe(exec(&["a"]), exec(&["b"])), pipe(exec(&["c"]), exec(&["d"]))))
    );
    assert_eq!(
        parse_cmd("a ; b ; c"),
        Ok(sequence(exec(&["a"]), sequence(exec(&["b"]), exec(&["c"]))))
    );
}

#[test]
fn an_ampersand_puts_what_stands_before_it_in_the_background() {
    assert_eq!(parse_cmd("a &"), Ok(background(exec(&["a"]))));
    assert_eq!(parse_cmd("a | b &"), Ok(background(pipe(exec(&["a"]), exec(&["b"])))));
    assert_eq!(parse_cmd("a & &"), Ok(background(background(exec(&["a"])))));
}

#[test]
fn a_pipeline_behind_an_ampersand_runs_after_the_background_is_started() {
    assert_eq!(parse_cmd("a & b"), Ok(sequence(background(exec(&["a"])), exec(&["b"]))));
    assert_eq!(
        parse_cmd("a & b & c"),
        Ok(sequence(
            background(sequence(background(exec(&["a"])), exec(&["b"]))),
            exec(&["c"])
        ))
    );
    assert_eq!(
        parse_cmd("a & ; b"),
        Ok(sequence(background(exec(&["a"])), exec(&["b"])))
    );
    assert_eq!(
        parse_cmd("(a &) | b"),
        Ok(pipe(background(exec(&["a"])), exec(&["b"])))
    );
}

#[test]
fn a_stray_operator_is_a_syntax_error() {
    assert_eq!(parse_cmd("| a"), Err(SyntaxError::StrayOperator));
    assert_eq!(parse_cmd("; a"), Err(SyntaxError::StrayOperator));
    assert_eq!(parse_cmd("& a"), Err(SyntaxError::StrayOperator));
    assert_eq!(parse_cmd("> out"), Err(SyntaxError::StrayOperator));
    assert_eq!(parse_cmd("> out cmd"), Err(SyntaxError::StrayOperator));
    assert_eq!(parse_cmd(")"), Err(SyntaxError::StrayOperator));
    assert_eq!(parse_cmd("()"), Err(SyntaxError::StrayOperator));
    assert_eq!(parse_cmd("a ;"), Err(SyntaxError::StrayOperator));
    assert_eq!(parse_cmd("a | | b"), Err(SyntaxError::StrayOperator));
    assert_eq!(parse_cmd("a & | b"), Err(SyntaxError::StrayOperator));
}

#[test]
fn a_group_that_is_not_closed_is_a_syntax_error() {
    assert_eq!(parse_cmd("(a"), Err(SyntaxError::MissingCloseParen));
    assert_eq!(parse_cmd("(a | b"), Err(SyntaxError::MissingCloseParen));
    assert_eq!(parse_cmd("((a) b)"), Err(SyntaxError::MissingCloseParen));
}

#[test]
fn a_redirection_without_a_file_is_a_syntax_error() {
    assert_eq!(parse_cmd("a >"), Err(SyntaxError::MissingRedirectTarget));
    assert_eq!(parse_cmd("a > | b"), Err(SyntaxError::MissingRedirectTarget));
    assert_eq!(parse_cmd("a < >"), Err(SyntaxError::MissingRedirectTarget));
    assert_eq!(parse_cmd("(a) >>"), Err(SyntaxError::MissingRedirectTarget));
    assert_eq!(parse_cmd("(a) > ;"), Err(SyntaxError::MissingRedirectTarget));
}

#[test]
fn input_behind_a_complete_command_is_a_syntax_error() {
    assert_eq!(parse_cmd("a )"), Err(SyntaxError::TrailingInput));
    assert_eq!(parse_cmd("(a) b"), Err(SyntaxError::TrailingInput));
    assert_eq!(parse_cmd("(a) (b)"), Err(SyntaxError::TrailingInput));
}

#[test]
fn a_parenthesis_among_the_words_is_a_syntax_error() {
    assert_eq!(parse_cmd("a (b)"), Err(SyntaxError::UnexpectedToken));
    assert_eq!(parse_cmd("a b ( c"), Err(SyntaxError::UnexpectedToken));
    let mut s = "a";
    assert_eq!(parse_block(&mut s), Err(SyntaxError::UnexpectedToken));
    let mut empty = "";
    assert_eq!(parse_block(&mut empty), Err(SyntaxError::UnexpectedToken));
}

#[test]
fn a_rule_that_succeeds_leaves_the_cursor_behind_what_it_used() {
    let mut s = "  a b | c";
    assert_eq!(parse_exec(&mut s), Ok(exec(&["a", "b"])));
    assert_eq!(s, "| c");
    let mut s = "a | b ; c";
    assert_eq!(parse_pipe(&mut s), Ok(pipe(exec(&["a"]), exec(&["b"]))));
    assert_eq!(s, "; c");
    let mut s = "(a ; b)  > out  ) rest";
    assert_eq!(
        parse_block(&mut s),
        Ok(redirect(sequence(exec(&["a"]), exec(&["b"])), "out", RedirectMode::WriteTruncate))
    );
    assert_eq!(s, ") rest");
    let mut s = "a ; b ) c";
    assert_eq!(parse_line(&mut s), Ok(sequence(exec(&["a"]), exec(&["b"]))));
    assert_eq!(s, ") c");
    let mut s = "  word";
    assert_eq!(parse_redirs(exec(&["x"]), &mut s), Ok(exec(&["x"])));
    assert_eq!(s, "word");
    let mut s = " & & ; x";
    assert_eq!(parse_backs(exec(&["x"]), &mut s), Ok(background(background(exec(&["x"])))));
    assert_eq!(s, "; x");
}

#[test]
fn a_rule_that_fails_leaves_the_cursor_where_it_was() {
    let mut s = "  a > ";
    assert_eq!(parse_exec(&mut s), Err(SyntaxError::MissingRedirectTarget));
    assert_eq!(s, "  a > ");
    let mut s = " a | (b";
    assert_eq!(parse_pipe(&mut s), Err(SyntaxError::MissingCloseParen));
    assert_eq!(s, " a | (b");
    let mut s = " a ; b | ";
    assert_eq!(parse_line(&mut s), Err(SyntaxError::StrayOperator));
    assert_eq!(s, " a ; b | ");
    let mut s = " > ";
    assert_eq!(parse_redirs(exec(&["x"]), &mut s), Err(SyntaxError::MissingRedirectTarget));
    assert_eq!(s, " > ");
    let mut s = " & (";
    assert_eq!(parse_backs(exec(&["x"]), &mut s), Err(SyntaxError::StrayOperator));
    assert_eq!(s, " & (");
    let mut s = "  (a ";
    assert_eq!(parse_block(&mut s), Err(SyntaxError::MissingCloseParen));
    assert_eq!(s, "  (a ");
}

#[test]
fn a_rule_below_the_whole_line_does_not_take_the_empty_command() {
    let mut s = "";
    assert_eq!(parse_line(&mut s), Err(SyntaxError::StrayOperator));
    let mut s = "   ";
    assert_eq!(parse_pipe(&mut s), Err(SyntaxError::StrayOperator));
    let mut s = "";
    assert_eq!(parse_exec(&mut s), Err(SyntaxError::StrayOperator));
}

#[test]
fn each_redirection_operator_has_its_mode_and_descriptor() {
    assert_eq!(redirect_mode(TokenKind::LRedir), RedirectMode::Read);
    assert_eq!(redirect_mode(TokenKind::RRedir), RedirectMode::WriteTruncate);
    assert_eq!(redirect_mode(TokenKind::Append), RedirectMode::WriteAppend);
    assert_eq!(mode_fd(RedirectMode::Read), 0);
    assert_eq!(mode_fd(RedirectMode::WriteTruncate), 1);
    assert_eq!(mode_fd(RedirectMode::WriteAppend), 1);
}

#[test]
fn a_copy_of_a_tree_is_equal_to_it() {
    let tree = parse_cmd("(a b < in | c) > out ; d &").unwrap();
    assert_eq!(tree.clone(), tree);
    assert_eq!(tree.duplicate(), tree);
}

#[test]
fn each_syntax_error_says_what_is_wrong() {
    assert_eq!(SyntaxError::UnexpectedToken.describe(), "unexpected token");
    assert_eq!(SyntaxError::MissingCloseParen.describe(), "missing )");
    assert_eq!(SyntaxError::MissingRedirectTarget.describe(), "missing file for redirection");
    assert_eq!(SyntaxError::TrailingInput.describe(), "trailing input");
    assert_eq!(SyntaxError::StrayOperator.describe(), "stray operator");
}
#[test]
fn a_line_in_parentheses_has_the_tree_of_the_line() {
    let lines = [
        "a",
        "a b c",
        "a | b",
        " a | b | c ",
        "a > out",
        "a < in b >> out",
        "a ; b",
        "a &",
        "a & b ; c | d &",
        "(a ; b) | c",
        "((a))",
        "x>y",
    ];
    for line in lines {
        let grouped = format!("({})", line);
        assert!(parse_cmd(line).is_ok(), "{:?}", line);
        assert_eq!(parse_cmd(&grouped), parse_cmd(line), "{:?}", line);
    }
}

#[test]
fn an_empty_group_is_not_the_empty_command() {
    assert_eq!(parse_cmd("  "), Ok(exec(&[])));
    assert_eq!(parse_cmd("(  )"), Err(SyntaxError::StrayOperator));
}

#[test]
fn a_line_that_ends_with_a_dangling_operator_is_a_syntax_error() {
    for line in ["a |", "a | b |", "a ;", "a <", "a >", "a >>", "a (", "(", "a ; (", "a & |"] {
        assert!(parse_cmd(line).is_err(), "{:?}", line);
    }
    for line in ["a", "a &", "(a)", "a > f"] {
        assert!(parse_cmd(line).is_ok(), "{:?}", line);
    }
}
