use minishell::dispatch::{
    builtin_of, cd_target, first_match, join_spaces, parse_i32, path_join, split_colon, Builtin,
    CdTarget,
};
use minishell::messages::{
    builtin_message, command_not_found_message, found_at_message, no_such_dir_message,
    not_found_message,
};
use minishell::text::trim;
use minishell::tokenizer::{parse_cli, tokenize, Env, ParseError};

fn cv(s: &str) -> Vec<char> {
    s.chars().collect()
}

fn strings(v: Vec<Vec<char>>) -> Vec<String> {
    v.into_iter().map(|w| w.into_iter().collect()).collect()
}

fn owned(v: Vec<&str>) -> Vec<String> {
    v.into_iter().map(|s| s.to_string()).collect()
}

fn toks(line: &str, env: &Env) -> Vec<String> {
    strings(tokenize(&cv(line), env).expect("tokenize failed"))
}

#[test]
fn single_quoted_segments_verbatim() {
    let env = Env::new();
    assert_eq!(toks("'abc' 'd  e'", &env), owned(vec!["abc", "d  e"]));
    assert_eq!(toks("'a$b\\c'", &env), owned(vec!["a$b\\c"]));
}

#[test]
fn single_quotes_keep_internal_spaces() {
    let env = Env::new();
    let cl = parse_cli(&cv("echo 'a  b'"), &env).unwrap().unwrap();
    assert_eq!(cl.name.iter().collect::<String>(), "echo");
    assert_eq!(strings(cl.args), owned(vec!["a  b"]));
}

#[test]
fn double_quote_escaped_quotes() {
    let env = Env::new();
    assert_eq!(
        toks("echo \"hello \\\"world\\\"\"", &env),
        owned(vec!["echo", "hello \"world\""])
    );
}

#[test]
fn variable_expansion_in_double_quotes() {
    let mut env = Env::new();
    env.set(cv("FOO"), cv("bar"));
    assert_eq!(toks("echo \"x$FOO y\"", &env), owned(vec!["echo", "xbar y"]));
}

#[test]
fn unquoted_space_runs_collapse() {
    let env = Env::new();
    assert_eq!(toks("echo   a   b", &env), owned(vec!["echo", "a", "b"]));
}

#[test]
fn bare_backslash_before_ordinary_char_is_kept() {
    let env = Env::new();
    assert_eq!(toks("echo a\\qb", &env), owned(vec!["echo", "a\\qb"]));
}

#[test]
fn bare_backslash_suppressed_before_special_chars() {
    let env = Env::new();
    assert_eq!(toks("a\\\\b", &env), owned(vec!["a\\b"]));
    assert_eq!(toks("a\\ b", &env), owned(vec!["a b"]));
    assert_eq!(toks("a\\nb", &env), owned(vec!["anb"]));
    assert_eq!(toks("a\\\"b", &env), owned(vec!["a\"b"]));
}

#[test]
fn double_quote_backslash_kept_before_ordinary_char() {
    let env = Env::new();
    assert_eq!(toks("\"a\\qb\"", &env), owned(vec!["a\\qb"]));
    assert_eq!(toks("\"a\\\\b\"", &env), owned(vec!["a\\b"]));
}

#[test]
fn dollar_is_literal_outside_double_quotes() {
    let env = Env::new();
    assert_eq!(toks("echo $FOO", &env), owned(vec!["echo", "$FOO"]));
}

#[test]
fn variable_ended_by_closing_quote() {
    let mut env = Env::new();
    env.set(cv("FOO"), cv("bar"));
    assert_eq!(toks("\"x$FOO\"", &env), owned(vec!["xbar"]));
}

#[test]
fn variable_ended_by_backslash_keeps_backslash() {
    let mut env = Env::new();
    env.set(cv("FOO"), cv("bar"));
    assert_eq!(toks("\"x$FOO\\qz\"", &env), owned(vec!["xbar\\qz"]));
}

#[test]
fn undefined_variable_is_an_error_naming_it() {
    let env = Env::new();
    let r = tokenize(&cv("echo \"x$NOPE \""), &env);
    match r {
        Err(ParseError::UndefinedVariable(name)) => {
            assert_eq!(name.iter().collect::<String>(), "NOPE");
        }
        _ => panic!("expected an undefined-variable error"),
    }
}

#[test]
fn env_later_binding_overrides_earlier() {
    let mut env = Env::new();
    env.set(cv("FOO"), cv("one"));
    env.set(cv("FOO"), cv("two"));
    assert_eq!(toks("\"$FOO\"", &env), owned(vec!["two"]));
    let name = cv("FOO");
    let v = env.lookup(&name).unwrap();
    assert_eq!(v.iter().collect::<String>(), "two");
    let missing = cv("BAR");
    assert!(env.lookup(&missing).is_none());
}

#[test]
fn blank_line_is_a_no_op() {
    let env = Env::new();
    assert!(parse_cli(&cv(""), &env).unwrap().is_none());
    assert!(parse_cli(&cv("   \n"), &env).unwrap().is_none());
}

#[test]
fn outer_whitespace_is_trimmed() {
    let env = Env::new();
    let cl = parse_cli(&cv("  echo hi  \n"), &env).unwrap().unwrap();
    assert_eq!(cl.name.iter().collect::<String>(), "echo");
    assert_eq!(strings(cl.args), owned(vec!["hi"]));
    assert_eq!(trim(&cv("\t a b \r\n")).iter().collect::<String>(), "a b");
}

#[test]
fn unterminated_quote_keeps_content() {
    let env = Env::new();
    assert_eq!(toks("'abc", &env), owned(vec!["abc"]));
    assert_eq!(toks("\"a b", &env), owned(vec!["a b"]));
}

#[test]
fn trailing_backslash_is_dropped() {
    let env = Env::new();
    assert_eq!(toks("ab\\", &env), owned(vec!["ab"]));
}

#[test]
fn builtin_names_are_recognized() {
    assert!(matches!(builtin_of(&cv("exit")), Some(Builtin::Exit)));
    assert!(matches!(builtin_of(&cv("echo")), Some(Builtin::Echo)));
    assert!(matches!(builtin_of(&cv("type")), Some(Builtin::Type)));
    assert!(matches!(builtin_of(&cv("pwd")), Some(Builtin::Pwd)));
    assert!(matches!(builtin_of(&cv("cd")), Some(Builtin::Cd)));
    assert!(builtin_of(&cv("nonexistent_cmd_xyz")).is_none());
    assert!(builtin_of(&cv("ech")).is_none());
    assert!(builtin_of(&cv("")).is_none());
}

#[test]
fn exit_codes_parse_exactly() {
    assert_eq!(parse_i32(&cv("0")), Some(0));
    assert_eq!(parse_i32(&cv("42")), Some(42));
    assert_eq!(parse_i32(&cv("-7")), Some(-7));
    assert_eq!(parse_i32(&cv("+8")), Some(8));
    assert_eq!(parse_i32(&cv("007")), Some(7));
    assert_eq!(parse_i32(&cv("2147483647")), Some(2147483647));
    assert_eq!(parse_i32(&cv("2147483648")), None);
    assert_eq!(parse_i32(&cv("-2147483648")), Some(i32::MIN));
    assert_eq!(parse_i32(&cv("-2147483649")), None);
    assert_eq!(parse_i32(&cv("99999999999999999999")), None);
    assert_eq!(parse_i32(&cv("")), None);
    assert_eq!(parse_i32(&cv("-")), None);
    assert_eq!(parse_i32(&cv("+")), None);
    assert_eq!(parse_i32(&cv("12a")), None);
    assert_eq!(parse_i32(&cv(" 1")), None);
}

#[test]
fn cd_targets_resolve() {
    let none: Vec<Vec<char>> = Vec::new();
    assert!(matches!(cd_target(&none), CdTarget::Here));
    assert!(matches!(cd_target(&vec![cv("~")]), CdTarget::Home));
    match cd_target(&vec![cv("/tmp")]) {
        CdTarget::Dir(p) => assert_eq!(p.iter().collect::<String>(), "/tmp"),
        _ => panic!("expected a directory target"),
    }
    match cd_target(&vec![cv("~user")]) {
        CdTarget::Dir(p) => assert_eq!(p.iter().collect::<String>(), "~user"),
        _ => panic!("expected a directory target"),
    }
}

#[test]
fn echo_joins_with_single_spaces() {
    assert_eq!(
        join_spaces(&vec![cv("a"), cv("b c"), cv("d")])
            .iter()
            .collect::<String>(),
        "a b c d"
    );
    let none: Vec<Vec<char>> = Vec::new();
    assert_eq!(join_spaces(&none).iter().collect::<String>(), "");
    assert_eq!(join_spaces(&vec![cv("x")]).iter().collect::<String>(), "x");
}

#[test]
fn search_path_splits_on_colons() {
    assert_eq!(
        strings(split_colon(&cv("/bin:/usr/bin"))),
        owned(vec!["/bin", "/usr/bin"])
    );
    assert_eq!(strings(split_colon(&cv("a::b"))), owned(vec!["a", "", "b"]));
    assert_eq!(strings(split_colon(&cv(""))), owned(vec![""]));
    assert_eq!(strings(split_colon(&cv(":"))), owned(vec!["", ""]));
}

#[test]
fn type_echo_reports_builtin() {
    let env = Env::new();
    let cl = parse_cli(&cv("type echo"), &env).unwrap().unwrap();
    assert_eq!(cl.name.iter().collect::<String>(), "type");
    assert!(matches!(builtin_of(&cl.args[0]), Some(Builtin::Echo)));
    assert_eq!(
        builtin_message(&cl.args[0]).iter().collect::<String>(),
        "echo is a shell builtin"
    );
}

#[test]
fn type_messages_are_exact() {
    assert_eq!(
        builtin_message(&cv("echo")).iter().collect::<String>(),
        "echo is a shell builtin"
    );
    assert_eq!(
        not_found_message(&cv("nonexistent_cmd_xyz"))
            .iter()
            .collect::<String>(),
        "nonexistent_cmd_xyz: not found"
    );
    assert_eq!(
        found_at_message(&cv("ls"), &cv("/bin/ls")).iter().collect::<String>(),
        "ls is /bin/ls"
    );
}

#[test]
fn failure_messages_are_exact() {
    assert_eq!(
        no_such_dir_message(&cv("/missing")).iter().collect::<String>(),
        "/missing: No such file or directory"
    );
    assert_eq!(
        command_not_found_message(&cv("frobnicate"))
            .iter()
            .collect::<String>(),
        "frobnicate: command not found"
    );
}

#[test]
fn path_search_takes_first_hit_in_order() {
    assert_eq!(first_match(&vec![false, true, true, false]), Some(1));
    assert_eq!(first_match(&vec![true]), Some(0));
    assert_eq!(first_match(&vec![false, false]), None);
    assert_eq!(first_match(&Vec::new()), None);
}

#[test]
fn candidate_paths_join_with_slash() {
    assert_eq!(
        path_join(&cv("/usr/bin"), &cv("ls")).iter().collect::<String>(),
        "/usr/bin/ls"
    );
}
