use desktop_ini::{join_args, parse_args};

#[test]
fn test_args() {
    let args = r#"%1 a"b"c "a\"bc" aa""#;
    let args1 = parse_args(args, "/a/b/c");
    let args1 = join_args(&args1);
    assert_eq!(args1, args.replace("%1", "/a/b/c"));
}

#[test]
fn parse_args_splits_on_white_space() {
    assert_eq!(parse_args("  a\tb \n c  ", "/p"), vec!["a", "b", "c"]);
    assert_eq!(parse_args("", "/p"), Vec::<String>::new());
}

#[test]
fn parse_args_replaces_placeholders() {
    assert_eq!(parse_args("--dir=%1 100%% %x %", "C:\\my dir"), vec!["--dir=C:\\my dir", "100%", "%x", "%"]);
    assert_eq!(parse_args("%1", ""), Vec::<String>::new());
    assert_eq!(parse_args("a%1b", "X"), vec!["aXb"]);
}

#[test]
fn parse_args_keeps_quotes() {
    assert_eq!(parse_args("\"a b\"", "/p"), vec!["\"a", "b\""]);
}

#[test]
fn join_args_quotes_white_space() {
    let args = vec!["plain".to_string(), "with space".to_string(), "say \"hi\" now".to_string()];
    assert_eq!(join_args(&args), "plain \"with space\" \"say \\\"hi\\\" now\"");
    assert_eq!(join_args(&[]), "");
    assert_eq!(join_args(&["a\"b".to_string()]), "a\"b");
}

#[test]
fn plain_args_come_back() {
    let args = vec!["-x".to_string(), "file.txt".to_string(), "a\"b".to_string()];
    assert_eq!(parse_args(&join_args(&args), "/anything"), args);
}

#[test]
fn args_with_space_do_not_come_back() {
    let args = vec!["a b".to_string()];
    assert_ne!(parse_args(&join_args(&args), "/p"), args);
}
