use desktop_ini::command::{parse_command, quote_windows_arg, shell_execute_runas};

#[test]
fn parse_command_splits_and_groups() {
    assert_eq!(parse_command("notepad.exe readme.txt"), vec!["notepad.exe", "readme.txt"]);
    assert_eq!(parse_command("  \"C:\\Program Files\\app.exe\"  --flag  "), vec!["C:Program Filesapp.exe", "--flag"]);
    assert_eq!(parse_command(""), Vec::<String>::new());
    assert_eq!(parse_command("\"\""), Vec::<String>::new());
}

#[test]
fn parse_command_escapes_inside_quotes() {
    assert_eq!(parse_command("say \"a \\\"b\\\" c\""), vec!["say", "a \"b\" c"]);
    assert_eq!(parse_command("a\\b"), vec!["a\\b"]);
    assert_eq!(parse_command("x\"y z\"w"), vec!["xy zw"]);
}

#[test]
fn quote_windows_arg_cases() {
    assert_eq!(quote_windows_arg(""), "\"\"");
    assert_eq!(quote_windows_arg("plain"), "plain");
    assert_eq!(quote_windows_arg("two words"), "\"two words\"");
    assert_eq!(quote_windows_arg("a\"b"), "\"a\\\"b\"");
}

#[test]
fn runas_parameters() {
    let args = vec!["--path".to_string(), "C:\\a b".to_string(), "".to_string()];
    assert_eq!(shell_execute_runas(&args, true), Some("--path \"C:\\a b\" \"\"".to_string()));
    assert_eq!(shell_execute_runas(&[], true), Some(String::new()));
    assert_eq!(shell_execute_runas(&args, false), None);
}
