use desktop_ini::{Ini, DIRECTORY_CLASS};

#[test]
fn fields_set_and_clear() {
    let mut ini = Ini::new();
    assert_eq!(ini.info_tip(), None);
    assert_eq!(ini.set_info_tip("tip".to_string()), None);
    assert_eq!(ini.info_tip(), Some("tip".to_string()));
    assert_eq!(ini.set_info_tip("   ".to_string()), Some("tip".to_string()));
    assert_eq!(ini.info_tip(), None);
    ini.set_icon_resource("a.ico".to_string());
    assert_eq!(ini.icon_resource(), Some("a.ico".to_string()));
    assert_eq!(ini.get("[.ShellClassInfo]", "IconResource"), Some("a.ico".to_string()));
    ini.set_localized_resource_name("Name".to_string());
    assert_eq!(ini.localized_resource_name(), Some("Name".to_string()));
    ini.set_execution("cmd /C dir".to_string());
    assert_eq!(ini.execution(), Some("cmd /C dir".to_string()));
    assert_eq!(ini.get("[.CustomExecution]", "Target"), Some("cmd /C dir".to_string()));
    ini.set_execution("".to_string());
    assert_eq!(ini.execution(), None);
}

#[test]
fn confirm_flag() {
    let mut ini = Ini::new();
    assert_eq!(ini.confirm_execution(), None);
    ini.set_confirm_execution(true);
    assert_eq!(ini.get("[.CustomExecution]", "ConfirmExecution"), Some("1".to_string()));
    assert_eq!(ini.confirm_execution(), Some(true));
    ini.set_confirm_execution(false);
    assert_eq!(ini.get("[.CustomExecution]", "ConfirmExecution"), Some("0".to_string()));
    assert_eq!(ini.confirm_execution(), Some(false));
    ini.set("[.CustomExecution]", "ConfirmExecution", "yes");
    assert_eq!(ini.confirm_execution(), Some(true));
    ini.set("[.CustomExecution]", "ConfirmExecution", " 0");
    assert_eq!(ini.confirm_execution(), Some(true));
}

#[test]
fn directory_class() {
    let mut ini = Ini::new();
    assert_eq!(ini.set_directory_class(), None);
    assert_eq!(ini.get("[.ShellClassInfo]", "DirectoryClass"), Some(DIRECTORY_CLASS.to_string()));
    assert_eq!(DIRECTORY_CLASS, "INI.CustomExecution");
}

#[test]
fn args_field() {
    let mut ini = Ini::new();
    assert_eq!(ini.args("/p"), None);
    ini.set_args(&["%1".to_string(), "two words".to_string()]);
    assert_eq!(ini.get("[.CustomExecution]", "Args"), Some("%1 \"two words\"".to_string()));
    assert_eq!(ini.args("/p"), Some(vec!["/p".to_string(), "\"two".to_string(), "words\"".to_string()]));
    ini.set_args(&["-a".to_string(), "b".to_string()]);
    assert_eq!(ini.args("/p"), Some(vec!["-a".to_string(), "b".to_string()]));
}
