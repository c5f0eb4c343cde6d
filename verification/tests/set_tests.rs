use desktop_ini::set::{apply_set, icon_resource_file, SetOptions};
use desktop_ini::Ini;

fn options() -> SetOptions {
    SetOptions {
        name: None,
        icon: None,
        tip: None,
        add_tag: None,
        remove_tag: None,
        clear_tag: false,
        run: None,
        confirm: false,
    }
}

#[test]
fn icon_files() {
    assert_eq!(icon_resource_file("shell32.dll,4"), Some("shell32.dll".to_string()));
    assert_eq!(icon_resource_file("C:\\a,b\\x.dll,+12"), Some("C:\\a,b\\x.dll".to_string()));
    assert_eq!(icon_resource_file("folder.ico"), Some("folder.ico".to_string()));
    assert_eq!(icon_resource_file("x.dll,-1"), None);
    assert_eq!(icon_resource_file("x.dll,"), None);
    assert_eq!(icon_resource_file("x.dll,+"), None);
    assert_eq!(icon_resource_file("x.dll,abc"), None);
    assert_eq!(icon_resource_file("x.dll,4294967295"), Some("x.dll".to_string()));
    assert_eq!(icon_resource_file("x.dll,4294967296"), None);
    assert_eq!(icon_resource_file("x.dll,99999999999999999999x"), None);
}

#[test]
fn set_fields_tags_and_command() {
    let mut ini = Ini::new();
    let mut o = options();
    o.name = Some("Example folder".to_string());
    o.icon = Some("shell32.dll,4".to_string());
    o.tip = Some("This is an example".to_string());
    o.add_tag = Some(vec!["work".to_string(), "rust,cli".to_string()]);
    o.run = Some("code .".to_string());
    o.confirm = true;
    apply_set(&mut ini, o);
    assert_eq!(ini.localized_resource_name(), Some("Example folder".to_string()));
    assert_eq!(ini.icon_resource(), Some("shell32.dll,4".to_string()));
    assert_eq!(ini.info_tip(), Some("This is an example".to_string()));
    assert_eq!(ini.tags(), Some(vec!["work".to_string(), "rust".to_string(), "cli".to_string()]));
    assert_eq!(ini.execution(), Some("code .".to_string()));
    assert_eq!(ini.get("[.ShellClassInfo]", "DirectoryClass"), Some("INI.CustomExecution".to_string()));
    assert_eq!(ini.confirm_execution(), Some(true));

    let mut o = options();
    o.remove_tag = Some(vec!["rust,work".to_string()]);
    o.icon = Some("missing.ico".to_string());
    apply_set(&mut ini, o);
    assert_eq!(ini.tags(), Some(vec!["cli".to_string()]));
    assert_eq!(ini.icon_resource(), Some("missing.ico".to_string()));
    assert_eq!(ini.confirm_execution(), Some(false));

    let mut o = options();
    o.clear_tag = true;
    o.icon = Some("bad,index".to_string());
    apply_set(&mut ini, o);
    assert_eq!(ini.tags(), None);
    assert_eq!(ini.icon_resource(), Some("missing.ico".to_string()));
}

#[test]
fn set_leaves_confirmation_absent() {
    let mut ini = Ini::new();
    apply_set(&mut ini, options());
    assert_eq!(ini.confirm_execution(), None);
    assert_eq!(ini.to_text(), "");
}

#[test]
fn set_icon_without_file_present() {
    let mut ini = Ini::new();
    let mut o = options();
    o.icon = Some("shell32.dll,4".to_string());
    apply_set(&mut ini, o);
    assert_eq!(ini.get("[.ShellClassInfo]", "IconResource"), Some("shell32.dll,4".to_string()));
    let mut o = options();
    o.icon = Some("shell32.dll,x".to_string());
    apply_set(&mut ini, o);
    assert_eq!(ini.icon_resource(), Some("shell32.dll,4".to_string()));
}
