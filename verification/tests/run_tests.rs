use desktop_ini::run::{command_line, confirm_first, confirmation, needs_elevation, Confirmation};
use desktop_ini::Ini;

#[test]
fn confirmation_answers() {
    assert_eq!(confirmation("y"), Confirmation::Execute);
    assert_eq!(confirmation(" YES \r\n"), Confirmation::Execute);
    assert_eq!(confirmation(""), Confirmation::Execute);
    assert_eq!(confirmation("\n"), Confirmation::Execute);
    assert_eq!(confirmation("No"), Confirmation::Cancel);
    assert_eq!(confirmation("n"), Confirmation::Cancel);
    assert_eq!(confirmation("o"), Confirmation::OpenFolder);
    assert_eq!(confirmation("OPEN"), Confirmation::OpenFolder);
    assert_eq!(confirmation("f"), Confirmation::OpenFile);
    assert_eq!(confirmation("File"), Confirmation::OpenFile);
    assert_eq!(confirmation("maybe"), Confirmation::AskAgain);
    assert_eq!(confirmation("ye s"), Confirmation::AskAgain);
}

#[test]
fn confirm_first_follows_flag() {
    let mut ini = Ini::new();
    ini.set_execution("code .".to_string());
    assert!(!confirm_first(&ini));
    ini.set_confirm_execution(true);
    assert!(confirm_first(&ini));
    ini.set_confirm_execution(false);
    assert!(!confirm_first(&ini));
}

#[test]
fn no_command_asks_nothing() {
    let mut ini = Ini::new();
    ini.set_confirm_execution(true);
    assert!(!confirm_first(&ini));
    assert_eq!(command_line(&ini), None);
    ini.set("[.CustomExecution]", "Target", " \t ");
    assert!(!confirm_first(&ini));
    assert_eq!(command_line(&ini), None);
}

#[test]
fn command_line_parts() {
    let mut ini = Ini::new();
    assert_eq!(command_line(&ini), None);
    ini.set("[.CustomExecution]", "Target", "   ");
    assert_eq!(command_line(&ini), None);
    ini.set("[.CustomExecution]", "Target", "code . --new-window");
    assert_eq!(
        command_line(&ini),
        Some(("cmd".to_string(), vec!["/C".to_string(), "code . --new-window".to_string()]))
    );
}

#[test]
fn elevation_only_for_740() {
    assert!(needs_elevation(Some(740)));
    assert!(!needs_elevation(Some(5)));
    assert!(!needs_elevation(None));
}
