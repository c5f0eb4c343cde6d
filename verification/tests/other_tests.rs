use desktop_ini::encoding::{current_encoding, decode_system, encode_system, SystemEncoding};
use desktop_ini::error::{Error, ErrorAction, IoReason, ResultHandle};
use desktop_ini::prompt::{list_answer, value_answer, yes_no_answer};
use desktop_ini::setup;
use desktop_ini::summary::Summary;
use desktop_ini::sync::{Walk, WalkItem};
use desktop_ini::Ini;

#[test]
fn code_pages() {
    assert_eq!(current_encoding(936), SystemEncoding::Gbk);
    assert_eq!(current_encoding(950), SystemEncoding::Big5);
    assert_eq!(current_encoding(932), SystemEncoding::ShiftJis);
    assert_eq!(current_encoding(1250), SystemEncoding::Windows1250);
    assert_eq!(current_encoding(1252), SystemEncoding::Windows1252);
    assert_eq!(current_encoding(1258), SystemEncoding::Windows1258);
    assert_eq!(current_encoding(65001), SystemEncoding::Utf8);
    assert_eq!(current_encoding(437), SystemEncoding::Utf8);
}

#[test]
fn system_encodings() {
    assert_eq!(encode_system(1252, "é"), vec![0xE9]);
    assert_eq!(decode_system(1252, &[0xE9]), "é");
    assert_eq!(encode_system(65001, "é"), vec![0xC3, 0xA9]);
    assert_eq!(decode_system(65001, &[0xEF, 0xBB, 0xBF, b'a']), "a");
    assert_eq!(decode_system(932, &[0x82, 0xA0]), "あ");
    assert_eq!(decode_system(936, b"plain"), "plain");
}

#[test]
fn decide_by_action() {
    let ok: desktop_ini::error::Result<u32> = Ok(3);
    assert!(matches!(ok.decide(ErrorAction::Stop), Ok(Some(3))));
    let e = || -> desktop_ini::error::Result<u32> { Err(Error::NoValue) };
    assert!(matches!(e().decide(ErrorAction::Stop), Err(Error::NoValue)));
    assert!(matches!(e().decide(ErrorAction::Continue), Ok(None)));
    assert!(matches!(e().decide(ErrorAction::Inquire), Ok(None)));
    assert!(matches!(e().decide(ErrorAction::SilentlyContinue), Ok(None)));
    assert!(ErrorAction::Continue.reports() && ErrorAction::Inquire.reports());
    assert!(!ErrorAction::Stop.reports() && !ErrorAction::SilentlyContinue.reports());
    assert!(ErrorAction::Inquire.waits() && !ErrorAction::Continue.waits());
}

#[test]
fn io_reason() {
    let err = std::io::Error::new(std::io::ErrorKind::NotFound, "gone");
    match err.reason("open file", Some("C:\\x")) {
        Error::Io { action, path, source } => {
            assert_eq!(action, "open file");
            assert_eq!(path, "C:\\x");
            assert_eq!(source.kind(), std::io::ErrorKind::NotFound);
        }
        _ => panic!("not an I/O error"),
    }
    let r: std::io::Result<u8> = Err(std::io::Error::new(std::io::ErrorKind::Other, "x"));
    assert!(matches!(r.reason("read", None), Err(Error::Io { ref path, .. }) if path.is_empty()));
    let r: std::io::Result<u8> = Ok(7);
    assert!(matches!(r.reason("read", None), Ok(7)));
}

#[test]
fn prompts() {
    assert_eq!(value_answer("  \n"), None);
    assert_eq!(value_answer(" - \n"), Some(String::new()));
    assert_eq!(value_answer(" new name \n"), Some("new name".to_string()));
    assert_eq!(list_answer(" a, b ,,c \n"), vec!["a", "b", "c"]);
    assert_eq!(list_answer("  "), Vec::<String>::new());
    assert_eq!(yes_no_answer("Y"), Some(true));
    assert_eq!(yes_no_answer(" yes "), Some(true));
    assert_eq!(yes_no_answer("NO"), Some(false));
    assert_eq!(yes_no_answer(""), None);
    assert_eq!(yes_no_answer("maybe"), None);
}

#[test]
fn registry_setup() {
    assert!(matches!(setup("C:\\bin\\desktop-ini.exe", false), Err(Error::UnsupportedOS)));
    let s = setup("C:\\bin\\desktop-ini.exe", true).ok().unwrap();
    assert_eq!(s.class_key, "Software\\Classes\\INI.CustomExecution");
    assert_eq!(s.class_description, "Desktop.ini Custom Open Handler");
    assert_eq!(s.command_key, "Shell\\open\\command");
    assert_eq!(s.command, "\"C:\\bin\\desktop-ini.exe\" run --path \"%1\"");
}

fn visit(item: Option<WalkItem>) -> (String, u32) {
    match item {
        Some(WalkItem::Visit { dir, depth }) => (dir, depth),
        _ => panic!("expected a folder"),
    }
}

#[test]
fn walk_order() {
    let mut w = Walk::new("root".to_string(), Some(2));
    assert_eq!(visit(w.next()), ("root".to_string(), 2));
    w.checked(Some(true));
    assert!(Walk::descends(2));
    w.listed(2, vec![Ok(Some("a".to_string())), Ok(None), Err(Error::NoValue), Ok(Some("b".to_string()))]);
    match w.next() {
        Some(WalkItem::Entry { entry: Ok(Some(d)), depth }) => {
            assert_eq!((d.as_str(), depth), ("a", 1));
            w.enter(d, depth);
        }
        _ => panic!("expected the first entry"),
    }
    assert_eq!(visit(w.next()), ("a".to_string(), 1));
    w.checked(Some(false));
    assert!(matches!(w.next(), Some(WalkItem::Entry { entry: Ok(None), depth: 1 })));
    assert!(matches!(w.next(), Some(WalkItem::Entry { entry: Err(Error::NoValue), depth: 1 })));
    assert!(matches!(w.next(), Some(WalkItem::Entry { entry: Ok(Some(_)), depth: 1 })));
    assert!(w.next().is_none());
    w.checked(None);
    assert_eq!(w.changed(), 1);
    assert!(!Walk::descends(0));
    let mut unbounded = Walk::new("r".to_string(), None);
    assert_eq!(visit(unbounded.next()), ("r".to_string(), u32::MAX));
}

#[test]
fn summary_of_a_file() {
    let mut ini = Ini::new();
    ini.set_info_tip("tip".to_string());
    ini.set_execution("run.bat".to_string());
    ini.add_tags(&["x".to_string()]);
    let s: Summary = ini.summary();
    assert_eq!(s.info_tip, Some("tip".to_string()));
    assert_eq!(s.localized_resource_name, None);
    assert_eq!(s.icon_resource, None);
    assert_eq!(s.tags, Some(vec!["x".to_string()]));
    assert_eq!(s.execution, Some("run.bat".to_string()));
    assert!(!s.confirm);
}
