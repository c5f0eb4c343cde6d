use desktop_ini::Ini;

fn sample() -> Ini {
    let mut ini = Ini::new();
    ini.set("[Zeta]", "k", "v");
    ini.set("[{F29F85E0-4FF9-1068-AB91-08002B27B3D9}]", "Prop5", "31,a;b");
    ini.set("[Alpha]", "x", "1");
    ini.set("[.ShellClassInfo]", "InfoTip", "hello");
    ini.set("[.ShellClassInfo]", "IconResource", "shell32.dll,4");
    ini
}

#[test]
fn get_set_remove() {
    let mut ini = Ini::new();
    assert_eq!(ini.get("[s]", "k"), None);
    assert_eq!(ini.set("[s]", "k", "1"), None);
    assert_eq!(ini.get("[s]", "k"), Some("1".to_string()));
    assert_eq!(ini.set("[s]", "k", "2"), Some("1".to_string()));
    assert_eq!(ini.get("[s]", "k"), Some("2".to_string()));
    assert_eq!(ini.get("[s]", "other"), None);
    assert_eq!(ini.get("[t]", "k"), None);
    assert_eq!(ini.remove("[s]", "k"), Some("2".to_string()));
    assert_eq!(ini.get("[s]", "k"), None);
    assert_eq!(ini.remove("[s]", "k"), None);
    assert_eq!(ini.remove("[none]", "k"), None);
}

#[test]
fn ordered_puts_known_sections_first() {
    let ini = sample();
    assert_eq!(
        ini.ordered(),
        vec!["[.ShellClassInfo]", "[{F29F85E0-4FF9-1068-AB91-08002B27B3D9}]", "[Alpha]", "[Zeta]"]
    );
    let mut other = Ini::new();
    other.set("[b]", "k", "v");
    other.set("[a]", "k", "v");
    other.set("[B]", "k", "v");
    assert_eq!(other.ordered(), vec!["[B]", "[a]", "[b]"]);
}

#[test]
fn to_text_writes_sections_in_order() {
    let ini = sample();
    assert_eq!(
        ini.to_text(),
        "\n[.ShellClassInfo]\nInfoTip=hello\nIconResource=shell32.dll,4\n\n[{F29F85E0-4FF9-1068-AB91-08002B27B3D9}]\nProp5=31,a;b\n\n[Alpha]\nx=1\n\n[Zeta]\nk=v\n"
    );
    assert_eq!(Ini::new().to_text(), "");
}

#[test]
fn to_text_skips_empty_sections() {
    let mut ini = Ini::new();
    ini.set("[a]", "k", "v");
    ini.set("[b]", "k", "v");
    ini.remove("[a]", "k");
    assert_eq!(ini.to_text(), "\n[b]\nk=v\n");
}

#[test]
fn parse_reads_lines() {
    let text = "# comment\r\n[.ShellClassInfo]\r\n  IconResource = a.ico,0  \r\nnot a pair\r\n\r\n[Other]\nk=v=w\n=empty key\n";
    let ini = Ini::parse(text);
    assert_eq!(ini.get("[.ShellClassInfo]", "IconResource "), Some(" a.ico,0".to_string()));
    assert_eq!(ini.get("[Other]", "k"), Some("v=w".to_string()));
    assert_eq!(ini.get("[Other]", ""), Some("empty key".to_string()));
    assert_eq!(ini.get("[.ShellClassInfo]", "not a pair"), None);
}

#[test]
fn parse_keeps_keys_before_any_section() {
    let ini = Ini::parse("k=v\n[s]\nk=w");
    assert_eq!(ini.get("", "k"), Some("v".to_string()));
    assert_eq!(ini.get("[s]", "k"), Some("w".to_string()));
}

#[test]
fn parse_last_value_wins() {
    let ini = Ini::parse("[s]\nk=1\nk=2\n");
    assert_eq!(ini.get("[s]", "k"), Some("2".to_string()));
}

#[test]
fn written_text_reads_back() {
    let ini = sample();
    let back = Ini::parse(&ini.to_text());
    for (s, k) in [
        ("[.ShellClassInfo]", "InfoTip"),
        ("[.ShellClassInfo]", "IconResource"),
        ("[{F29F85E0-4FF9-1068-AB91-08002B27B3D9}]", "Prop5"),
        ("[Alpha]", "x"),
        ("[Zeta]", "k"),
        ("[Zeta]", "missing"),
    ] {
        assert_eq!(back.get(s, k), ini.get(s, k));
    }
}

#[test]
fn keys_of_the_empty_section_do_not_read_back() {
    let mut ini = Ini::new();
    ini.set("", "a", "b");
    ini.set("[.ShellClassInfo]", "x", "y");
    let back = Ini::parse(&ini.to_text());
    assert_eq!(back.get("", "a"), None);
    assert_eq!(back.get("[.ShellClassInfo]", "a"), Some("b".to_string()));
}

#[test]
fn bytes_read_back() {
    let mut ini = sample();
    ini.set("[.ShellClassInfo]", "LocalizedResourceName", "Überordner 文件");
    let bytes = ini.write_to(65001);
    assert_eq!(bytes, ini.to_text().into_bytes());
    let back = Ini::read_from(&bytes, 65001);
    assert_eq!(
        back.get("[.ShellClassInfo]", "LocalizedResourceName"),
        Some("Überordner 文件".to_string())
    );
    let ascii = sample();
    let bytes = ascii.write_to(1252);
    assert_eq!(bytes, ascii.to_text().into_bytes());
    assert_eq!(Ini::read_from(&bytes, 1252).get("[Alpha]", "x"), Some("1".to_string()));
}

#[test]
fn system_code_page_encodes() {
    let mut ini = Ini::new();
    ini.set("[s]", "k", "中");
    let gbk = ini.write_to(936);
    assert_eq!(gbk, vec![b'\n', b'[', b's', b']', b'\n', b'k', b'=', 0xD6, 0xD0, b'\n']);
    assert_eq!(Ini::read_from(&gbk, 936).get("[s]", "k"), Some("中".to_string()));
    assert_ne!(Ini::read_from(&gbk, 65001).get("[s]", "k"), Some("中".to_string()));
}

#[test]
fn remove_after_set_restores_text() {
    let mut ini = Ini::parse("[.ShellClassInfo]\nInfoTip=hello\n[b]\nx=1\n");
    let before = ini.to_text();
    assert_eq!(ini.set("[b]", "y", "2"), None);
    assert_eq!(ini.remove("[b]", "y"), Some("2".to_string()));
    assert_eq!(ini.to_text(), before);
    assert_eq!(ini.set("[a]", "k", "v"), None);
    assert_eq!(ini.remove("[a]", "k"), Some("v".to_string()));
    assert_eq!(ini.get("[a]", "k"), None);
    assert_eq!(ini.get("[b]", "x"), Some("1".to_string()));
    assert_eq!(ini.to_text(), before);
    assert_eq!(ini.set("[{F29F85E0-4FF9-1068-AB91-08002B27B3D9}]", "Prop5", "31,a"), None);
    ini.remove("[{F29F85E0-4FF9-1068-AB91-08002B27B3D9}]", "Prop5");
    assert_eq!(ini.to_text(), before);
}

#[test]
fn empty_section_is_not_written() {
    let mut ini = Ini::new();
    ini.set("", "k", "v");
    ini.remove("", "k");
    ini.set("[s]", "a", "b");
    let text = ini.to_text();
    assert_eq!(text, "\n[s]\na=b\n");
    let back = Ini::parse(&text);
    assert_eq!(back.get("[s]", "a"), Some("b".to_string()));
    assert_eq!(back.get("", "k"), None);
}
