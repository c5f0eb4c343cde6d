use desktop_ini::Ini;

const PROPS: &str = "[{F29F85E0-4FF9-1068-AB91-08002B27B3D9}]";

#[test]
fn tags_read_from_prop5() {
    let mut ini = Ini::new();
    assert_eq!(ini.tags(), None);
    ini.set(PROPS, "Prop5", " 31 , a ; b;;c ");
    assert_eq!(ini.tags(), Some(vec!["a".to_string(), "b".to_string(), "".to_string(), "c".to_string()]));
    ini.set(PROPS, "Prop5", "30,a");
    assert_eq!(ini.tags(), None);
    ini.set(PROPS, "Prop5", "31");
    assert_eq!(ini.tags(), None);
    ini.set(PROPS, "Prop5", "31,");
    assert_eq!(ini.tags(), Some(vec!["".to_string()]));
}

#[test]
fn set_tags_reads_back() {
    let mut ini = Ini::new();
    ini.set_tags(&["work", "rust"]);
    assert_eq!(ini.get(PROPS, "Prop5"), Some("31,work;rust".to_string()));
    assert_eq!(ini.tags(), Some(vec!["work".to_string(), "rust".to_string()]));
    ini.set_tags(&[]);
    assert_eq!(ini.tags(), Some(vec!["".to_string()]));
}

#[test]
fn add_and_remove_tags() {
    let mut ini = Ini::new();
    ini.add_tags(&["a".to_string(), "b".to_string()]);
    assert_eq!(ini.get(PROPS, "Prop5"), Some("31,a;b".to_string()));
    ini.add_tags(&["c".to_string()]);
    assert_eq!(ini.tags(), Some(vec!["a".to_string(), "b".to_string(), "c".to_string()]));
    ini.remove_tags(&["b".to_string(), "x".to_string()]);
    assert_eq!(ini.tags(), Some(vec!["a".to_string(), "c".to_string()]));
    ini.remove_tags(&["a".to_string(), "c".to_string()]);
    assert_eq!(ini.get(PROPS, "Prop5"), Some("31,".to_string()));
    assert_eq!(ini.clear_tags(), Some("31,".to_string()));
    assert_eq!(ini.tags(), None);
    assert_eq!(ini.clear_tags(), None);
}
