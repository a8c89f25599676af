use xs_file_transfer::settings::Settings;

#[test]
fn parse_and_get() {
    let s = Settings::parse("last_endpoint=127.0.0.1:3648\nlast_port=3648");
    assert_eq!(s.get("last_endpoint"), Some("127.0.0.1:3648".to_string()));
    assert_eq!(s.get("last_port"), Some("3648".to_string()));
    assert_eq!(s.get("last_send_path"), None);
}

#[test]
fn later_key_overrides_earlier() {
    let s = Settings::parse("a=1\nb=2\na=3\n");
    assert_eq!(s.get("a"), Some("3".to_string()));
    assert_eq!(s.serialize(), "a=3\nb=2");
}

#[test]
fn lines_without_equals_are_skipped_and_value_keeps_later_equals() {
    let s = Settings::parse("junk\nk=v=w\n\n=empty key\n");
    assert_eq!(s.get("k"), Some("v=w".to_string()));
    assert_eq!(s.get(""), Some("empty key".to_string()));
    assert_eq!(s.get("junk"), None);
}

#[test]
fn crlf_line_endings() {
    let s = Settings::parse("a=1\r\nb=2\r");
    assert_eq!(s.get("a"), Some("1".to_string()));
    assert_eq!(s.get("b"), Some("2\r".to_string()));
}

#[test]
fn empty_text_gives_no_settings() {
    let s = Settings::parse("");
    assert_eq!(s.serialize(), "");
    assert_eq!(Settings::new().serialize(), "");
}

#[test]
fn get_after_set() {
    let mut s = Settings::new();
    s.set("a", "1".to_string());
    s.set("b", "2".to_string());
    s.set("a", "x".to_string());
    assert_eq!(s.get("a"), Some("x".to_string()));
    assert_eq!(s.get("b"), Some("2".to_string()));
    assert_eq!(s.serialize(), "a=x\nb=2");
}

#[test]
fn settings_text_roundtrip() {
    let mut s = Settings::new();
    s.set("last_send_path", "C:\\Users\\me\\a b=c.txt".to_string());
    s.set("", "".to_string());
    s.set("ünï", "cødé".to_string());
    let text = s.serialize();
    let back = Settings::parse(&text);
    assert_eq!(back.serialize(), text);
    assert_eq!(back.get("last_send_path"), Some("C:\\Users\\me\\a b=c.txt".to_string()));
    assert_eq!(back.get(""), Some(String::new()));
    assert_eq!(back.get("ünï"), Some("cødé".to_string()));
}
