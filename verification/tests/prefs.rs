use corsaconnect::prefs::Prefs;

#[test]
fn parse_reads_key_value_lines() {
    let p = Prefs::parse("a=1\n# a comment\n  b = two  \nno equals sign\n\r\nc==x\r\n");
    assert_eq!(p.get("a"), Some("1"));
    assert_eq!(p.get("b"), Some("two"));
    assert_eq!(p.get("c"), Some("=x"));
    assert_eq!(p.get("no equals sign"), None);
    assert_eq!(p.get("# a comment"), None);
}

#[test]
fn later_lines_win() {
    let p = Prefs::parse("k=first\nk=second\n");
    assert_eq!(p.get("k"), Some("second"));
}

#[test]
fn text_is_sorted_key_value_lines() {
    let mut p = Prefs::new();
    p.set("zeta", "1");
    p.set("alpha", "two words");
    p.set_bool("mid", true);
    assert_eq!(p.to_text(), "alpha=two words\nmid=true\nzeta=1\n");
}

#[test]
fn written_text_reads_back_the_same() {
    let mut p = Prefs::new();
    p.set("picopanel.addr", "127.0.0.1:5051");
    p.set_bool("picopanel.mirror", false);
    p.set("unknown.future.key", "kept as is");
    let q = Prefs::parse(&p.to_text());
    assert_eq!(q.to_text(), p.to_text());
    assert_eq!(q.get("unknown.future.key"), Some("kept as is"));
}

#[test]
fn bool_reads_true_false_or_the_default() {
    let p = Prefs::parse("on=true\noff=false\nweird=yes\n");
    assert!(p.bool("on", false));
    assert!(!p.bool("off", true));
    assert!(p.bool("weird", true));
    assert!(!p.bool("weird", false));
    assert!(p.bool("missing", true));
}

#[test]
fn set_replaces_and_get_reads_back() {
    let mut p = Prefs::new();
    assert_eq!(p.get("x"), None);
    p.set("x", "1");
    p.set("y", "2");
    p.set("x", "3");
    assert_eq!(p.get("x"), Some("3"));
    assert_eq!(p.get("y"), Some("2"));
    p.set_bool("x", false);
    assert_eq!(p.get("x"), Some("false"));
}

#[test]
fn empty_text_has_no_settings() {
    let p = Prefs::parse("");
    assert_eq!(p.to_text(), "");
    assert_eq!(p.get(""), None);
}

#[test]
fn last_write_wins_over_a_run_of_writes() {
    let mut p = Prefs::parse("device=vjoy\nmirror=on\nkeep=me\n");
    p.set("device", "xbox");
    p.set_bool("mirror", false);
    p.set("new", "1");
    p.set("device", "vjoy");
    p.set("new", "2");
    assert_eq!(p.get("device"), Some("vjoy"));
    assert_eq!(p.get("mirror"), Some("false"));
    assert_eq!(p.get("new"), Some("2"));
    assert_eq!(p.get("keep"), Some("me"));
    assert_eq!(p.get("absent"), None);
    assert_eq!(p.to_text(), "device=vjoy\nkeep=me\nmirror=false\nnew=2\n");
}
