use spawnhere::pinned::Pinned;

#[test]
fn a_pinned_command_is_loaded() {
    let mut p = Pinned::default();
    assert_eq!(p.exec(), None);
    let file = p.set("kitty -1");
    assert_eq!(file, "kitty -1\n");
    assert!(p.is("kitty -1"));
    let again = Pinned::load(Some(&file));
    assert_eq!(again.exec(), Some("kitty -1"));
}

#[test]
fn nothing_is_pinned_by_an_empty_file() {
    assert_eq!(Pinned::load(Some(" \n")).exec(), None);
    assert_eq!(Pinned::load(None).exec(), None);
    assert!(!Pinned::load(None).is(""));
}

#[test]
fn clearing_unpins() {
    let mut p = Pinned::load(Some("mpv"));
    assert!(p.is("mpv"));
    assert!(!p.is("mp"));
    p.clear();
    assert_eq!(p.exec(), None);
}
