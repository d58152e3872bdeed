use latin::mode::OpenMode;

fn mode(read: bool, write: bool, append: bool, truncate: bool, create: bool) -> OpenMode {
    OpenMode { read, write, append, truncate, create }
}

#[test]
fn reading_asks_for_nothing_but_read_access() {
    assert_eq!(OpenMode::reading(), mode(true, false, false, false, false));
    assert!(OpenMode::reading().is_valid());
}

#[test]
fn replacing_creates_and_truncates() {
    assert_eq!(OpenMode::replacing(), mode(false, true, false, true, true));
    assert!(OpenMode::replacing().is_valid());
}

#[test]
fn appending_creates_and_keeps() {
    assert_eq!(OpenMode::appending(), mode(false, true, true, false, true));
    assert!(OpenMode::appending().is_valid());
}

#[test]
fn some_access_must_be_asked_for() {
    assert!(!mode(false, false, false, false, false).is_valid());
    assert!(mode(false, true, false, false, false).is_valid());
    assert!(mode(false, false, true, false, false).is_valid());
    assert!(mode(true, true, false, false, false).is_valid());
}

#[test]
fn truncating_needs_plain_write_access() {
    assert!(!mode(true, false, false, true, false).is_valid());
    assert!(!mode(false, false, true, true, false).is_valid());
    assert!(!mode(false, true, true, true, false).is_valid());
    assert!(mode(true, true, false, true, false).is_valid());
}

#[test]
fn creating_needs_write_access() {
    assert!(!mode(true, false, false, false, true).is_valid());
    assert!(mode(false, false, true, false, true).is_valid());
    assert!(mode(false, true, false, false, true).is_valid());
}

#[test]
fn validity_agrees_with_the_rule_for_every_combination() {
    for bits in 0u8..32 {
        let m = mode(bits & 1 != 0, bits & 2 != 0, bits & 4 != 0, bits & 8 != 0, bits & 16 != 0);
        let access = m.read || m.write || m.append;
        let creation = match (m.write, m.append) {
            (true, false) => true,
            (false, false) => !m.truncate && !m.create,
            (_, true) => !m.truncate,
        };
        assert_eq!(m.is_valid(), access && creation, "{:?}", m);
    }
}
