use latin::file::{append, append_line, write_lines, WritePlan};
use latin::line::LineEnding;
use latin::mode::OpenMode;

/// Carries a plan out on an in-memory file, the way an operating system
/// carries it out on a real one.
fn carry_out(plan: &WritePlan, existing: Option<Vec<u8>>) -> Option<Vec<u8>> {
    let mode = plan.mode;
    if !mode.is_valid() {
        return None;
    }
    let mut held = match existing {
        Some(held) => {
            if mode.truncate {
                Vec::new()
            } else {
                held
            }
        }
        None => {
            if mode.create {
                Vec::new()
            } else {
                return None;
            }
        }
    };
    if mode.append {
        held.extend_from_slice(&plan.data);
    } else if mode.write {
        let keep = held.len().max(plan.data.len());
        held.resize(keep, 0);
        held[..plan.data.len()].copy_from_slice(&plan.data);
    } else {
        return None;
    }
    Some(held)
}

#[test]
fn write_replaces_whatever_was_there() {
    let plan = latin::file::write(&[5u8, 10u8]);
    assert_eq!(plan.mode, OpenMode::replacing());
    assert_eq!(plan.data, vec![5u8, 10u8]);
    assert_eq!(carry_out(&plan, None), Some(vec![5u8, 10u8]));
    assert_eq!(carry_out(&plan, Some(b"something much longer".to_vec())), Some(vec![5u8, 10u8]));
}

#[test]
fn write_takes_text_and_buffers_alike() {
    assert_eq!(latin::file::write("contents").data, b"contents".to_vec());
    assert_eq!(latin::file::write(String::from("contents")).data, b"contents".to_vec());
    assert_eq!(latin::file::write(b"contents".to_vec()).data, b"contents".to_vec());
    assert_eq!(latin::file::write(&b"contents"[..]).data, b"contents".to_vec());
    assert_eq!(latin::file::write("").data, Vec::<u8>::new());
}

#[test]
fn write_mode_creates_and_truncates() {
    let mode = latin::file::write("x").mode;
    assert!(mode.write && mode.create && mode.truncate);
    assert!(!mode.append && !mode.read);
    assert!(mode.is_valid());
}

#[test]
fn append_twice_gives_both_in_order() {
    let after_a = carry_out(&append("a"), None);
    assert_eq!(after_a, Some(b"a".to_vec()));
    let after_b = carry_out(&append("b"), after_a);
    assert_eq!(after_b, Some(b"ab".to_vec()));
    let from_empty = carry_out(&append("b"), carry_out(&append("a"), Some(Vec::new())));
    assert_eq!(from_empty, Some(b"ab".to_vec()));
}

#[test]
fn append_mode_creates_and_keeps() {
    let mode = append("x").mode;
    assert_eq!(mode, OpenMode::appending());
    assert!(mode.write && mode.create && mode.append);
    assert!(!mode.truncate && !mode.read);
    assert!(mode.is_valid());
}

#[test]
fn append_line_adds_one_terminator() {
    assert_eq!(append_line("appended line", LineEnding::Lf).data, b"appended line\n".to_vec());
    assert_eq!(append_line("appended line", LineEnding::CrLf).data, b"appended line\r\n".to_vec());
    assert_eq!(append_line(&[10u8, 5u8], LineEnding::Lf).data, vec![10u8, 5u8, 10u8]);
    assert_eq!(append_line("", LineEnding::CrLf).mode, OpenMode::appending());
}

#[test]
fn write_lines_terminates_every_line() {
    let plan = write_lines(&["line1", "line2"], LineEnding::Lf);
    assert_eq!(plan.mode, OpenMode::replacing());
    assert_eq!(plan.data, b"line1\nline2\n".to_vec());
    assert_eq!(write_lines(&["line1", "line2"], LineEnding::CrLf).data, b"line1\r\nline2\r\n".to_vec());
    let none: [&str; 0] = [];
    assert_eq!(write_lines(&none, LineEnding::Lf).data, Vec::<u8>::new());
    assert_eq!(write_lines(&[""], LineEnding::Lf).data, b"\n".to_vec());
    let owned = vec![b"a".to_vec(), b"bc".to_vec()];
    assert_eq!(write_lines(&owned, LineEnding::Lf).data, b"a\nbc\n".to_vec());
}

#[test]
fn line_ending_follows_the_platform() {
    assert_eq!(LineEnding::for_platform(true), LineEnding::CrLf);
    assert_eq!(LineEnding::for_platform(false), LineEnding::Lf);
}
