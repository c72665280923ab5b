use locale_manager::estimate::{estimate_seconds, seconds_for_lines, LineCounter};

fn count(chunks: &[&str]) -> u64 {
    let mut c = LineCounter::new();
    for ch in chunks {
        c.feed(ch.as_bytes());
    }
    c.lines()
}

#[test]
fn missing_file_estimates_zero() {
    assert_eq!(estimate_seconds(None), 0);
}

#[test]
fn empty_file_estimates_zero() {
    assert_eq!(count(&[]), 0);
    assert_eq!(estimate_seconds(Some(0)), 0);
}

#[test]
fn five_hundred_lines_take_two_minutes() {
    assert_eq!(estimate_seconds(Some(500)), 120);
}

#[test]
fn six_hundred_lines_take_144_seconds() {
    assert_eq!(estimate_seconds(Some(600)), 144);
}

#[test]
fn estimate_rounds_up() {
    assert_eq!(seconds_for_lines(1), 1);
    assert_eq!(seconds_for_lines(25), 6);
    assert_eq!(seconds_for_lines(26), 7);
    assert_eq!(seconds_for_lines(u64::MAX), 4427218577690292388);
}

#[test]
fn lines_are_counted_across_chunks() {
    assert_eq!(count(&["a\nb\n"]), 2);
    assert_eq!(count(&["a\nb"]), 2);
    assert_eq!(count(&["a", "\n", "", "b"]), 2);
    assert_eq!(count(&["\n\n"]), 2);
    assert_eq!(count(&["x"]), 1);
}

#[test]
fn file_of_500_lines() {
    let text = "{\"k\": \"v\"}\n".repeat(500);
    let lines = count(&[text.as_str()]);
    assert_eq!(lines, 500);
    assert_eq!(estimate_seconds(Some(lines)), 120);
}
