use modswitch::selector::{interpret_input, select_from_lines, Choice};

#[test]
fn original_aliases_are_recognized() {
    assert_eq!(interpret_input("1"), Some(Choice::Original));
    assert_eq!(interpret_input("o"), Some(Choice::Original));
    assert_eq!(interpret_input("original"), Some(Choice::Original));
}

#[test]
fn modded_aliases_are_recognized() {
    assert_eq!(interpret_input("2"), Some(Choice::Modded));
    assert_eq!(interpret_input("m"), Some(Choice::Modded));
    assert_eq!(interpret_input("mod"), Some(Choice::Modded));
    assert_eq!(interpret_input("modded"), Some(Choice::Modded));
}

#[test]
fn input_is_trimmed_and_lowercased() {
    assert_eq!(interpret_input("  ORIGINAL \r\n"), Some(Choice::Original));
    assert_eq!(interpret_input("\tMoDdEd\n"), Some(Choice::Modded));
    assert_eq!(interpret_input(" O "), Some(Choice::Original));
}

#[test]
fn unrecognized_input_is_rejected() {
    assert_eq!(interpret_input("x"), None);
    assert_eq!(interpret_input("3"), None);
    assert_eq!(interpret_input(""), None);
    assert_eq!(interpret_input("origina"), None);
    assert_eq!(interpret_input("originall"), None);
    assert_eq!(interpret_input("mo dded"), None);
}

#[test]
fn two_rejections_then_modded_selects_once() {
    let lines = vec!["x".to_string(), "3".to_string(), "modded".to_string()];
    assert_eq!(select_from_lines(&lines), Some((2, Choice::Modded)));
}

#[test]
fn first_recognized_line_wins() {
    let lines = vec!["?".to_string(), "o".to_string(), "modded".to_string()];
    assert_eq!(select_from_lines(&lines), Some((1, Choice::Original)));
}

#[test]
fn no_recognized_line_selects_nothing() {
    let lines = vec!["x".to_string(), "yes".to_string(), "".to_string()];
    assert_eq!(select_from_lines(&lines), None);
}
