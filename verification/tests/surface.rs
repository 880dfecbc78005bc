use daylight::fetch::fetch_outcome;
use daylight::fetch::u16_to_decimal;
use daylight::shortcut::ShortcutAction;
use daylight::shortcut::shortcut_action;

#[test]
fn success_statuses_pass_the_body_through() {
    assert_eq!(fetch_outcome(200, String::from("hello")), Ok(String::from("hello")));
    assert_eq!(fetch_outcome(204, String::new()), Ok(String::new()));
    assert_eq!(fetch_outcome(299, String::from("x")), Ok(String::from("x")));
}

#[test]
fn failure_statuses_become_numeric_messages() {
    assert_eq!(fetch_outcome(404, String::from("body")), Err(String::from("HTTP 404")));
    assert_eq!(fetch_outcome(500, String::new()), Err(String::from("HTTP 500")));
    assert_eq!(fetch_outcome(199, String::new()), Err(String::from("HTTP 199")));
    assert_eq!(fetch_outcome(300, String::new()), Err(String::from("HTTP 300")));
}

#[test]
fn decimal_rendering_is_exact() {
    assert_eq!(u16_to_decimal(0), "0");
    assert_eq!(u16_to_decimal(7), "7");
    assert_eq!(u16_to_decimal(10), "10");
    assert_eq!(u16_to_decimal(404), "404");
    assert_eq!(u16_to_decimal(65535), "65535");
}

#[test]
fn shortcuts_require_ctrl_or_meta_without_alt() {
    assert_eq!(shortcut_action(false, false, Some('n')), ShortcutAction::Propagate);
    assert_eq!(shortcut_action(true, true, Some('n')), ShortcutAction::Propagate);
    assert_eq!(shortcut_action(true, false, Some('n')), ShortcutAction::AddTask);
    assert_eq!(shortcut_action(true, false, Some('N')), ShortcutAction::AddTask);
    assert_eq!(shortcut_action(true, false, Some('t')), ShortcutAction::LogTime);
    assert_eq!(shortcut_action(true, false, Some('T')), ShortcutAction::LogTime);
    assert_eq!(shortcut_action(true, false, Some('x')), ShortcutAction::Propagate);
    assert_eq!(shortcut_action(true, false, None), ShortcutAction::Propagate);
}
