use daylight::theme::DEBOUNCE_MS;
use daylight::theme::GtkThemeColors;
use daylight::theme::WatchEvent;
use daylight::theme::WatchPhase;
use daylight::theme::contains_define_color;
use daylight::theme::dark_preference_from_ini;
use daylight::theme::import_paths;
use daylight::theme::parse_define_colors;
use daylight::theme::watch_step;

#[test]
fn define_colors_are_parsed_in_order() {
    let css = "@define-color accent_color #ff0000;\n  @define-color window_bg shade(#fff, 0.9);\nbody { color: red; }\n";
    let pairs = parse_define_colors(css);
    assert_eq!(pairs, vec![
        (String::from("accent_color"), String::from("#ff0000")),
        (String::from("window_bg"), String::from("shade(#fff, 0.9)")),
    ]);
}

#[test]
fn define_color_without_value_is_skipped() {
    let css = "@define-color lonely\n@define-color ok #123456;";
    let pairs = parse_define_colors(css);
    assert_eq!(pairs, vec![(String::from("ok"), String::from("#123456"))]);
}

#[test]
fn trailing_semicolons_and_spaces_are_stripped() {
    let css = "\t@define-color fg  #abcdef ;;; \n";
    let pairs = parse_define_colors(css);
    assert_eq!(pairs, vec![(String::from("fg"), String::from("#abcdef"))]);
}

#[test]
fn duplicate_names_keep_both_declarations() {
    let css = "@define-color x 1;\n@define-color x 2;";
    let pairs = parse_define_colors(css);
    assert_eq!(pairs, vec![
        (String::from("x"), String::from("1")),
        (String::from("x"), String::from("2")),
    ]);
}

#[test]
fn empty_css_has_no_colors() {
    assert_eq!(parse_define_colors(""), vec![]);
}

#[test]
fn define_color_marker_is_found() {
    assert!(contains_define_color("a\n@define-color x 1;\n"));
    assert!(!contains_define_color("body { }"));
}

#[test]
fn import_url_with_double_quotes() {
    let css = "@import url(\"/usr/share/themes/adw/gtk.css\");\n";
    assert_eq!(import_paths(css), vec![String::from("/usr/share/themes/adw/gtk.css")]);
}

#[test]
fn import_url_with_single_quotes_and_tilde() {
    let css = "  @import url('~/.themes/custom/gtk.css');";
    assert_eq!(import_paths(css), vec![String::from("~/.themes/custom/gtk.css")]);
}

#[test]
fn import_url_without_quotes() {
    let css = "@import url(colors.css);";
    assert_eq!(import_paths(css), vec![String::from("colors.css")]);
}

#[test]
fn lines_without_import_yield_no_paths() {
    let css = "body { }\n@define-color x 1;\n";
    assert_eq!(import_paths(css), Vec::<String>::new());
}

#[test]
fn dark_preference_true() {
    let ini = "[Settings]\ngtk-application-prefer-dark-theme=true\n";
    assert!(dark_preference_from_ini(ini));
}

#[test]
fn dark_preference_numeric_and_case() {
    assert!(dark_preference_from_ini("gtk-application-prefer-dark-theme = 1 "));
    assert!(dark_preference_from_ini("gtk-application-prefer-dark-theme=TRUE"));
    assert!(!dark_preference_from_ini("gtk-application-prefer-dark-theme=false"));
    assert!(!dark_preference_from_ini("gtk-application-prefer-dark-theme=0"));
}

#[test]
fn dark_preference_absent_is_false() {
    assert!(!dark_preference_from_ini("[Settings]\nother-key=1\n"));
    assert!(!dark_preference_from_ini(""));
}

#[test]
fn dark_preference_key_without_equals_keeps_scanning() {
    let ini = "gtk-application-prefer-dark-theme\ngtk-application-prefer-dark-theme=1\n";
    assert!(dark_preference_from_ini(ini));
}

#[test]
fn theme_colors_struct_carries_its_parts() {
    let colors = parse_define_colors("@define-color a b;");
    let t = GtkThemeColors {
        colors,
        prefer_dark: true,
        theme_path: Some(String::from("/tmp/gtk.css")),
    };
    assert_eq!(t.colors.len(), 1);
    assert!(t.prefer_dark);
}

#[test]
fn watcher_debounces_a_burst_into_one_notification() {
    assert_eq!(DEBOUNCE_MS, 200);
    let (p, emit) = watch_step(WatchPhase::Idle, WatchEvent::Changed);
    assert_eq!((p, emit), (WatchPhase::Draining, false));
    let (p, emit) = watch_step(p, WatchEvent::Changed);
    assert_eq!((p, emit), (WatchPhase::Draining, false));
    let (p, emit) = watch_step(p, WatchEvent::QuietPeriod);
    assert_eq!((p, emit), (WatchPhase::Idle, true));
    let (p, emit) = watch_step(p, WatchEvent::Disconnected);
    assert_eq!((p, emit), (WatchPhase::Stopped, false));
    let (p, emit) = watch_step(p, WatchEvent::Changed);
    assert_eq!((p, emit), (WatchPhase::Stopped, false));
}

#[test]
fn watcher_emits_pending_notification_on_disconnect() {
    let (p, emit) = watch_step(WatchPhase::Draining, WatchEvent::Disconnected);
    assert_eq!((p, emit), (WatchPhase::Idle, true));
}
