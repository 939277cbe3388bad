use rust_dock::cli::Cli;
use rust_dock::config::{list_entries_of, Config};

fn s(x: &str) -> Option<String> {
    Some(x.to_string())
}

#[test]
fn defaults_without_files() {
    let c = Config::new(None, None);
    assert_eq!(c.current_theme, "lotos");
    assert_eq!(c.position, "bottom");
    assert_eq!(c.icon_size, 23);
    assert_eq!(c.padding, 2);
    assert_eq!(c.spacing, 4);
    assert_eq!(c.radius, 10);
    assert!(!c.full_screen);
    assert!(c.exclusive_zone);
    assert_eq!(c.layer, "top");
    assert_eq!(c.output, None);
    assert_eq!(c.launcher_command, "");
    assert!(c.no_launcher);
    assert!(c.pinned_apps.is_empty());
    assert!(!c.smart_view);
    assert_eq!(c.auto_hide_delay, 400);
    assert!(!c.system_gap_used);
    assert_eq!(c.margin, 8);
    assert_eq!(c.show_delay, 20);
    assert_eq!(c.hide_delay, 120);
    assert_eq!(c.move_delay, 30);
    assert!(!c.compact_preview);
    assert!(!c.sort_running_apps);
}

const INI: &str = "[General]\n\
CurrentTheme = nord\n\
IconSize = 40\n\
Position = left\n\
Exclusive = false\n\
SmartView = true\n\
Margin = 12\n\
Padding = 6\n\
Radius = 14\n\
Output = DP-1\n\
LauncherCommand = rofi -show drun\n\
NoLauncher = false\n\
Layer = overlay\n\
FullScreen = true\n\
SortRunningApps = true\n\
\n\
[General.preview]\n\
ShowDelay = 100\n\
HideDelay = 200\n\
MoveDelay = 50\n\
Compact = true\n\
\n\
[Theme]\n\
Spacing = 9\n\
\n\
[PinnedApps]\n\
Apps = firefox, ,kitty ,org.gnome.eog\n";

#[test]
fn ini_settings_override_defaults() {
    let c = Config::new(s(INI), None);
    assert_eq!(c.current_theme, "nord");
    assert_eq!(c.icon_size, 40);
    assert_eq!(c.position, "left");
    assert!(!c.exclusive_zone);
    assert!(c.smart_view);
    assert_eq!(c.margin, 12);
    assert_eq!(c.padding, 6);
    assert_eq!(c.radius, 14);
    assert_eq!(c.output.as_deref(), Some("DP-1"));
    assert_eq!(c.launcher_command, "rofi -show drun");
    assert!(!c.no_launcher);
    assert_eq!(c.layer, "overlay");
    assert!(c.full_screen);
    assert!(c.sort_running_apps);
    assert_eq!(c.show_delay, 100);
    assert_eq!(c.hide_delay, 200);
    assert_eq!(c.move_delay, 50);
    assert!(c.compact_preview);
    assert_eq!(c.spacing, 9);
    assert_eq!(c.pinned_apps, vec!["firefox", "kitty", "org.gnome.eog"]);
}

#[test]
fn unparsable_values_take_their_own_fallbacks() {
    let ini = "[General]\nIconSize = big\nPadding = x\nSystemGapUsed = maybe\nExclusive = nope\n\
[General.preview]\nShowDelay = soon\nHideDelay = later\nMoveDelay = ?\n[Theme]\nSpacing = wide\n";
    let c = Config::new(s(ini), None);
    assert_eq!(c.icon_size, 23);
    assert_eq!(c.padding, 4);
    assert!(c.system_gap_used);
    assert!(c.exclusive_zone);
    assert_eq!(c.show_delay, 500);
    assert_eq!(c.hide_delay, 350);
    assert_eq!(c.move_delay, 100);
    assert_eq!(c.spacing, 5);
}

#[test]
fn values_are_clamped_and_unknown_names_reset() {
    let ini = "[General]\nIconSize = 500\nPadding = -3\nRadius = 99\nMargin = 1000\nPosition = middle\nLayer = sky\nOutput =   \n\
[General.preview]\nShowDelay = 9999\nHideDelay = -1\nMoveDelay = 2500\n";
    let c = Config::new(s(ini), None);
    assert_eq!(c.icon_size, 128);
    assert_eq!(c.padding, 0);
    assert_eq!(c.radius, 40);
    assert_eq!(c.margin, 200);
    assert_eq!(c.position, "bottom");
    assert_eq!(c.layer, "top");
    assert_eq!(c.output, None);
    assert_eq!(c.show_delay, 5000);
    assert_eq!(c.hide_delay, 0);
    assert_eq!(c.move_delay, 2000);
}

#[test]
fn pinned_file_wins_over_the_ini() {
    let from_file = Config::new(s(INI), Some(s("  code \n\nfoot\n")));
    assert_eq!(from_file.pinned_apps, vec!["code", "foot"]);
    let unreadable = Config::new(s(INI), Some(None));
    assert!(unreadable.pinned_apps.is_empty());
    let absent = Config::new(s(INI), None);
    assert_eq!(absent.pinned_apps.len(), 3);
}

#[test]
fn pin_is_idempotent_and_unpin_removes_every_copy() {
    let mut c = Config::new(None, None);
    assert!(c.pin_app("firefox"));
    assert!(!c.pin_app("firefox"));
    assert!(c.pin_app("kitty"));
    assert_eq!(c.pinned_apps, vec!["firefox", "kitty"]);
    c.pinned_apps.push("firefox".to_string());
    c.unpin_app("firefox");
    assert_eq!(c.pinned_apps, vec!["kitty"]);
    c.unpin_app("absent");
    assert_eq!(c.pinned_apps, vec!["kitty"]);
}

fn with_pins(pins: &[&str]) -> Config {
    let mut c = Config::new(None, None);
    c.pinned_apps = pins.iter().map(|p| p.to_string()).collect();
    c
}

#[test]
fn reorder_moves_the_dragged_app_to_the_target_slot() {
    let mut right = with_pins(&["a", "b", "c", "d"]);
    assert!(right.reorder_pinned("a", "c"));
    assert_eq!(right.pinned_apps, vec!["b", "c", "a", "d"]);
    let mut left = with_pins(&["a", "b", "c", "d"]);
    assert!(left.reorder_pinned("d", "b"));
    assert_eq!(left.pinned_apps, vec!["a", "d", "b", "c"]);
    let mut last = with_pins(&["a", "b", "c"]);
    assert!(last.reorder_pinned("a", "c"));
    assert_eq!(last.pinned_apps, vec!["b", "c", "a"]);
}

#[test]
fn reorder_ignores_same_or_unknown_apps() {
    let mut c = with_pins(&["a", "b"]);
    assert!(!c.reorder_pinned("a", "a"));
    assert!(!c.reorder_pinned("x", "a"));
    assert!(!c.reorder_pinned("a", "x"));
    assert_eq!(c.pinned_apps, vec!["a", "b"]);
}

#[test]
fn pinned_file_round_trips() {
    let c = with_pins(&["firefox", "org.gnome.eog"]);
    let text = c.pinned_file_text();
    assert_eq!(text, "firefox\norg.gnome.eog\n");
    let back = Config::new(None, Some(Some(text)));
    assert_eq!(back.pinned_apps, c.pinned_apps);
}

#[test]
fn list_entries_trim_and_drop_blanks() {
    assert_eq!(list_entries_of(" a , b,,c ", ','), vec!["a", "b", "c"]);
    assert!(list_entries_of("", ',').is_empty());
}

fn blank_cli() -> Cli {
    Cli {
        position: None,
        icon_size: None,
        padding: None,
        spacing: None,
        radius: None,
        output: None,
        launcher_command: None,
        launcher: false,
        no_launcher: false,
        exclusive_zone: false,
        no_exclusive_zone: false,
        smart_view: false,
        style: None,
        layer: None,
        margin: None,
        system_gap: false,
        no_system_gap: false,
        toggle: false,
    }
}

#[test]
fn command_line_overrides_the_file() {
    let mut c = Config::new(None, None);
    let mut cli = blank_cli();
    cli.position = s("top");
    cli.icon_size = Some(64);
    cli.radius = Some(3);
    cli.output = s("HDMI-A-1");
    cli.launcher_command = s("wofi");
    cli.no_exclusive_zone = true;
    cli.exclusive_zone = true;
    cli.smart_view = true;
    cli.style = s("/tmp/x.css");
    cli.layer = s("bottom");
    cli.margin = Some(0);
    cli.system_gap = true;
    cli.no_system_gap = true;
    cli.apply_to(&mut c);
    assert_eq!(c.position, "top");
    assert_eq!(c.icon_size, 64);
    assert_eq!(c.radius, 3);
    assert_eq!(c.output.as_deref(), Some("HDMI-A-1"));
    assert_eq!(c.launcher_command, "wofi");
    assert!(!c.no_launcher);
    assert!(!c.exclusive_zone);
    assert!(c.smart_view);
    assert_eq!(c.style.as_deref(), Some("/tmp/x.css"));
    assert_eq!(c.layer, "bottom");
    assert_eq!(c.margin, 0);
    assert!(!c.system_gap_used);
    assert_eq!(c.padding, 2);
}

#[test]
fn no_launcher_flag_wins_over_a_command() {
    let mut c = Config::new(None, None);
    let mut cli = blank_cli();
    cli.launcher_command = s("wofi");
    cli.no_launcher = true;
    cli.apply_to(&mut c);
    assert!(c.no_launcher);
    let mut d = Config::new(None, None);
    let mut show = blank_cli();
    show.launcher = true;
    show.apply_to(&mut d);
    assert!(!d.no_launcher);
}
