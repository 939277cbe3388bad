use rust_dock::app_info::{AppInfo, AppInfoCache};
use rust_dock::config::Config;
use rust_dock::dock::{
    badge, button_class, button_position, captures_to_start, detect_anchors, dock_anchors, dock_layer, dock_margins,
    effective_margin, exclusive_zone, focus_args, hover_delays, keep_polling, hover_step, indicator_visible, is_active, lex_less, needs_rebuild,
    order_by_monitor, pin_menu_label, pinned_buttons, pinned_buttons_from, preview_anchors, preview_margins,
    preview_sizes, preview_title, reserves_space, running_buttons, running_buttons_from, side, Anchors, ClickAction, CycleState,
    DockLayer, HoverDelays, HoverEvent, HoverState, Margins, Side, TimerPlan, PREVIEW_LEAVE_MS, PREVIEW_STAY_MS,
};
use rust_dock::hyprland_handler::{HyprClient, HyprWorkspace};

fn window(address: &str, class: &str, title: &str, monitor: i32) -> HyprClient {
    HyprClient {
        address: address.to_string(),
        stable_id: None,
        class: class.to_string(),
        title: title.to_string(),
        pid: 1,
        workspace: HyprWorkspace { id: 1, name: "1".to_string() },
        monitor,
        at: [0, 0],
        size: [100, 100],
    }
}

fn app(id: &str, name: &str) -> AppInfo {
    AppInfo { id: id.to_string(), name: name.to_string(), icon: Some("icon".to_string()), exec_line: "run".to_string() }
}

#[test]
fn layer_follows_config_but_smart_view_forces_bottom() {
    let mut c = Config::new(None, None);
    assert_eq!(dock_layer(&c), DockLayer::Top);
    c.layer = "overlay".to_string();
    assert_eq!(dock_layer(&c), DockLayer::Overlay);
    c.layer = "background".to_string();
    assert_eq!(dock_layer(&c), DockLayer::Background);
    c.smart_view = true;
    assert_eq!(dock_layer(&c), DockLayer::Bottom);
}

#[test]
fn anchors_for_each_edge() {
    assert_eq!(side(&"left".to_string()), Side::Left);
    assert_eq!(side(&"elsewhere".to_string()), Side::Bottom);
    assert_eq!(dock_anchors(Side::Bottom, false), Anchors { top: false, bottom: true, left: false, right: false });
    assert_eq!(dock_anchors(Side::Left, true), Anchors { top: true, bottom: true, left: true, right: false });
    assert_eq!(detect_anchors(Side::Top), Anchors { top: true, bottom: false, left: true, right: true });
    assert_eq!(preview_anchors(Side::Right), Anchors { top: true, bottom: false, left: false, right: true });
    assert_eq!(preview_anchors(Side::Bottom), Anchors { top: false, bottom: true, left: true, right: false });
}

#[test]
fn margins_and_exclusive_zone() {
    let mut c = Config::new(None, None);
    c.margin_bottom = 2;
    c.margin_left = 3;
    assert_eq!(effective_margin(&c, 20), 8);
    assert_eq!(dock_margins(&c, Side::Bottom, 8), Margins { top: 0, bottom: 10, left: 0, right: 0 });
    c.full_screen = true;
    assert_eq!(dock_margins(&c, Side::Bottom, 8), Margins { top: 0, bottom: 10, left: 11, right: 8 });
    assert!(reserves_space(&c));
    assert_eq!(exclusive_zone(&c, 50, 5), 50 + 16 - 5);
    assert_eq!(exclusive_zone(&c, 0, 40), 0);
    c.system_gap_used = true;
    assert_eq!(effective_margin(&c, 20), 20);
    assert_eq!(exclusive_zone(&c, 50, 20), 70);
    c.smart_view = true;
    assert!(!reserves_space(&c));
    assert_eq!(exclusive_zone(&c, 50, 20), -1);
}

#[test]
fn button_decorations() {
    assert_eq!(badge(0), "•");
    assert_eq!(badge(2), "••");
    assert_eq!(badge(7), "•••");
    assert!(!indicator_visible(0));
    assert!(indicator_visible(1));
    assert_eq!(button_class(true), "pinned");
    assert_eq!(button_class(false), "running");
    assert_eq!(pin_menu_label(true), "Unpin from taskbar");
    assert_eq!(pin_menu_label(false), "Pin to taskbar");
    assert!(is_active(&"Kitty".to_string(), &"kitty".to_string()));
    assert!(!is_active(&"kitty".to_string(), &"foot".to_string()));
}

#[test]
fn focus_on_an_unknown_class_rebuilds() {
    let ids = vec!["firefox".to_string(), "Kitty".to_string()];
    assert!(!needs_rebuild(&"kitty".to_string(), &ids));
    assert!(needs_rebuild(&"foot".to_string(), &ids));
    assert!(!needs_rebuild(&"".to_string(), &ids));
}

#[test]
fn preview_titles_and_sizes() {
    assert_eq!(preview_title("short"), "short");
    assert_eq!(preview_title("abcdefghijklmnopqrstuvwxyz0123"), "abcdefghijklmnopqrstuvwxyz…");
    assert_eq!(preview_sizes(true), (204, 144, 200, 108));
    assert_eq!(preview_sizes(false), (264, 196, 260, 160));
}

#[test]
fn preview_panel_is_centred_on_the_button_and_kept_on_screen() {
    let edge = Margins { top: 0, bottom: 8, left: 4, right: 0 };
    let low = preview_margins(Side::Bottom, 2, false, (100, 0, 40, 40), (1920, 1080), (300, 60), edge);
    assert_eq!(low, Margins { top: 0, bottom: 74, left: 0, right: 0 });
    let mid = preview_margins(Side::Bottom, 2, false, (1000, 0, 40, 40), (1920, 1080), (300, 60), edge);
    assert_eq!(mid.left, 744);
    let side_panel = preview_margins(Side::Left, 1, true, (0, 1000, 40, 40), (1920, 1080), (60, 300), edge);
    assert_eq!(side_panel, Margins { top: 920, bottom: 0, left: 70, right: 0 });
}

#[test]
fn button_position_on_the_monitor() {
    let edge = Margins { top: 0, bottom: 8, left: 0, right: 0 };
    assert_eq!(button_position(Side::Bottom, false, (1920, 1080), (300, 60), edge, (10, 5)), (820, 1017));
    assert_eq!(button_position(Side::Bottom, true, (1920, 1080), (1920, 60), edge, (10, 5)), (10, 1017));
}

#[test]
fn clicks_cycle_through_windows() {
    let mut c = CycleState::new();
    assert_eq!(c.next_index("kitty", 3), 0);
    assert_eq!(c.next_index("kitty", 3), 1);
    assert_eq!(c.next_index("foot", 2), 0);
    assert_eq!(c.next_index("kitty", 3), 2);
    assert_eq!(c.next_index("kitty", 3), 0);
    assert_eq!(c.next_index("kitty", 2), 1);
    c.clear();
    assert_eq!(c.next_index("kitty", 3), 0);
}

#[test]
fn captures_fill_only_free_slots() {
    assert_eq!(captures_to_start(&vec![true, false, false, true, false], 4), vec![1, 2]);
    assert_eq!(captures_to_start(&vec![false, false, false], 4), vec![0, 1, 2]);
    assert!(captures_to_start(&vec![true, true, true, true, false], 4).is_empty());
}

#[test]
fn own_monitor_windows_come_first() {
    let ws = vec![window("1", "a", "", 1), window("2", "b", "", 0), window("3", "c", "", 1), window("4", "d", "", 0)];
    let order: Vec<String> = order_by_monitor(&ws, Some(0)).into_iter().map(|w| w.address).collect();
    assert_eq!(order, vec!["2", "4", "1", "3"]);
    let same: Vec<String> = order_by_monitor(&ws, None).into_iter().map(|w| w.address).collect();
    assert_eq!(same, vec!["1", "2", "3", "4"]);
}

fn sample_windows() -> Vec<HyprClient> {
    vec![
        window("1", "Kitty", "shell", 0),
        window("2", "firefox", "web", 0),
        window("3", "kitty", "other", 0),
        window("4", "", "nameless", 0),
        window("5", "Zed", "", 0),
        window("6", "alacritty", "Alacritty Term", 0),
    ]
}

#[test]
fn running_section_one_button_per_class_without_pinned() {
    let ws = sample_windows();
    let found = vec![Some(app("kitty", "Kitty Terminal")), None, None, None, None, None];
    let pinned = vec!["FIREFOX".to_string()];
    let buttons = running_buttons_from(&ws, &found, false, &pinned);
    let shown: Vec<(String, String, usize)> =
        buttons.iter().map(|b| (b.app.id.clone(), b.app.name.clone(), b.instances)).collect();
    assert_eq!(
        shown,
        vec![
            ("kitty".to_string(), "Kitty Terminal".to_string(), 2),
            ("zed".to_string(), "Zed".to_string(), 1),
            ("alacritty".to_string(), "Alacritty Term".to_string(), 1),
        ]
    );
    assert_eq!(buttons[1].app.icon.as_deref(), Some("application-x-executable"));
    assert_eq!(buttons[1].app.exec_line, "");
}

#[test]
fn running_section_sorted_by_name() {
    let ws = sample_windows();
    let found = vec![Some(app("kitty", "Kitty Terminal")), None, None, None, None, None];
    let buttons = running_buttons_from(&ws, &found, true, &vec![]);
    let names: Vec<String> = buttons.iter().map(|b| b.app.name.clone()).collect();
    assert_eq!(names, vec!["Alacritty Term", "Kitty Terminal", "web", "Zed"]);
}

#[test]
fn running_section_leaves_out_apps_pinned_by_id() {
    let ws = vec![window("1", "Code", "x", 0)];
    let found = vec![Some(app("code-oss", "Code"))];
    assert!(running_buttons_from(&ws, &found, false, &vec!["Code-OSS".to_string()]).is_empty());
}

#[test]
fn running_section_from_the_memo_uses_stand_ins() {
    let mut cache = AppInfoCache::new();
    let ws = vec![window("1", "zz-unknown-class-1", "One", 1), window("2", "zz-unknown-class-2", "", 0)];
    let buttons = running_buttons(&mut cache, &ws, Some(0), false, &vec![], &|_d: String, n: String| n);
    let ids: Vec<String> = buttons.iter().map(|b| b.app.id.clone()).collect();
    assert_eq!(ids.len(), 2);
    assert_eq!(buttons[0].instances, 1);
}

#[test]
fn pinned_section_counts_windows_once_per_class() {
    let ws = sample_windows();
    let ids = vec!["kitty".to_string(), "Kitty".to_string(), "firefox".to_string(), "gone".to_string()];
    let found = vec![Some(app("kitty", "Kitty")), Some(app("kitty", "Kitty")), Some(app("Firefox", "Firefox")), None];
    let buttons = pinned_buttons_from(&ws, &ids, found);
    let shown: Vec<(String, usize)> = buttons.iter().map(|b| (b.app.name.clone(), b.instances)).collect();
    assert_eq!(shown, vec![("Kitty".to_string(), 2), ("Kitty".to_string(), 0), ("Firefox".to_string(), 1)]);
}

#[test]
fn pinned_section_from_the_memo() {
    let mut cache = AppInfoCache::new();
    let ws = sample_windows();
    let buttons =
        pinned_buttons(&mut cache, &ws, &vec!["zz-not-installed-anywhere".to_string()], &|_d: String, n: String| n);
    assert!(buttons.len() <= 1);
}

#[test]
fn names_sort_by_characters() {
    let a: Vec<char> = "abc".chars().collect();
    let b: Vec<char> = "abd".chars().collect();
    let p: Vec<char> = "ab".chars().collect();
    assert!(lex_less(&a, &b));
    assert!(!lex_less(&b, &a));
    assert!(lex_less(&p, &a));
    assert!(!lex_less(&a, &a));
}

fn state(visible: bool, class: &str, pending: bool) -> HoverState {
    HoverState { visible, active_class: class.to_string(), show_pending: pending }
}

const D: HoverDelays = HoverDelays { show: 20, hide: 120, move_to: 30, auto_hide: 400 };

#[test]
fn hovering_a_button_schedules_the_preview() {
    let (s, p) = hover_step(state(false, "", false), HoverEvent::ButtonEnter("kitty".to_string()), D, false);
    assert!(s.show_pending);
    assert_eq!(p.show_timer, TimerPlan::Start(20));
    assert_eq!(p.hide_timer, TimerPlan::Cancel);
    let (_, again) = hover_step(s, HoverEvent::ButtonEnter("foot".to_string()), D, false);
    assert_eq!(again.show_timer, TimerPlan::Keep);
}

#[test]
fn moving_between_buttons_switches_the_preview() {
    let (_, p) = hover_step(state(true, "kitty", false), HoverEvent::ButtonEnter("foot".to_string()), D, false);
    assert_eq!(p.show_timer, TimerPlan::Restart(30));
    let (s, same) = hover_step(state(true, "kitty", false), HoverEvent::ButtonEnter("kitty".to_string()), D, false);
    assert_eq!(same.show_timer, TimerPlan::Keep);
    assert_eq!(same.hide_timer, TimerPlan::Cancel);
    assert!(s.visible);
}

#[test]
fn leaving_hides_after_a_delay_and_the_preview_holds_it() {
    let (_, leave) = hover_step(state(true, "kitty", false), HoverEvent::ButtonLeave, D, false);
    assert_eq!(leave.show_timer, TimerPlan::Cancel);
    assert_eq!(leave.hide_timer, TimerPlan::Start(120));
    let (_, idle) = hover_step(state(false, "", true), HoverEvent::ButtonLeave, D, false);
    assert_eq!(idle.hide_timer, TimerPlan::Keep);
    let (_, enter) = hover_step(state(true, "kitty", false), HoverEvent::PreviewEnter, D, true);
    assert_eq!(enter.hide_timer, TimerPlan::Restart(PREVIEW_STAY_MS));
    assert!(enter.raise_dock);
    let (_, out) = hover_step(state(true, "kitty", false), HoverEvent::PreviewLeave, D, true);
    assert_eq!(out.hide_timer, TimerPlan::Restart(PREVIEW_LEAVE_MS));
}

#[test]
fn timers_firing_change_what_is_shown() {
    let (shown, _) = hover_step(state(false, "", true), HoverEvent::Shown("kitty".to_string()), D, false);
    assert!(shown.visible && !shown.show_pending);
    assert_eq!(shown.active_class, "kitty");
    let (hidden, plan) = hover_step(shown, HoverEvent::Hidden(true), D, true);
    assert!(!hidden.visible);
    assert_eq!(hidden.active_class, "");
    assert_eq!(plan.lower_dock_after, Some(400));
    let (_, quiet) = hover_step(state(true, "kitty", false), HoverEvent::Hidden(false), D, true);
    assert_eq!(quiet.lower_dock_after, None);
    let (menu, mp) = hover_step(state(true, "kitty", true), HoverEvent::MenuOpened, D, false);
    assert!(!menu.visible && !menu.show_pending);
    assert!(mp.hide_now);
    let (none, _) = hover_step(state(false, "", true), HoverEvent::NothingToShow, D, false);
    assert!(!none.show_pending);
}

#[test]
fn delays_come_from_the_config() {
    let mut c = Config::new(None, None);
    let d = hover_delays(&c);
    assert_eq!((d.show, d.hide, d.move_to, d.auto_hide), (20, 120, 30, 400));
    c.auto_hide_delay = -1;
    assert_eq!(hover_delays(&c).auto_hide, u64::MAX);
}

#[test]
fn previews_poll_only_while_shown() {
    assert!(keep_polling(true, true));
    assert!(!keep_polling(false, true));
    assert!(!keep_polling(true, false));
}

#[test]
fn very_many_windows_are_still_placed() {
    let edge = Margins { top: 0, bottom: 8, left: 0, right: 0 };
    let m = preview_margins(Side::Bottom, 2_000_000, true, (100, 0, 40, 40), (1920, 1080), (300, 60), edge);
    assert_eq!(m.left, 0);
}

fn focused(a: ClickAction) -> String {
    match a {
        ClickAction::Focus(args) => args.join(" "),
        ClickAction::Launch(args) => format!("launch {}", args.join(" ")),
    }
}

#[test]
fn repeated_clicks_cycle_through_the_windows() {
    let mut c = CycleState::new();
    let app = AppInfo { id: "kitty".into(), name: "Kitty".into(), icon: None, exec_line: "kitty %U".into() };
    let ws = vec![window("0xa", "kitty", "one", 0), window("0xb", "kitty", "two", 0), window("0xc", "kitty", "three", 0)];
    let seen: Vec<String> = (0..5).map(|_| focused(c.focus_or_launch(&app, &ws))).collect();
    assert_eq!(
        seen,
        vec![
            "dispatch focuswindow address:0xa",
            "dispatch focuswindow address:0xb",
            "dispatch focuswindow address:0xc",
            "dispatch focuswindow address:0xa",
            "dispatch focuswindow address:0xb",
        ]
    );
}

#[test]
fn a_click_with_no_window_launches_the_app() {
    let mut c = CycleState::new();
    let app = AppInfo { id: "kitty".into(), name: "Kitty".into(), icon: None, exec_line: "kitty %U".into() };
    for _ in 0..2 {
        assert_eq!(focused(c.focus_or_launch(&app, &vec![])), "launch dispatch exec [float;center 1] kitty");
    }
    let ws = vec![window("0xa", "kitty", "one", 0), window("0xb", "kitty", "two", 0)];
    assert_eq!(focused(c.focus_or_launch(&app, &ws)), "dispatch focuswindow address:0xa");
}

#[test]
fn focus_arguments_name_the_address() {
    assert_eq!(focus_args("0x55d1"), vec!["dispatch", "focuswindow", "address:0x55d1"]);
}
