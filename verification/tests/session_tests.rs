use rust_dock::hyprland_handler::DockEvent;
use rust_dock::session::{after_signal, app_id_for_output, is_preview_temp_name, loop_plan, SECOND_REFRESH_MS};

#[test]
fn one_application_id_per_output() {
    assert_eq!(app_id_for_output(&None), "com.github.rhythmcreative.rust_dock");
    assert_eq!(app_id_for_output(&Some("DP-1".to_string())), "com.github.rhythmcreative.rust_dock.DP-1");
    assert_eq!(
        app_id_for_output(&Some("HDMI A/1 é".to_string())),
        "com.github.rhythmcreative.rust_dock.HDMI_A_1__"
    );
}

#[test]
fn stale_captures_are_recognised() {
    assert!(is_preview_temp_name("rust-dock-preview-abc.png"));
    assert!(!is_preview_temp_name("rust-dock-preview-abc.jpg"));
    assert!(!is_preview_temp_name("other.png"));
}

#[test]
fn event_batches() {
    let plan = loop_plan(&vec![
        DockEvent::Focus("a".to_string()),
        DockEvent::Workspace,
        DockEvent::WindowList,
        DockEvent::Focus("b".to_string()),
    ]);
    assert!(plan.refresh);
    assert_eq!(plan.refresh_again_after, Some(SECOND_REFRESH_MS));
    assert!(!plan.refresh_running);
    assert_eq!(plan.focus.as_deref(), Some("b"));
    let ws = loop_plan(&vec![DockEvent::Workspace]);
    assert!(!ws.refresh && ws.refresh_running && ws.refresh_again_after.is_none() && ws.focus.is_none());
    let none = loop_plan(&vec![]);
    assert!(!none.refresh && !none.refresh_running);
}

#[test]
fn signals_toggle_and_show() {
    assert!(!after_signal(10, 10, 12, true));
    assert!(after_signal(10, 10, 12, false));
    assert!(after_signal(12, 10, 12, false));
    assert!(after_signal(12, 10, 12, true));
    assert!(!after_signal(15, 10, 12, false));
}
