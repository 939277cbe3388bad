use rust_dock::hyprland_handler::{
    capture_plan, classify_event, clients_for_class, instance_signature, invalidate_client_cache, parse_active_class,
    parse_clients, parse_gaps_out, socket_candidates, DockEvent, HyprlandHandler,
};

#[test]
fn parses_active_class() {
    assert_eq!(parse_active_class("activewindow>>kitty,~/work").as_deref(), Some("kitty"));
    assert_eq!(parse_active_class("activewindow>>Brave-browser,Title").as_deref(), Some("brave-browser"));
    assert_eq!(parse_active_class("activewindow>>,").as_deref(), Some(""));
}

#[test]
fn ignores_non_focus_lines() {
    assert_eq!(parse_active_class("openwindow>>0x1,2,kitty,title"), None);
    assert_eq!(parse_active_class("workspace>>2"), None);
}

#[test]
fn active_class_is_trimmed_and_lowercased() {
    assert_eq!(parse_active_class("activewindow>>  Foot  ,x").as_deref(), Some("foot"));
    assert_eq!(parse_active_class("activewindow>>nocomma").as_deref(), Some("nocomma"));
    assert_eq!(parse_active_class("activewindow>>ÀÉ,x").as_deref(), Some("àé"));
}

fn out(s: &str) -> Option<Vec<u8>> {
    Some(s.as_bytes().to_vec())
}

const CLIENTS: &str = r#"[
  {"address":"0xabc","stableId":"18","class":"kitty","title":"shell","pid":42,
   "workspace":{"id":2,"name":"2"},"monitor":1,"at":[10,20],"size":[800,600]},
  {"address":"0xdef","stableId":7,"class":"Brave-browser","title":"web","pid":"x",
   "workspace":{"name":"w"},"at":[1],"size":"big"},
  {"class":"no-address"},
  {"address":"0x1","class":"code-oss","title":"editor"}
]"#;

#[test]
fn client_list_tolerates_odd_fields() {
    let cs = parse_clients(&out(CLIENTS));
    assert_eq!(cs.len(), 3);
    assert_eq!(cs[0].address, "0xabc");
    assert_eq!(cs[0].stable_id.as_deref(), Some("18"));
    assert_eq!(cs[0].pid, 42);
    assert_eq!(cs[0].workspace.id, 2);
    assert_eq!(cs[0].monitor, 1);
    assert_eq!(cs[0].at, [10, 20]);
    assert_eq!(cs[0].size, [800, 600]);
    assert_eq!(cs[1].stable_id.as_deref(), Some("7"));
    assert_eq!(cs[1].pid, 0);
    assert_eq!(cs[1].workspace.id, 0);
    assert_eq!(cs[1].workspace.name, "w");
    assert_eq!(cs[1].monitor, -1);
    assert_eq!(cs[1].at, [1, 0]);
    assert_eq!(cs[1].size, [0, 0]);
    assert_eq!(cs[2].stable_id, None);
    assert_eq!(cs[2].class, "code-oss");
}

#[test]
fn failed_or_malformed_output_gives_no_clients() {
    assert!(parse_clients(&None).is_empty());
    assert!(parse_clients(&out("not json")).is_empty());
    assert!(parse_clients(&out("{\"address\":\"0x1\"}")).is_empty());
}

#[test]
fn windows_of_a_class_exact_then_by_prefix() {
    let cs = parse_clients(&out(CLIENTS));
    let kitty = clients_for_class(&cs, "KITTY");
    assert_eq!(kitty.len(), 1);
    assert_eq!(kitty[0].address, "0xabc");
    let brave = clients_for_class(&cs, "brave");
    assert_eq!(brave.len(), 1);
    assert_eq!(brave[0].address, "0xdef");
    assert_eq!(clients_for_class(&cs, "co").len(), 0);
    assert_eq!(clients_for_class(&cs, "cod").len(), 1);
    assert_eq!(clients_for_class(&cs, "firefox").len(), 0);
}

#[test]
fn gaps_out_reads_the_first_custom_word() {
    assert_eq!(parse_gaps_out(&out(r#"{"option":"general:gaps_out","custom":"12 12 12 12","set":true}"#)), 12);
    assert_eq!(parse_gaps_out(&out(r#"{"custom":"-3"}"#)), -3);
    assert_eq!(parse_gaps_out(&out(r#"{"custom":"abc"}"#)), 0);
    assert_eq!(parse_gaps_out(&out(r#"{"custom":"   "}"#)), 0);
    assert_eq!(parse_gaps_out(&out(r#"{"int":5}"#)), 0);
    assert_eq!(parse_gaps_out(&None), 0);
}

#[test]
fn client_list_is_reused_within_its_lifetime() {
    let mut h = HyprlandHandler::new();
    let first = h.get_clients(1000, || out(CLIENTS));
    assert_eq!(first.len(), 3);
    let again = h.get_clients(1119, || out("[]"));
    assert_eq!(again.len(), 3);
    let later = h.get_clients(1120, || out("[]"));
    assert_eq!(later.len(), 0);
    let _ = h.get_clients(2000, || out(CLIENTS));
    invalidate_client_cache(&mut h);
    let refetched = h.get_clients(2001, || out("[]"));
    assert_eq!(refetched.len(), 0);
}

#[test]
fn windows_of_a_class_come_from_the_list() {
    let mut h = HyprlandHandler::new();
    let w = h.get_clients_for_class("code", 5, || out(CLIENTS));
    assert_eq!(w.len(), 1);
    assert_eq!(w[0].title, "editor");
}

#[test]
fn gaps_out_is_queried_once() {
    let mut h = HyprlandHandler::new();
    assert_eq!(h.get_gaps_out(|| out(r#"{"custom":"7 7 7 7"}"#)), 7);
    assert_eq!(h.get_gaps_out(|| out(r#"{"custom":"9"}"#)), 7);
}

#[test]
fn monitor_id_by_connector_name() {
    let h = HyprlandHandler::new();
    let mons = out(r#"[{"id":0,"name":"eDP-1"},{"id":3,"name":"DP-1"}]"#);
    assert_eq!(h.get_monitor_id("DP-1", &mons), Some(3));
    assert_eq!(h.get_monitor_id("HDMI-A-1", &mons), None);
    assert_eq!(h.get_monitor_id("DP-1", &None), None);
}

#[test]
fn active_window_class_and_address() {
    let h = HyprlandHandler::new();
    let a = out(r#"{"class":"Firefox","address":"0x55"}"#);
    assert_eq!(h.get_active_class(&a).as_deref(), Some("firefox"));
    assert_eq!(h.get_active_address(&a).as_deref(), Some("0x55"));
    let empty = out(r#"{"class":"","address":""}"#);
    assert_eq!(h.get_active_class(&empty), None);
    assert_eq!(h.get_active_address(&empty), None);
    assert_eq!(h.get_active_class(&None), None);
}

#[test]
fn workspaces_sorted_by_id() {
    let h = HyprlandHandler::new();
    let ws = out(r#"[{"id":3,"name":"c","windows":2},{"name":"no id"},{"id":1,"name":"a"},{"id":3,"name":"d","windows":1}]"#);
    let list = h.get_workspaces(&ws);
    let ids: Vec<i32> = list.iter().map(|w| w.id).collect();
    assert_eq!(ids, vec![1, 3, 3]);
    assert_eq!(list[0].windows, 0);
    assert_eq!(list[1].name, "c");
    assert_eq!(list[2].name, "d");
    assert!(h.get_workspaces(&None).is_empty());
}

#[test]
fn active_workspace_defaults_to_one() {
    let h = HyprlandHandler::new();
    assert_eq!(h.get_active_workspace_id(&out(r#"{"id":4}"#)), 4);
    assert_eq!(h.get_active_workspace_id(&out(r#"{"name":"x"}"#)), 1);
    assert_eq!(h.get_active_workspace_id(&None), 1);
}

#[test]
fn socket_lines_are_classified() {
    assert!(matches!(classify_event("openwindow>>0x1,2,kitty,t"), Some(DockEvent::WindowList)));
    assert!(matches!(classify_event("openwindowv2>>0x1"), Some(DockEvent::WindowList)));
    assert!(matches!(classify_event("closewindow>>0x1"), Some(DockEvent::WindowList)));
    assert!(matches!(classify_event("workspace>>2"), Some(DockEvent::Workspace)));
    assert!(matches!(classify_event("createworkspace>>5"), Some(DockEvent::Workspace)));
    assert!(matches!(classify_event("destroyworkspace>>5"), Some(DockEvent::Workspace)));
    assert!(matches!(classify_event("focusedmon>>DP-1,2"), Some(DockEvent::Workspace)));
    match classify_event("activewindow>>Kitty,title") {
        Some(DockEvent::Focus(c)) => assert_eq!(c, "kitty"),
        _ => panic!("expected a focus event"),
    }
    assert!(matches!(classify_event("movewindow>>0x1,3"), Some(DockEvent::WindowList)));
    assert!(matches!(classify_event("movewindowv2>>0x1,3,name"), Some(DockEvent::WindowList)));
    assert!(classify_event("windowtitle>>0x1").is_none());
}

#[test]
fn capture_tries_stable_id_then_geometry() {
    let plan = capture_plan("0x0xab12", &Some("42".to_string()), [5, -6], [640, 480]).unwrap();
    assert_eq!(plan.temp_path, "/tmp/rust-dock-preview-ab12.png");
    assert_eq!(plan.attempts.len(), 2);
    assert_eq!(
        plan.attempts[0],
        vec!["5", "grim", "-s", "0.25", "-l", "0", "-t", "png", "-T", "42", "/tmp/rust-dock-preview-ab12.png"]
    );
    assert_eq!(
        plan.attempts[1],
        vec!["5", "grim", "-s", "0.25", "-l", "0", "-t", "png", "-g", "5,-6 640x480", "/tmp/rust-dock-preview-ab12.png"]
    );
    let geo_only = capture_plan("abc", &Some(String::new()), [0, 0], [1, 1]).unwrap();
    assert_eq!(geo_only.attempts.len(), 1);
    assert!(capture_plan("abc", &None, [0, 0], [0, 10]).is_none());
}

#[test]
fn event_socket_locations() {
    assert_eq!(
        socket_candidates(&Some("/run/user/1000".to_string()), "abc"),
        vec!["/run/user/1000/hypr/abc/.socket2.sock", "/tmp/hypr/abc/.socket2.sock"]
    );
    assert_eq!(socket_candidates(&None, "s")[0], "/tmp/hypr/s/.socket2.sock");
}

#[test]
fn instance_signature_from_instanceinfo() {
    assert_eq!(instance_signature(&out(r#"{"signature":"xyz_1","pid":2}"#)).as_deref(), Some("xyz_1"));
    assert_eq!(instance_signature(&out(r#"{"pid":2}"#)).as_deref(), Some(""));
    assert_eq!(instance_signature(&out("garbage")), None);
    assert_eq!(instance_signature(&None), None);
}
