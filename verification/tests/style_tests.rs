use rust_dock::config::Config;
use rust_dock::style::{css_params, stylesheet, theme_css_path, CssParams, PywalWatch};

#[test]
fn stylesheet_sizes_from_the_config() {
    let c = Config::new(None, None);
    assert_eq!(
        css_params(&c),
        CssParams {
            radius: 10,
            padding: 2,
            btn_padding: 1,
            btn_radius: 8,
            ws_radius: 8,
            preview_radius: 14,
            card_radius: 16,
            card_min_w: 260,
            thumb_min_h: 160,
            thumb_min_w: 260,
        }
    );
}

#[test]
fn small_radii_keep_their_floors() {
    let mut c = Config::new(None, None);
    c.radius = 0;
    c.padding = 5;
    c.compact_preview = true;
    let p = css_params(&c);
    assert_eq!(p.btn_radius, -2);
    assert_eq!(p.ws_radius, 4);
    assert_eq!(p.card_radius, 16);
    assert_eq!(p.btn_padding, 2);
    assert_eq!((p.card_min_w, p.thumb_min_h, p.thumb_min_w), (200, 108, 200));
    c.radius = 30;
    c.padding = -3;
    let q = css_params(&c);
    assert_eq!(q.card_radius, 36);
    assert_eq!(q.btn_padding, -1);
}

#[test]
fn theme_stylesheet_location() {
    assert_eq!(theme_css_path("lotos"), "rust-dock/themes/lotos/style.css");
}

#[test]
fn layers_stack_in_order() {
    let css = stylesheet("P;", &Some("W;".to_string()), "R;", &None, &Some("T;".to_string()));
    assert_eq!(css, "P;W;R;T;");
    assert_eq!(stylesheet("P;", &None, "R;", &Some("U;".to_string()), &None), "P;R;U;");
}

#[test]
fn pywal_change_is_reported_once() {
    let mut w = PywalWatch::new();
    assert!(!w.changed(None));
    assert!(w.changed(Some((100, 5))));
    assert!(!w.changed(Some((100, 5))));
    assert!(!w.changed(None));
    assert!(w.changed(Some((100, 6))));
    assert_eq!(w.last, Some((100, 6)));
}
