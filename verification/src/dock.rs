//! The dock's decisions: where its windows sit, what each button shows,
//! which apps get a button in the pinned and running sections, how
//! previews are placed and when hovering shows or hides them, which window
//! a click focuses, which captures to start.

use vstd::prelude::*;
use crate::config::{Config, ConfigView};
use crate::text::{first_index, append_chars, chars_of, chars_eq, eq_ascii_ci, eq_ignore_ascii_case, lowercase, string_of, to_lowercase};
use crate::app_info::{AppInfo, AppInfoCache, AppInfoView, opt_app_view, translates_all};
use crate::hyprland_handler::{HyprClient, HyprClientView, client_views};

verus! {

// ── Window placement ────────────────────────────────────────────────────

/// A layer-shell layer.
#[derive(Debug, Clone, Copy, PartialEq, Eq, Structural)]
pub enum DockLayer {
    Overlay,
    Top,
    Bottom,
    Background,
}

/// The layer named in the configuration (`top` for anything unknown).
pub open spec fn layer_named(l: Seq<char>) -> DockLayer {
    if l == "overlay"@ {
        DockLayer::Overlay
    } else if l == "bottom"@ {
        DockLayer::Bottom
    } else if l == "background"@ {
        DockLayer::Background
    } else {
        DockLayer::Top
    }
}

/// The dock window's layer: smart view always needs `Bottom` so the dock
/// can hide behind windows; otherwise the configured layer.
pub open spec fn spec_dock_layer(c: ConfigView) -> DockLayer {
    if c.smart_view {
        DockLayer::Bottom
    } else {
        layer_named(c.layer)
    }
}

/// Whether `s` is the literal `lit`.
fn is_word(s: &String, lit: &str) -> (b: bool)
    ensures
        b == (s@ == lit@),
{
    crate::text::chars_eq(&chars_of(s.as_str()), &chars_of(lit))
}

/// The dock window's layer.
pub fn dock_layer(cfg: &Config) -> (l: DockLayer)
    ensures
        l == spec_dock_layer(cfg@),
{
    if cfg.smart_view {
        DockLayer::Bottom
    } else if is_word(&cfg.layer, "overlay") {
        DockLayer::Overlay
    } else if is_word(&cfg.layer, "bottom") {
        DockLayer::Bottom
    } else if is_word(&cfg.layer, "background") {
        DockLayer::Background
    } else {
        DockLayer::Top
    }
}

/// A screen edge.
#[derive(Debug, Clone, Copy, PartialEq, Eq, Structural)]
pub enum Side {
    Top,
    Bottom,
    Left,
    Right,
}

/// The edge a position names (`bottom` for anything unknown).
pub open spec fn side_of(p: Seq<char>) -> Side {
    if p == "top"@ {
        Side::Top
    } else if p == "left"@ {
        Side::Left
    } else if p == "right"@ {
        Side::Right
    } else {
        Side::Bottom
    }
}

/// The edge the dock sits on.
pub fn side(position: &String) -> (s: Side)
    ensures
        s == side_of(position@),
{
    if is_word(position, "top") {
        Side::Top
    } else if is_word(position, "left") {
        Side::Left
    } else if is_word(position, "right") {
        Side::Right
    } else {
        Side::Bottom
    }
}

/// Which edges a layer surface is anchored to.
#[derive(Debug, Clone, Copy, PartialEq, Eq, Structural)]
pub struct Anchors {
    pub top: bool,
    pub bottom: bool,
    pub left: bool,
    pub right: bool,
}

/// The dock window's anchors: its own edge, and when it spans the screen
/// the two edges across.
pub open spec fn spec_dock_anchors(s: Side, full_screen: bool) -> Anchors {
    match s {
        Side::Top => Anchors { top: true, bottom: false, left: full_screen, right: full_screen },
        Side::Bottom => Anchors { top: false, bottom: true, left: full_screen, right: full_screen },
        Side::Left => Anchors { top: full_screen, bottom: full_screen, left: true, right: false },
        Side::Right => Anchors { top: full_screen, bottom: full_screen, left: false, right: true },
    }
}

/// The dock window's anchors.
pub fn dock_anchors(s: Side, full_screen: bool) -> (a: Anchors)
    ensures
        a == spec_dock_anchors(s, full_screen),
{
    match s {
        Side::Top => Anchors { top: true, bottom: false, left: full_screen, right: full_screen },
        Side::Bottom => Anchors { top: false, bottom: true, left: full_screen, right: full_screen },
        Side::Left => Anchors { top: full_screen, bottom: full_screen, left: true, right: false },
        Side::Right => Anchors { top: full_screen, bottom: full_screen, left: false, right: true },
    }
}

/// The smart-view detection strip: anchored along the whole dock edge.
pub fn detect_anchors(s: Side) -> (a: Anchors)
    ensures
        a == spec_dock_anchors(s, true),
{
    dock_anchors(s, true)
}

/// The dock is anchored to the edge it sits on and never to the opposite
/// edge; it is anchored to the two edges across exactly when it spans the
/// screen. The preview is anchored to the dock's edge, never to the
/// opposite one.
pub proof fn law_anchored_to_own_edge(s: Side, full_screen: bool)
    ensures
        spec_dock_anchors(s, full_screen).top == (s == Side::Top || (full_screen && (s == Side::Left
            || s == Side::Right))),
        spec_dock_anchors(s, full_screen).bottom == (s == Side::Bottom || (full_screen && (s
            == Side::Left || s == Side::Right))),
        spec_dock_anchors(s, full_screen).left == (s == Side::Left || (full_screen && (s == Side::Top
            || s == Side::Bottom))),
        spec_dock_anchors(s, full_screen).right == (s == Side::Right || (full_screen && (s
            == Side::Top || s == Side::Bottom))),
        s == Side::Top ==> spec_preview_anchors(s).top && !spec_preview_anchors(s).bottom,
        s == Side::Bottom ==> spec_preview_anchors(s).bottom && !spec_preview_anchors(s).top,
        s == Side::Left ==> spec_preview_anchors(s).left && !spec_preview_anchors(s).right,
        s == Side::Right ==> spec_preview_anchors(s).right && !spec_preview_anchors(s).left,
{
}

/// The preview window's anchors: the dock's edge and the start of the
/// edge across (left for horizontal docks, top for vertical ones).
pub open spec fn spec_preview_anchors(s: Side) -> Anchors {
    match s {
        Side::Top => Anchors { top: true, bottom: false, left: true, right: false },
        Side::Bottom => Anchors { top: false, bottom: true, left: true, right: false },
        Side::Left => Anchors { top: true, bottom: false, left: true, right: false },
        Side::Right => Anchors { top: true, bottom: false, left: false, right: true },
    }
}

/// The preview window's anchors.
pub fn preview_anchors(s: Side) -> (a: Anchors)
    ensures
        a == spec_preview_anchors(s),
{
    match s {
        Side::Top => Anchors { top: true, bottom: false, left: true, right: false },
        Side::Bottom => Anchors { top: false, bottom: true, left: true, right: false },
        Side::Left => Anchors { top: true, bottom: false, left: true, right: false },
        Side::Right => Anchors { top: true, bottom: false, left: false, right: true },
    }
}

/// Margins of a layer surface, per edge.
#[derive(Debug, Clone, Copy, PartialEq, Eq, Structural)]
pub struct Margins {
    pub top: i32,
    pub bottom: i32,
    pub left: i32,
    pub right: i32,
}

/// The gap between dock and screen edge: Hyprland's `gaps_out` when the
/// configuration asks for it, the configured margin otherwise.
pub open spec fn spec_effective_margin(c: ConfigView, gaps_out: i32) -> i32 {
    if c.system_gap_used {
        gaps_out
    } else {
        c.margin
    }
}

/// The gap between dock and screen edge.
pub fn effective_margin(cfg: &Config, gaps_out: i32) -> (m: i32)
    ensures
        m == spec_effective_margin(cfg@, gaps_out),
{
    if cfg.system_gap_used {
        gaps_out
    } else {
        cfg.margin
    }
}

/// The sums that the dock's margins take fit an `i32`.
pub open spec fn margins_fit(c: ConfigView, m: i32) -> bool {
    &&& i32::MIN <= c.margin_top + m <= i32::MAX
    &&& i32::MIN <= c.margin_bottom + m <= i32::MAX
    &&& i32::MIN <= c.margin_left + m <= i32::MAX
    &&& i32::MIN <= c.margin_right + m <= i32::MAX
}

/// The dock window's margins: the gap on its own edge, and on the edges
/// across when it spans the screen; 0 elsewhere.
pub open spec fn spec_dock_margins(c: ConfigView, s: Side, m: i32) -> Margins {
    let fs = c.full_screen;
    let t = (c.margin_top + m) as i32;
    let b = (c.margin_bottom + m) as i32;
    let l = (c.margin_left + m) as i32;
    let r = (c.margin_right + m) as i32;
    match s {
        Side::Top => Margins { top: t, bottom: 0, left: if fs { l } else { 0 }, right: if fs { r } else { 0 } },
        Side::Bottom => Margins { top: 0, bottom: b, left: if fs { l } else { 0 }, right: if fs { r } else { 0 } },
        Side::Left => Margins { top: if fs { t } else { 0 }, bottom: if fs { b } else { 0 }, left: l, right: 0 },
        Side::Right => Margins { top: if fs { t } else { 0 }, bottom: if fs { b } else { 0 }, left: 0, right: r },
    }
}

/// The dock window's margins.
pub fn dock_margins(cfg: &Config, s: Side, m: i32) -> (r: Margins)
    requires
        margins_fit(cfg@, m),
    ensures
        r == spec_dock_margins(cfg@, s, m),
{
    let fs = cfg.full_screen;
    let t = cfg.margin_top + m;
    let b = cfg.margin_bottom + m;
    let l = cfg.margin_left + m;
    let rr = cfg.margin_right + m;
    match s {
        Side::Top => Margins { top: t, bottom: 0, left: if fs { l } else { 0 }, right: if fs { rr } else { 0 } },
        Side::Bottom => Margins { top: 0, bottom: b, left: if fs { l } else { 0 }, right: if fs { rr } else { 0 } },
        Side::Left => Margins { top: if fs { t } else { 0 }, bottom: if fs { b } else { 0 }, left: l, right: 0 },
        Side::Right => Margins { top: if fs { t } else { 0 }, bottom: if fs { b } else { 0 }, left: 0, right: rr },
    }
}

/// Whether the dock reserves its own space (the layer shell's automatic
/// exclusive zone): when asked to and not in smart view.
pub open spec fn spec_reserves_space(c: ConfigView) -> bool {
    c.exclusive_zone && !c.smart_view
}

/// Whether the dock reserves its own space.
pub fn reserves_space(cfg: &Config) -> (b: bool)
    ensures
        b == spec_reserves_space(cfg@),
{
    cfg.exclusive_zone && !cfg.smart_view
}

/// The exclusive zone once the dock is laid out: its height plus the gap
/// on both sides, less Hyprland's own `gaps_out`, never below 0; -1 (no
/// zone) when the dock does not reserve space.
pub open spec fn spec_exclusive_zone(c: ConfigView, height: i32, gaps_out: i32) -> int {
    if spec_reserves_space(c) {
        let z = height + 2 * spec_effective_margin(c, gaps_out) - gaps_out;
        if z < 0 {
            0
        } else {
            z
        }
    } else {
        -1
    }
}

/// The exclusive zone once the dock is laid out.
pub fn exclusive_zone(cfg: &Config, height: i32, gaps_out: i32) -> (z: i32)
    requires
        spec_reserves_space(cfg@) ==> i32::MIN <= height + 2 * spec_effective_margin(cfg@, gaps_out)
            - gaps_out <= i32::MAX,
    ensures
        z as int == spec_exclusive_zone(cfg@, height, gaps_out),
{
    if reserves_space(cfg) {
        let m = effective_margin(cfg, gaps_out) as i64;
        let z = height as i64 + 2 * m - gaps_out as i64;
        if z < 0 {
            0
        } else {
            z as i32
        }
    } else {
        -1
    }
}

// ── Buttons ─────────────────────────────────────────────────────────────

/// The dots under an icon: one per open window, at most three; a single
/// (hidden) dot when none is open.
pub open spec fn spec_badge(instances: nat) -> Seq<char> {
    let n = if instances == 0 {
        1
    } else if instances > 3 {
        3
    } else {
        instances
    };
    Seq::new(n, |i: int| '•')
}

/// The indicator text under an icon.
pub fn badge(instances: usize) -> (r: String)
    ensures
        r@ == spec_badge(instances as nat),
{
    let n: usize = if instances == 0 {
        1
    } else if instances > 3 {
        3
    } else {
        instances
    };
    let mut v: Vec<char> = Vec::new();
    let mut i: usize = 0;
    while i < n
        invariant
            i <= n,
            v@ == Seq::new(i as nat, |k: int| '•'),
        decreases n - i,
    {
        v.push('•');
        i = i + 1;
        assert(v@ =~= Seq::new(i as nat, |k: int| '•'));
    }
    string_of(&v)
}

/// Whether the indicator is shown: only when a window is open.
pub fn indicator_visible(instances: usize) -> (b: bool)
    ensures
        b == (instances > 0),
{
    instances > 0
}

/// The CSS class of an app button.
pub fn button_class(pinned: bool) -> (r: String)
    ensures
        r@ == if pinned {
            "pinned"@
        } else {
            "running"@
        },
{
    if pinned {
        "pinned".to_owned()
    } else {
        "running".to_owned()
    }
}

/// The pin entry of the context menu.
pub fn pin_menu_label(pinned: bool) -> (r: String)
    ensures
        r@ == if pinned {
            "Unpin from taskbar"@
        } else {
            "Pin to taskbar"@
        },
{
    if pinned {
        "Unpin from taskbar".to_owned()
    } else {
        "Pin to taskbar".to_owned()
    }
}

/// Whether an app id is highlighted for the focused class (ASCII case
/// ignored).
pub fn is_active(app_id: &String, class: &String) -> (b: bool)
    ensures
        b == eq_ascii_ci(app_id@, class@),
{
    eq_ignore_ascii_case(&chars_of(app_id.as_str()), &chars_of(class.as_str()))
}

/// Whether a focus change needs a rebuild: the focused class is not empty
/// and no button is for it (a window opened before the dock knew of it).
pub open spec fn spec_needs_rebuild(class: Seq<char>, ids: Seq<Seq<char>>) -> bool {
    class.len() > 0 && !(exists|i: int| 0 <= i < ids.len() && eq_ascii_ci(#[trigger] ids[i], class))
}

/// Whether a focus change needs a rebuild.
pub fn needs_rebuild(class: &String, ids: &Vec<String>) -> (b: bool)
    ensures
        b == spec_needs_rebuild(class@, crate::config::svs(ids@)),
{
    let c = chars_of(class.as_str());
    if c.len() == 0 {
        return false;
    }
    let ghost sv = crate::config::svs(ids@);
    let mut i: usize = 0;
    while i < ids.len()
        invariant
            i <= ids.len(),
            c@ == class@,
            sv == crate::config::svs(ids@),
            forall|k: int| 0 <= k < i ==> !eq_ascii_ci(#[trigger] sv[k], class@),
        decreases ids.len() - i,
    {
        if eq_ignore_ascii_case(&chars_of(ids[i].as_str()), &c) {
            assert(eq_ascii_ci(sv[i as int], class@));
            return false;
        }
        i = i + 1;
    }
    true
}

// ── Previews ────────────────────────────────────────────────────────────

/// A window title as a preview card shows it: at most 26 characters, an
/// ellipsis marking a cut.
pub open spec fn spec_preview_title(t: Seq<char>) -> Seq<char> {
    if t.len() > 26 {
        t.take(26).push('…')
    } else {
        t
    }
}

/// The title shown on a preview card.
pub fn preview_title(title: &str) -> (r: String)
    ensures
        r@ == spec_preview_title(title@),
{
    let cs = chars_of(title);
    if cs.len() > 26 {
        let mut t = crate::text::take_chars(&cs, 26);
        t.push('…');
        string_of(&t)
    } else {
        string_of(&cs)
    }
}

/// Card and thumbnail sizes of a preview: (card width, card height, thumb
/// width, thumb height).
pub open spec fn spec_preview_sizes(compact: bool) -> (i32, i32, i32, i32) {
    if compact {
        (204, 144, 200, 108)
    } else {
        (264, 196, 260, 160)
    }
}

/// Card and thumbnail sizes of a preview.
pub fn preview_sizes(compact: bool) -> (r: (i32, i32, i32, i32))
    ensures
        r == spec_preview_sizes(compact),
{
    if compact {
        (204, 144, 200, 108)
    } else {
        (264, 196, 260, 160)
    }
}

/// The dock keeps the configured gap on the edge it sits on and none on
/// the opposite edge; on the edges across it keeps their gaps when it spans
/// the screen and none otherwise.
pub proof fn law_dock_margins_on_own_edge(c: ConfigView, s: Side, m: i32)
    requires
        margins_fit(c, m),
    ensures
        s == Side::Top ==> spec_dock_margins(c, s, m).top == c.margin_top + m && spec_dock_margins(c, s, m).bottom == 0,
        s == Side::Bottom ==> spec_dock_margins(c, s, m).bottom == c.margin_bottom + m && spec_dock_margins(
            c,
            s,
            m,
        ).top == 0,
        s == Side::Left ==> spec_dock_margins(c, s, m).left == c.margin_left + m && spec_dock_margins(c, s, m).right == 0,
        s == Side::Right ==> spec_dock_margins(c, s, m).right == c.margin_right + m && spec_dock_margins(
            c,
            s,
            m,
        ).left == 0,
        (s == Side::Top || s == Side::Bottom) ==> spec_dock_margins(c, s, m).left == (if c.full_screen {
            c.margin_left + m
        } else {
            0
        }) && spec_dock_margins(c, s, m).right == (if c.full_screen {
            c.margin_right + m
        } else {
            0
        }),
        (s == Side::Left || s == Side::Right) ==> spec_dock_margins(c, s, m).top == (if c.full_screen {
            c.margin_top + m
        } else {
            0
        }) && spec_dock_margins(c, s, m).bottom == (if c.full_screen {
            c.margin_bottom + m
        } else {
            0
        }),
{
}

/// Division by 2 rounding toward zero, as `i32` division does.
pub open spec fn half(x: int) -> int {
    if x >= 0 {
        x / 2
    } else {
        -((-x) / 2)
    }
}

fn half64(x: i64) -> (r: i64)
    requires
        x > i64::MIN,
    ensures
        r == half(x as int),
{
    if x >= 0 {
        x / 2
    } else {
        -((-x) / 2)
    }
}

/// `v` brought into `[lo, hi]`.
pub open spec fn clamp_int(v: int, lo: int, hi: int) -> int {
    if v < lo {
        lo
    } else if v > hi {
        hi
    } else {
        v
    }
}

/// The length of a preview panel of `n` cards: the cards, 8 between
/// consecutive ones, 8 of padding at each end.
pub open spec fn panel_len(n: int, card: int) -> int {
    n * card + (if n - 1 > 0 {
        n - 1
    } else {
        0
    }) * 8 + 16
}

/// Whether `x` fits an `i32`.
pub open spec fn fits(x: int) -> bool {
    i32::MIN <= x <= i32::MAX
}

/// The offset along the dock that centres a panel on a button, kept on the
/// screen.
pub open spec fn centred(pos: int, size: int, panel: int, screen: int) -> int {
    clamp_int(pos + half(size) - half(panel), 0, if screen - panel > 0 { screen - panel } else { 0 })
}

/// No `i32` step of the placement overflows.
pub open spec fn centred_fits(pos: int, size: int, panel: int, screen: int) -> bool {
    fits(panel) && fits(pos + half(size)) && fits(pos + half(size) - half(panel)) && fits(
        screen - panel,
    )
}

/// Where the preview of `n` windows goes: centred on the button along the
/// dock (kept on the monitor) and 6 pixels beyond the dock across it.
/// `button` is (x, y, width, height) on the monitor, `edge` the dock's
/// margins.
pub open spec fn spec_preview_margins(
    s: Side,
    n: int,
    compact: bool,
    button: (i32, i32, i32, i32),
    monitor: (i32, i32),
    dock: (i32, i32),
    edge: Margins,
) -> Margins {
    let (card_w, card_h, _, _) = spec_preview_sizes(compact);
    let (bx, by, bw, bh) = button;
    match s {
        Side::Left => Margins {
            top: centred(by as int, bh as int, panel_len(n, card_h as int), monitor.1 as int) as i32,
            bottom: 0,
            left: (edge.left + dock.0 + 6) as i32,
            right: 0,
        },
        Side::Right => Margins {
            top: centred(by as int, bh as int, panel_len(n, card_h as int), monitor.1 as int) as i32,
            bottom: 0,
            left: 0,
            right: (edge.right + dock.0 + 6) as i32,
        },
        Side::Top => Margins {
            top: (edge.top + dock.1 + 6) as i32,
            bottom: 0,
            left: centred(bx as int, bw as int, panel_len(n, card_w as int), monitor.0 as int) as i32,
            right: 0,
        },
        Side::Bottom => Margins {
            top: 0,
            bottom: (edge.bottom + dock.1 + 6) as i32,
            left: centred(bx as int, bw as int, panel_len(n, card_w as int), monitor.0 as int) as i32,
            right: 0,
        },
    }
}

/// The `i32` steps of the preview placement do not overflow.
pub open spec fn preview_fits(
    s: Side,
    n: int,
    compact: bool,
    button: (i32, i32, i32, i32),
    monitor: (i32, i32),
    dock: (i32, i32),
    edge: Margins,
) -> bool {
    let (card_w, card_h, _, _) = spec_preview_sizes(compact);
    let (bx, by, bw, bh) = button;
    match s {
        Side::Left => centred_fits(by as int, bh as int, panel_len(n, card_h as int), monitor.1 as int)
            && fits(edge.left + dock.0) && fits(edge.left + dock.0 + 6),
        Side::Right => centred_fits(by as int, bh as int, panel_len(n, card_h as int), monitor.1 as int)
            && fits(edge.right + dock.0) && fits(edge.right + dock.0 + 6),
        Side::Top => centred_fits(bx as int, bw as int, panel_len(n, card_w as int), monitor.0 as int)
            && fits(edge.top + dock.1) && fits(edge.top + dock.1 + 6),
        Side::Bottom => centred_fits(bx as int, bw as int, panel_len(n, card_w as int), monitor.0 as int)
            && fits(edge.bottom + dock.1) && fits(edge.bottom + dock.1 + 6),
    }
}

fn centred64(pos: i32, size: i32, panel: i64, screen: i32) -> (r: i32)
    requires
        centred_fits(pos as int, size as int, panel as int, screen as int),
    ensures
        r as int == centred(pos as int, size as int, panel as int, screen as int),
{
    let start = pos as i64 + half64(size as i64) - half64(panel);
    let room = screen as i64 - panel;
    let hi = if room > 0 { room } else { 0 };
    let v = if start < 0 { 0 } else if start > hi { hi } else { start };
    v as i32
}

/// Where the preview panel goes.
pub fn preview_margins(
    s: Side,
    n: i32,
    compact: bool,
    button: (i32, i32, i32, i32),
    monitor: (i32, i32),
    dock: (i32, i32),
    edge: Margins,
) -> (r: Margins)
    requires
        0 <= n,
        preview_fits(s, n as int, compact, button, monitor, dock, edge),
    ensures
        r == spec_preview_margins(s, n as int, compact, button, monitor, dock, edge),
{
    let (card_w, card_h, _, _) = preview_sizes(compact);
    let (bx, by, bw, bh) = button;
    let gaps: i64 = if n - 1 > 0 { (n - 1) as i64 } else { 0 };
    assert(0 <= n as i64 * card_h as i64 <= 2147483647 * 264 && 0 <= n as i64 * card_w as i64
        <= 2147483647 * 264) by (nonlinear_arith)
        requires
            0 <= n <= 2147483647,
            0 <= card_h <= 264,
            0 <= card_w <= 264,
    ;
    let panel_h: i64 = n as i64 * card_h as i64 + gaps * 8 + 16;
    let panel_w: i64 = n as i64 * card_w as i64 + gaps * 8 + 16;
    match s {
        Side::Left => Margins {
            top: centred64(by, bh, panel_h, monitor.1),
            bottom: 0,
            left: edge.left + dock.0 + 6,
            right: 0,
        },
        Side::Right => Margins {
            top: centred64(by, bh, panel_h, monitor.1),
            bottom: 0,
            left: 0,
            right: edge.right + dock.0 + 6,
        },
        Side::Top => Margins {
            top: edge.top + dock.1 + 6,
            bottom: 0,
            left: centred64(bx, bw, panel_w, monitor.0),
            right: 0,
        },
        Side::Bottom => Margins {
            top: 0,
            bottom: edge.bottom + dock.1 + 6,
            left: centred64(bx, bw, panel_w, monitor.0),
            right: 0,
        },
    }
}
/// The preview sits 6 pixels beyond the dock: its margin on the dock's edge
/// is that edge's gap plus the dock's thickness plus 6, and 0 on the
/// opposite edge and on the far edge across. Along the dock it is centred
/// on the hovered button when that keeps it on the monitor, and otherwise
/// pushed back onto the monitor (to its start when it is wider).
pub proof fn law_preview_beyond_dock(
    s: Side,
    n: int,
    compact: bool,
    button: (i32, i32, i32, i32),
    monitor: (i32, i32),
    dock: (i32, i32),
    edge: Margins,
)
    requires
        0 <= n,
        preview_fits(s, n, compact, button, monitor, dock, edge),
    ensures
        s == Side::Top ==> spec_preview_margins(s, n, compact, button, monitor, dock, edge).top == edge.top
            + dock.1 + 6 && spec_preview_margins(s, n, compact, button, monitor, dock, edge).bottom == 0,
        s == Side::Bottom ==> spec_preview_margins(s, n, compact, button, monitor, dock, edge).bottom
            == edge.bottom + dock.1 + 6 && spec_preview_margins(s, n, compact, button, monitor, dock, edge).top
            == 0,
        s == Side::Left ==> spec_preview_margins(s, n, compact, button, monitor, dock, edge).left == edge.left
            + dock.0 + 6 && spec_preview_margins(s, n, compact, button, monitor, dock, edge).right == 0,
        s == Side::Right ==> spec_preview_margins(s, n, compact, button, monitor, dock, edge).right
            == edge.right + dock.0 + 6 && spec_preview_margins(s, n, compact, button, monitor, dock, edge).left
            == 0,
        (s == Side::Top || s == Side::Bottom) ==> spec_preview_margins(
            s,
            n,
            compact,
            button,
            monitor,
            dock,
            edge,
        ).right == 0 && on_monitor_along(
            spec_preview_margins(s, n, compact, button, monitor, dock, edge).left as int,
            button.0 as int,
            button.2 as int,
            panel_len(n, spec_preview_sizes(compact).0 as int),
            monitor.0 as int,
        ),
        (s == Side::Left || s == Side::Right) ==> spec_preview_margins(
            s,
            n,
            compact,
            button,
            monitor,
            dock,
            edge,
        ).bottom == 0 && on_monitor_along(
            spec_preview_margins(s, n, compact, button, monitor, dock, edge).top as int,
            button.1 as int,
            button.3 as int,
            panel_len(n, spec_preview_sizes(compact).1 as int),
            monitor.1 as int,
        ),
{
}

/// Where a panel of length `panel` starts along a monitor of length
/// `screen`, for a button at `pos` of length `size`: on the monitor when it
/// fits there (at its start otherwise), and centred on the button whenever
/// that keeps it on the monitor.
pub open spec fn on_monitor_along(start: int, pos: int, size: int, panel: int, screen: int) -> bool {
    &&& 0 <= start
    &&& panel <= screen ==> start + panel <= screen
    &&& panel > screen ==> start == 0
    &&& (0 <= pos + half(size) - half(panel) && pos + half(size) - half(panel) + panel <= screen) ==> start
        + half(panel) == pos + half(size)
}


/// The dock's top-left corner on its monitor: centred along its edge
/// (or at the margin when it spans the screen), at the margin from its
/// edge. `edge` holds the dock's margins.
pub open spec fn spec_dock_origin(s: Side, full_screen: bool, monitor: (i32, i32), dock: (i32, i32), edge: Margins) -> (int, int) {
    let cx = if full_screen {
        edge.left as int
    } else {
        half(monitor.0 - dock.0)
    };
    let cy = if full_screen {
        edge.top as int
    } else {
        half(monitor.1 - dock.1)
    };
    match s {
        Side::Top => (cx, edge.top as int),
        Side::Left => (edge.left as int, cy),
        Side::Right => (monitor.0 - edge.right - dock.0, cy),
        Side::Bottom => (cx, monitor.1 - edge.bottom - dock.1),
    }
}

/// A button's position on the monitor: the dock's corner plus the
/// button's offset inside the dock.
pub open spec fn spec_button_position(s: Side, full_screen: bool, monitor: (i32, i32), dock: (i32, i32), edge: Margins, offset: (i32, i32)) -> (int, int) {
    let (x, y) = spec_dock_origin(s, full_screen, monitor, dock, edge);
    (x + offset.0, y + offset.1)
}

/// A button's position on the monitor.
pub fn button_position(
    s: Side,
    full_screen: bool,
    monitor: (i32, i32),
    dock: (i32, i32),
    edge: Margins,
    offset: (i32, i32),
) -> (r: (i32, i32))
    requires
        fits(monitor.0 - dock.0),
        fits(monitor.1 - dock.1),
        fits(monitor.0 - edge.right),
        fits(monitor.0 - edge.right - dock.0),
        fits(monitor.1 - edge.bottom),
        fits(monitor.1 - edge.bottom - dock.1),
        fits(spec_button_position(s, full_screen, monitor, dock, edge, offset).0),
        fits(spec_button_position(s, full_screen, monitor, dock, edge, offset).1),
    ensures
        (r.0 as int, r.1 as int) == spec_button_position(s, full_screen, monitor, dock, edge, offset),
{
    let cx: i64 = if full_screen { edge.left as i64 } else { half64(monitor.0 as i64 - dock.0 as i64) };
    let cy: i64 = if full_screen { edge.top as i64 } else { half64(monitor.1 as i64 - dock.1 as i64) };
    let (x, y): (i64, i64) = match s {
        Side::Top => (cx, edge.top as i64),
        Side::Left => (edge.left as i64, cy),
        Side::Right => (monitor.0 as i64 - edge.right as i64 - dock.0 as i64, cy),
        Side::Bottom => (cx, monitor.1 as i64 - edge.bottom as i64 - dock.1 as i64),
    };
    ((x + offset.0 as i64) as i32, (y + offset.1 as i64) as i32)
}

// ── Cycling through an app's windows ────────────────────────────────────

/// The remembered position for `key`, the latest entry winning.
pub open spec fn cycle_get(v: Seq<(String, usize)>, key: Seq<char>) -> Option<usize>
    decreases v.len(),
{
    if v.len() == 0 {
        None
    } else if v.last().0@ == key {
        Some(v.last().1)
    } else {
        cycle_get(v.drop_last(), key)
    }
}

/// The remembered position for `key`.
fn cycle_lookup(v: &Vec<(String, usize)>, app: &str) -> (r: Option<usize>)
    ensures
        r == cycle_get(v@, app@),
{
    let key = chars_of(app);
    let mut i: usize = v.len();
    assert(v@.take(v.len() as int) =~= v@);
    while i > 0
        invariant
            i <= v.len(),
            key@ == app@,
            cycle_get(v@, app@) == cycle_get(v@.take(i as int), app@),
        decreases i,
    {
        assert(v@.take(i as int).drop_last() =~= v@.take(i as int - 1));
        assert(v@.take(i as int).last() == v@[i as int - 1]);
        if crate::text::chars_eq(&chars_of(v[i - 1].0.as_str()), &key) {
            return Some(v[i - 1].1);
        }
        i = i - 1;
    }
    None
}

/// Per-app position so repeated clicks cycle through the app's windows.
pub struct CycleState {
    entries: Vec<(String, usize)>,
}

impl CycleState {
    /// The position remembered for an app.
    pub closed spec fn position_of(&self, app: Seq<char>) -> Option<usize> {
        cycle_get(self.entries@, app)
    }

    /// No position remembered.
    pub fn new() -> (s: CycleState)
        ensures
            forall|k: Seq<char>| #[trigger] s.position_of(k) is None,
    {
        CycleState { entries: Vec::new() }
    }

    /// Forgets every position (window indices are stale after a rebuild).
    pub fn clear(&mut self)
        ensures
            forall|k: Seq<char>| #[trigger] final(self).position_of(k) is None,
    {
        self.entries = Vec::new();
    }

    /// The index of the window to focus among `n` open windows of `app`:
    /// the remembered position (0 at first) modulo `n`; the next position
    /// is remembered.
    pub fn next_index(&mut self, app: &str, n: usize) -> (idx: usize)
        requires
            n > 0,
        ensures
            idx < n,
            idx as int == (match old(self).position_of(app@) {
                Some(p) => p as int,
                None => 0,
            }) % (n as int),
            final(self).position_of(app@) == Some(
                (((match old(self).position_of(app@) {
                    Some(p) => p as int,
                    None => 0,
                }) + 1) % (n as int)) as usize,
            ),
            forall|k: Seq<char>| k != app@ ==> #[trigger] final(self).position_of(k) == old(
                self,
            ).position_of(k),
    {
        let cur: usize = match cycle_lookup(&self.entries, app) {
            Some(p) => p,
            None => 0,
        };
        let idx = cur % n;
        let next = ((cur as u128 + 1) % (n as u128)) as usize;
        let ghost before = self.entries@;
        let k = app.to_owned();
        self.entries.push((k, next));
        assert(self.entries@.drop_last() =~= before);
        idx
    }
}

/// The position the next click on `app` starts from always indexes one of
/// the app's windows.
pub proof fn law_cycle_index_in_range(p: usize, n: usize)
    requires
        n > 0,
    ensures
        (p as int) % (n as int) < n,
        ((p as int + 1) % (n as int)) < n,
{
}

/// The position a click starts from: the remembered one, 0 at first.
pub open spec fn start_position(p: Option<usize>) -> int {
    match p {
        Some(q) => q as int,
        None => 0,
    }
}

/// The `hyprctl` arguments that focus the window at `address`.
pub open spec fn spec_focus_args(address: Seq<char>) -> Seq<Seq<char>> {
    seq!["dispatch"@, "focuswindow"@, "address:"@ + address]
}

/// The `hyprctl` arguments that focus the window at `address`:
/// `dispatch focuswindow address:<address>`.
pub fn focus_args(address: &str) -> (r: Vec<String>)
    ensures
        crate::app_info::string_views(r@) == spec_focus_args(address@),
{
    let mut last = chars_of("address:");
    append_chars(&mut last, &chars_of(address));
    let mut r: Vec<String> = Vec::new();
    r.push("dispatch".to_owned());
    r.push("focuswindow".to_owned());
    r.push(string_of(&last));
    assert(crate::app_info::string_views(r@) =~= spec_focus_args(address@));
    r
}

/// What a click on an app's button asks of `hyprctl`.
pub enum ClickAction {
    /// No window of the app is open: launch it with these arguments.
    Launch(Vec<String>),
    /// Focus one of its windows with these arguments.
    Focus(Vec<String>),
}

/// The abstract value of a `ClickAction`.
pub enum ClickActionView {
    Launch(Seq<Seq<char>>),
    Focus(Seq<Seq<char>>),
}

impl View for ClickAction {
    type V = ClickActionView;

    open spec fn view(&self) -> ClickActionView {
        match self {
            ClickAction::Launch(a) => ClickActionView::Launch(crate::app_info::string_views(a@)),
            ClickAction::Focus(a) => ClickActionView::Focus(crate::app_info::string_views(a@)),
        }
    }
}

/// What a click on `app` does with its open windows `ws`, starting from
/// the remembered position `p`: with no window, launch the app; otherwise
/// focus the window at the position modulo the number of windows.
pub open spec fn spec_click(app: AppInfoView, ws: Seq<HyprClientView>, p: Option<usize>) -> ClickActionView {
    if ws.len() == 0 {
        ClickActionView::Launch(
            seq![
                "dispatch"@,
                "exec"@,
                "[float;center 1] "@ + crate::app_info::spec_clean_exec(app.exec_line),
            ],
        )
    } else {
        ClickActionView::Focus(spec_focus_args(ws[start_position(p) % (ws.len() as int)].address))
    }
}

/// One click on `app` with open windows `ws` took the cycle state from `s`
/// to `t` and asked for `a`: the position of the app advances by one
/// (modulo the number of windows) when it has windows and is kept when it
/// has none.
pub open spec fn click_step(
    s: CycleState,
    t: CycleState,
    app: AppInfoView,
    ws: Seq<HyprClientView>,
    a: ClickActionView,
) -> bool {
    &&& a == spec_click(app, ws, s.position_of(app.id))
    &&& if ws.len() == 0 {
        t.position_of(app.id) == s.position_of(app.id)
    } else {
        t.position_of(app.id) matches Some(q) && q as int == (start_position(s.position_of(app.id)) + 1) % (
        ws.len() as int)
    }
}

impl CycleState {
    /// A click on `app`'s button, given the app's open windows: with none,
    /// launch it (the remembered position is kept); otherwise focus the
    /// next window in turn.
    pub fn focus_or_launch(&mut self, app: &AppInfo, windows: &Vec<HyprClient>) -> (r: ClickAction)
        ensures
            click_step(*old(self), *final(self), app@, client_views(windows@), r@),
            forall|k: Seq<char>| k != app@.id ==> #[trigger] final(self).position_of(k) == old(
                self,
            ).position_of(k),
    {
        if windows.len() == 0 {
            return ClickAction::Launch(app.launch_args());
        }
        let idx = self.next_index(app.id.as_str(), windows.len());
        let r = ClickAction::Focus(focus_args(windows[idx].address.as_str()));
        assert(client_views(windows@)[idx as int] == windows@[idx as int]@);
        r
    }
}

/// The positions remembered after the first `j` clicks of a run that
/// starts with no position and sees the windows `ws` each time: still none
/// when there are no windows, else `j` modulo their number.
proof fn lemma_click_positions(
    states: Seq<CycleState>,
    acts: Seq<ClickActionView>,
    app: AppInfoView,
    ws: Seq<HyprClientView>,
    j: int,
)
    requires
        states.len() == acts.len() + 1,
        states[0].position_of(app.id) is None,
        forall|i: int| 0 <= i < acts.len() ==> #[trigger] click_step(states[i], states[i + 1], app, ws, acts[i]),
        0 <= j <= acts.len(),
    ensures
        ws.len() == 0 ==> states[j].position_of(app.id) is None,
        ws.len() > 0 ==> start_position(states[j].position_of(app.id)) == j % (ws.len() as int),
    decreases j,
{
    let n = ws.len() as int;
    if j > 0 {
        lemma_click_positions(states, acts, app, ws, j - 1);
        let i = j - 1;
        assert(click_step(states[i], states[i + 1], app, ws, acts[i]));
        if n > 0 {
            let q = i % n;
            assert((q + 1) % n == j % n) by {
                vstd::arithmetic::div_mod::lemma_add_mod_noop(i, 1, n);
                vstd::arithmetic::div_mod::lemma_mod_twice(i, n);
                vstd::arithmetic::div_mod::lemma_mod_twice(1, n);
                vstd::arithmetic::div_mod::lemma_add_mod_noop(q, 1, n);
            }
            assert(0 <= (q + 1) % n < n) by {
                vstd::arithmetic::div_mod::lemma_mod_bound(q + 1, n);
            }
        }
    } else if n > 0 {
        assert(0int % n == 0) by {
            vstd::arithmetic::div_mod::lemma_small_mod(0, n as nat);
        }
    }
}

/// Repeated clicks on an app's button cycle through its windows: in a run
/// of clicks that starts with no remembered position and sees the same open
/// windows `ws` each time, click `j` (counting from 0) focuses window
/// `j % ws.len()`, and launches nothing; when no window is open, every
/// click launches the app.
pub proof fn law_clicks_cycle_through_windows(
    states: Seq<CycleState>,
    acts: Seq<ClickActionView>,
    app: AppInfoView,
    ws: Seq<HyprClientView>,
)
    requires
        states.len() == acts.len() + 1,
        states[0].position_of(app.id) is None,
        forall|i: int| 0 <= i < acts.len() ==> #[trigger] click_step(states[i], states[i + 1], app, ws, acts[i]),
    ensures
        ws.len() > 0 ==> forall|j: int|
            0 <= j < acts.len() ==> #[trigger] acts[j] == ClickActionView::Focus(
                spec_focus_args(ws[j % (ws.len() as int)].address),
            ),
        ws.len() == 0 ==> forall|j: int|
            0 <= j < acts.len() ==> #[trigger] acts[j] == spec_click(app, ws, None),
{
    if ws.len() > 0 {
        let n = ws.len() as int;
        assert forall|j: int| 0 <= j < acts.len() implies #[trigger] acts[j] == ClickActionView::Focus(
            spec_focus_args(ws[j % n].address),
        ) by {
            lemma_click_positions(states, acts, app, ws, j);
            assert(click_step(states[j], states[j + 1], app, ws, acts[j]));
            vstd::arithmetic::div_mod::lemma_mod_twice(j, n);
        }
    } else {
        assert forall|j: int| 0 <= j < acts.len() implies #[trigger] acts[j] == spec_click(app, ws, None) by {
            lemma_click_positions(states, acts, app, ws, j);
            assert(click_step(states[j], states[j + 1], app, ws, acts[j]));
        }
    }
}

// ── Screenshots in flight ───────────────────────────────────────────────

/// How many captures are in flight.
pub open spec fn count_pending(p: Seq<bool>) -> nat
    decreases p.len(),
{
    if p.len() == 0 {
        0
    } else {
        count_pending(p.drop_last()) + if p.last() {
            1nat
        } else {
            0nat
        }
    }
}

/// The indices of the windows with no capture in flight, ascending.
pub open spec fn idle_indices(p: Seq<bool>) -> Seq<int>
    decreases p.len(),
{
    if p.len() == 0 {
        Seq::<int>::empty()
    } else if p.last() {
        idle_indices(p.drop_last())
    } else {
        idle_indices(p.drop_last()).push(p.len() - 1)
    }
}

/// The captures to start: the first idle windows, as many as the free
/// slots (at most `max` in flight).
pub open spec fn spec_captures_to_start(p: Seq<bool>, max: nat) -> Seq<int> {
    let slots = if max > count_pending(p) {
        (max - count_pending(p)) as nat
    } else {
        0nat
    };
    let idle = idle_indices(p);
    if idle.len() <= slots {
        idle
    } else {
        idle.take(slots as int)
    }
}

proof fn lemma_idle_indices(p: Seq<bool>)
    ensures
        forall|k: int| 0 <= k < idle_indices(p).len() ==> 0 <= #[trigger] idle_indices(p)[k] < p.len()
            && !p[idle_indices(p)[k]],
        count_pending(p) <= p.len(),
    decreases p.len(),
{
    if p.len() > 0 {
        let d = p.drop_last();
        lemma_idle_indices(d);
        let a = idle_indices(d);
        let b = idle_indices(p);
        assert forall|k: int| 0 <= k < b.len() implies 0 <= #[trigger] b[k] < p.len() && !p[b[k]] by {
            if k < a.len() {
                assert(b[k] == a[k]);
                assert(d[a[k]] == p[a[k]]);
            } else {
                assert(b[k] == p.len() - 1);
            }
        }
    }
}

/// Which windows get a capture started now.
pub fn captures_to_start(pending: &Vec<bool>, max: usize) -> (r: Vec<usize>)
    ensures
        r@.map_values(|i: usize| i as int) == spec_captures_to_start(pending@, max as nat),
{
    let ghost p = pending@;
    let mut busy: usize = 0;
    let mut i: usize = 0;
    assert(p.take(0) =~= Seq::<bool>::empty());
    while i < pending.len()
        invariant
            i <= pending.len(),
            p == pending@,
            busy as nat == count_pending(p.take(i as int)),
            busy <= i,
        decreases pending.len() - i,
    {
        assert(p.take(i as int + 1).drop_last() =~= p.take(i as int));
        if pending[i] {
            busy = busy + 1;
        }
        i = i + 1;
    }
    assert(p.take(pending.len() as int) =~= p);
    let mut slots: usize = if max > busy { max - busy } else { 0 };
    let ghost total = slots as int;
    let mut r: Vec<usize> = Vec::new();
    let mut j: usize = 0;
    assert(p.take(0) =~= Seq::<bool>::empty());
    while j < pending.len() && slots > 0
        invariant
            j <= pending.len(),
            p == pending@,
            slots as int + r.len() == total,
            r@.map_values(|i: usize| i as int) == idle_indices(p.take(j as int)),
            idle_indices(p.take(j as int)).len() <= total,
        decreases pending.len() - j,
    {
        assert(p.take(j as int + 1).drop_last() =~= p.take(j as int));
        if !pending[j] {
            let ghost before = r@;
            r.push(j);
            slots = slots - 1;
            assert(r@.map_values(|i: usize| i as int) =~= before.map_values(|i: usize| i as int).push(
                j as int,
            ));
        }
        j = j + 1;
    }
    proof {
        lemma_idle_take(p, j as int);
        if slots > 0 {
            assert(j == pending.len());
            assert(p.take(j as int) =~= p);
        }
    }
    r
}

/// The idle indices of a prefix are a prefix of the idle indices.
proof fn lemma_idle_take(p: Seq<bool>, j: int)
    requires
        0 <= j <= p.len(),
    ensures
        idle_indices(p.take(j)).len() <= idle_indices(p).len(),
        idle_indices(p).take(idle_indices(p.take(j)).len() as int) == idle_indices(p.take(j)),
        forall|k: int| 0 <= k < idle_indices(p).len() && idle_indices(p)[k] < j ==> k < idle_indices(
            p.take(j),
        ).len(),
    decreases p.len() - j,
{
    if j == p.len() {
        assert(p.take(j) =~= p);
        assert(idle_indices(p).take(idle_indices(p).len() as int) =~= idle_indices(p));
    } else {
        lemma_idle_take(p, j + 1);
        assert(p.take(j + 1).drop_last() =~= p.take(j));
        lemma_idle_indices(p);
        let a = idle_indices(p.take(j));
        let b = idle_indices(p.take(j + 1));
        assert(b.take(a.len() as int) =~= a);
        assert(idle_indices(p).take(a.len() as int) =~= idle_indices(p).take(b.len() as int).take(
            a.len() as int,
        ));
        lemma_idle_indices(p.take(j + 1));
        assert forall|k: int| 0 <= k < idle_indices(p).len() && idle_indices(p)[k] < j implies k
            < a.len() by {
            if k >= a.len() {
                assert(k < b.len());
                assert(b[k] == idle_indices(p)[k]);
                if a.len() < b.len() {
                    assert(b.last() == j);
                    assert(b.len() == a.len() + 1);
                    assert(k == a.len());
                }
            }
        }
    }
}

/// Captures started now are for windows with none in flight, and no more
/// are in flight than `max` afterwards (when at most `max` were before).
pub proof fn law_captures_respect_limit(p: Seq<bool>, max: nat)
    ensures
        forall|k: int| 0 <= k < spec_captures_to_start(p, max).len() ==> 0 <= #[trigger] spec_captures_to_start(
            p,
            max,
        )[k] < p.len() && !p[spec_captures_to_start(p, max)[k]],
        count_pending(p) <= max ==> count_pending(p) + spec_captures_to_start(p, max).len() <= max,
{
    lemma_idle_indices(p);
}

// ── Which apps get a button ─────────────────────────────────────────────

/// An app button: the app and how many of its windows are open.
pub struct AppButton {
    pub app: AppInfo,
    pub instances: usize,
}

/// The abstract value of an app button.
pub open spec fn button_view(b: AppButton) -> (AppInfoView, nat) {
    (b.app@, b.instances as nat)
}

/// The abstract values of a list of buttons.
pub open spec fn buttons_view(v: Seq<AppButton>) -> Seq<(AppInfoView, nat)> {
    v.map_values(|b: AppButton| button_view(b))
}

/// How many windows have a (non-empty) class whose lowercase is `key`.
pub open spec fn class_count(cs: Seq<HyprClientView>, key: Seq<char>) -> nat
    decreases cs.len(),
{
    if cs.len() == 0 {
        0
    } else {
        class_count(cs.drop_last(), key) + if cs.last().class.len() > 0 && lowercase(cs.last().class)
            == key {
            1nat
        } else {
            0nat
        }
    }
}

proof fn lemma_class_count_le(cs: Seq<HyprClientView>, key: Seq<char>)
    ensures
        class_count(cs, key) <= cs.len(),
    decreases cs.len(),
{
    if cs.len() > 0 {
        lemma_class_count_le(cs.drop_last(), key);
    }
}

/// The lowercased class of each window, `None` for an empty class.
pub open spec fn class_keys(cs: Seq<HyprClientView>) -> Seq<Option<Seq<char>>> {
    cs.map_values(
        |c: HyprClientView|
            if c.class.len() > 0 {
                Some(lowercase(c.class))
            } else {
                None
            },
    )
}

/// The lowercased class of each window.
fn window_keys(clients: &Vec<HyprClient>) -> (r: Vec<Option<Vec<char>>>)
    ensures
        r@.len() == clients@.len(),
        forall|i: int| 0 <= i < r@.len() ==> (#[trigger] r@[i] matches Some(k) ==> class_keys(
            client_views(clients@),
        )[i] == Some(k@)),
        forall|i: int| 0 <= i < r@.len() ==> (#[trigger] r@[i] is None) == (class_keys(
            client_views(clients@),
        )[i] is None),
{
    let mut r: Vec<Option<Vec<char>>> = Vec::new();
    let mut i: usize = 0;
    while i < clients.len()
        invariant
            i <= clients.len(),
            r@.len() == i,
            forall|j: int| 0 <= j < i ==> (#[trigger] r@[j] matches Some(k) ==> class_keys(
                client_views(clients@),
            )[j] == Some(k@)),
            forall|j: int| 0 <= j < i ==> (#[trigger] r@[j] is None) == (class_keys(
                client_views(clients@),
            )[j] is None),
        decreases clients.len() - i,
    {
        let c = &clients[i];
        let k = if c.class.as_str().is_empty() {
            None
        } else {
            Some(chars_of(to_lowercase(c.class.as_str()).as_str()))
        };
        r.push(k);
        i = i + 1;
    }
    r
}

/// How many windows have the lowercased class `key`.
fn count_windows(keys: &Vec<Option<Vec<char>>>, key: &Vec<char>, Ghost(cs): Ghost<
    Seq<HyprClientView>,
>) -> (n: usize)
    requires
        keys@.len() == cs.len(),
        forall|i: int| 0 <= i < keys@.len() ==> (#[trigger] keys@[i] matches Some(k) ==> class_keys(cs)[i]
            == Some(k@)),
        forall|i: int| 0 <= i < keys@.len() ==> (#[trigger] keys@[i] is None) == (class_keys(
            cs,
        )[i] is None),
    ensures
        n as nat == class_count(cs, key@),
{
    let mut n: usize = 0;
    let mut i: usize = 0;
    assert(cs.take(0) =~= Seq::<HyprClientView>::empty());
    while i < keys.len()
        invariant
            i <= keys.len(),
            keys@.len() == cs.len(),
            forall|j: int| 0 <= j < keys@.len() ==> (#[trigger] keys@[j] matches Some(k) ==> class_keys(
                cs,
            )[j] == Some(k@)),
            forall|j: int| 0 <= j < keys@.len() ==> (#[trigger] keys@[j] is None) == (class_keys(
                cs,
            )[j] is None),
            n as nat == class_count(cs.take(i as int), key@),
            n <= i,
        decreases keys.len() - i,
    {
        assert(cs.take(i as int + 1).drop_last() =~= cs.take(i as int));
        assert(cs.take(i as int + 1).last() == cs[i as int]);
        let hit = match &keys[i] {
            Some(k) => chars_eq(k, key),
            None => false,
        };
        assert(class_keys(cs)[i as int] == (if cs[i as int].class.len() > 0 {
            Some(lowercase(cs[i as int].class))
        } else {
            None
        }));
        if hit {
            n = n + 1;
        }
        i = i + 1;
    }
    assert(cs.take(keys.len() as int) =~= cs);
    n
}

/// The pinned buttons built from the first `n` pinned ids, with the
/// classes whose windows were already counted.
pub open spec fn pinned_rec(
    cs: Seq<HyprClientView>,
    ids: Seq<Seq<char>>,
    found: Seq<Option<AppInfoView>>,
    n: nat,
) -> (Seq<(AppInfoView, nat)>, Seq<Seq<char>>)
    decreases n,
{
    if n == 0 {
        (Seq::<(AppInfoView, nat)>::empty(), Seq::<Seq<char>>::empty())
    } else {
        let (r, used) = pinned_rec(cs, ids, found, (n - 1) as nat);
        match found[n - 1] {
            None => (r, used),
            Some(app) => {
                let k1 = app.id;
                let k2 = lowercase(ids[n - 1]);
                if class_count(cs, k1) > 0 && !used.contains(k1) {
                    (r.push((app, class_count(cs, k1))), used.push(k1))
                } else if class_count(cs, k2) > 0 && !used.contains(k2) {
                    (r.push((app, class_count(cs, k2))), used.push(k2))
                } else {
                    (r.push((app, 0nat)), used)
                }
            },
        }
    }
}

/// The pinned section: a button for each pinned id whose app was found,
/// in pinned order, with the number of windows of its class (the app's id,
/// else the lowercased pinned id); a class's windows are counted for one
/// button only.
pub open spec fn spec_pinned_buttons(
    cs: Seq<HyprClientView>,
    ids: Seq<Seq<char>>,
    found: Seq<Option<AppInfoView>>,
) -> Seq<(AppInfoView, nat)> {
    pinned_rec(cs, ids, found, ids.len()).0
}

/// How many buttons show open windows.
pub open spec fn buttons_with_windows(r: Seq<(AppInfoView, nat)>) -> nat
    decreases r.len(),
{
    if r.len() == 0 {
        0
    } else {
        buttons_with_windows(r.drop_last()) + if r.last().1 > 0 {
            1nat
        } else {
            0nat
        }
    }
}

/// In the pinned section a class's windows are counted for one button
/// only: the classes counted are distinct, one per button that shows
/// windows, and at most one button per pinned id.
pub proof fn law_pinned_classes_counted_once(
    cs: Seq<HyprClientView>,
    ids: Seq<Seq<char>>,
    found: Seq<Option<AppInfoView>>,
    n: nat,
)
    ensures
        pinned_rec(cs, ids, found, n).1.no_duplicates(),
        buttons_with_windows(pinned_rec(cs, ids, found, n).0) == pinned_rec(cs, ids, found, n).1.len(),
        pinned_rec(cs, ids, found, n).0.len() <= n,
    decreases n,
{
    if n > 0 {
        law_pinned_classes_counted_once(cs, ids, found, (n - 1) as nat);
        let (r, used) = pinned_rec(cs, ids, found, (n - 1) as nat);
        let (r2, used2) = pinned_rec(cs, ids, found, n);
        if r2.len() > r.len() {
            assert(r2.drop_last() =~= r);
        }
        if used2.len() > used.len() {
            assert(used2.drop_last() =~= used);
            assert forall|i: int, j: int| 0 <= i < used2.len() && 0 <= j < used2.len() && i != j implies used2[i]
                != used2[j] by {
                if i == used.len() as int {
                    assert(used.contains(used[j]));
                } else if j == used.len() as int {
                    assert(used.contains(used[i]));
                }
            }
        }
    }
}

/// The windows counted for the classes `keys`, class by class.
pub open spec fn counted_windows(cs: Seq<HyprClientView>, keys: Seq<Seq<char>>) -> nat
    decreases keys.len(),
{
    if keys.len() == 0 {
        0
    } else {
        counted_windows(cs, keys.drop_last()) + class_count(cs, keys.last())
    }
}

/// How many windows have a (non-empty) class.
pub open spec fn named_windows(cs: Seq<HyprClientView>) -> nat
    decreases cs.len(),
{
    if cs.len() == 0 {
        0
    } else {
        named_windows(cs.drop_last()) + if cs.last().class.len() > 0 {
            1nat
        } else {
            0nat
        }
    }
}

/// The open windows the buttons show, summed.
pub open spec fn shown_windows(r: Seq<(AppInfoView, nat)>) -> nat
    decreases r.len(),
{
    if r.len() == 0 {
        0
    } else {
        shown_windows(r.drop_last()) + r.last().1
    }
}

/// Whether window `c` has the class `k`, as a count.
spec fn hit(c: HyprClientView, k: Seq<char>) -> nat {
    if c.class.len() > 0 && lowercase(c.class) == k {
        1
    } else {
        0
    }
}

/// How many of `keys` are `c`'s class.
spec fn hits(c: HyprClientView, keys: Seq<Seq<char>>) -> nat
    decreases keys.len(),
{
    if keys.len() == 0 {
        0
    } else {
        hits(c, keys.drop_last()) + hit(c, keys.last())
    }
}

/// One more window adds, for each key, whether it has that class.
proof fn lemma_counted_push(d: Seq<HyprClientView>, c: HyprClientView, keys: Seq<Seq<char>>)
    ensures
        counted_windows(d.push(c), keys) == counted_windows(d, keys) + hits(c, keys),
    decreases keys.len(),
{
    assert(d.push(c).drop_last() =~= d);
    if keys.len() > 0 {
        lemma_counted_push(d, c, keys.drop_last());
    }
}

/// Distinct keys match one window's class at most once.
proof fn lemma_hits_at_most_one(c: HyprClientView, keys: Seq<Seq<char>>)
    requires
        keys.no_duplicates(),
    ensures
        hits(c, keys) <= 1,
        hits(c, keys) == 1 ==> c.class.len() > 0 && keys.contains(lowercase(c.class)),
    decreases keys.len(),
{
    if keys.len() > 0 {
        let d = keys.drop_last();
        assert(d.no_duplicates()) by {
            assert forall|i: int, j: int| 0 <= i < d.len() && 0 <= j < d.len() && i != j implies d[i] != d[j] by {
                assert(d[i] == keys[i] && d[j] == keys[j]);
            }
        }
        lemma_hits_at_most_one(c, d);
        if hits(c, d) == 1 {
            let k = choose|k: int| 0 <= k < d.len() && d[k] == lowercase(c.class);
            assert(keys[k] == d[k]);
            if hit(c, keys.last()) == 1 {
                assert(keys[keys.len() - 1] == keys.last());
                assert(keys[k] == keys[keys.len() - 1]);
            }
        }
        if hit(c, keys.last()) == 1 {
            assert(keys[keys.len() - 1] == keys.last());
        }
    }
}

/// Distinct classes together count no more windows than have a class.
proof fn lemma_counted_le_named(cs: Seq<HyprClientView>, keys: Seq<Seq<char>>)
    requires
        keys.no_duplicates(),
    ensures
        counted_windows(cs, keys) <= named_windows(cs),
    decreases cs.len(),
{
    if cs.len() == 0 {
        lemma_counted_empty(cs, keys);
    } else {
        let d = cs.drop_last();
        let c = cs.last();
        lemma_counted_le_named(d, keys);
        assert(d.push(c) =~= cs);
        lemma_counted_push(d, c, keys);
        lemma_hits_at_most_one(c, keys);
    }
}

/// With no windows, nothing is counted.
proof fn lemma_counted_empty(cs: Seq<HyprClientView>, keys: Seq<Seq<char>>)
    requires
        cs.len() == 0,
    ensures
        counted_windows(cs, keys) == 0,
    decreases keys.len(),
{
    if keys.len() > 0 {
        lemma_counted_empty(cs, keys.drop_last());
    }
}

/// The pinned buttons show exactly the windows of the classes counted.
proof fn lemma_pinned_shown(cs: Seq<HyprClientView>, ids: Seq<Seq<char>>, found: Seq<Option<AppInfoView>>, n: nat)
    ensures
        shown_windows(pinned_rec(cs, ids, found, n).0) == counted_windows(cs, pinned_rec(cs, ids, found, n).1),
    decreases n,
{
    if n > 0 {
        lemma_pinned_shown(cs, ids, found, (n - 1) as nat);
        let (r, used) = pinned_rec(cs, ids, found, (n - 1) as nat);
        let (r2, used2) = pinned_rec(cs, ids, found, n);
        if r2.len() > r.len() {
            assert(r2.drop_last() =~= r);
        }
        if used2.len() > used.len() {
            assert(used2.drop_last() =~= used);
        }
    }
}

/// The pinned section never shows more open windows, in all, than there
/// are windows with a class: each window is counted for one button at most.
pub proof fn law_pinned_windows_not_double_counted(
    cs: Seq<HyprClientView>,
    ids: Seq<Seq<char>>,
    found: Seq<Option<AppInfoView>>,
)
    ensures
        shown_windows(spec_pinned_buttons(cs, ids, found)) <= named_windows(cs),
{
    law_pinned_classes_counted_once(cs, ids, found, ids.len());
    lemma_pinned_shown(cs, ids, found, ids.len());
    lemma_counted_le_named(cs, pinned_rec(cs, ids, found, ids.len()).1);
}

/// Whether `k` is among `used`.
fn contains_key(used: &Vec<Vec<char>>, k: &Vec<char>) -> (b: bool)
    ensures
        b == crate::text::views(used@).contains(k@),
{
    let ghost uv = crate::text::views(used@);
    let mut i: usize = 0;
    while i < used.len()
        invariant
            i <= used.len(),
            uv == crate::text::views(used@),
            forall|j: int| 0 <= j < i ==> uv[j] != k@,
        decreases used.len() - i,
    {
        if chars_eq(&used[i], k) {
            assert(uv[i as int] == k@);
            return true;
        }
        i = i + 1;
    }
    false
}

/// The pinned section, given the app found for each pinned id.
pub fn pinned_buttons_from(
    clients: &Vec<HyprClient>,
    ids: &Vec<String>,
    found: Vec<Option<AppInfo>>,
) -> (r: Vec<AppButton>)
    requires
        found@.len() == ids@.len(),
    ensures
        buttons_view(r@) == spec_pinned_buttons(
            client_views(clients@),
            crate::config::svs(ids@),
            found@.map_values(|o: Option<AppInfo>| opt_app_view(o)),
        ),
{
    let ghost cs = client_views(clients@);
    let ghost iv = crate::config::svs(ids@);
    let ghost fv = found@.map_values(|o: Option<AppInfo>| opt_app_view(o));
    let keys = window_keys(clients);
    let mut r: Vec<AppButton> = Vec::new();
    let mut used: Vec<Vec<char>> = Vec::new();
    let mut found = found;
    let mut i: usize = 0;
    while i < ids.len()
        invariant
            i <= ids.len(),
            found@.len() == ids@.len(),
            cs == client_views(clients@),
            iv == crate::config::svs(ids@),
            fv.len() == ids@.len(),
            forall|j: int| i <= j < found@.len() ==> opt_app_view(#[trigger] found@[j]) == fv[j],
            keys@.len() == cs.len(),
            forall|j: int| 0 <= j < keys@.len() ==> (#[trigger] keys@[j] matches Some(k) ==> class_keys(
                cs,
            )[j] == Some(k@)),
            forall|j: int| 0 <= j < keys@.len() ==> (#[trigger] keys@[j] is None) == (class_keys(
                cs,
            )[j] is None),
            buttons_view(r@) == pinned_rec(cs, iv, fv, i as nat).0,
            crate::text::views(used@) == pinned_rec(cs, iv, fv, i as nat).1,
        decreases ids.len() - i,
    {
        let ghost prev = pinned_rec(cs, iv, fv, i as nat);
        assert(fv[i as int] == opt_app_view(found@[i as int]));
        let mut slot: Option<AppInfo> = None;
        std::mem::swap(&mut found[i], &mut slot);
        match slot {
            None => {},
            Some(app) => {
                let k1 = chars_of(app.id.as_str());
                let k2 = chars_of(to_lowercase(ids[i].as_str()).as_str());
                let c1 = count_windows(&keys, &k1, Ghost(cs));
                let c2 = count_windows(&keys, &k2, Ghost(cs));
                let ghost av = app@;
                let ghost rb = r@;
                let ghost ub = used@;
                if c1 > 0 && !contains_key(&used, &k1) {
                    r.push(AppButton { app, instances: c1 });
                    used.push(k1);
                    assert(buttons_view(r@) =~= buttons_view(rb).push((av, c1 as nat)));
                    assert(crate::text::views(used@) =~= crate::text::views(ub).push(av.id));
                } else if c2 > 0 && !contains_key(&used, &k2) {
                    r.push(AppButton { app, instances: c2 });
                    used.push(k2);
                    assert(buttons_view(r@) =~= buttons_view(rb).push((av, c2 as nat)));
                    assert(crate::text::views(used@) =~= crate::text::views(ub).push(
                        lowercase(iv[i as int]),
                    ));
                } else {
                    r.push(AppButton { app, instances: 0 });
                    assert(buttons_view(r@) =~= buttons_view(rb).push((av, 0nat)));
                }
            },
        }
        i = i + 1;
    }
    r
}

// ── Running apps ────────────────────────────────────────────────────────

/// Whether a window is on monitor `m`.
pub open spec fn on_monitor(m: i32) -> spec_fn(HyprClientView) -> bool {
    |c: HyprClientView| c.monitor == m
}

/// Whether a window is not on monitor `m`.
pub open spec fn off_monitor(m: i32) -> spec_fn(HyprClientView) -> bool {
    |c: HyprClientView| c.monitor != m
}

/// With the dock's monitor known, its windows come first and the others
/// after, each group in its own order; otherwise the order is kept.
pub open spec fn spec_order_by_monitor(cs: Seq<HyprClientView>, m: Option<i32>) -> Seq<HyprClientView> {
    match m {
        None => cs,
        Some(id) => cs.filter(on_monitor(id)) + cs.filter(off_monitor(id)),
    }
}

/// The windows of `clients` on monitor `m` (with `on` false: off it), in order.
fn windows_where(clients: &Vec<HyprClient>, m: i32, on: bool) -> (r: Vec<HyprClient>)
    ensures
        client_views(r@) == client_views(clients@).filter(
            if on {
                on_monitor(m)
            } else {
                off_monitor(m)
            },
        ),
{
    let ghost cs = client_views(clients@);
    let ghost p = if on {
        on_monitor(m)
    } else {
        off_monitor(m)
    };
    let mut r: Vec<HyprClient> = Vec::new();
    let mut i: usize = 0;
    proof {
        reveal(Seq::filter);
        assert(cs.take(0) =~= Seq::<HyprClientView>::empty());
    }
    while i < clients.len()
        invariant
            i <= clients.len(),
            cs == client_views(clients@),
            p == (if on {
                on_monitor(m)
            } else {
                off_monitor(m)
            }),
            client_views(r@) == cs.take(i as int).filter(p),
        decreases clients.len() - i,
    {
        let ghost before = r@;
        proof {
            reveal(Seq::filter);
            assert(cs.take(i as int + 1).drop_last() =~= cs.take(i as int));
            assert(cs.take(i as int + 1).last() == clients@[i as int]@);
        }
        if (clients[i].monitor == m) == on {
            let c = clients[i].duplicate();
            r.push(c);
            assert(client_views(r@) =~= client_views(before).push(c@));
        }
        i = i + 1;
    }
    assert(cs.take(clients.len() as int) =~= cs);
    r
}

/// The windows in the order the running section lists them.
pub fn order_by_monitor(clients: &Vec<HyprClient>, monitor: Option<i32>) -> (r: Vec<HyprClient>)
    ensures
        client_views(r@) == spec_order_by_monitor(client_views(clients@), monitor),
{
    match monitor {
        None => crate::hyprland_handler::clone_clients(clients),
        Some(m) => {
            let mut first = windows_where(clients, m, true);
            let mut rest = windows_where(clients, m, false);
            let ghost a = first@;
            let ghost b = rest@;
            first.append(&mut rest);
            assert(client_views(first@) =~= client_views(a) + client_views(b));
            first
        },
    }
}

/// The stand-in for a window whose class no `.desktop` file claims.
pub open spec fn fallback_app(c: HyprClientView) -> AppInfoView {
    AppInfoView {
        id: lowercase(c.class),
        name: if c.title.len() > 0 {
            c.title
        } else {
            c.class
        },
        icon: Some("application-x-executable"@),
        exec_line: Seq::<char>::empty(),
    }
}

/// The class keys of running entries.
pub open spec fn entry_keys(es: Seq<(Seq<char>, AppInfoView)>) -> Seq<Seq<char>> {
    es.map_values(|e: (Seq<char>, AppInfoView)| e.0)
}

/// The running entries of the first `n` windows: one per lowercased class,
/// in order of first appearance, with the app found for that first window
/// (or its stand-in).
pub open spec fn running_rec(cs: Seq<HyprClientView>, found: Seq<Option<AppInfoView>>, n: nat) -> Seq<
    (Seq<char>, AppInfoView),
>
    decreases n,
{
    if n == 0 {
        Seq::empty()
    } else {
        let prev = running_rec(cs, found, (n - 1) as nat);
        let c = cs[n - 1];
        let k = lowercase(c.class);
        if c.class.len() == 0 || entry_keys(prev).contains(k) {
            prev
        } else {
            prev.push(
                (
                    k,
                    match found[n - 1] {
                        Some(a) => a,
                        None => fallback_app(c),
                    },
                ),
            )
        }
    }
}

/// The running entries of all windows.
pub open spec fn running_entries(cs: Seq<HyprClientView>, found: Seq<Option<AppInfoView>>) -> Seq<
    (Seq<char>, AppInfoView),
> {
    running_rec(cs, found, cs.len())
}

/// The stand-in app for a window.
fn fallback_for(c: &HyprClient) -> (a: AppInfo)
    ensures
        a@ == fallback_app(c@),
{
    let id = to_lowercase(c.class.as_str());
    let name = if c.title.as_str().is_empty() {
        c.class.clone()
    } else {
        c.title.clone()
    };
    let icon = "application-x-executable".to_string();
    AppInfo { id, name, icon: Some(icon), exec_line: String::new() }
}

/// An app entry of the running section, under its lowercased class.
pub struct RunningEntry {
    pub key: Vec<char>,
    pub app: AppInfo,
}

/// The abstract values of running entries.
pub open spec fn entry_views(v: Seq<RunningEntry>) -> Seq<(Seq<char>, AppInfoView)> {
    v.map_values(|e: RunningEntry| (e.key@, e.app@))
}

/// One entry per lowercased class, in order of first appearance, given the
/// app found for each window (`None` where none was, or the class is empty).
pub fn running_entries_from(clients: &Vec<HyprClient>, found: &Vec<Option<AppInfo>>) -> (r: Vec<
    RunningEntry,
>)
    requires
        found@.len() == clients@.len(),
    ensures
        entry_views(r@) == running_entries(
            client_views(clients@),
            found@.map_values(|o: Option<AppInfo>| opt_app_view(o)),
        ),
{
    let ghost cs = client_views(clients@);
    let ghost fv = found@.map_values(|o: Option<AppInfo>| opt_app_view(o));
    let mut r: Vec<RunningEntry> = Vec::new();
    let mut keys: Vec<Vec<char>> = Vec::new();
    let mut i: usize = 0;
    while i < clients.len()
        invariant
            i <= clients.len(),
            found@.len() == clients@.len(),
            cs == client_views(clients@),
            fv == found@.map_values(|o: Option<AppInfo>| opt_app_view(o)),
            entry_views(r@) == running_rec(cs, fv, i as nat),
            crate::text::views(keys@) == entry_keys(running_rec(cs, fv, i as nat)),
        decreases clients.len() - i,
    {
        let c = &clients[i];
        assert(cs[i as int] == c@);
        if !c.class.as_str().is_empty() {
            let k = chars_of(to_lowercase(c.class.as_str()).as_str());
            if !contains_key(&keys, &k) {
                let app = match &found[i] {
                    Some(a) => a.duplicate(),
                    None => fallback_for(c),
                };
                assert(fv[i as int] == opt_app_view(found@[i as int]));
                let ghost rb = r@;
                let ghost kb = keys@;
                let k2 = chars_of(to_lowercase(c.class.as_str()).as_str());
                r.push(RunningEntry { key: k, app });
                keys.push(k2);
                assert(entry_views(r@) =~= entry_views(rb).push((k2@, app@)));
                assert(crate::text::views(keys@) =~= crate::text::views(kb).push(k2@));
                assert(entry_keys(running_rec(cs, fv, i as nat + 1)) =~= entry_keys(
                    running_rec(cs, fv, i as nat),
                ).push(k2@));
            }
        }
        i = i + 1;
    }
    r
}

/// `a` sorts strictly before `b`: at the first differing character the
/// smaller one, else the shorter (how `String`s are ordered).
pub open spec fn lex_lt(a: Seq<char>, b: Seq<char>) -> bool
    decreases a.len(),
{
    if a.len() == 0 {
        b.len() > 0
    } else if b.len() == 0 {
        false
    } else if a[0] != b[0] {
        a[0] < b[0]
    } else {
        lex_lt(a.skip(1), b.skip(1))
    }
}

/// Whether `a` sorts strictly before `b`.
pub fn lex_less(a: &Vec<char>, b: &Vec<char>) -> (r: bool)
    ensures
        r == lex_lt(a@, b@),
{
    let mut i: usize = 0;
    assert(a@.skip(0) =~= a@);
    assert(b@.skip(0) =~= b@);
    while i < a.len() && i < b.len()
        invariant
            i <= a.len(),
            i <= b.len(),
            lex_lt(a@, b@) == lex_lt(a@.skip(i as int), b@.skip(i as int)),
        decreases a.len() - i,
    {
        assert(a@.skip(i as int)[0] == a@[i as int]);
        assert(b@.skip(i as int)[0] == b@[i as int]);
        if a[i] != b[i] {
            return a[i] < b[i];
        }
        assert(a@.skip(i as int).skip(1) =~= a@.skip(i as int + 1));
        assert(b@.skip(i as int).skip(1) =~= b@.skip(i as int + 1));
        i = i + 1;
    }
    i == a.len() && i < b.len()
}

/// What a running entry is sorted by: its app's lowercased name.
pub open spec fn name_key(e: (Seq<char>, AppInfoView)) -> Seq<char> {
    lowercase(e.1.name)
}

/// Whether an entry sorts strictly after `x`.
pub open spec fn sorts_after(x: (Seq<char>, AppInfoView)) -> spec_fn((Seq<char>, AppInfoView)) -> bool {
    |e: (Seq<char>, AppInfoView)| lex_lt(name_key(x), name_key(e))
}

/// `x` inserted into `t` before the first entry that sorts after it.
pub open spec fn insert_by_name(t: Seq<(Seq<char>, AppInfoView)>, x: (Seq<char>, AppInfoView)) -> Seq<
    (Seq<char>, AppInfoView),
> {
    let p = match first_index(t, sorts_after(x)) {
        Some(i) => i,
        None => t.len() as int,
    };
    t.insert(p, x)
}

/// The entries sorted by lowercased name, equal names keeping their order
/// (a stable sort).
pub open spec fn sort_by_name(s: Seq<(Seq<char>, AppInfoView)>) -> Seq<(Seq<char>, AppInfoView)>
    decreases s.len(),
{
    if s.len() == 0 {
        s
    } else {
        insert_by_name(sort_by_name(s.drop_last()), s.last())
    }
}

/// An entry with nothing in it: an empty key, and an app whose id, name
/// and command are empty and which has no icon.
fn blank_entry() -> (e: RunningEntry)
    ensures
        e.key@ == Seq::<char>::empty(),
        e.app@ == (AppInfoView {
            id: Seq::<char>::empty(),
            name: Seq::<char>::empty(),
            icon: None,
            exec_line: Seq::<char>::empty(),
        }),
{
    RunningEntry {
        key: Vec::new(),
        app: AppInfo { id: String::new(), name: String::new(), icon: None, exec_line: String::new() },
    }
}

/// The entries sorted by lowercased app name, equal names keeping their order.
pub fn sort_entries_by_name(es: Vec<RunningEntry>) -> (r: Vec<RunningEntry>)
    ensures
        entry_views(r@) == sort_by_name(entry_views(es@)),
{
    let ghost orig = entry_views(es@);
    let mut es = es;
    let mut r: Vec<RunningEntry> = Vec::new();
    let mut names: Vec<Vec<char>> = Vec::new();
    let mut i: usize = 0;
    assert(orig.take(0) =~= Seq::<(Seq<char>, AppInfoView)>::empty());
    while i < es.len()
        invariant
            i <= es.len(),
            orig.len() == es@.len(),
            forall|j: int| i <= j < es@.len() ==> (#[trigger] es@[j]).key@ == orig[j].0 && es@[j].app@
                == orig[j].1,
            entry_views(r@) == sort_by_name(orig.take(i as int)),
            names@.len() == r@.len(),
            crate::text::views(names@) == entry_views(r@).map_values(
                |e: (Seq<char>, AppInfoView)| name_key(e),
            ),
        decreases es.len() - i,
    {
        let mut x = blank_entry();
        std::mem::swap(&mut es[i], &mut x);
        let ghost xv = (x.key@, x.app@);
        assert(xv == orig[i as int]);
        let nk = chars_of(to_lowercase(x.app.name.as_str()).as_str());
        let ghost t = entry_views(r@);
        let mut p: usize = 0;
        while p < names.len() && !lex_less(&nk, &names[p])
            invariant
                p <= names.len(),
                names@.len() == r@.len(),
                t == entry_views(r@),
                crate::text::views(names@) == t.map_values(|e: (Seq<char>, AppInfoView)| name_key(e)),
                nk@ == name_key(xv),
                forall|k: int| 0 <= k < p ==> !(#[trigger] sorts_after(xv)(t[k])),
            decreases names.len() - p,
        {
            assert(crate::text::views(names@)[p as int] == names@[p as int]@);
            assert(names@[p as int]@ == name_key(t[p as int]));
            p = p + 1;
        }
        proof {
            if p < names.len() {
                assert(crate::text::views(names@)[p as int] == names@[p as int]@);
                assert(names@[p as int]@ == name_key(t[p as int]));
                assert(sorts_after(xv)(t[p as int]));
            }
            crate::text::lemma_first_index(t, sorts_after(xv));
            assert(orig.take(i as int + 1).drop_last() =~= orig.take(i as int));
            assert(orig.take(i as int + 1).last() == xv);
        }
        let ghost nb = names@;
        r.insert(p, x);
        names.insert(p, nk);
        assert(entry_views(r@) =~= t.insert(p as int, xv));
        assert forall|k: int| 0 <= k < names@.len() implies #[trigger] crate::text::views(names@)[k]
            == name_key(entry_views(r@)[k]) by {
            if k < p {
                assert(crate::text::views(nb)[k] == nb[k]@);
            } else if k > p {
                assert(crate::text::views(nb)[k - 1] == nb[k - 1]@);
            }
        }
        assert(crate::text::views(names@) =~= entry_views(r@).map_values(
            |e: (Seq<char>, AppInfoView)| name_key(e),
        ));
        i = i + 1;
    }
    assert(orig.take(es.len() as int) =~= orig);
    r
}

/// The lowercased pinned ids.
pub open spec fn lower_all(ids: Seq<Seq<char>>) -> Seq<Seq<char>> {
    ids.map_values(|x: Seq<char>| lowercase(x))
}

/// Whether a running entry gets a button: neither its class nor its app's
/// id is among the lowercased pinned ids (those have one already).
pub open spec fn not_pinned(pl: Seq<Seq<char>>) -> spec_fn((Seq<char>, AppInfoView)) -> bool {
    |e: (Seq<char>, AppInfoView)| !pl.contains(e.0) && !pl.contains(e.1.id)
}

/// A running entry's button: its app, and the number of its class's windows.
pub open spec fn entry_button(cs: Seq<HyprClientView>) -> spec_fn((Seq<char>, AppInfoView)) -> (
    AppInfoView,
    nat,
) {
    |e: (Seq<char>, AppInfoView)| (e.1, class_count(cs, e.0))
}

/// The running section for windows `cs` (already in section order), given
/// the app found for each: one button per class in order of first
/// appearance (by lowercased app name when `sort`), leaving out pinned apps.
pub open spec fn spec_running_buttons(
    cs: Seq<HyprClientView>,
    found: Seq<Option<AppInfoView>>,
    sort: bool,
    pinned: Seq<Seq<char>>,
) -> Seq<(AppInfoView, nat)> {
    running_section(cs, found, sort, pinned).map_values(entry_button(cs))
}

/// The entries of the running section, before they become buttons.
pub open spec fn running_section(
    cs: Seq<HyprClientView>,
    found: Seq<Option<AppInfoView>>,
    sort: bool,
    pinned: Seq<Seq<char>>,
) -> Seq<(Seq<char>, AppInfoView)> {
    let es = running_entries(cs, found);
    let ordered = if sort {
        sort_by_name(es)
    } else {
        es
    };
    ordered.filter(not_pinned(lower_all(pinned)))
}

/// The lowercased characters of each string.
fn lowered(v: &Vec<String>) -> (r: Vec<Vec<char>>)
    ensures
        crate::text::views(r@) == lower_all(crate::config::svs(v@)),
{
    let mut r: Vec<Vec<char>> = Vec::new();
    let mut i: usize = 0;
    while i < v.len()
        invariant
            i <= v.len(),
            crate::text::views(r@) == lower_all(crate::config::svs(v@)).take(i as int),
        decreases v.len() - i,
    {
        let ghost before = r@;
        let x = chars_of(to_lowercase(v[i].as_str()).as_str());
        r.push(x);
        assert(crate::text::views(r@) =~= crate::text::views(before).push(x@));
        assert(lower_all(crate::config::svs(v@)).take(i as int + 1) =~= lower_all(
            crate::config::svs(v@),
        ).take(i as int).push(lowercase(v@[i as int]@)));
        i = i + 1;
    }
    assert(lower_all(crate::config::svs(v@)).take(v.len() as int) =~= lower_all(
        crate::config::svs(v@),
    ));
    r
}

/// The running section for windows already in section order, given the
/// app found for each window (`None` where none was, or the class is empty).
pub fn running_buttons_from(
    clients: &Vec<HyprClient>,
    found: &Vec<Option<AppInfo>>,
    sort: bool,
    pinned: &Vec<String>,
) -> (r: Vec<AppButton>)
    requires
        found@.len() == clients@.len(),
    ensures
        buttons_view(r@) == spec_running_buttons(
            client_views(clients@),
            found@.map_values(|o: Option<AppInfo>| opt_app_view(o)),
            sort,
            crate::config::svs(pinned@),
        ),
{
    let ghost cs = client_views(clients@);
    let ghost fv = found@.map_values(|o: Option<AppInfo>| opt_app_view(o));
    let ghost pl = lower_all(crate::config::svs(pinned@));
    let es0 = running_entries_from(clients, found);
    let es = if sort {
        sort_entries_by_name(es0)
    } else {
        es0
    };
    let ghost ev = entry_views(es@);
    assert(ev == (if sort {
        sort_by_name(running_entries(cs, fv))
    } else {
        running_entries(cs, fv)
    }));
    let lows = lowered(pinned);
    let keys = window_keys(clients);
    let mut r: Vec<AppButton> = Vec::new();
    let mut i: usize = 0;
    proof {
        reveal(Seq::filter);
        assert(ev.take(0) =~= Seq::<(Seq<char>, AppInfoView)>::empty());
    }
    while i < es.len()
        invariant
            i <= es.len(),
            ev == entry_views(es@),
            cs == client_views(clients@),
            pl == lower_all(crate::config::svs(pinned@)),
            crate::text::views(lows@) == pl,
            keys@.len() == cs.len(),
            forall|j: int| 0 <= j < keys@.len() ==> (#[trigger] keys@[j] matches Some(k)
                ==> class_keys(cs)[j] == Some(k@)),
            forall|j: int| 0 <= j < keys@.len() ==> (#[trigger] keys@[j] is None) == (class_keys(
                cs,
            )[j] is None),
            buttons_view(r@) == ev.take(i as int).filter(not_pinned(pl)).map_values(
                entry_button(cs),
            ),
        decreases es.len() - i,
    {
        let e = &es[i];
        let ghost x = ev[i as int];
        assert(x == (e.key@, e.app@));
        let id_chars = chars_of(e.app.id.as_str());
        let pinned_class = contains_key(&lows, &e.key);
        let pinned_app = contains_key(&lows, &id_chars);
        let ghost before = r@;
        proof {
            reveal(Seq::filter);
            assert(ev.take(i as int + 1).drop_last() =~= ev.take(i as int));
            assert(ev.take(i as int + 1).last() == x);
        }
        if !pinned_class && !pinned_app {
            let n = count_windows(&keys, &e.key, Ghost(cs));
            let app = e.app.duplicate();
            r.push(AppButton { app, instances: n });
            assert(buttons_view(r@) =~= buttons_view(before).push((x.1, class_count(cs, x.0))));
            assert(ev.take(i as int + 1).filter(not_pinned(pl)) =~= ev.take(i as int).filter(
                not_pinned(pl),
            ).push(x));
            assert(ev.take(i as int + 1).filter(not_pinned(pl)).map_values(entry_button(cs))
                =~= ev.take(i as int).filter(not_pinned(pl)).map_values(entry_button(cs)).push(
                (x.1, class_count(cs, x.0)),
            ));
        } else {
            assert(ev.take(i as int + 1).filter(not_pinned(pl)) =~= ev.take(i as int).filter(
                not_pinned(pl),
            ));
        }
        i = i + 1;
    }
    assert(ev.take(es.len() as int) =~= ev);
    r
}

/// What the memo holds for a window's class (`None` for an empty class or
/// a class it has no answer for).
pub open spec fn remembered_class(cache: AppInfoCache, c: HyprClientView) -> Option<AppInfoView> {
    if c.class.len() > 0 {
        match cache.class_entry(lowercase(c.class)) {
            Some(x) => x,
            None => None,
        }
    } else {
        None
    }
}

/// What the memo holds for each window's class.
pub open spec fn remembered_classes(cache: AppInfoCache, cs: Seq<HyprClientView>) -> Seq<
    Option<AppInfoView>,
> {
    cs.map_values(|c: HyprClientView| remembered_class(cache, c))
}

/// Whether some window of `cs` has a (non-empty) class whose lowercase is `k`.
pub open spec fn has_class_key(cs: Seq<HyprClientView>, k: Seq<char>) -> bool {
    exists|i: int| 0 <= i < cs.len() && (#[trigger] cs[i]).class.len() > 0 && lowercase(cs[i].class) == k
}

/// The running section: the windows in section order (the dock's monitor
/// first when it is known), each class looked up in the memo (and the
/// `.desktop` files on a miss), one button per class not pinned.
pub fn running_buttons<T: Fn(String, String) -> String>(
    cache: &mut AppInfoCache,
    clients: &Vec<HyprClient>,
    monitor: Option<i32>,
    sort: bool,
    pinned: &Vec<String>,
    translate: &T,
) -> (r: Vec<AppButton>)
    requires
        translates_all(*translate),
    ensures
        buttons_view(r@) == spec_running_buttons(
            spec_order_by_monitor(client_views(clients@), monitor),
            remembered_classes(*final(cache), spec_order_by_monitor(client_views(clients@), monitor)),
            sort,
            crate::config::svs(pinned@),
        ),
        forall|i: int| 0 <= i < client_views(clients@).len() && (#[trigger] client_views(clients@)[i]).class.len() > 0
            ==> final(cache).class_entry(lowercase(client_views(clients@)[i].class)) is Some,
        forall|k: Seq<char>| #[trigger] old(cache).class_entry(k) is Some ==> final(cache).class_entry(k)
            == old(cache).class_entry(k),
        forall|k: Seq<char>| !has_class_key(client_views(clients@), k) ==> #[trigger] final(cache).class_entry(k)
            == old(cache).class_entry(k),
        forall|k: Seq<char>| #[trigger] final(cache).id_entry(k) == old(cache).id_entry(k),
{
    let ordered = order_by_monitor(clients, monitor);
    let ghost os = client_views(ordered@);
    let ghost cs = client_views(clients@);
    proof {
        lemma_order_keeps_windows(cs, monitor);
    }
    let mut found: Vec<Option<AppInfo>> = Vec::new();
    let mut i: usize = 0;
    while i < ordered.len()
        invariant
            i <= ordered.len(),
            os == client_views(ordered@),
            translates_all(*translate),
            found@.len() == i,
            forall|j: int| 0 <= j < i ==> #[trigger] opt_app_view(found@[j]) == remembered_class(*cache, os[j]),
            forall|j: int| 0 <= j < i && (#[trigger] os[j]).class.len() > 0 ==> cache.class_entry(
                lowercase(os[j].class),
            ) is Some,
            forall|k: Seq<char>| #[trigger] old(cache).class_entry(k) is Some ==> cache.class_entry(k)
                == old(cache).class_entry(k),
            forall|k: Seq<char>| !has_class_key(os, k) ==> #[trigger] cache.class_entry(k) == old(
                cache,
            ).class_entry(k),
            forall|k: Seq<char>| #[trigger] cache.id_entry(k) == old(cache).id_entry(k),
        decreases ordered.len() - i,
    {
        let c = &ordered[i];
        assert(os[i as int] == c@);
        if c.class.as_str().is_empty() {
            found.push(None);
        } else {
            let ghost mid = *cache;
            let a = AppInfo::find_by_class(cache, c.class.as_str(), translate);
            proof {
                assert forall|j: int| 0 <= j < i implies #[trigger] opt_app_view(found@[j])
                    == remembered_class(*cache, os[j]) by {
                    assert(opt_app_view(found@[j]) == remembered_class(mid, os[j]));
                }
                assert forall|k: Seq<char>| !has_class_key(os, k) implies #[trigger] cache.class_entry(
                    k,
                ) == old(cache).class_entry(k) by {
                    if k == lowercase(c.class@) {
                        assert(has_class_key(os, k)) by {
                            assert(os[i as int].class.len() > 0);
                        }
                    }
                }
            }
            found.push(a);
        }
        i = i + 1;
    }
    proof {
        assert(found@.map_values(|o: Option<AppInfo>| opt_app_view(o)) =~= remembered_classes(
            *cache,
            os,
        ));
        assert forall|k: Seq<char>| !has_class_key(cs, k) implies #[trigger] cache.class_entry(k)
            == old(cache).class_entry(k) by {
            if has_class_key(os, k) {
                let j = choose|j: int| 0 <= j < os.len() && (#[trigger] os[j]).class.len() > 0 && lowercase(
                    os[j].class,
                ) == k;
                assert(os.contains(os[j]));
                assert(cs.contains(os[j]));
            }
        }
        assert forall|i: int| 0 <= i < cs.len() && (#[trigger] cs[i]).class.len() > 0 implies cache.class_entry(
            lowercase(cs[i].class),
        ) is Some by {
            assert(cs.contains(cs[i]));
            assert(os.contains(cs[i]));
        }
    }
    running_buttons_from(&ordered, &found, sort, pinned)
}

/// Ordering by monitor keeps the same windows.
proof fn lemma_order_keeps_windows(cs: Seq<HyprClientView>, m: Option<i32>)
    ensures
        forall|c: HyprClientView| cs.contains(c) <==> #[trigger] spec_order_by_monitor(cs, m).contains(c),
{
    match m {
        None => {},
        Some(id) => {
            let a = cs.filter(on_monitor(id));
            let b = cs.filter(off_monitor(id));
            assert forall|c: HyprClientView| cs.contains(c) implies #[trigger] (a + b).contains(c) by {
                let j = choose|j: int| 0 <= j < cs.len() && cs[j] == c;
                if c.monitor == id {
                    cs.filter_lemma(on_monitor(id));
                    assert(a.contains(c));
                    let k = choose|k: int| 0 <= k < a.len() && a[k] == c;
                    assert((a + b)[k] == c);
                } else {
                    cs.filter_lemma(off_monitor(id));
                    assert(b.contains(c));
                    let k = choose|k: int| 0 <= k < b.len() && b[k] == c;
                    assert((a + b)[a.len() + k] == c);
                }
            }
            assert forall|c: HyprClientView| #[trigger] (a + b).contains(c) implies cs.contains(c) by {
                cs.filter_lemma(on_monitor(id));
                cs.filter_lemma(off_monitor(id));
                let k = choose|k: int| 0 <= k < (a + b).len() && (a + b)[k] == c;
                if k < a.len() {
                    assert(a[k] == c);
                    assert(a.contains(c));
                    cs.lemma_filter_contains_rev(on_monitor(id), c);
                } else {
                    assert(b[k - a.len()] == c);
                    assert(b.contains(c));
                    cs.lemma_filter_contains_rev(off_monitor(id), c);
                }
            }
        },
    }
}

/// What the memo holds for a pinned id (`None` when it has no answer).
pub open spec fn remembered_id(cache: AppInfoCache, id: Seq<char>) -> Option<AppInfoView> {
    match cache.id_entry(id) {
        Some(x) => x,
        None => None,
    }
}

/// What the memo holds for each pinned id.
pub open spec fn remembered_ids(cache: AppInfoCache, ids: Seq<Seq<char>>) -> Seq<Option<AppInfoView>> {
    ids.map_values(|id: Seq<char>| remembered_id(cache, id))
}

/// The pinned section: each pinned id looked up in the memo (and the
/// `.desktop` files on a miss), a button for each one found, in pinned
/// order, with its number of open windows.
pub fn pinned_buttons<T: Fn(String, String) -> String>(
    cache: &mut AppInfoCache,
    clients: &Vec<HyprClient>,
    pinned: &Vec<String>,
    translate: &T,
) -> (r: Vec<AppButton>)
    requires
        translates_all(*translate),
    ensures
        buttons_view(r@) == spec_pinned_buttons(
            client_views(clients@),
            crate::config::svs(pinned@),
            remembered_ids(*final(cache), crate::config::svs(pinned@)),
        ),
        forall|i: int| 0 <= i < pinned@.len() ==> final(cache).id_entry(#[trigger] pinned@[i]@) is Some,
        forall|k: Seq<char>| #[trigger] old(cache).id_entry(k) is Some ==> final(cache).id_entry(k)
            == old(cache).id_entry(k),
        forall|k: Seq<char>| !crate::config::svs(pinned@).contains(k) ==> #[trigger] final(cache).id_entry(k)
            == old(cache).id_entry(k),
        forall|k: Seq<char>| #[trigger] final(cache).class_entry(k) == old(cache).class_entry(k),
{
    let ghost ids = crate::config::svs(pinned@);
    let mut found: Vec<Option<AppInfo>> = Vec::new();
    let mut i: usize = 0;
    while i < pinned.len()
        invariant
            i <= pinned.len(),
            ids == crate::config::svs(pinned@),
            translates_all(*translate),
            found@.len() == i,
            forall|j: int| 0 <= j < i ==> #[trigger] opt_app_view(found@[j]) == remembered_id(*cache, ids[j]),
            forall|j: int| 0 <= j < i ==> cache.id_entry(#[trigger] pinned@[j]@) is Some,
            forall|k: Seq<char>| #[trigger] old(cache).id_entry(k) is Some ==> cache.id_entry(k)
                == old(cache).id_entry(k),
            forall|k: Seq<char>| !ids.contains(k) ==> #[trigger] cache.id_entry(k) == old(cache).id_entry(k),
            forall|k: Seq<char>| #[trigger] cache.class_entry(k) == old(cache).class_entry(k),
        decreases pinned.len() - i,
    {
        let ghost mid = *cache;
        let a = AppInfo::find_by_id(cache, pinned[i].as_str(), translate);
        proof {
            assert(ids[i as int] == pinned@[i as int]@);
            assert forall|j: int| 0 <= j < i implies #[trigger] opt_app_view(found@[j]) == remembered_id(
                *cache,
                ids[j],
            ) by {
                assert(opt_app_view(found@[j]) == remembered_id(mid, ids[j]));
                assert(ids[j] == pinned@[j]@);
            }
            assert forall|k: Seq<char>| !ids.contains(k) implies #[trigger] cache.id_entry(k) == old(
                cache,
            ).id_entry(k) by {
                if k == pinned@[i as int]@ {
                    assert(ids.contains(ids[i as int]));
                }
            }
        }
        found.push(a);
        i = i + 1;
    }
    proof {
        assert(found@.map_values(|o: Option<AppInfo>| opt_app_view(o)) =~= remembered_ids(*cache, ids));
    }
    pinned_buttons_from(clients, pinned, found)
}

// ── Laws of the running section ─────────────────────────────────────────

/// No string sorts before itself.
proof fn lemma_lex_irreflexive(a: Seq<char>)
    ensures
        !lex_lt(a, a),
    decreases a.len(),
{
    if a.len() > 0 {
        lemma_lex_irreflexive(a.skip(1));
    }
}

/// Sorting before is transitive.
proof fn lemma_lex_transitive(a: Seq<char>, b: Seq<char>, c: Seq<char>)
    requires
        lex_lt(a, b),
        lex_lt(b, c),
    ensures
        lex_lt(a, c),
    decreases a.len(),
{
    if a.len() > 0 && b.len() > 0 && c.len() > 0 {
        if a[0] == b[0] && b[0] == c[0] {
            lemma_lex_transitive(a.skip(1), b.skip(1), c.skip(1));
        }
    }
}

/// A relation that holds between every earlier and later element.
pub open spec fn pairwise<A>(s: Seq<A>, rel: spec_fn(A, A) -> bool) -> bool {
    forall|i: int, j: int| 0 <= i < j < s.len() ==> #[trigger] rel(s[i], s[j])
}

/// Filtering keeps a pairwise relation.
proof fn lemma_filter_pairwise<A>(s: Seq<A>, p: spec_fn(A) -> bool, rel: spec_fn(A, A) -> bool)
    requires
        pairwise(s, rel),
    ensures
        pairwise(s.filter(p), rel),
    decreases s.len(),
{
    reveal(Seq::filter);
    if s.len() > 0 {
        let d = s.drop_last();
        assert(pairwise(d, rel)) by {
            assert forall|i: int, j: int| 0 <= i < j < d.len() implies #[trigger] rel(d[i], d[j]) by {
                assert(rel(s[i], s[j]));
            }
        }
        lemma_filter_pairwise(d, p, rel);
        if p(s.last()) {
            let f = d.filter(p);
            assert forall|i: int, j: int| 0 <= i < j < f.len() + 1 implies #[trigger] rel(
                f.push(s.last())[i],
                f.push(s.last())[j],
            ) by {
                if j == f.len() {
                    assert(f.contains(f[i]));
                    d.lemma_filter_contains_rev(p, f[i]);
                    let k = choose|k: int| 0 <= k < d.len() && d[k] == f[i];
                    assert(rel(s[k], s[s.len() - 1]));
                } else {
                    assert(rel(f[i], f[j]));
                }
            }
        }
    }
}

/// The class keys of two running entries differ.
pub open spec fn keys_differ() -> spec_fn((Seq<char>, AppInfoView), (Seq<char>, AppInfoView)) -> bool {
    |a: (Seq<char>, AppInfoView), b: (Seq<char>, AppInfoView)| a.0 != b.0
}

/// A later running entry does not sort before an earlier one.
pub open spec fn in_name_order() -> spec_fn((Seq<char>, AppInfoView), (Seq<char>, AppInfoView)) -> bool {
    |a: (Seq<char>, AppInfoView), b: (Seq<char>, AppInfoView)| !lex_lt(name_key(b), name_key(a))
}

/// The running entries have distinct keys, exactly the lowercased
/// non-empty classes of the windows.
proof fn lemma_running_rec(cs: Seq<HyprClientView>, found: Seq<Option<AppInfoView>>, n: nat)
    requires
        n <= cs.len(),
    ensures
        pairwise(running_rec(cs, found, n), keys_differ()),
        forall|k: Seq<char>| #[trigger] entry_keys(running_rec(cs, found, n)).contains(k) <==> has_class_key(
            cs.take(n as int),
            k,
        ),
    decreases n,
{
    if n > 0 {
        lemma_running_rec(cs, found, (n - 1) as nat);
        let prev = running_rec(cs, found, (n - 1) as nat);
        let t = cs.take(n as int);
        let tp = cs.take(n - 1);
        assert forall|i: int| 0 <= i < tp.len() implies #[trigger] tp[i] == t[i] by {}
        let c = cs[n - 1];
        let k = lowercase(c.class);
        let cur = running_rec(cs, found, n);
        if !(c.class.len() == 0 || entry_keys(prev).contains(k)) {
            assert(entry_keys(cur) =~= entry_keys(prev).push(k));
            assert forall|i: int, j: int| 0 <= i < j < cur.len() implies #[trigger] keys_differ()(
                cur[i],
                cur[j],
            ) by {
                if j == prev.len() {
                    assert(entry_keys(prev)[i] == prev[i].0);
                }
            }
        }
        let pushed = !(c.class.len() == 0 || entry_keys(prev).contains(k));
        assert(t[n - 1] == c);
        assert forall|key: Seq<char>| #[trigger] entry_keys(cur).contains(key) <==> has_class_key(t, key) by {
            if entry_keys(prev).contains(key) {
                assert(has_class_key(tp, key));
                let i = choose|i: int| 0 <= i < tp.len() && (#[trigger] tp[i]).class.len() > 0 && lowercase(
                    tp[i].class,
                ) == key;
                assert(t[i] == tp[i]);
                let j = choose|j: int| 0 <= j < entry_keys(prev).len() && entry_keys(prev)[j] == key;
                if pushed {
                    assert(entry_keys(cur)[j] == key);
                }
            }
            if entry_keys(cur).contains(key) && !entry_keys(prev).contains(key) {
                assert(pushed);
                let j = choose|j: int| 0 <= j < entry_keys(cur).len() && entry_keys(cur)[j] == key;
                assert(j == prev.len());
                assert(key == k);
            }
            if has_class_key(t, key) {
                let i = choose|i: int| 0 <= i < t.len() && (#[trigger] t[i]).class.len() > 0 && lowercase(
                    t[i].class,
                ) == key;
                if i < n - 1 {
                    assert(tp[i] == t[i]);
                    assert(has_class_key(tp, key));
                } else if pushed {
                    assert(entry_keys(cur)[prev.len() as int] == key);
                }
            }
        }
    }
}

/// Inserting by name keeps the entries, adds `x`, and keeps name order.
proof fn lemma_insert_by_name(t: Seq<(Seq<char>, AppInfoView)>, x: (Seq<char>, AppInfoView))
    requires
        pairwise(t, in_name_order()),
    ensures
        pairwise(insert_by_name(t, x), in_name_order()),
        forall|e: (Seq<char>, AppInfoView)| #[trigger] insert_by_name(t, x).contains(e) <==> (t.contains(e) || e
            == x),
        insert_by_name(t, x).len() == t.len() + 1,
{
    crate::text::lemma_first_index(t, sorts_after(x));
    let p = match first_index(t, sorts_after(x)) {
        Some(i) => i,
        None => t.len() as int,
    };
    let r = t.insert(p, x);
    assert forall|i: int, j: int| 0 <= i < j < r.len() implies #[trigger] in_name_order()(r[i], r[j]) by {
        if i < p && j < p {
            assert(in_name_order()(t[i], t[j]));
        } else if i < p && j == p {
            assert(!sorts_after(x)(t[i]));
        } else if i < p {
            assert(in_name_order()(t[i], t[j - 1]));
        } else if i == p {
            let y = t[j - 1];
            if lex_lt(name_key(y), name_key(x)) {
                assert(sorts_after(x)(t[p]));
                lemma_lex_transitive(name_key(y), name_key(x), name_key(t[p]));
                if j - 1 == p {
                    lemma_lex_irreflexive(name_key(y));
                } else {
                    assert(in_name_order()(t[p], t[j - 1]));
                }
            }
        } else {
            assert(in_name_order()(t[i - 1], t[j - 1]));
        }
    }
    assert forall|e: (Seq<char>, AppInfoView)| #[trigger] r.contains(e) <==> (t.contains(e) || e == x) by {
        if r.contains(e) {
            let i = choose|i: int| 0 <= i < r.len() && r[i] == e;
            if i < p {
                assert(t[i] == e);
            } else if i > p {
                assert(t[i - 1] == e);
            }
        }
        if t.contains(e) {
            let i = choose|i: int| 0 <= i < t.len() && t[i] == e;
            if i < p {
                assert(r[i] == e);
            } else {
                assert(r[i + 1] == e);
            }
        }
        if e == x {
            assert(r[p] == e);
        }
    }
}

/// Sorting by name orders the entries by name and keeps exactly the same
/// entries; distinct keys stay distinct.
proof fn lemma_sort_by_name(s: Seq<(Seq<char>, AppInfoView)>)
    ensures
        pairwise(sort_by_name(s), in_name_order()),
        forall|e: (Seq<char>, AppInfoView)| #[trigger] sort_by_name(s).contains(e) <==> s.contains(e),
        pairwise(s, keys_differ()) ==> pairwise(sort_by_name(s), keys_differ()),
        sort_by_name(s).len() == s.len(),
    decreases s.len(),
{
    if s.len() > 0 {
        let d = s.drop_last();
        lemma_sort_by_name(d);
        let t = sort_by_name(d);
        lemma_insert_by_name(t, s.last());
        assert forall|e: (Seq<char>, AppInfoView)| #[trigger] sort_by_name(s).contains(e) <==> s.contains(e) by {
            if s.contains(e) {
                let i = choose|i: int| 0 <= i < s.len() && s[i] == e;
                if i < d.len() {
                    assert(d[i] == e);
                    assert(d.contains(e));
                }
            }
            if d.contains(e) {
                let i = choose|i: int| 0 <= i < d.len() && d[i] == e;
                assert(s[i] == e);
            }
        }
        if pairwise(s, keys_differ()) {
            assert(pairwise(d, keys_differ())) by {
                assert forall|i: int, j: int| 0 <= i < j < d.len() implies #[trigger] keys_differ()(
                    d[i],
                    d[j],
                ) by {
                    assert(keys_differ()(s[i], s[j]));
                }
            }
            let r = sort_by_name(s);
            let x = s.last();
            crate::text::lemma_first_index(t, sorts_after(x));
            let p = match first_index(t, sorts_after(x)) {
                Some(i) => i,
                None => t.len() as int,
            };
            assert(r == t.insert(p, x));
            assert forall|e: (Seq<char>, AppInfoView)| #[trigger] t.contains(e) implies e.0 != x.0 by {
                assert(d.contains(e));
                let i = choose|i: int| 0 <= i < d.len() && d[i] == e;
                assert(keys_differ()(s[i], s[s.len() - 1]));
            }
            assert forall|i: int, j: int| 0 <= i < j < r.len() implies #[trigger] keys_differ()(r[i], r[j]) by {
                if i < p && j < p {
                    assert(keys_differ()(t[i], t[j]));
                } else if i < p && j == p {
                    assert(t.contains(t[i]));
                } else if i < p {
                    assert(keys_differ()(t[i], t[j - 1]));
                } else if i == p {
                    assert(t.contains(t[j - 1]));
                } else {
                    assert(keys_differ()(t[i - 1], t[j - 1]));
                }
            }
        }
    }
}

/// The running section lists each class once; it holds exactly the running
/// entries (one per non-empty class among the windows) whose class and app
/// are not pinned; sorted, it is in order of lowercased app name; each of
/// its buttons shows at least one open window.
pub proof fn law_running_section(
    cs: Seq<HyprClientView>,
    found: Seq<Option<AppInfoView>>,
    sort: bool,
    pinned: Seq<Seq<char>>,
)
    ensures
        pairwise(running_section(cs, found, sort, pinned), keys_differ()),
        forall|k: Seq<char>| #[trigger] entry_keys(running_entries(cs, found)).contains(k) <==> has_class_key(cs, k),
        forall|e: (Seq<char>, AppInfoView)| #[trigger] running_section(cs, found, sort, pinned).contains(e) <==> (
            running_entries(cs, found).contains(e) && !lower_all(pinned).contains(e.0) && !lower_all(
                pinned,
            ).contains(e.1.id)),
        sort ==> pairwise(running_section(cs, found, sort, pinned), in_name_order()),
        forall|i: int| 0 <= i < spec_running_buttons(cs, found, sort, pinned).len() ==> (#[trigger] spec_running_buttons(
            cs,
            found,
            sort,
            pinned,
        )[i]).1 >= 1,
{
    let es = running_entries(cs, found);
    lemma_running_rec(cs, found, cs.len());
    assert(cs.take(cs.len() as int) =~= cs);
    lemma_sort_by_name(es);
    let ordered = if sort {
        sort_by_name(es)
    } else {
        es
    };
    let np = not_pinned(lower_all(pinned));
    lemma_filter_pairwise(ordered, np, keys_differ());
    if sort {
        lemma_filter_pairwise(ordered, np, in_name_order());
    }
    assert forall|e: (Seq<char>, AppInfoView)| #[trigger] ordered.filter(np).contains(e) <==> (es.contains(e)
        && np(e)) by {
        if sort {
            assert(sort_by_name(es).contains(e) <==> es.contains(e));
        }
        if ordered.filter(np).contains(e) {
            ordered.lemma_filter_contains_rev(np, e);
            ordered.filter_lemma(np);
            let i = choose|i: int| 0 <= i < ordered.filter(np).len() && ordered.filter(np)[i] == e;
            assert(np(ordered.filter(np)[i]));
        }
        if es.contains(e) && np(e) {
            ordered.filter_lemma(np);
            let i = choose|i: int| 0 <= i < ordered.len() && ordered[i] == e;
            assert(ordered.filter(np).contains(ordered[i]));
        }
    }
    let sec = running_section(cs, found, sort, pinned);
    assert forall|i: int| 0 <= i < spec_running_buttons(cs, found, sort, pinned).len() implies (
    #[trigger] spec_running_buttons(cs, found, sort, pinned)[i]).1 >= 1 by {
        let e = sec[i];
        assert(sec.contains(e));
        assert(es.contains(e));
        let j = choose|j: int| 0 <= j < es.len() && es[j] == e;
        assert(entry_keys(es)[j] == e.0);
        assert(entry_keys(es).contains(e.0));
        lemma_class_count_pos(cs, e.0);
    }
}

/// A class some window has is counted at least once.
proof fn lemma_class_count_pos(cs: Seq<HyprClientView>, k: Seq<char>)
    requires
        has_class_key(cs, k),
    ensures
        class_count(cs, k) >= 1,
    decreases cs.len(),
{
    let d = cs.drop_last();
    let i = choose|i: int| 0 <= i < cs.len() && (#[trigger] cs[i]).class.len() > 0 && lowercase(cs[i].class) == k;
    if i < cs.len() - 1 {
        assert(d[i] == cs[i]);
        lemma_class_count_pos(d, k);
    } else {
        assert(cs.last() == cs[i]);
    }
}

// ── Preview hover ───────────────────────────────────────────────────────

/// What to do with one of the hover timers.
#[derive(Debug, Clone, Copy, PartialEq, Eq, Structural)]
pub enum TimerPlan {
    /// Leave it as it is.
    Keep,
    /// Cancel it if it is pending.
    Cancel,
    /// Start it with this delay (ms), without cancelling one still pending.
    Start(u64),
    /// Cancel it if it is pending, then start it with this delay (ms).
    Restart(u64),
}

/// The preview window as the hover logic sees it.
pub struct HoverState {
    /// Whether the preview window is shown.
    pub visible: bool,
    /// The app id whose windows the preview shows (empty when hidden).
    pub active_class: String,
    /// Whether the show timer is pending.
    pub show_pending: bool,
}

/// The abstract value of a `HoverState`.
pub struct HoverStateView {
    pub visible: bool,
    pub active_class: Seq<char>,
    pub show_pending: bool,
}

impl View for HoverState {
    type V = HoverStateView;

    open spec fn view(&self) -> HoverStateView {
        HoverStateView {
            visible: self.visible,
            active_class: self.active_class@,
            show_pending: self.show_pending,
        }
    }
}

/// The hover delays of the configuration, in milliseconds.
#[derive(Debug, Clone, Copy)]
pub struct HoverDelays {
    pub show: u64,
    pub hide: u64,
    pub move_to: u64,
    pub auto_hide: u64,
}

/// How long the preview stays while the pointer is over it (ms).
pub const PREVIEW_STAY_MS: u64 = 1500;

/// How soon the preview hides once the pointer leaves it (ms).
pub const PREVIEW_LEAVE_MS: u64 = 80;

/// What happened.
pub enum HoverEvent {
    /// The pointer entered the button of this app id.
    ButtonEnter(String),
    /// The pointer left a button.
    ButtonLeave,
    /// The pointer entered the preview window.
    PreviewEnter,
    /// The pointer left the preview window.
    PreviewLeave,
    /// The show timer fired and the preview now shows this app id.
    Shown(String),
    /// The show timer fired with no window to show.
    NothingToShow,
    /// A hide timer fired and the preview was hidden; `true` for the timer
    /// started when the pointer left the preview window.
    Hidden(bool),
    /// A button's context menu opened (the preview hides at once).
    MenuOpened,
}

/// The abstract value of a hover event.
pub enum HoverEventView {
    ButtonEnter(Seq<char>),
    ButtonLeave,
    PreviewEnter,
    PreviewLeave,
    Shown(Seq<char>),
    NothingToShow,
    Hidden(bool),
    MenuOpened,
}

impl View for HoverEvent {
    type V = HoverEventView;

    open spec fn view(&self) -> HoverEventView {
        match self {
            HoverEvent::ButtonEnter(c) => HoverEventView::ButtonEnter(c@),
            HoverEvent::ButtonLeave => HoverEventView::ButtonLeave,
            HoverEvent::PreviewEnter => HoverEventView::PreviewEnter,
            HoverEvent::PreviewLeave => HoverEventView::PreviewLeave,
            HoverEvent::Shown(c) => HoverEventView::Shown(c@),
            HoverEvent::NothingToShow => HoverEventView::NothingToShow,
            HoverEvent::Hidden(p) => HoverEventView::Hidden(*p),
            HoverEvent::MenuOpened => HoverEventView::MenuOpened,
        }
    }
}

/// What the application does after a hover event.
#[derive(Debug, Clone, Copy, PartialEq, Eq, Structural)]
pub struct HoverPlan {
    /// The timer that shows the preview (for the app that was entered).
    pub show_timer: TimerPlan,
    /// The timer that hides the preview.
    pub hide_timer: TimerPlan,
    /// Smart view: cancel the dock's hide timer and raise the dock.
    pub raise_dock: bool,
    /// Smart view, once the preview hid after the pointer left it: restart
    /// the dock's hide timer with this delay (ms).
    pub lower_dock_after: Option<u64>,
    /// Hide the preview window now.
    pub hide_now: bool,
}

/// The state and plan after a hover event.
pub open spec fn spec_hover_step(
    s: HoverStateView,
    ev: HoverEventView,
    d: HoverDelays,
    smart_view: bool,
) -> (HoverStateView, HoverPlan) {
    let idle = HoverPlan {
        show_timer: TimerPlan::Keep,
        hide_timer: TimerPlan::Keep,
        raise_dock: false,
        lower_dock_after: None,
        hide_now: false,
    };
    let hidden = HoverStateView { visible: false, active_class: Seq::empty(), show_pending: s.show_pending };
    match ev {
        HoverEventView::ButtonEnter(class) => {
            if s.visible && s.active_class == class {
                (s, HoverPlan { hide_timer: TimerPlan::Cancel, ..idle })
            } else if s.visible {
                (
                    HoverStateView { show_pending: true, ..s },
                    HoverPlan {
                        show_timer: TimerPlan::Restart(d.move_to),
                        hide_timer: TimerPlan::Cancel,
                        ..idle
                    },
                )
            } else if s.show_pending {
                (s, HoverPlan { hide_timer: TimerPlan::Cancel, ..idle })
            } else {
                (
                    HoverStateView { show_pending: true, ..s },
                    HoverPlan {
                        show_timer: TimerPlan::Start(d.show),
                        hide_timer: TimerPlan::Cancel,
                        ..idle
                    },
                )
            }
        },
        HoverEventView::ButtonLeave => (
            HoverStateView { show_pending: false, ..s },
            HoverPlan {
                show_timer: TimerPlan::Cancel,
                hide_timer: if s.visible {
                    TimerPlan::Start(d.hide)
                } else {
                    TimerPlan::Keep
                },
                ..idle
            },
        ),
        HoverEventView::PreviewEnter => (
            HoverStateView { show_pending: false, ..s },
            HoverPlan {
                show_timer: TimerPlan::Cancel,
                hide_timer: TimerPlan::Restart(PREVIEW_STAY_MS),
                raise_dock: smart_view,
                ..idle
            },
        ),
        HoverEventView::PreviewLeave => (s, HoverPlan { hide_timer: TimerPlan::Restart(PREVIEW_LEAVE_MS), ..idle }),
        HoverEventView::Shown(class) => (
            HoverStateView { visible: true, active_class: class, show_pending: false },
            idle,
        ),
        HoverEventView::NothingToShow => (HoverStateView { show_pending: false, ..s }, idle),
        HoverEventView::Hidden(after_preview) => (
            hidden,
            HoverPlan {
                lower_dock_after: if smart_view && after_preview {
                    Some(d.auto_hide)
                } else {
                    None
                },
                ..idle
            },
        ),
        HoverEventView::MenuOpened => (
            HoverStateView { show_pending: false, ..hidden },
            HoverPlan {
                show_timer: TimerPlan::Cancel,
                hide_timer: TimerPlan::Cancel,
                hide_now: true,
                ..idle
            },
        ),
    }
}

/// Decides a hover event: the preview's next state and what to do with
/// the timers and the windows.
pub fn hover_step(s: HoverState, ev: HoverEvent, d: HoverDelays, smart_view: bool) -> (r: (
    HoverState,
    HoverPlan,
))
    ensures
        (r.0@, r.1) == spec_hover_step(s@, ev@, d, smart_view),
{
    let idle = HoverPlan {
        show_timer: TimerPlan::Keep,
        hide_timer: TimerPlan::Keep,
        raise_dock: false,
        lower_dock_after: None,
        hide_now: false,
    };
    match ev {
        HoverEvent::ButtonEnter(class) => {
            if s.visible && chars_eq(&chars_of(s.active_class.as_str()), &chars_of(class.as_str())) {
                (s, HoverPlan { hide_timer: TimerPlan::Cancel, ..idle })
            } else if s.visible {
                (
                    HoverState { show_pending: true, ..s },
                    HoverPlan {
                        show_timer: TimerPlan::Restart(d.move_to),
                        hide_timer: TimerPlan::Cancel,
                        ..idle
                    },
                )
            } else if s.show_pending {
                (s, HoverPlan { hide_timer: TimerPlan::Cancel, ..idle })
            } else {
                (
                    HoverState { show_pending: true, ..s },
                    HoverPlan { show_timer: TimerPlan::Start(d.show), hide_timer: TimerPlan::Cancel, ..idle },
                )
            }
        },
        HoverEvent::ButtonLeave => {
            let hide_timer = if s.visible {
                TimerPlan::Start(d.hide)
            } else {
                TimerPlan::Keep
            };
            (HoverState { show_pending: false, ..s }, HoverPlan { show_timer: TimerPlan::Cancel, hide_timer, ..idle })
        },
        HoverEvent::PreviewEnter => (
            HoverState { show_pending: false, ..s },
            HoverPlan {
                show_timer: TimerPlan::Cancel,
                hide_timer: TimerPlan::Restart(PREVIEW_STAY_MS),
                raise_dock: smart_view,
                ..idle
            },
        ),
        HoverEvent::PreviewLeave => (s, HoverPlan { hide_timer: TimerPlan::Restart(PREVIEW_LEAVE_MS), ..idle }),
        HoverEvent::Shown(class) => (HoverState { visible: true, active_class: class, show_pending: false }, idle),
        HoverEvent::NothingToShow => (HoverState { show_pending: false, ..s }, idle),
        HoverEvent::Hidden(after_preview) => {
            let lower = if smart_view && after_preview {
                Some(d.auto_hide)
            } else {
                None
            };
            (
                HoverState { visible: false, active_class: String::new(), show_pending: s.show_pending },
                HoverPlan { lower_dock_after: lower, ..idle },
            )
        },
        HoverEvent::MenuOpened => (
            HoverState { visible: false, active_class: String::new(), show_pending: false },
            HoverPlan { show_timer: TimerPlan::Cancel, hide_timer: TimerPlan::Cancel, hide_now: true, ..idle },
        ),
    }
}

/// What the preview shows changes only when a timer fires: it becomes
/// visible, showing that app, only when the show timer fires with windows
/// to show, and stops being visible only when a hide timer fires or a
/// context menu opens, which also hides it at once and cancels both
/// timers. A show timer is started only when the pointer enters a button
/// (after the move delay when another app's preview is showing, the show
/// delay when none is showing or pending); leaving a button starts the
/// hide delay exactly when the preview is visible; entering the preview
/// keeps it for `PREVIEW_STAY_MS` and leaving it for `PREVIEW_LEAVE_MS`.
pub proof fn law_hover_preview_changes_only_on_timers(
    s: HoverStateView,
    ev: HoverEventView,
    d: HoverDelays,
    smart_view: bool,
)
    ensures
        spec_hover_step(s, ev, d, smart_view).0.visible == (ev is Shown || (s.visible && !(ev is Hidden)
            && !(ev is MenuOpened))),
        ev matches HoverEventView::Shown(c) ==> spec_hover_step(s, ev, d, smart_view).0.active_class == c,
        !(ev is Shown) && !(ev is Hidden) && !(ev is MenuOpened) ==> spec_hover_step(
            s,
            ev,
            d,
            smart_view,
        ).0.active_class == s.active_class,
        spec_hover_step(s, ev, d, smart_view).1.hide_now == (ev is MenuOpened),
        ev is MenuOpened ==> spec_hover_step(s, ev, d, smart_view).1.show_timer == TimerPlan::Cancel
            && spec_hover_step(s, ev, d, smart_view).1.hide_timer == TimerPlan::Cancel,
        !(ev is ButtonEnter) ==> !(spec_hover_step(s, ev, d, smart_view).1.show_timer is Start)
            && !(spec_hover_step(s, ev, d, smart_view).1.show_timer is Restart),
        ev matches HoverEventView::ButtonEnter(c) ==> spec_hover_step(s, ev, d, smart_view).1.show_timer
            == if s.visible && s.active_class != c {
            TimerPlan::Restart(d.move_to)
        } else if !s.visible && !s.show_pending {
            TimerPlan::Start(d.show)
        } else {
            TimerPlan::Keep
        },
        ev is ButtonLeave ==> spec_hover_step(s, ev, d, smart_view).1.hide_timer == if s.visible {
            TimerPlan::Start(d.hide)
        } else {
            TimerPlan::Keep
        },
        ev is PreviewEnter ==> spec_hover_step(s, ev, d, smart_view).1.hide_timer == TimerPlan::Restart(
            PREVIEW_STAY_MS,
        ),
        ev is PreviewLeave ==> spec_hover_step(s, ev, d, smart_view).1.hide_timer == TimerPlan::Restart(
            PREVIEW_LEAVE_MS,
        ),
{
}

/// Only smart view moves the dock's layer: without it no hover event raises
/// the dock or restarts its hide timer. With it, entering the preview
/// raises the dock, and the preview hiding after the pointer left it
/// restarts the dock's hide timer with the auto-hide delay; no other event
/// does either.
pub proof fn law_dock_layer_moves_only_with_smart_view(
    s: HoverStateView,
    ev: HoverEventView,
    d: HoverDelays,
    smart_view: bool,
)
    ensures
        !smart_view ==> !spec_hover_step(s, ev, d, smart_view).1.raise_dock && spec_hover_step(
            s,
            ev,
            d,
            smart_view,
        ).1.lower_dock_after is None,
        spec_hover_step(s, ev, d, smart_view).1.raise_dock == (smart_view && ev is PreviewEnter),
        spec_hover_step(s, ev, d, smart_view).1.lower_dock_after == if smart_view && ev
            == HoverEventView::Hidden(true) {
            Some(d.auto_hide)
        } else {
            None
        },
{
}

/// Hovering events never change what the preview shows: only a timer
/// firing does; and hovering back onto the app the preview shows leaves
/// it shown, only cancelling a pending hide.
pub proof fn law_hover_keeps_preview(s: HoverStateView, class: Seq<char>, d: HoverDelays, smart_view: bool)
    ensures
        ({
            let evs = seq![
                HoverEventView::ButtonEnter(class),
                HoverEventView::ButtonLeave,
                HoverEventView::PreviewEnter,
                HoverEventView::PreviewLeave,
            ];
            forall|i: int| 0 <= i < evs.len() ==> {
                let n = #[trigger] spec_hover_step(s, evs[i], d, smart_view).0;
                n.visible == s.visible && n.active_class == s.active_class
            }
        }),
        s.visible && s.active_class == class ==> spec_hover_step(
            s,
            HoverEventView::ButtonEnter(class),
            d,
            smart_view,
        ) == (s, HoverPlan {
            show_timer: TimerPlan::Keep,
            hide_timer: TimerPlan::Cancel,
            raise_dock: false,
            lower_dock_after: None,
            hide_now: false,
        }),
{
}

/// `x as u64`: a negative value wraps around.
pub open spec fn wrap_u64(x: i32) -> u64 {
    if x >= 0 {
        x as u64
    } else {
        (x + 0x1_0000_0000_0000_0000) as u64
    }
}

fn to_u64(x: i32) -> (r: u64)
    ensures
        r == wrap_u64(x),
{
    if x >= 0 {
        x as u64
    } else {
        u64::MAX - ((-(x as i64) - 1) as u64)
    }
}

/// The hover delays of a configuration, in milliseconds.
pub fn hover_delays(c: &Config) -> (d: HoverDelays)
    ensures
        d.show == wrap_u64(c.show_delay),
        d.hide == wrap_u64(c.hide_delay),
        d.move_to == wrap_u64(c.move_delay),
        d.auto_hide == wrap_u64(c.auto_hide_delay),
{
    HoverDelays {
        show: to_u64(c.show_delay),
        hide: to_u64(c.hide_delay),
        move_to: to_u64(c.move_delay),
        auto_hide: to_u64(c.auto_hide_delay),
    }
}

// ── Overflow guards for the application ─────────────────────────────────

fn fits64(x: i64) -> (b: bool)
    ensures
        b == fits(x as int),
{
    -2147483648i64 <= x && x <= 2147483647i64
}

/// Whether the dock's margins can be summed in `i32` (`dock_margins`).
pub fn margins_fit_for(cfg: &Config, m: i32) -> (b: bool)
    ensures
        b == margins_fit(cfg@, m),
{
    fits64(cfg.margin_top as i64 + m as i64) && fits64(cfg.margin_bottom as i64 + m as i64) && fits64(
        cfg.margin_left as i64 + m as i64,
    ) && fits64(cfg.margin_right as i64 + m as i64)
}

/// Whether the exclusive zone can be computed in `i32` (`exclusive_zone`).
pub fn exclusive_zone_fits(cfg: &Config, height: i32, gaps_out: i32) -> (b: bool)
    ensures
        b == (spec_reserves_space(cfg@) ==> fits(
            height + 2 * spec_effective_margin(cfg@, gaps_out) - gaps_out,
        )),
{
    if reserves_space(cfg) {
        let m = effective_margin(cfg, gaps_out) as i64;
        fits64(height as i64 + 2 * m - gaps_out as i64)
    } else {
        true
    }
}

fn centred_fits64(pos: i32, size: i32, panel: i64, screen: i32) -> (b: bool)
    requires
        -1_000_000_000_000 <= panel <= 1_000_000_000_000,
    ensures
        b == centred_fits(pos as int, size as int, panel as int, screen as int),
{
    let h = pos as i64 + half64(size as i64);
    fits64(panel) && fits64(h) && fits64(h - half64(panel)) && fits64(screen as i64 - panel)
}

/// Whether the preview placement can be computed (`preview_margins`): a
/// count that is not negative, and no `i32` step overflowing.
pub fn preview_margins_fit(
    s: Side,
    n: i32,
    compact: bool,
    button: (i32, i32, i32, i32),
    monitor: (i32, i32),
    dock: (i32, i32),
    edge: Margins,
) -> (b: bool)
    ensures
        b == (0 <= n && preview_fits(s, n as int, compact, button, monitor, dock, edge)),
{
    if n < 0 {
        return false;
    }
    let (card_w, card_h, _, _) = preview_sizes(compact);
    let (bx, by, bw, bh) = button;
    let gaps: i64 = if n - 1 > 0 { (n - 1) as i64 } else { 0 };
    assert(0 <= n as i64 * card_h as i64 <= 2147483647 * 264 && 0 <= n as i64 * card_w as i64
        <= 2147483647 * 264) by (nonlinear_arith)
        requires
            0 <= n <= 2147483647,
            0 <= card_h <= 264,
            0 <= card_w <= 264,
    ;
    let panel_h: i64 = n as i64 * card_h as i64 + gaps * 8 + 16;
    let panel_w: i64 = n as i64 * card_w as i64 + gaps * 8 + 16;
    match s {
        Side::Left => centred_fits64(by, bh, panel_h, monitor.1) && fits64(edge.left as i64 + dock.0 as i64)
            && fits64(edge.left as i64 + dock.0 as i64 + 6),
        Side::Right => centred_fits64(by, bh, panel_h, monitor.1) && fits64(edge.right as i64 + dock.0 as i64)
            && fits64(edge.right as i64 + dock.0 as i64 + 6),
        Side::Top => centred_fits64(bx, bw, panel_w, monitor.0) && fits64(edge.top as i64 + dock.1 as i64)
            && fits64(edge.top as i64 + dock.1 as i64 + 6),
        Side::Bottom => centred_fits64(bx, bw, panel_w, monitor.0) && fits64(edge.bottom as i64 + dock.1 as i64)
            && fits64(edge.bottom as i64 + dock.1 as i64 + 6),
    }
}

/// Whether a button's position can be computed in `i32` (`button_position`).
pub fn button_position_fits(
    s: Side,
    full_screen: bool,
    monitor: (i32, i32),
    dock: (i32, i32),
    edge: Margins,
    offset: (i32, i32),
) -> (b: bool)
    ensures
        b == (fits(monitor.0 - dock.0) && fits(monitor.1 - dock.1) && fits(monitor.0 - edge.right)
            && fits(monitor.0 - edge.right - dock.0) && fits(monitor.1 - edge.bottom) && fits(
            monitor.1 - edge.bottom - dock.1,
        ) && fits(spec_button_position(s, full_screen, monitor, dock, edge, offset).0) && fits(
            spec_button_position(s, full_screen, monitor, dock, edge, offset).1,
        )),
{
    let cx: i64 = if full_screen { edge.left as i64 } else { half64(monitor.0 as i64 - dock.0 as i64) };
    let cy: i64 = if full_screen { edge.top as i64 } else { half64(monitor.1 as i64 - dock.1 as i64) };
    let (x, y): (i64, i64) = match s {
        Side::Top => (cx, edge.top as i64),
        Side::Left => (edge.left as i64, cy),
        Side::Right => (monitor.0 as i64 - edge.right as i64 - dock.0 as i64, cy),
        Side::Bottom => (cx, monitor.1 as i64 - edge.bottom as i64 - dock.1 as i64),
    };
    fits64(monitor.0 as i64 - dock.0 as i64) && fits64(monitor.1 as i64 - dock.1 as i64) && fits64(
        monitor.0 as i64 - edge.right as i64,
    ) && fits64(monitor.0 as i64 - edge.right as i64 - dock.0 as i64) && fits64(
        monitor.1 as i64 - edge.bottom as i64,
    ) && fits64(monitor.1 as i64 - edge.bottom as i64 - dock.1 as i64) && fits64(x + offset.0 as i64)
        && fits64(y + offset.1 as i64)
}

/// Whether the preview keeps polling for captures: only while it is shown
/// and still shows the cards the captures are for.
pub fn keep_polling(visible: bool, shows_these_cards: bool) -> (b: bool)
    ensures
        b == (visible && shows_these_cards),
{
    visible && shows_these_cards
}

/// The most window captures in flight at once.
pub const MAX_CONCURRENT_CAPTURES: usize = 4;

} // verus!
