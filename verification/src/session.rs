//! The application's own decisions: its GTK application id, which stale
//! files it removes at start, what a batch of Hyprland events makes it do,
//! and how signals show or hide the dock.

use vstd::prelude::*;
use crate::text::{chars_of, string_of, starts_with, ends_with, has_prefix, has_suffix};
use crate::hyprland_handler::{DockEvent, DockEventView};

verus! {

/// Whether `c` is an ASCII letter or digit.
pub open spec fn is_ascii_alnum(c: char) -> bool {
    ('0' <= c <= '9') || ('a' <= c <= 'z') || ('A' <= c <= 'Z')
}

/// A character as it may stand in a GTK application id: ASCII letters,
/// digits, `.` and `-` stay, anything else becomes `_`.
pub open spec fn id_safe(c: char) -> char {
    if is_ascii_alnum(c) || c == '.' || c == '-' {
        c
    } else {
        '_'
    }
}

/// The application id: one per output, so that docks on several monitors
/// can run at once.
pub open spec fn spec_app_id(output: Option<Seq<char>>) -> Seq<char> {
    match output {
        None => "com.github.rhythmcreative.rust_dock"@,
        Some(o) => "com.github.rhythmcreative.rust_dock."@ + o.map_values(|c: char| id_safe(c)),
    }
}

/// The application id for the configured output.
pub fn app_id_for_output(output: &Option<String>) -> (r: String)
    ensures
        r@ == spec_app_id(crate::config::sv(*output)),
{
    match output {
        None => "com.github.rhythmcreative.rust_dock".to_string(),
        Some(o) => {
            let mut v = chars_of("com.github.rhythmcreative.rust_dock.");
            let ghost prefix = v@;
            let cs = chars_of(o.as_str());
            let mut i: usize = 0;
            while i < cs.len()
                invariant
                    i <= cs.len(),
                    cs@ == o@,
                    v@ == prefix + cs@.take(i as int).map_values(|c: char| id_safe(c)),
                decreases cs.len() - i,
            {
                let c = cs[i];
                let safe = if ('0' <= c && c <= '9') || ('a' <= c && c <= 'z') || ('A' <= c && c <= 'Z')
                    || c == '.' || c == '-' {
                    c
                } else {
                    '_'
                };
                v.push(safe);
                assert(cs@.take(i as int + 1).map_values(|c: char| id_safe(c)) =~= cs@.take(
                    i as int,
                ).map_values(|c: char| id_safe(c)).push(id_safe(c)));
                i = i + 1;
            }
            assert(cs@.take(cs.len() as int) =~= cs@);
            string_of(&v)
        },
    }
}

/// Whether a file in `/tmp` is a window capture left by an earlier run.
pub open spec fn spec_is_preview_temp(name: Seq<char>) -> bool {
    has_prefix(name, "rust-dock-preview-"@) && has_suffix(name, ".png"@)
}

/// Whether a file in `/tmp` is a window capture left by an earlier run.
pub fn is_preview_temp_name(name: &str) -> (b: bool)
    ensures
        b == spec_is_preview_temp(name@),
{
    let cs = chars_of(name);
    starts_with(&cs, &chars_of("rust-dock-preview-")) && ends_with(&cs, &chars_of(".png"))
}

/// What a batch of events says: whether the window list changed, whether
/// the workspaces changed, and the last class focused.
pub open spec fn batch_summary(evs: Seq<DockEventView>) -> (bool, bool, Option<Seq<char>>)
    decreases evs.len(),
{
    if evs.len() == 0 {
        (false, false, None)
    } else {
        let (w, ws, f) = batch_summary(evs.drop_last());
        match evs.last() {
            DockEventView::WindowList => (true, ws, f),
            DockEventView::Workspace => (w, true, f),
            DockEventView::Focus(c) => (w, ws, Some(c)),
        }
    }
}

/// How long after a rebuild the dock is rebuilt once more (ms): Hyprland
/// may announce a new window before listing it.
pub const SECOND_REFRESH_MS: u64 = 350;

/// What the main loop does with a batch of events.
pub struct LoopPlan {
    /// Rebuild the dock now.
    pub refresh: bool,
    /// Rebuild it once more after this many milliseconds.
    pub refresh_again_after: Option<u64>,
    /// Rebuild only the running-apps section.
    pub refresh_running: bool,
    /// Highlight the app of this class.
    pub focus: Option<String>,
}

/// The abstract value of a `LoopPlan`.
pub struct LoopPlanView {
    pub refresh: bool,
    pub refresh_again_after: Option<u64>,
    pub refresh_running: bool,
    pub focus: Option<Seq<char>>,
}

impl View for LoopPlan {
    type V = LoopPlanView;

    open spec fn view(&self) -> LoopPlanView {
        LoopPlanView {
            refresh: self.refresh,
            refresh_again_after: self.refresh_again_after,
            refresh_running: self.refresh_running,
            focus: crate::config::sv(self.focus),
        }
    }
}

/// The plan for a batch: a changed window list rebuilds the dock (twice);
/// changed workspaces alone rebuild the running section; the last focus
/// moves the highlight.
pub open spec fn spec_loop_plan(evs: Seq<DockEventView>) -> LoopPlanView {
    let (w, ws, f) = batch_summary(evs);
    LoopPlanView {
        refresh: w,
        refresh_again_after: if w {
            Some(SECOND_REFRESH_MS)
        } else {
            None
        },
        refresh_running: ws && !w,
        focus: f,
    }
}

/// The abstract values of a batch of events.
pub open spec fn event_views(evs: Seq<DockEvent>) -> Seq<DockEventView> {
    evs.map_values(|e: DockEvent| e@)
}

/// What the main loop does with the events that arrived since it last looked.
pub fn loop_plan(evs: &Vec<DockEvent>) -> (r: LoopPlan)
    ensures
        r@ == spec_loop_plan(event_views(evs@)),
{
    let ghost ev = event_views(evs@);
    let mut w = false;
    let mut ws = false;
    let mut focus: Option<String> = None;
    let mut i: usize = 0;
    while i < evs.len()
        invariant
            i <= evs.len(),
            ev == event_views(evs@),
            batch_summary(ev.take(i as int)) == (w, ws, crate::config::sv(focus)),
        decreases evs.len() - i,
    {
        assert(ev.take(i as int + 1).drop_last() =~= ev.take(i as int));
        assert(ev.take(i as int + 1).last() == evs@[i as int]@);
        match &evs[i] {
            DockEvent::WindowList => {
                w = true;
            },
            DockEvent::Workspace => {
                ws = true;
            },
            DockEvent::Focus(c) => {
                focus = Some(c.clone());
            },
        }
        i = i + 1;
    }
    assert(ev.take(evs.len() as int) =~= ev);
    LoopPlan {
        refresh: w,
        refresh_again_after: if w { Some(SECOND_REFRESH_MS) } else { None },
        refresh_running: ws && !w,
        focus,
    }
}

/// The dock's visibility after a signal: the first signal toggles it, the
/// second shows it; any other leaves it as it is.
pub open spec fn spec_after_signal(sig: i32, toggle_sig: i32, show_sig: i32, visible: bool) -> bool {
    if sig == toggle_sig {
        !visible
    } else if sig == show_sig {
        true
    } else {
        visible
    }
}

/// The dock's visibility after a signal (`SIGUSR1` toggles, `SIGUSR2` shows).
pub fn after_signal(sig: i32, toggle_sig: i32, show_sig: i32, visible: bool) -> (r: bool)
    ensures
        r == spec_after_signal(sig, toggle_sig, show_sig, visible),
{
    if sig == toggle_sig {
        !visible
    } else if sig == show_sig {
        true
    } else {
        visible
    }
}

/// Toggling twice restores the dock; showing is idempotent.
pub proof fn law_signals(toggle_sig: i32, show_sig: i32, visible: bool)
    ensures
        spec_after_signal(
            toggle_sig,
            toggle_sig,
            show_sig,
            spec_after_signal(toggle_sig, toggle_sig, show_sig, visible),
        ) == visible,
        toggle_sig != show_sig ==> spec_after_signal(
            show_sig,
            toggle_sig,
            show_sig,
            spec_after_signal(show_sig, toggle_sig, show_sig, visible),
        ) == spec_after_signal(show_sig, toggle_sig, show_sig, visible),
{
}

} // verus!
