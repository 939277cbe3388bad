//! The stylesheet's sizes, the order in which its layers are stacked, and
//! when the pywal colours need reloading.

use vstd::prelude::*;
use crate::config::Config;
use crate::dock::half;

verus! {

/// The sizes the stylesheet is written with.
#[derive(Debug, Clone, Copy, PartialEq, Eq, Structural)]
pub struct CssParams {
    pub radius: i32,
    pub padding: i32,
    pub btn_padding: i32,
    pub btn_radius: i32,
    pub ws_radius: i32,
    pub preview_radius: i32,
    pub card_radius: i32,
    pub card_min_w: i32,
    pub thumb_min_h: i32,
    pub thumb_min_w: i32,
}

/// The larger of two integers.
pub open spec fn max_int(a: int, b: int) -> int {
    if a >= b {
        a
    } else {
        b
    }
}

/// The stylesheet's sizes for a dock with this corner radius and padding:
/// buttons get half the padding and a radius 2 smaller, workspace buttons
/// at least 4, the preview a radius 4 larger, its cards 6 larger but at
/// least 16; compact previews use narrower cards and lower thumbnails.
pub open spec fn spec_css_params(radius: i32, padding: i32, compact: bool) -> CssParams {
    CssParams {
        radius,
        padding,
        btn_padding: half(padding as int) as i32,
        btn_radius: (radius - 2) as i32,
        ws_radius: max_int(radius - 2, 4) as i32,
        preview_radius: (radius + 4) as i32,
        card_radius: max_int(radius + 6, 16) as i32,
        card_min_w: if compact {
            200
        } else {
            260
        },
        thumb_min_h: if compact {
            108
        } else {
            160
        },
        thumb_min_w: if compact {
            200
        } else {
            260
        },
    }
}

/// The stylesheet's sizes for a configuration (whose radius leaves room
/// for the sums above).
pub fn css_params(config: &Config) -> (p: CssParams)
    requires
        i32::MIN + 2 <= config.radius <= i32::MAX - 6,
    ensures
        p == spec_css_params(config.radius, config.padding, config.compact_preview),
{
    let radius = config.radius;
    let padding = config.padding;
    let compact = config.compact_preview;
    let btn_radius = radius - 2;
    let card = radius + 6;
    CssParams {
        radius,
        padding,
        btn_padding: padding / 2,
        btn_radius,
        ws_radius: if btn_radius >= 4 { btn_radius } else { 4 },
        preview_radius: radius + 4,
        card_radius: if card >= 16 { card } else { 16 },
        card_min_w: if compact { 200 } else { 260 },
        thumb_min_h: if compact { 108 } else { 160 },
        thumb_min_w: if compact { 200 } else { 260 },
    }
}

/// Whether the configuration's radius leaves room for the sums of
/// `css_params`.
pub fn css_radius_fits(config: &Config) -> (b: bool)
    ensures
        b == (i32::MIN + 2 <= config.radius <= i32::MAX - 6),
{
    config.radius >= i32::MIN + 2 && config.radius <= i32::MAX - 6
}

/// The theme's stylesheet, relative to the configuration directory.
pub open spec fn spec_theme_css_path(theme: Seq<char>) -> Seq<char> {
    "rust-dock/themes/"@ + theme + "/style.css"@
}

/// The theme's stylesheet, relative to the configuration directory.
pub fn theme_css_path(theme: &str) -> (r: String)
    ensures
        r@ == spec_theme_css_path(theme@),
{
    let mut v = crate::text::chars_of("rust-dock/themes/");
    crate::text::append_chars(&mut v, &crate::text::chars_of(theme));
    crate::text::append_chars(&mut v, &crate::text::chars_of("/style.css"));
    crate::text::string_of(&v)
}

/// The stylesheet: the fallback palette, then the pywal colours, the
/// dock's own rules, the user's stylesheet and the theme's, each later
/// layer overriding the earlier ones; a layer that could not be read is
/// left out.
pub open spec fn spec_stylesheet(
    palette: Seq<char>,
    pywal: Option<Seq<char>>,
    rules: Seq<char>,
    user: Option<Seq<char>>,
    theme: Option<Seq<char>>,
) -> Seq<char> {
    let or_empty = |o: Option<Seq<char>>|
        match o {
            Some(x) => x,
            None => Seq::<char>::empty(),
        };
    palette + or_empty(pywal) + rules + or_empty(user) + or_empty(theme)
}

/// The stylesheet assembled from its layers.
pub fn stylesheet(
    palette: &str,
    pywal: &Option<String>,
    rules: &str,
    user: &Option<String>,
    theme: &Option<String>,
) -> (r: String)
    ensures
        r@ == spec_stylesheet(
            palette@,
            crate::config::sv(*pywal),
            rules@,
            crate::config::sv(*user),
            crate::config::sv(*theme),
        ),
{
    let mut v = crate::text::chars_of(palette);
    if let Some(p) = pywal {
        crate::text::append_chars(&mut v, &crate::text::chars_of(p.as_str()));
    }
    crate::text::append_chars(&mut v, &crate::text::chars_of(rules));
    if let Some(u) = user {
        crate::text::append_chars(&mut v, &crate::text::chars_of(u.as_str()));
    }
    if let Some(t) = theme {
        crate::text::append_chars(&mut v, &crate::text::chars_of(t.as_str()));
    }
    proof {
        assert(v@ =~= spec_stylesheet(
            palette@,
            crate::config::sv(*pywal),
            rules@,
            crate::config::sv(*user),
            crate::config::sv(*theme),
        ));
    }
    crate::text::string_of(&v)
}

/// A modification time: seconds and nanoseconds since the epoch.
pub type FileTime = (u64, u32);

/// Remembers when the pywal colours file was last seen modified.
pub struct PywalWatch {
    pub last: Option<FileTime>,
}

/// Whether a look at the file reports a change, and what is remembered
/// after it: a time not seen last time is a change, and is remembered; no
/// time (the file cannot be read) is none.
pub open spec fn spec_pywal_look(last: Option<FileTime>, mtime: Option<FileTime>) -> (bool, Option<FileTime>) {
    if mtime is Some && last != mtime {
        (true, mtime)
    } else {
        (false, last)
    }
}

impl PywalWatch {
    /// A watch that has seen nothing yet.
    pub fn new() -> (w: PywalWatch)
        ensures
            w.last is None,
    {
        PywalWatch { last: None }
    }

    /// Whether the file changed since the last look, given its modification
    /// time now (`None` when it cannot be read).
    pub fn changed(&mut self, mtime: Option<FileTime>) -> (r: bool)
        ensures
            (r, final(self).last) == spec_pywal_look(old(self).last, mtime),
    {
        match mtime {
            None => false,
            Some(t) => {
                let same = match self.last {
                    Some(l) => l.0 == t.0 && l.1 == t.1,
                    None => false,
                };
                if same {
                    false
                } else {
                    self.last = Some(t);
                    true
                }
            },
        }
    }
}

/// A change is reported once: looking again at the same time reports none.
pub proof fn law_pywal_change_reported_once(last: Option<FileTime>, t: FileTime)
    ensures
        !spec_pywal_look(spec_pywal_look(last, Some(t)).1, Some(t)).0,
{
}

} // verus!
