//! The dock's settings: defaults, the INI file, the list of pinned apps
//! and its file, and the ranges every setting is held to.

use vstd::prelude::*;
use crate::text::{
    chars_eq, chars_of, first_index, lemma_first_index, lemma_split_nonempty, non_empty,
    parse_bool, parse_i32, spec_parse_bool, spec_parse_i32, split_chars, split_seq, string_of,
    trim, trim_chars, views, Separator,
};

verus! {

/// The characters of an optional string.
pub open spec fn sv(o: Option<String>) -> Option<Seq<char>> {
    match o {
        Some(s) => Some(s@),
        None => None,
    }
}

/// The characters of each string of a list.
pub open spec fn svs(v: Seq<String>) -> Seq<Seq<char>> {
    v.map_values(|x: String| x@)
}

/// The dock's settings (the background opacity, a float, is kept beside
/// them by the application).
#[derive(Debug, Clone)]
pub struct Config {
    pub current_theme: String,
    pub position: String,
    pub icon_size: i32,
    pub padding: i32,
    pub spacing: i32,
    pub radius: i32,
    pub full_screen: bool,
    pub exclusive_zone: bool,
    pub layer: String,
    pub output: Option<String>,
    pub launcher_command: String,
    pub style: Option<String>,
    pub margin_bottom: i32,
    pub margin_left: i32,
    pub margin_right: i32,
    pub margin_top: i32,
    pub no_launcher: bool,
    pub pinned_apps: Vec<String>,
    pub smart_view: bool,
    pub auto_hide_delay: i32,
    pub system_gap_used: bool,
    pub margin: i32,
    pub show_delay: i32,
    pub hide_delay: i32,
    pub move_delay: i32,
    pub compact_preview: bool,
    pub sort_running_apps: bool,
}

/// The abstract value of a `Config`.
pub struct ConfigView {
    pub current_theme: Seq<char>,
    pub position: Seq<char>,
    pub icon_size: i32,
    pub padding: i32,
    pub spacing: i32,
    pub radius: i32,
    pub full_screen: bool,
    pub exclusive_zone: bool,
    pub layer: Seq<char>,
    pub output: Option<Seq<char>>,
    pub launcher_command: Seq<char>,
    pub style: Option<Seq<char>>,
    pub margin_bottom: i32,
    pub margin_left: i32,
    pub margin_right: i32,
    pub margin_top: i32,
    pub no_launcher: bool,
    pub pinned_apps: Seq<Seq<char>>,
    pub smart_view: bool,
    pub auto_hide_delay: i32,
    pub system_gap_used: bool,
    pub margin: i32,
    pub show_delay: i32,
    pub hide_delay: i32,
    pub move_delay: i32,
    pub compact_preview: bool,
    pub sort_running_apps: bool,
}

impl View for Config {
    type V = ConfigView;

    open spec fn view(&self) -> ConfigView {
        ConfigView {
            current_theme: self.current_theme@,
            position: self.position@,
            icon_size: self.icon_size,
            padding: self.padding,
            spacing: self.spacing,
            radius: self.radius,
            full_screen: self.full_screen,
            exclusive_zone: self.exclusive_zone,
            layer: self.layer@,
            output: sv(self.output),
            launcher_command: self.launcher_command@,
            style: sv(self.style),
            margin_bottom: self.margin_bottom,
            margin_left: self.margin_left,
            margin_right: self.margin_right,
            margin_top: self.margin_top,
            no_launcher: self.no_launcher,
            pinned_apps: svs(self.pinned_apps@),
            smart_view: self.smart_view,
            auto_hide_delay: self.auto_hide_delay,
            system_gap_used: self.system_gap_used,
            margin: self.margin,
            show_delay: self.show_delay,
            hide_delay: self.hide_delay,
            move_delay: self.move_delay,
            compact_preview: self.compact_preview,
            sort_running_apps: self.sort_running_apps,
        }
    }
}

/// The settings before any file is read.
pub open spec fn default_config() -> ConfigView {
    ConfigView {
        current_theme: "lotos"@,
        position: "bottom"@,
        icon_size: 23,
        padding: 2,
        spacing: 4,
        radius: 10,
        full_screen: false,
        exclusive_zone: true,
        layer: "top"@,
        output: None,
        launcher_command: Seq::<char>::empty(),
        style: None,
        margin_bottom: 0,
        margin_left: 0,
        margin_right: 0,
        margin_top: 0,
        no_launcher: true,
        pinned_apps: Seq::<Seq<char>>::empty(),
        smart_view: false,
        auto_hide_delay: 400,
        system_gap_used: false,
        margin: 8,
        show_delay: 20,
        hide_delay: 120,
        move_delay: 30,
        compact_preview: false,
        sort_running_apps: false,
    }
}

impl Config {
    /// The settings before any file is read.
    pub fn defaults() -> (c: Config)
        ensures
            c@ == default_config(),
    {
        let c = Config {
            current_theme: "lotos".to_owned(),
            position: "bottom".to_owned(),
            icon_size: 23,
            padding: 2,
            spacing: 4,
            radius: 10,
            full_screen: false,
            exclusive_zone: true,
            layer: "top".to_owned(),
            output: None,
            launcher_command: String::new(),
            style: None,
            margin_bottom: 0,
            margin_left: 0,
            margin_right: 0,
            margin_top: 0,
            no_launcher: true,
            pinned_apps: Vec::new(),
            smart_view: false,
            auto_hide_delay: 400,
            system_gap_used: false,
            margin: 8,
            show_delay: 20,
            hide_delay: 120,
            move_delay: 30,
            compact_preview: false,
            sort_running_apps: false,
        };
        assert(svs(c.pinned_apps@) =~= Seq::<Seq<char>>::empty());
        c
    }
}

// ── Ranges ──────────────────────────────────────────────────────────────

/// `i32::clamp`.
pub open spec fn clamp(v: i32, lo: i32, hi: i32) -> i32 {
    if v < lo {
        lo
    } else if v > hi {
        hi
    } else {
        v
    }
}

/// The positions a dock can take.
pub open spec fn valid_position(p: Seq<char>) -> bool {
    p == "top"@ || p == "bottom"@ || p == "left"@ || p == "right"@
}

/// The layer-shell layers a dock can use.
pub open spec fn valid_layer(l: Seq<char>) -> bool {
    l == "top"@ || l == "bottom"@ || l == "overlay"@ || l == "background"@
}

/// `c` with every setting brought into its range: sizes and delays
/// clamped, an unknown position replaced by `bottom`, an unknown layer by
/// `top`.
pub open spec fn clamped(c: ConfigView) -> ConfigView {
    ConfigView {
        icon_size: clamp(c.icon_size, 8, 128),
        padding: clamp(c.padding, 0, 64),
        radius: clamp(c.radius, 0, 40),
        margin: clamp(c.margin, 0, 200),
        show_delay: clamp(c.show_delay, 0, 5000),
        hide_delay: clamp(c.hide_delay, 0, 5000),
        move_delay: clamp(c.move_delay, 0, 2000),
        position: if valid_position(c.position) {
            c.position
        } else {
            "bottom"@
        },
        layer: if valid_layer(c.layer) {
            c.layer
        } else {
            "top"@
        },
        ..c
    }
}

/// Every setting is within its range.
pub open spec fn in_range(c: ConfigView) -> bool {
    &&& 8 <= c.icon_size <= 128
    &&& 0 <= c.padding <= 64
    &&& 0 <= c.radius <= 40
    &&& 0 <= c.margin <= 200
    &&& 0 <= c.show_delay <= 5000
    &&& 0 <= c.hide_delay <= 5000
    &&& 0 <= c.move_delay <= 2000
    &&& valid_position(c.position)
    &&& valid_layer(c.layer)
}

/// Clamping puts every setting in range and keeps a setting already in
/// range: clamping twice is clamping once.
pub proof fn law_clamp_in_range_and_idempotent(c: ConfigView)
    ensures
        in_range(clamped(c)),
        clamped(clamped(c)) == clamped(c),
        in_range(c) ==> clamped(c) == c,
{
}

fn clamp_i32(v: i32, lo: i32, hi: i32) -> (r: i32)
    requires
        lo <= hi,
    ensures
        r == clamp(v, lo, hi),
{
    if v < lo {
        lo
    } else if v > hi {
        hi
    } else {
        v
    }
}

/// Whether `s` is one of the given words.
fn is_one_of(s: &String, options: &Vec<&str>) -> (b: bool)
    ensures
        b == exists|i: int| 0 <= i < options.len() && s@ == #[trigger] options@[i]@,
{
    let cs = chars_of(s.as_str());
    let mut i: usize = 0;
    while i < options.len()
        invariant
            i <= options.len(),
            cs@ == s@,
            forall|k: int| 0 <= k < i ==> s@ != #[trigger] options@[k]@,
        decreases options.len() - i,
    {
        if chars_eq(&cs, &chars_of(options[i])) {
            return true;
        }
        i = i + 1;
    }
    false
}

impl Config {
    /// Brings every setting into its range (see `clamped`).
    pub fn validate_and_clamp(&mut self)
        ensures
            final(self)@ == clamped(old(self)@),
    {
        self.icon_size = clamp_i32(self.icon_size, 8, 128);
        self.padding = clamp_i32(self.padding, 0, 64);
        self.radius = clamp_i32(self.radius, 0, 40);
        self.margin = clamp_i32(self.margin, 0, 200);
        self.show_delay = clamp_i32(self.show_delay, 0, 5000);
        self.hide_delay = clamp_i32(self.hide_delay, 0, 5000);
        self.move_delay = clamp_i32(self.move_delay, 0, 2000);
        let positions = vec!["top", "bottom", "left", "right"];
        if !is_one_of(&self.position, &positions) {
            self.position = "bottom".to_owned();
        }
        let layers = vec!["top", "bottom", "overlay", "background"];
        if !is_one_of(&self.layer, &layers) {
            self.layer = "top".to_owned();
        }
        proof {
            let p = old(self)@.position;
            if p == "top"@ {
                assert(positions@[0]@ == p);
            } else if p == "bottom"@ {
                assert(positions@[1]@ == p);
            } else if p == "left"@ {
                assert(positions@[2]@ == p);
            } else if p == "right"@ {
                assert(positions@[3]@ == p);
            }
            let l = old(self)@.layer;
            if l == "top"@ {
                assert(layers@[0]@ == l);
            } else if l == "bottom"@ {
                assert(layers@[1]@ == l);
            } else if l == "overlay"@ {
                assert(layers@[2]@ == l);
            } else if l == "background"@ {
                assert(layers@[3]@ == l);
            }
        }
    }
}

// ── Pinned apps ─────────────────────────────────────────────────────────

/// Whether an entry is `id`.
pub open spec fn eq_to(id: Seq<char>) -> spec_fn(Seq<char>) -> bool {
    |x: Seq<char>| x == id
}

/// The list after pinning `id`: appended unless already there.
pub open spec fn spec_pin(s: Seq<Seq<char>>, id: Seq<char>) -> Seq<Seq<char>> {
    if s.contains(id) {
        s
    } else {
        s.push(id)
    }
}

/// The list without any entry equal to `id`, in the same order.
pub open spec fn remove_all(s: Seq<Seq<char>>, id: Seq<char>) -> Seq<Seq<char>>
    decreases s.len(),
{
    if s.len() == 0 {
        s
    } else {
        let r = remove_all(s.drop_last(), id);
        if s.last() == id {
            r
        } else {
            r.push(s.last())
        }
    }
}

/// The list after dragging `dragged` onto `target`: when they differ and
/// both are pinned, the first `dragged` is taken out and put back at the
/// index where the first `target` was; otherwise nothing changes.
pub open spec fn spec_reorder(s: Seq<Seq<char>>, dragged: Seq<char>, target: Seq<char>) -> Seq<
    Seq<char>,
> {
    if dragged == target {
        s
    } else {
        match (first_index(s, eq_to(dragged)), first_index(s, eq_to(target))) {
            (Some(from), Some(to)) => s.remove(from).insert(to, dragged),
            _ => s,
        }
    }
}

/// The index of the first entry equal to `key`.
fn position(v: &Vec<String>, key: &Vec<char>) -> (r: Option<usize>)
    ensures
        match r {
            Some(i) => first_index(svs(v@), eq_to(key@)) == Some(i as int),
            None => first_index(svs(v@), eq_to(key@)) is None,
        },
{
    let ghost sv = svs(v@);
    let ghost p = eq_to(key@);
    let mut i: usize = 0;
    while i < v.len()
        invariant
            i <= v.len(),
            sv == svs(v@),
            p == eq_to(key@),
            forall|k: int| 0 <= k < i ==> !p(#[trigger] sv[k]),
        decreases v.len() - i,
    {
        let hit = chars_eq(&chars_of(v[i].as_str()), key);
        assert(hit == p(sv[i as int]));
        if hit {
            proof {
                lemma_first_index(sv, p);
            }
            return Some(i);
        }
        i = i + 1;
    }
    proof {
        lemma_first_index(sv, p);
    }
    None
}

/// Two configurations that differ at most in their pinned list.
pub open spec fn same_but_pinned(a: ConfigView, b: ConfigView) -> bool {
    a == ConfigView { pinned_apps: a.pinned_apps, ..b }
}

impl Config {
    /// Pins an app; says whether the list changed (and must be saved).
    pub fn pin_app(&mut self, app_id: &str) -> (changed: bool)
        ensures
            final(self)@.pinned_apps == spec_pin(old(self)@.pinned_apps, app_id@),
            changed == !old(self)@.pinned_apps.contains(app_id@),
            same_but_pinned(final(self)@, old(self)@),
    {
        let key = chars_of(app_id);
        let found = position(&self.pinned_apps, &key);
        proof {
            lemma_first_index(svs(self.pinned_apps@), eq_to(app_id@));
        }
        match found {
            Some(i) => {
                assert(svs(self.pinned_apps@)[i as int] == app_id@);
                false
            },
            None => {
                let ghost before = self.pinned_apps@;
                let id = app_id.to_owned();
                self.pinned_apps.push(id);
                assert(svs(self.pinned_apps@) =~= svs(before).push(app_id@));
                true
            },
        }
    }

    /// Unpins every entry equal to `app_id`, keeping the others in order.
    pub fn unpin_app(&mut self, app_id: &str)
        ensures
            final(self)@.pinned_apps == remove_all(old(self)@.pinned_apps, app_id@),
            same_but_pinned(final(self)@, old(self)@),
    {
        let key = chars_of(app_id);
        let mut kept: Vec<String> = Vec::new();
        let ghost sv = svs(self.pinned_apps@);
        let mut i: usize = 0;
        assert(sv.take(0) =~= Seq::<Seq<char>>::empty());
        while i < self.pinned_apps.len()
            invariant
                i <= self.pinned_apps.len(),
                sv == svs(self.pinned_apps@),
                key@ == app_id@,
                svs(kept@) == remove_all(sv.take(i as int), app_id@),
            decreases self.pinned_apps.len() - i,
        {
            assert(sv.take(i as int + 1).drop_last() =~= sv.take(i as int));
            assert(sv.take(i as int + 1).last() == sv[i as int]);
            if !chars_eq(&chars_of(self.pinned_apps[i].as_str()), &key) {
                let ghost before = kept@;
                let x = self.pinned_apps[i].clone();
                kept.push(x);
                assert(svs(kept@) =~= svs(before).push(sv[i as int]));
            }
            i = i + 1;
        }
        assert(sv.take(self.pinned_apps.len() as int) =~= sv);
        self.pinned_apps = kept;
    }

    /// Move `dragged` to the slot currently occupied by `target` (for drag
    /// & drop reordering of pinned apps); says whether the list changed
    /// (and must be saved).
    pub fn reorder_pinned(&mut self, dragged: &str, target: &str) -> (changed: bool)
        ensures
            final(self)@.pinned_apps == spec_reorder(old(self)@.pinned_apps, dragged@, target@),
            changed == (dragged@ != target@ && old(self)@.pinned_apps.contains(dragged@)
                && old(self)@.pinned_apps.contains(target@)),
            same_but_pinned(final(self)@, old(self)@),
    {
        let d = chars_of(dragged);
        let t = chars_of(target);
        let ghost s = svs(self.pinned_apps@);
        proof {
            lemma_first_index(s, eq_to(dragged@));
            lemma_first_index(s, eq_to(target@));
            if s.contains(dragged@) {
                let k = choose|k: int| 0 <= k < s.len() && s[k] == dragged@;
                assert(eq_to(dragged@)(s[k]));
            }
            if s.contains(target@) {
                let k = choose|k: int| 0 <= k < s.len() && s[k] == target@;
                assert(eq_to(target@)(s[k]));
            }
        }
        if chars_eq(&d, &t) {
            return false;
        }
        let from = match position(&self.pinned_apps, &d) {
            Some(i) => i,
            None => return false,
        };
        let to_orig = match position(&self.pinned_apps, &t) {
            Some(i) => i,
            None => return false,
        };
        assert(s[from as int] == dragged@);
        assert(s[to_orig as int] == target@);
        let ghost rv = self.pinned_apps@;
        let item = self.pinned_apps.remove(from);
        let ghost s2 = svs(self.pinned_apps@);
        assert(s2 =~= s.remove(from as int));
        let to = match position(&self.pinned_apps, &t) {
            Some(i) => i,
            None => self.pinned_apps.len(),
        };
        proof {
            lemma_first_index(s2, eq_to(target@));
            if from < to_orig {
                assert(s2[to_orig - 1] == s[to_orig as int]);
                assert forall|k: int| 0 <= k < to_orig - 1 implies !eq_to(target@)(s2[k]) by {
                    if k < from {
                        assert(s2[k] == s[k]);
                    } else {
                        assert(s2[k] == s[k + 1]);
                    }
                }
                assert(eq_to(target@)(s2[to_orig - 1]));
                assert(to == to_orig - 1);
            } else {
                assert(s2[to_orig as int] == s[to_orig as int]);
                assert forall|k: int| 0 <= k < to_orig implies !eq_to(target@)(s2[k]) by {
                    assert(s2[k] == s[k]);
                }
                assert(eq_to(target@)(s2[to_orig as int]));
                assert(to == to_orig);
            }
        }
        let insert_at = if from < to_orig { to + 1 } else { to };
        let len = self.pinned_apps.len();
        let at = if insert_at < len { insert_at } else { len };
        let ghost before = self.pinned_apps@;
        self.pinned_apps.insert(at, item);
        assert(svs(self.pinned_apps@) =~= s2.insert(to_orig as int, dragged@));
        true
    }
}

/// Pinning twice is pinning once, and a pinned app is in the list.
pub proof fn law_pin_idempotent(s: Seq<Seq<char>>, id: Seq<char>)
    ensures
        spec_pin(spec_pin(s, id), id) == spec_pin(s, id),
        spec_pin(s, id).contains(id),
{
    if !s.contains(id) {
        assert(s.push(id)[s.len() as int] == id);
    }
}

proof fn lemma_remove_all_contains(s: Seq<Seq<char>>, id: Seq<char>, x: Seq<char>)
    ensures
        remove_all(s, id).contains(x) <==> (x != id && s.contains(x)),
    decreases s.len(),
{
    if s.len() > 0 {
        let d = s.drop_last();
        lemma_remove_all_contains(d, id, x);
        let r = remove_all(d, id);
        if s.contains(x) && x != id {
            let k = choose|k: int| 0 <= k < s.len() && s[k] == x;
            if k < s.len() - 1 {
                assert(d[k] == x);
            }
        }
        if d.contains(x) {
            let k = choose|k: int| 0 <= k < d.len() && d[k] == x;
            assert(s[k] == x);
        }
        if s.last() != id {
            assert(r.push(s.last())[r.len() as int] == s.last());
            if r.push(s.last()).contains(x) {
                let k = choose|k: int| 0 <= k < r.len() + 1 && r.push(s.last())[k] == x;
                if k < r.len() {
                    assert(r[k] == x);
                }
            }
            if r.contains(x) {
                let k = choose|k: int| 0 <= k < r.len() && r[k] == x;
                assert(r.push(s.last())[k] == x);
            }
        }
    }
}

/// Unpinning removes every copy of the app and keeps every other app.
pub proof fn law_unpin_removes_only_that_app(s: Seq<Seq<char>>, id: Seq<char>, other: Seq<char>)
    requires
        other != id,
    ensures
        !remove_all(s, id).contains(id),
        remove_all(s, id).contains(other) == s.contains(other),
{
    lemma_remove_all_contains(s, id, id);
    lemma_remove_all_contains(s, id, other);
}

proof fn lemma_remove_all_absent(s: Seq<Seq<char>>, id: Seq<char>)
    requires
        !s.contains(id),
    ensures
        remove_all(s, id) == s,
    decreases s.len(),
{
    if s.len() > 0 {
        let d = s.drop_last();
        if d.contains(id) {
            let k = choose|k: int| 0 <= k < d.len() && d[k] == id;
            assert(s[k] == id);
        }
        lemma_remove_all_absent(d, id);
        assert(s.last() != id) by {
            if s.last() == id {
                assert(s[s.len() - 1] == id);
            }
        }
        assert(d.push(s.last()) =~= s);
    }
}

/// Pinning an app that was not pinned and then unpinning it gives back the
/// list as it was.
pub proof fn law_pin_then_unpin(s: Seq<Seq<char>>, id: Seq<char>)
    requires
        !s.contains(id),
    ensures
        remove_all(spec_pin(s, id), id) == s,
{
    let t = s.push(id);
    assert(t.drop_last() =~= s);
    lemma_remove_all_absent(s, id);
}

/// Reordering only moves an app: the same apps, as many times each, and
/// when it applies the dragged app lands where the target was.
pub proof fn law_reorder_permutes(s: Seq<Seq<char>>, dragged: Seq<char>, target: Seq<char>)
    ensures
        spec_reorder(s, dragged, target).len() == s.len(),
        spec_reorder(s, dragged, target).to_multiset() == s.to_multiset(),
        dragged != target && s.contains(dragged) && s.contains(target) ==> spec_reorder(
            s,
            dragged,
            target,
        )[first_index(s, eq_to(target)).unwrap()] == dragged,
{
    broadcast use vstd::seq_lib::group_to_multiset_ensures;
    lemma_first_index(s, eq_to(dragged));
    lemma_first_index(s, eq_to(target));
    if s.contains(dragged) {
        let k = choose|k: int| 0 <= k < s.len() && s[k] == dragged;
        assert(eq_to(dragged)(s[k]));
    }
    if s.contains(target) {
        let k = choose|k: int| 0 <= k < s.len() && s[k] == target;
        assert(eq_to(target)(s[k]));
    }
    if dragged != target {
        match (first_index(s, eq_to(dragged)), first_index(s, eq_to(target))) {
            (Some(from), Some(to)) => {
                let x = s.remove(from);
                let y = x.insert(to, dragged);
                assert(x.to_multiset() =~= s.to_multiset().remove(dragged));
                assert(y.remove(to) =~= x);
                assert(y[to] == dragged);
                assert(y.remove(to).to_multiset() =~= y.to_multiset().remove(dragged));
                assert(y.to_multiset().count(dragged) > 0) by {
                    assert(y.contains(dragged));
                }
                assert(s.to_multiset().count(dragged) > 0) by {
                    assert(s.contains(dragged));
                }
                assert(y.to_multiset() =~= s.to_multiset());
            },
            _ => {},
        }
    }
}

// ── Lists in text ───────────────────────────────────────────────────────

/// Each piece trimmed.
pub open spec fn trims(ps: Seq<Seq<char>>) -> Seq<Seq<char>> {
    ps.map_values(|p: Seq<char>| trim(p))
}

/// The entries of a `sep`-separated list: pieces trimmed, empty ones
/// dropped (`split(sep).map(trim).filter(non-empty)`).
pub open spec fn list_entries(text: Seq<char>, sep: char) -> Seq<Seq<char>> {
    non_empty(trims(split_seq(text, Separator::Char(sep))))
}

/// The entries of a `sep`-separated list.
pub fn list_entries_of(text: &str, sep: char) -> (r: Vec<String>)
    ensures
        svs(r@) == list_entries(text@, sep),
{
    let pieces = split_chars(&chars_of(text), Separator::Char(sep));
    let ghost tv = trims(views(pieces@));
    let mut r: Vec<String> = Vec::new();
    let mut i: usize = 0;
    assert(tv.take(0) =~= Seq::<Seq<char>>::empty());
    while i < pieces.len()
        invariant
            i <= pieces.len(),
            tv == trims(views(pieces@)),
            svs(r@) == non_empty(tv.take(i as int)),
        decreases pieces.len() - i,
    {
        assert(tv.take(i as int + 1).drop_last() =~= tv.take(i as int));
        assert(tv.take(i as int + 1).last() == trim(pieces@[i as int]@));
        let t = trim_chars(&pieces[i]);
        if t.len() > 0 {
            let ghost before = r@;
            let e = string_of(&t);
            r.push(e);
            assert(svs(r@) =~= svs(before).push(t@));
        }
        i = i + 1;
    }
    assert(tv.take(pieces.len() as int) =~= tv);
    assert(tv =~= trims(split_seq(text@, Separator::Char(sep))));
    r
}

/// The pinned file as it is written: one app per line.
pub open spec fn pinned_file(l: Seq<Seq<char>>) -> Seq<char>
    decreases l.len(),
{
    if l.len() == 0 {
        Seq::<char>::empty()
    } else {
        pinned_file(l.drop_last()) + l.last() + seq!['\n']
    }
}

impl Config {
    /// The contents of the pinned file for the current list.
    pub fn pinned_file_text(&self) -> (r: String)
        ensures
            r@ == pinned_file(svs(self.pinned_apps@)),
    {
        let ghost sv = svs(self.pinned_apps@);
        let mut out: Vec<char> = Vec::new();
        let mut i: usize = 0;
        assert(sv.take(0) =~= Seq::<Seq<char>>::empty());
        while i < self.pinned_apps.len()
            invariant
                i <= self.pinned_apps.len(),
                sv == svs(self.pinned_apps@),
                out@ == pinned_file(sv.take(i as int)),
            decreases self.pinned_apps.len() - i,
        {
            assert(sv.take(i as int + 1).drop_last() =~= sv.take(i as int));
            assert(sv.take(i as int + 1).last() == sv[i as int]);
            crate::text::append_chars(&mut out, &chars_of(self.pinned_apps[i].as_str()));
            out.push('\n');
            i = i + 1;
        }
        assert(sv.take(self.pinned_apps.len() as int) =~= sv);
        string_of(&out)
    }

    /// Takes the pinned list from the pinned file, which wins over the INI:
    /// `None` when there is no such file (nothing changes), `Some(None)`
    /// when it exists but cannot be read (the list is emptied), otherwise
    /// its non-blank lines, trimmed.
    pub fn load_pinned_apps(&mut self, file: Option<Option<String>>)
        ensures
            final(self)@ == with_pinned_file(old(self)@, match file {
                Some(Some(t)) => Some(Some(t@)),
                Some(None) => Some(None),
                None => None,
            }),
    {
        match file {
            None => {},
            Some(None) => {
                self.pinned_apps = Vec::new();
                assert(svs(self.pinned_apps@) =~= Seq::<Seq<char>>::empty());
            },
            Some(Some(t)) => {
                self.pinned_apps = list_entries_of(t.as_str(), '\n');
            },
        }
    }
}

/// The configuration after the pinned file is taken into account.
pub open spec fn with_pinned_file(c: ConfigView, file: Option<Option<Seq<char>>>) -> ConfigView {
    match file {
        None => c,
        Some(None) => ConfigView { pinned_apps: Seq::<Seq<char>>::empty(), ..c },
        Some(Some(t)) => ConfigView { pinned_apps: list_entries(t, '\n'), ..c },
    }
}

proof fn lemma_split_pinned_file(l: Seq<Seq<char>>)
    requires
        forall|i: int| 0 <= i < l.len() ==> !(#[trigger] l[i]).contains('\n'),
    ensures
        split_seq(pinned_file(l), Separator::Char('\n')) == l.push(Seq::<char>::empty()),
    decreases l.len(),
{
    let sep = Separator::Char('\n');
    if l.len() == 0 {
        assert(split_seq(Seq::<char>::empty(), sep) =~= seq![Seq::<char>::empty()]);
        assert(l.push(Seq::<char>::empty()) =~= seq![Seq::<char>::empty()]);
    } else {
        let d = l.drop_last();
        assert forall|i: int| 0 <= i < d.len() implies !(#[trigger] d[i]).contains('\n') by {
            assert(d[i] == l[i]);
        }
        lemma_split_pinned_file(d);
        let e = l.last();
        assert(!e.contains('\n')) by {
            assert(l[l.len() - 1] == e);
        }
        let base = pinned_file(d);
        assert(crate::text::no_separator(e, sep)) by {
            assert forall|k: int| 0 <= k < e.len() implies !crate::text::separates(sep, #[trigger] e[k]) by {
                if e[k] == '\n' {
                    assert(e.contains('\n'));
                }
            }
        }
        crate::text::lemma_split_append_plain(base, e, sep);
        let p = split_seq(base, sep);
        assert(p.last() + e =~= e);
        let q = p.update(p.len() - 1, e);
        assert(q =~= l);
        let whole = base + e + seq!['\n'];
        assert(whole.drop_last() =~= base + e);
        assert(whole.last() == '\n');
        assert(pinned_file(l) == whole);
    }
}

proof fn lemma_trim_empty()
    ensures
        trim(Seq::<char>::empty()) == Seq::<char>::empty(),
{
    assert(crate::text::trim_start(Seq::<char>::empty()) == Seq::<char>::empty());
}

proof fn lemma_entries_clean(l: Seq<Seq<char>>)
    requires
        forall|i: int| 0 <= i < l.len() ==> (#[trigger] l[i]).len() > 0 && trim(l[i]) == l[i],
    ensures
        non_empty(trims(l.push(Seq::<char>::empty()))) == l,
        non_empty(trims(l)) == l,
    decreases l.len(),
{
    lemma_trim_empty();
    let e = Seq::<char>::empty();
    assert(trims(l.push(e)).drop_last() =~= trims(l));
    assert(trims(l.push(e)).last() == trim(e));
    if l.len() > 0 {
        let d = l.drop_last();
        assert forall|i: int| 0 <= i < d.len() implies (#[trigger] d[i]).len() > 0 && trim(d[i])
            == d[i] by {
            assert(d[i] == l[i]);
        }
        lemma_entries_clean(d);
        assert(trims(l).drop_last() =~= trims(d));
        assert(trims(l).last() == trim(l.last()));
        assert(l.last() == l[l.len() - 1]);
        assert(d.push(l.last()) =~= l);
    } else {
        assert(trims(l) =~= Seq::<Seq<char>>::empty());
    }
    let x = trims(l.push(e));
    assert(x.len() == l.len() + 1);
    assert(x.last().len() == 0);
    assert(non_empty(x) == non_empty(x.drop_last()));
}

/// Saving the pinned list and reading the file back gives the same list,
/// for apps that are non-empty, have no surrounding whitespace and no line
/// break (as the ids the dock pins have).
pub proof fn law_pinned_file_round_trip(l: Seq<Seq<char>>)
    requires
        forall|i: int|
            0 <= i < l.len() ==> (#[trigger] l[i]).len() > 0 && trim(l[i]) == l[i] && !l[i].contains(
                '\n',
            ),
    ensures
        list_entries(pinned_file(l), '\n') == l,
{
    lemma_split_pinned_file(l);
    lemma_entries_clean(l);
}

// ── The INI file ────────────────────────────────────────────────────────

/// What `ini::Ini::load_from_str(text)`, then `section(Some(section))`,
/// then `get(key)` gives: the value of the first `key` in the first
/// `[section]` of the INI text, `None` when the text does not parse or
/// holds no such key.
pub uninterp spec fn ini_value(text: Seq<char>, section: Seq<char>, key: Seq<char>) -> Option<
    Seq<char>,
>;

/// `ini::Ini::load_from_str` and `Properties::get`: the value of `key` in
/// `[section]`. The result is a function of the three strings.
#[verifier::external_body]
fn ini_lookup(text: &str, section: &str, key: &str) -> (r: Option<String>)
    ensures
        sv(r) == ini_value(text@, section@, key@),
{
    ini::Ini::load_from_str(text).ok().and_then(
        |ini| ini.section(Some(section)).and_then(|p| p.get(key)).map(|v| v.to_string()),
    )
}

/// An integer setting: unchanged when the key is absent, `fallback` when
/// its value is not an `i32`.
pub open spec fn opt_int(v: Option<Seq<char>>, cur: i32, fallback: i32) -> i32 {
    match v {
        None => cur,
        Some(s) => match spec_parse_i32(s) {
            Some(n) => n,
            None => fallback,
        },
    }
}

/// A boolean setting: unchanged when the key is absent, `fallback` when
/// its value is neither `true` nor `false`.
pub open spec fn opt_bool(v: Option<Seq<char>>, cur: bool, fallback: bool) -> bool {
    match v {
        None => cur,
        Some(s) => match spec_parse_bool(s) {
            Some(b) => b,
            None => fallback,
        },
    }
}

/// A string setting: unchanged when the key is absent.
pub open spec fn opt_str(v: Option<Seq<char>>, cur: Seq<char>) -> Seq<char> {
    match v {
        None => cur,
        Some(s) => s,
    }
}

/// A key of `[General]`.
pub open spec fn gen(text: Seq<char>, key: Seq<char>) -> Option<Seq<char>> {
    ini_value(text, "General"@, key)
}

/// A key of `[General.preview]`.
pub open spec fn prev(text: Seq<char>, key: Seq<char>) -> Option<Seq<char>> {
    ini_value(text, "General.preview"@, key)
}

/// The settings the INI text gives, over the defaults. Keys of
/// `[General]`, `[General.preview]` and `[Theme]` set the matching
/// setting; the `Apps` of `[PinnedApps]` (comma-separated) set the pinned
/// list when it names at least one app.
pub open spec fn ini_config(text: Seq<char>) -> ConfigView {
    let d = default_config();
    let apps = match ini_value(text, "PinnedApps"@, "Apps"@) {
        Some(a) => list_entries(a, ','),
        None => Seq::<Seq<char>>::empty(),
    };
    ConfigView {
        current_theme: opt_str(gen(text, "CurrentTheme"@), d.current_theme),
        icon_size: opt_int(gen(text, "IconSize"@), 23, 23),
        position: opt_str(gen(text, "Position"@), d.position),
        exclusive_zone: opt_bool(gen(text, "Exclusive"@), true, true),
        smart_view: opt_bool(gen(text, "SmartView"@), false, false),
        auto_hide_delay: opt_int(gen(text, "AutoHideDelay"@), 400, 400),
        system_gap_used: opt_bool(gen(text, "SystemGapUsed"@), false, true),
        margin: opt_int(gen(text, "Margin"@), 8, 8),
        padding: opt_int(gen(text, "Padding"@), 2, 4),
        radius: opt_int(gen(text, "Radius"@), 10, 10),
        output: match gen(text, "Output"@) {
            Some(v) => if trim(v).len() > 0 {
                Some(v)
            } else {
                None
            },
            None => None,
        },
        launcher_command: opt_str(gen(text, "LauncherCommand"@), d.launcher_command),
        no_launcher: opt_bool(gen(text, "NoLauncher"@), true, true),
        layer: opt_str(gen(text, "Layer"@), d.layer),
        full_screen: opt_bool(gen(text, "FullScreen"@), false, false),
        sort_running_apps: opt_bool(gen(text, "SortRunningApps"@), false, false),
        compact_preview: opt_bool(
            prev(text, "Compact"@),
            opt_bool(gen(text, "CompactPreview"@), false, false),
            false,
        ),
        show_delay: opt_int(prev(text, "ShowDelay"@), 20, 500),
        hide_delay: opt_int(prev(text, "HideDelay"@), 120, 350),
        move_delay: opt_int(prev(text, "MoveDelay"@), 30, 100),
        spacing: opt_int(ini_value(text, "Theme"@, "Spacing"@), 4, 5),
        pinned_apps: apps,
        ..d
    }
}

/// An integer setting `got` read from `key` of `[section]`: the key's
/// value when it is an `i32`, `invalid` when it is not, `absent` when the
/// key is missing.
pub open spec fn reads_int(text: Seq<char>, section: Seq<char>, key: Seq<char>, got: i32, absent: i32, invalid: i32) -> bool {
    match ini_value(text, section, key) {
        None => got == absent,
        Some(v) => match spec_parse_i32(v) {
            Some(n) => got == n,
            None => got == invalid,
        },
    }
}

/// A boolean setting `got` read from `key` of `[section]`.
pub open spec fn reads_bool(
    text: Seq<char>,
    section: Seq<char>,
    key: Seq<char>,
    got: bool,
    absent: bool,
    invalid: bool,
) -> bool {
    match ini_value(text, section, key) {
        None => got == absent,
        Some(v) => match spec_parse_bool(v) {
            Some(b) => got == b,
            None => got == invalid,
        },
    }
}

/// A text setting `got` read from `key` of `[section]`.
pub open spec fn reads_str(text: Seq<char>, section: Seq<char>, key: Seq<char>, got: Seq<char>, absent: Seq<char>) -> bool {
    match ini_value(text, section, key) {
        None => got == absent,
        Some(v) => got == v,
    }
}

/// Every setting is read from its own key of its own section: the keys of
/// `[General]` (`AutoHideDelay` among them) set the dock's settings, the
/// keys of `[General.preview]` the preview's delays (its `Compact` taking
/// precedence over `[General]`'s `CompactPreview`), `Spacing` of
/// `[Theme]` the spacing and `Apps` of `[PinnedApps]` the pinned list; a
/// missing key leaves the default, a value of the wrong kind gives the
/// setting's fallback.
pub proof fn law_settings_read_from_their_keys(text: Seq<char>)
    ensures
        reads_str(text, "General"@, "CurrentTheme"@, ini_config(text).current_theme, "lotos"@),
        reads_int(text, "General"@, "IconSize"@, ini_config(text).icon_size, 23, 23),
        reads_str(text, "General"@, "Position"@, ini_config(text).position, "bottom"@),
        reads_bool(text, "General"@, "Exclusive"@, ini_config(text).exclusive_zone, true, true),
        reads_bool(text, "General"@, "SmartView"@, ini_config(text).smart_view, false, false),
        reads_int(text, "General"@, "AutoHideDelay"@, ini_config(text).auto_hide_delay, 400, 400),
        reads_bool(text, "General"@, "SystemGapUsed"@, ini_config(text).system_gap_used, false, true),
        reads_int(text, "General"@, "Margin"@, ini_config(text).margin, 8, 8),
        reads_int(text, "General"@, "Padding"@, ini_config(text).padding, 2, 4),
        reads_int(text, "General"@, "Radius"@, ini_config(text).radius, 10, 10),
        ini_config(text).output == match ini_value(text, "General"@, "Output"@) {
            Some(v) => if trim(v).len() > 0 {
                Some(v)
            } else {
                None
            },
            None => None,
        },
        reads_str(
            text,
            "General"@,
            "LauncherCommand"@,
            ini_config(text).launcher_command,
            Seq::<char>::empty(),
        ),
        reads_bool(text, "General"@, "NoLauncher"@, ini_config(text).no_launcher, true, true),
        reads_str(text, "General"@, "Layer"@, ini_config(text).layer, "top"@),
        reads_bool(text, "General"@, "FullScreen"@, ini_config(text).full_screen, false, false),
        reads_bool(text, "General"@, "SortRunningApps"@, ini_config(text).sort_running_apps, false, false),
        ini_value(text, "General.preview"@, "Compact"@) is None ==> reads_bool(
            text,
            "General"@,
            "CompactPreview"@,
            ini_config(text).compact_preview,
            false,
            false,
        ),
        ini_value(text, "General.preview"@, "Compact"@) is Some ==> reads_bool(
            text,
            "General.preview"@,
            "Compact"@,
            ini_config(text).compact_preview,
            false,
            false,
        ),
        reads_int(text, "General.preview"@, "ShowDelay"@, ini_config(text).show_delay, 20, 500),
        reads_int(text, "General.preview"@, "HideDelay"@, ini_config(text).hide_delay, 120, 350),
        reads_int(text, "General.preview"@, "MoveDelay"@, ini_config(text).move_delay, 30, 100),
        reads_int(text, "Theme"@, "Spacing"@, ini_config(text).spacing, 4, 5),
        ini_config(text).pinned_apps == match ini_value(text, "PinnedApps"@, "Apps"@) {
            Some(a) => list_entries(a, ','),
            None => Seq::<Seq<char>>::empty(),
        },
        ini_config(text).style == default_config().style,
        ini_config(text).margin_top == 0 && ini_config(text).margin_bottom == 0
            && ini_config(text).margin_left == 0 && ini_config(text).margin_right == 0,
{
}

/// The INI text as the INI loader sees it: without a leading byte-order
/// mark.
pub open spec fn without_bom(t: Seq<char>) -> Seq<char> {
    if t.len() > 0 && t[0] == '\u{FEFF}' {
        t.drop_first()
    } else {
        t
    }
}

/// The settings at start-up: the defaults, the INI file (when present and
/// readable), then the pinned file, then every setting brought into range.
pub open spec fn spec_config_new(ini: Option<Seq<char>>, pinned: Option<Option<Seq<char>>>) -> ConfigView {
    clamped(
        with_pinned_file(
            match ini {
                Some(t) => ini_config(without_bom(t)),
                None => default_config(),
            },
            pinned,
        ),
    )
}

fn ini_int(text: &str, section: &str, key: &str, cur: i32, fallback: i32) -> (r: i32)
    ensures
        r == opt_int(ini_value(text@, section@, key@), cur, fallback),
{
    match ini_lookup(text, section, key) {
        None => cur,
        Some(v) => match parse_i32(&chars_of(v.as_str())) {
            Some(n) => n,
            None => fallback,
        },
    }
}

fn ini_bool(text: &str, section: &str, key: &str, cur: bool, fallback: bool) -> (r: bool)
    ensures
        r == opt_bool(ini_value(text@, section@, key@), cur, fallback),
{
    match ini_lookup(text, section, key) {
        None => cur,
        Some(v) => match parse_bool(&chars_of(v.as_str())) {
            Some(b) => b,
            None => fallback,
        },
    }
}

fn ini_string(text: &str, section: &str, key: &str, cur: String) -> (r: String)
    ensures
        r@ == opt_str(ini_value(text@, section@, key@), cur@),
{
    match ini_lookup(text, section, key) {
        None => cur,
        Some(v) => v,
    }
}

/// The INI text without a leading byte-order mark.
fn strip_bom(t: &str) -> (r: String)
    ensures
        r@ == without_bom(t@),
{
    let cs = chars_of(t);
    if cs.len() > 0 && cs[0] == '\u{FEFF}' {
        string_of(&crate::text::skip_chars(&cs, 1))
    } else {
        string_of(&cs)
    }
}

impl Config {
    /// The settings from the INI text, over the defaults.
    pub fn from_ini(text: &str) -> (c: Config)
        ensures
            c@ == ini_config(text@),
    {
        let g = "General";
        let p = "General.preview";
        let d = Config::defaults();
        let output = match ini_lookup(text, g, "Output") {
            Some(v) => if trim_chars(&chars_of(v.as_str())).len() > 0 {
                Some(v)
            } else {
                None
            },
            None => None,
        };
        let apps = match ini_lookup(text, "PinnedApps", "Apps") {
            Some(a) => list_entries_of(a.as_str(), ','),
            None => Vec::new(),
        };
        let ghost apps_v = svs(apps@);
        assert(apps_v == match ini_value(text@, "PinnedApps"@, "Apps"@) {
            Some(a) => list_entries(a, ','),
            None => Seq::<Seq<char>>::empty(),
        });
        let compact = ini_bool(text, g, "CompactPreview", false, false);
        let c = Config {
            current_theme: ini_string(text, g, "CurrentTheme", d.current_theme),
            icon_size: ini_int(text, g, "IconSize", 23, 23),
            position: ini_string(text, g, "Position", d.position),
            exclusive_zone: ini_bool(text, g, "Exclusive", true, true),
            smart_view: ini_bool(text, g, "SmartView", false, false),
            auto_hide_delay: ini_int(text, g, "AutoHideDelay", 400, 400),
            system_gap_used: ini_bool(text, g, "SystemGapUsed", false, true),
            margin: ini_int(text, g, "Margin", 8, 8),
            padding: ini_int(text, g, "Padding", 2, 4),
            radius: ini_int(text, g, "Radius", 10, 10),
            output,
            launcher_command: ini_string(text, g, "LauncherCommand", d.launcher_command),
            no_launcher: ini_bool(text, g, "NoLauncher", true, true),
            layer: ini_string(text, g, "Layer", d.layer),
            full_screen: ini_bool(text, g, "FullScreen", false, false),
            sort_running_apps: ini_bool(text, g, "SortRunningApps", false, false),
            compact_preview: ini_bool(text, p, "Compact", compact, false),
            show_delay: ini_int(text, p, "ShowDelay", 20, 500),
            hide_delay: ini_int(text, p, "HideDelay", 120, 350),
            move_delay: ini_int(text, p, "MoveDelay", 30, 100),
            spacing: ini_int(text, "Theme", "Spacing", 4, 5),
            pinned_apps: apps,
            style: d.style,
            margin_bottom: d.margin_bottom,
            margin_left: d.margin_left,
            margin_right: d.margin_right,
            margin_top: d.margin_top,
        };
        c
    }

    /// The settings at start-up (see `spec_config_new`): `ini` is the text
    /// of the INI file when it exists and could be read, `pinned` describes
    /// the pinned file as `load_pinned_apps` takes it.
    pub fn new(ini: Option<String>, pinned: Option<Option<String>>) -> (c: Config)
        ensures
            c@ == spec_config_new(sv(ini), match pinned {
                Some(Some(t)) => Some(Some(t@)),
                Some(None) => Some(None),
                None => None,
            }),
            in_range(c@),
    {
        let mut c = match &ini {
            Some(t) => Config::from_ini(strip_bom(t.as_str()).as_str()),
            None => Config::defaults(),
        };
        c.load_pinned_apps(pinned);
        c.validate_and_clamp();
        proof {
            law_clamp_in_range_and_idempotent(c@);
        }
        c
    }
}

} // verus!
