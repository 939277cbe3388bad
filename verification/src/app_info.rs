//! Application lookup in the freedesktop `.desktop` files: which entry
//! belongs to a pinned id or a window class, with the lookups memoised.

use std::path::PathBuf;
use freedesktop_desktop_entry::DesktopEntry;
use vstd::prelude::*;
use crate::text::{
    Separator, separates, no_separator, split_seq, non_empty, append_chars, chars_eq, chars_of, ends_with, lowercase, to_lowercase, has_suffix, join, join_chars, split_words, string_of,
    take_chars, views, words,
};

verus! {

#[verifier::external_type_specification]
#[verifier::external_body]
pub struct ExPathBuf(PathBuf);

#[verifier::external_type_specification]
#[verifier::external_body]
pub struct ExDesktopEntry(DesktopEntry);

/// An application as the dock shows it.
#[derive(Debug, Clone)]
pub struct AppInfo {
    pub id: String,
    pub name: String,
    pub icon: Option<String>,
    pub exec_line: String,
}

/// The characters of an optional string.
pub open spec fn opt_view(o: Option<String>) -> Option<Seq<char>> {
    match o {
        Some(s) => Some(s@),
        None => None,
    }
}

/// The abstract value of an `AppInfo`.
pub struct AppInfoView {
    pub id: Seq<char>,
    pub name: Seq<char>,
    pub icon: Option<Seq<char>>,
    pub exec_line: Seq<char>,
}

impl View for AppInfo {
    type V = AppInfoView;

    open spec fn view(&self) -> AppInfoView {
        AppInfoView { id: self.id@, name: self.name@, icon: opt_view(self.icon), exec_line: self.exec_line@ }
    }
}

/// The abstract value of an optional `AppInfo`.
pub open spec fn opt_app_view(o: Option<AppInfo>) -> Option<AppInfoView> {
    match o {
        Some(a) => Some(a@),
        None => None,
    }
}

/// A copy of an optional string.
pub fn clone_opt_string(o: &Option<String>) -> (r: Option<String>)
    ensures
        opt_view(r) == opt_view(*o),
{
    match o {
        Some(s) => Some(s.clone()),
        None => None,
    }
}

impl AppInfo {
    /// A copy with the same abstract value.
    pub fn duplicate(&self) -> (r: AppInfo)
        ensures
            r@ == self@,
    {
        AppInfo {
            id: self.id.clone(),
            name: self.name.clone(),
            icon: clone_opt_string(&self.icon),
            exec_line: self.exec_line.clone(),
        }
    }
}

/// A copy of an optional `AppInfo`.
pub fn clone_opt_app(o: &Option<AppInfo>) -> (r: Option<AppInfo>)
    ensures
        opt_app_view(r) == opt_app_view(*o),
{
    match o {
        Some(a) => Some(a.duplicate()),
        None => None,
    }
}

// ── Exec lines ──────────────────────────────────────────────────────────

/// The words of an Exec line that are not field codes (`%u`, `%F`, ...).
pub open spec fn exec_args(ws: Seq<Seq<char>>) -> Seq<Seq<char>>
    decreases ws.len(),
{
    if ws.len() == 0 {
        ws
    } else {
        let r = exec_args(ws.drop_last());
        if ws.last().len() > 0 && ws.last()[0] != '%' {
            r.push(ws.last())
        } else {
            r
        }
    }
}

/// An Exec line with its field codes removed, words joined by one space.
pub open spec fn spec_clean_exec(exec: Seq<char>) -> Seq<char> {
    join(exec_args(words(exec)), seq![' '])
}

/// The words `exec_args` keeps are among those given, non-empty and not
/// field codes; words that are all such are kept as they are.
proof fn lemma_exec_args(ws: Seq<Seq<char>>)
    ensures
        forall|i: int| 0 <= i < exec_args(ws).len() ==> (#[trigger] exec_args(ws)[i]).len() > 0
            && exec_args(ws)[i][0] != '%' && ws.contains(exec_args(ws)[i]),
        (forall|i: int| 0 <= i < ws.len() ==> (#[trigger] ws[i]).len() > 0 && ws[i][0] != '%')
            ==> exec_args(ws) == ws,
    decreases ws.len(),
{
    if ws.len() > 0 {
        let d = ws.drop_last();
        lemma_exec_args(d);
        let r = exec_args(ws);
        assert forall|i: int| 0 <= i < r.len() implies (#[trigger] r[i]).len() > 0 && r[i][0] != '%'
            && ws.contains(r[i]) by {
            if i < exec_args(d).len() {
                assert(r[i] == exec_args(d)[i]);
                let k = choose|k: int| 0 <= k < d.len() && d[k] == r[i];
                assert(ws[k] == r[i]);
            } else {
                assert(ws[ws.len() - 1] == r[i]);
            }
        }
        if forall|i: int| 0 <= i < ws.len() ==> (#[trigger] ws[i]).len() > 0 && ws[i][0] != '%' {
            assert forall|i: int| 0 <= i < d.len() implies (#[trigger] d[i]).len() > 0 && d[i][0] != '%' by {
                assert(d[i] == ws[i]);
            }
            assert(ws.last() == ws[ws.len() - 1]);
            assert(d.push(ws.last()) =~= ws);
        }
    }
}

/// The non-empty pieces are among the pieces.
proof fn lemma_non_empty_from(p: Seq<Seq<char>>)
    ensures
        forall|i: int| 0 <= i < non_empty(p).len() ==> (#[trigger] non_empty(p)[i]).len() > 0 && p.contains(
            non_empty(p)[i],
        ),
    decreases p.len(),
{
    if p.len() > 0 {
        let d = p.drop_last();
        lemma_non_empty_from(d);
        let r = non_empty(p);
        assert forall|i: int| 0 <= i < r.len() implies (#[trigger] r[i]).len() > 0 && p.contains(r[i]) by {
            if i < non_empty(d).len() {
                assert(r[i] == non_empty(d)[i]);
                let k = choose|k: int| 0 <= k < d.len() && d[k] == r[i];
                assert(p[k] == r[i]);
            } else {
                assert(p[p.len() - 1] == r[i]);
            }
        }
    }
}

/// Cleaning an Exec line twice gives what cleaning it once gives, and a
/// cleaned line holds no field code.
pub proof fn law_clean_exec_idempotent(exec: Seq<char>)
    ensures
        spec_clean_exec(spec_clean_exec(exec)) == spec_clean_exec(exec),
        forall|i: int| 0 <= i < words(spec_clean_exec(exec)).len() ==> (#[trigger] words(
            spec_clean_exec(exec),
        )[i])[0] != '%',
{
    let ws = words(exec);
    let a = exec_args(ws);
    lemma_exec_args(ws);
    lemma_exec_args(a);
    lemma_non_empty_from(split_seq(exec, Separator::Whitespace));
    crate::text::lemma_split_pieces_plain(exec, Separator::Whitespace);
    assert forall|i: int| 0 <= i < a.len() implies (#[trigger] a[i]).len() > 0 && no_separator(
        a[i],
        Separator::Whitespace,
    ) by {
        assert(ws.contains(a[i]));
        let k = choose|k: int| 0 <= k < ws.len() && ws[k] == a[i];
        assert(split_seq(exec, Separator::Whitespace).contains(ws[k]));
        let j = choose|j: int| 0 <= j < split_seq(exec, Separator::Whitespace).len() && split_seq(
            exec,
            Separator::Whitespace,
        )[j] == ws[k];
        assert(no_separator(split_seq(exec, Separator::Whitespace)[j], Separator::Whitespace));
    }
    assert(separates(Separator::Whitespace, ' '));
    crate::text::lemma_words_of_join(a, ' ', Separator::Whitespace);
    assert(words(join(a, seq![' '])) == a);
}

/// Strip desktop-entry field codes (`%u`, `%f`, …) from an Exec line.
pub fn clean_exec_pub(exec: &str) -> (r: String)
    ensures
        r@ == spec_clean_exec(exec@),
{
    clean_exec(exec)
}

/// Strips desktop-entry field codes from an Exec line.
pub fn clean_exec(exec: &str) -> (r: String)
    ensures
        r@ == spec_clean_exec(exec@),
{
    let cs = chars_of(exec);
    let ws = split_words(&cs);
    let mut kept: Vec<Vec<char>> = Vec::new();
    let mut i: usize = 0;
    assert(views(ws@).take(0) =~= Seq::<Seq<char>>::empty());
    while i < ws.len()
        invariant
            i <= ws.len(),
            views(kept@) == exec_args(views(ws@).take(i as int)),
        decreases ws.len() - i,
    {
        assert(views(ws@).take(i as int + 1).drop_last() =~= views(ws@).take(i as int));
        if ws[i].len() > 0 && ws[i][0] != '%' {
            let w = ws[i].clone();
            kept.push(w);
            assert(views(kept@) =~= exec_args(views(ws@).take(i as int)).push(ws@[i as int]@));
        }
        i = i + 1;
    }
    assert(views(ws@).take(ws.len() as int) =~= views(ws@));
    let sep = vec![' '];
    assert(sep@ =~= seq![' ']);
    string_of(&join_chars(&kept, &sep))
}

// ── Icon names ──────────────────────────────────────────────────────────

/// Where a bare icon file name is looked for.
pub open spec fn pixmaps_dir() -> Seq<char> {
    seq!['/', 'u', 's', 'r', '/', 's', 'h', 'a', 'r', 'e', '/', 'p', 'i', 'x', 'm', 'a', 'p', 's']
}

/// The image extensions recognised in an Icon field.
pub open spec fn ext_png() -> Seq<char> {
    seq!['.', 'p', 'n', 'g']
}

pub open spec fn ext_svg() -> Seq<char> {
    seq!['.', 's', 'v', 'g']
}

pub open spec fn ext_xpm() -> Seq<char> {
    seq!['.', 'x', 'p', 'm']
}

/// `Path::join` of a relative path onto `base` (Unix).
pub open spec fn path_join(base: Seq<char>, rel: Seq<char>) -> Seq<char> {
    if base.len() == 0 {
        rel
    } else if base.last() == '/' {
        base + rel
    } else {
        base + seq!['/'] + rel
    }
}

/// Whether an Icon value ends in an image extension.
pub open spec fn has_image_ext(icon: Seq<char>) -> bool {
    has_suffix(icon, ext_png()) || has_suffix(icon, ext_svg()) || has_suffix(icon, ext_xpm())
}

/// The pixmaps file that a bare image name would be.
pub open spec fn pixmap_candidate(icon: Seq<char>) -> Seq<char> {
    path_join(pixmaps_dir(), icon)
}

/// How an Icon value resolves, given whether its pixmaps file exists:
/// absolute paths and plain names stay, a bare image file name becomes its
/// pixmaps path when that exists and loses its extension otherwise.
pub open spec fn spec_resolve_icon(icon: Seq<char>, pixmap_exists: bool) -> Seq<char> {
    if icon.len() > 0 && icon[0] == '/' {
        icon
    } else if has_image_ext(icon) {
        if pixmap_exists {
            pixmap_candidate(icon)
        } else {
            icon.take(icon.len() - 4)
        }
    } else {
        icon
    }
}

/// `Path::exists`: whether something is on disk at `path`. The answer
/// depends on the file system at the time of the call.
#[verifier::external_body]
pub(crate) fn path_exists(path: &str) -> bool {
    std::path::Path::new(path).exists()
}

/// The characters of a string literal made into a vector.
fn lit(s: &str) -> (v: Vec<char>)
    ensures
        v@ == s@,
{
    chars_of(s)
}

/// Whether an Icon value is a bare image file name (no leading `/`, an
/// image extension), the only kind looked up in the pixmaps directory.
pub fn is_bare_image_name(cs: &Vec<char>) -> (b: bool)
    ensures
        b == (!(cs@.len() > 0 && cs@[0] == '/') && has_image_ext(cs@)),
{
    if cs.len() > 0 && cs[0] == '/' {
        return false;
    }
    let png = lit(".png");
    let svg = lit(".svg");
    let xpm = lit(".xpm");
    proof {
        reveal_strlit(".png");
        reveal_strlit(".svg");
        reveal_strlit(".xpm");
        assert(png@ =~= ext_png());
        assert(svg@ =~= ext_svg());
        assert(xpm@ =~= ext_xpm());
    }
    ends_with(cs, &png) || ends_with(cs, &svg) || ends_with(cs, &xpm)
}

/// Resolves an Icon value given whether its pixmaps file exists.
pub fn resolve_icon_name_given(icon: &str, pixmap_exists: bool) -> (r: String)
    ensures
        r@ == spec_resolve_icon(icon@, pixmap_exists),
{
    let cs = chars_of(icon);
    if is_bare_image_name(&cs) {
        if pixmap_exists {
            let mut p = lit("/usr/share/pixmaps/");
            proof {
                reveal_strlit("/usr/share/pixmaps/");
                assert(p@ =~= pixmaps_dir() + seq!['/']);
            }
            append_chars(&mut p, &cs);
            assert(p@ =~= pixmap_candidate(icon@));
            string_of(&p)
        } else {
            string_of(&take_chars(&cs, cs.len() - 4))
        }
    } else {
        string_of(&cs)
    }
}

/// Resolve an icon field value from a .desktop file: absolute paths and
/// plain names are kept; a bare image file name is looked up in
/// /usr/share/pixmaps and otherwise loses its extension.
pub fn resolve_icon_name(icon: &str) -> (r: String)
    ensures
        r@ == spec_resolve_icon(icon@, true) || r@ == spec_resolve_icon(icon@, false),
{
    let cs = chars_of(icon);
    let exists = if is_bare_image_name(&cs) {
        let mut candidate = lit("/usr/share/pixmaps/");
        append_chars(&mut candidate, &cs);
        let c = string_of(&candidate);
        path_exists(c.as_str())
    } else {
        false
    };
    resolve_icon_name_given(icon, exists)
}

// ── Desktop entries ─────────────────────────────────────────────────────

/// What the dock reads from one `.desktop` file.
pub struct DesktopFields {
    /// The `Name` value as written (untranslated).
    pub name: Option<String>,
    pub icon: Option<String>,
    pub exec_line: Option<String>,
    pub startup_wm_class: Option<String>,
    /// The `X-Ubuntu-Gettext-Domain` the name is translated through.
    pub gettext_domain: Option<String>,
}

/// The abstract value of `DesktopFields`.
pub struct DesktopFieldsView {
    pub name: Option<Seq<char>>,
    pub icon: Option<Seq<char>>,
    pub exec_line: Option<Seq<char>>,
    pub startup_wm_class: Option<Seq<char>>,
    pub gettext_domain: Option<Seq<char>>,
}

impl View for DesktopFields {
    type V = DesktopFieldsView;

    open spec fn view(&self) -> DesktopFieldsView {
        DesktopFieldsView {
            name: opt_view(self.name),
            icon: opt_view(self.icon),
            exec_line: opt_view(self.exec_line),
            startup_wm_class: opt_view(self.startup_wm_class),
            gettext_domain: opt_view(self.gettext_domain),
        }
    }
}

/// One `.desktop` file met while walking the application directories: its
/// file name (when it is valid UTF-8) and its fields (when it parsed).
pub struct DesktopCandidate {
    pub file_name: Option<String>,
    pub fields: Option<DesktopFields>,
}

/// The abstract value of a `DesktopCandidate`.
pub struct DesktopCandidateView {
    pub file_name: Option<Seq<char>>,
    pub fields: Option<DesktopFieldsView>,
}

impl View for DesktopCandidate {
    type V = DesktopCandidateView;

    open spec fn view(&self) -> DesktopCandidateView {
        DesktopCandidateView {
            file_name: opt_view(self.file_name),
            fields: match self.fields {
                Some(f) => Some(f@),
                None => None,
            },
        }
    }
}

/// The abstract values of a list of candidates.
pub open spec fn cand_views(c: Seq<DesktopCandidate>) -> Seq<DesktopCandidateView> {
    c.map_values(|x: DesktopCandidate| x@)
}

/// The index of the first candidate satisfying `p`.
pub open spec fn first_where(
    c: Seq<DesktopCandidateView>,
    p: spec_fn(DesktopCandidateView) -> bool,
) -> Option<int>
    decreases c.len(),
{
    if c.len() == 0 {
        None
    } else {
        match first_where(c.drop_last(), p) {
            Some(i) => Some(i),
            None => if p(c.last()) {
                Some(c.len() - 1)
            } else {
                None
            },
        }
    }
}

/// `first_where` is the least index satisfying the predicate.
pub proof fn lemma_first_where(c: Seq<DesktopCandidateView>, p: spec_fn(DesktopCandidateView) -> bool)
    ensures
        first_where(c, p) matches Some(i) ==> 0 <= i < c.len() && p(c[i]) && forall|k: int|
            0 <= k < i ==> !p(#[trigger] c[k]),
        first_where(c, p) is None ==> forall|k: int| 0 <= k < c.len() ==> !p(#[trigger] c[k]),
    decreases c.len(),
{
    if c.len() > 0 {
        let d = c.drop_last();
        lemma_first_where(d, p);
        assert forall|k: int| 0 <= k < d.len() implies d[k] == c[k] by {}
    }
}

/// The suffix `.desktop`.
pub open spec fn desktop_ext() -> Seq<char> {
    ".desktop"@
}

/// Whether the candidate's file name, lowercased, is `key`.
pub open spec fn file_name_is(x: DesktopCandidateView, key: Seq<char>) -> bool {
    x.file_name is Some && lowercase(x.file_name.unwrap()) == key
}

/// A parsed file named `<id>` or `<id>.desktop`, case-insensitively.
pub open spec fn id_file_match(id_lower: Seq<char>) -> spec_fn(DesktopCandidateView) -> bool {
    |x: DesktopCandidateView|
        x.fields is Some && (file_name_is(x, id_lower) || file_name_is(x, id_lower + desktop_ext()))
}

/// A parsed file named `<class>.desktop`, case-insensitively.
pub open spec fn class_file_match(class_lower: Seq<char>) -> spec_fn(DesktopCandidateView) -> bool {
    |x: DesktopCandidateView| x.fields is Some && file_name_is(x, class_lower + desktop_ext())
}

/// A parsed file whose StartupWMClass is the class, case-insensitively.
pub open spec fn wm_class_match(class_lower: Seq<char>) -> spec_fn(DesktopCandidateView) -> bool {
    |x: DesktopCandidateView|
        x.fields is Some && x.fields.unwrap().startup_wm_class is Some && lowercase(
            x.fields.unwrap().startup_wm_class.unwrap(),
        ) == class_lower
}

/// The application built from an entry's fields: the name falls back to
/// `fallback`, the command to the empty string; the icon is left as read.
pub open spec fn app_from_fields(id: Seq<char>, fallback: Seq<char>, f: DesktopFieldsView) -> AppInfoView {
    AppInfoView {
        id: id,
        name: match f.name {
            Some(n) => n,
            None => fallback,
        },
        icon: f.icon,
        exec_line: match f.exec_line {
            Some(e) => e,
            None => Seq::<char>::empty(),
        },
    }
}

/// The entry chosen for a window class: a file named `<class>.desktop`
/// wins wherever it stands; otherwise the first entry whose
/// StartupWMClass is the class (case-insensitively).
pub open spec fn spec_pick_by_class(class: Seq<char>, c: Seq<DesktopCandidateView>) -> Option<int> {
    let lower = lowercase(class);
    match first_where(c, class_file_match(lower)) {
        Some(i) => Some(i),
        None => first_where(c, wm_class_match(lower)),
    }
}

/// The entry chosen for a pinned id: the first file named `<id>` or
/// `<id>.desktop` (case-insensitively), else the entry for the id as a
/// window class.
pub open spec fn spec_pick_by_id(id: Seq<char>, c: Seq<DesktopCandidateView>) -> Option<int> {
    match first_where(c, id_file_match(lowercase(id))) {
        Some(i) => Some(i),
        None => spec_pick_by_class(id, c),
    }
}

/// The entry chosen for a class was read and parsed.
proof fn lemma_pick_has_fields_by_class(class: Seq<char>, c: Seq<DesktopCandidateView>)
    ensures
        spec_pick_by_class(class, c) matches Some(i) ==> 0 <= i < c.len() && c[i].fields is Some,
{
    lemma_first_where(c, class_file_match(lowercase(class)));
    lemma_first_where(c, wm_class_match(lowercase(class)));
}

/// The entry chosen for a pinned id was read and parsed.
proof fn lemma_pick_has_fields_by_id(id: Seq<char>, c: Seq<DesktopCandidateView>)
    ensures
        spec_pick_by_id(id, c) matches Some(i) ==> 0 <= i < c.len() && c[i].fields is Some,
{
    lemma_first_where(c, id_file_match(lowercase(id)));
    lemma_pick_has_fields_by_class(id, c);
}

/// Lookup by window class: the application of the chosen entry, its id
/// the lowercased class, its name falling back to the class.
pub open spec fn spec_select_by_class(class: Seq<char>, c: Seq<DesktopCandidateView>) -> Option<AppInfoView> {
    match spec_pick_by_class(class, c) {
        Some(i) => Some(app_from_fields(lowercase(class), class, c[i].fields.unwrap())),
        None => None,
    }
}

/// Lookup by pinned id: the first file named `<id>` or `<id>.desktop`
/// (case-insensitively) keeps the id as given; otherwise the id is looked up
/// as a window class.
pub open spec fn spec_select_by_id(id: Seq<char>, c: Seq<DesktopCandidateView>) -> Option<AppInfoView> {
    let lower = lowercase(id);
    match first_where(c, id_file_match(lower)) {
        Some(i) => Some(app_from_fields(id, id, c[i].fields.unwrap())),
        None => spec_select_by_class(id, c),
    }
}

/// Builds the application for an entry.
fn app_from(id: String, fallback: &str, f: &DesktopFields) -> (r: AppInfo)
    ensures
        r@ == app_from_fields(id@, fallback@, f@),
{
    let name = match &f.name {
        Some(n) => n.clone(),
        None => fallback.to_owned(),
    };
    let exec_line = match &f.exec_line {
        Some(e) => e.clone(),
        None => String::new(),
    };
    AppInfo { id, name, icon: clone_opt_string(&f.icon), exec_line }
}

/// Whether the lowercased form of `name` equals `key`.
fn lower_is(name: &String, key: &Vec<char>) -> (b: bool)
    ensures
        b == (lowercase(name@) == key@),
{
    let l = to_lowercase(name.as_str());
    chars_eq(&chars_of(l.as_str()), key)
}

/// The lowercased characters of `s`.
fn lower_chars(s: &str) -> (v: Vec<char>)
    ensures
        v@ == lowercase(s@),
{
    let l = to_lowercase(s);
    chars_of(l.as_str())
}

/// `key` followed by `.desktop`.
fn with_desktop_ext(key: &Vec<char>) -> (v: Vec<char>)
    ensures
        v@ == key@ + desktop_ext(),
{
    let mut v = key.clone();
    append_chars(&mut v, &lit(".desktop"));
    v
}

/// Selects the application for a window class among walked entries.
pub fn select_by_class(class: &str, cands: &Vec<DesktopCandidate>) -> (r: Option<(AppInfo, usize)>)
    ensures
        match r {
            Some((a, i)) => spec_pick_by_class(class@, cand_views(cands@)) == Some(i as int)
                && spec_select_by_class(class@, cand_views(cands@)) == Some(a@),
            None => spec_pick_by_class(class@, cand_views(cands@)) is None,
        },
{
    let lower = lower_chars(class);
    let key = with_desktop_ext(&lower);
    let ghost cv = cand_views(cands@);
    let ghost fp = class_file_match(lower@);
    let ghost wp = wm_class_match(lower@);
    let mut wm: Option<usize> = None;
    let mut i: usize = 0;
    while i < cands.len()
        invariant
            i <= cands.len(),
            cv == cand_views(cands@),
            fp == class_file_match(lower@),
            wp == wm_class_match(lower@),
            key@ == lower@ + desktop_ext(),
            lower@ == lowercase(class@),
            forall|k: int| 0 <= k < i ==> !fp(#[trigger] cv[k]),
            wm is None ==> forall|k: int| 0 <= k < i ==> !wp(#[trigger] cv[k]),
            wm matches Some(j) ==> j < i && wp(cv[j as int]) && forall|k: int|
                0 <= k < j ==> !wp(#[trigger] cv[k]),
        decreases cands.len() - i,
    {
        let cand = &cands[i];
        assert(cv[i as int] == cand@);
        let name_hit = match &cand.file_name {
            Some(f) => lower_is(f, &key),
            None => false,
        };
        if name_hit {
            if let Some(fields) = &cand.fields {
                proof {
                    lemma_first_where(cv, fp);
                }
                return Some((app_from(string_of(&lower), class, fields), i));
            }
        }
        if wm.is_none() {
            if let Some(fields) = &cand.fields {
                if let Some(w) = &fields.startup_wm_class {
                    if lower_is(w, &lower) {
                        wm = Some(i);
                    }
                }
            }
        }
        i = i + 1;
    }
    proof {
        lemma_first_where(cv, fp);
        lemma_first_where(cv, wp);
    }
    match wm {
        Some(j) => {
            let cand = &cands[j];
            assert(cv[j as int] == cand@);
            match &cand.fields {
                Some(fields) => Some((app_from(string_of(&lower), class, fields), j)),
                None => None,
            }
        },
        None => None,
    }
}

/// Selects the application for a pinned id among walked entries.
pub fn select_by_id(id: &str, cands: &Vec<DesktopCandidate>) -> (r: Option<(AppInfo, usize)>)
    ensures
        match r {
            Some((a, i)) => spec_pick_by_id(id@, cand_views(cands@)) == Some(i as int)
                && spec_select_by_id(id@, cand_views(cands@)) == Some(a@),
            None => spec_pick_by_id(id@, cand_views(cands@)) is None,
        },
{
    let lower = lower_chars(id);
    let key = with_desktop_ext(&lower);
    let ghost cv = cand_views(cands@);
    let ghost fp = id_file_match(lower@);
    let mut i: usize = 0;
    while i < cands.len()
        invariant
            i <= cands.len(),
            cv == cand_views(cands@),
            fp == id_file_match(lower@),
            key@ == lower@ + desktop_ext(),
            lower@ == lowercase(id@),
            forall|k: int| 0 <= k < i ==> !fp(#[trigger] cv[k]),
        decreases cands.len() - i,
    {
        let cand = &cands[i];
        assert(cv[i as int] == cand@);
        let name_hit = match &cand.file_name {
            Some(f) => lower_is(f, &lower) || lower_is(f, &key),
            None => false,
        };
        if name_hit {
            if let Some(fields) = &cand.fields {
                proof {
                    lemma_first_where(cv, fp);
                }
                return Some((app_from(id.to_owned(), id, fields), i));
            }
        }
        i = i + 1;
    }
    proof {
        lemma_first_where(cv, fp);
    }
    select_by_class(id, cands)
}

// ── Walking the application directories ────────────────────────────────

/// `dirs::data_dir`: the user's data directory ($XDG_DATA_HOME or
/// ~/.local/share). It depends on the environment; `None` also when its path
/// is not valid UTF-8.
#[verifier::external_body]
fn user_data_dir() -> Option<String> {
    dirs::data_dir().and_then(|p| p.into_os_string().into_string().ok())
}

/// `freedesktop_desktop_entry::Iter`: every `.desktop` file under the given
/// directories, walked recursively in order. What it yields depends on the
/// file system.
#[verifier::external_body]
fn walk_desktop_files(dirs: &Vec<String>) -> Vec<PathBuf> {
    freedesktop_desktop_entry::Iter::new(dirs.iter().map(PathBuf::from)).collect()
}

/// `Path::file_name` as UTF-8: the last component of `path`, `None` when
/// there is none or it is not valid UTF-8.
#[verifier::external_body]
fn file_name_of(path: &PathBuf) -> Option<String> {
    path.file_name().and_then(|s| s.to_str()).map(|s| s.to_string())
}

/// `DesktopEntry::from_path` with no locale filter: reads and parses the
/// file; `None` when it cannot be read or parsed. Depends on the disk.
#[verifier::external_body]
fn read_desktop_entry(path: &PathBuf) -> Option<DesktopEntry> {
    DesktopEntry::from_path(path, None::<&[&str]>).ok()
}

/// `DesktopEntry::desktop_entry("Name")`: the `Name` value of the
/// `[Desktop Entry]` group as written, untranslated.
#[verifier::external_body]
fn entry_raw_name(e: &DesktopEntry) -> Option<String> {
    e.desktop_entry("Name").map(|s| s.to_string())
}

/// The entry's `ubuntu_gettext_domain` field: the `X-Ubuntu-Gettext-Domain`
/// value of the file, through which `DesktopEntry::name` translates.
#[verifier::external_body]
fn entry_gettext_domain(e: &DesktopEntry) -> Option<String> {
    e.ubuntu_gettext_domain.clone()
}

/// `DesktopEntry::icon`: the `Icon` key of the `[Desktop Entry]` group.
#[verifier::external_body]
fn entry_icon(e: &DesktopEntry) -> Option<String> {
    e.icon().map(|s| s.to_string())
}

/// `DesktopEntry::exec`: the `Exec` key of the `[Desktop Entry]` group.
#[verifier::external_body]
fn entry_exec(e: &DesktopEntry) -> Option<String> {
    e.exec().map(|s| s.to_string())
}

/// `DesktopEntry::startup_wm_class`: the `StartupWMClass` key of the
/// `[Desktop Entry]` group.
#[verifier::external_body]
fn entry_startup_wm_class(e: &DesktopEntry) -> Option<String> {
    e.startup_wm_class().map(|s| s.to_string())
}

/// The system-wide application directories, in search order.
pub open spec fn fixed_search_paths() -> Seq<Seq<char>> {
    seq![
        "/usr/share/applications"@,
        "/usr/local/share/applications"@,
        "/var/lib/flatpak/exports/share/applications"@,
    ]
}

/// The application directories searched: the system-wide ones, then the
/// user's `applications` and flatpak export under the data directory.
pub open spec fn spec_search_paths(data_dir: Option<Seq<char>>) -> Seq<Seq<char>> {
    match data_dir {
        Some(d) => fixed_search_paths() + seq![
            path_join(d, "applications"@),
            path_join(d, "flatpak/exports/share/applications"@),
        ],
        None => fixed_search_paths(),
    }
}

/// The views of a list of strings.
pub open spec fn string_views(v: Seq<String>) -> Seq<Seq<char>> {
    v.map_values(|x: String| x@)
}

/// `Path::join` of the relative path `rel` onto `base`.
pub fn join_path(base: &Vec<char>, rel: &Vec<char>) -> (r: Vec<char>)
    ensures
        r@ == path_join(base@, rel@),
{
    let mut r = base.clone();
    if base.len() > 0 && base[base.len() - 1] != '/' {
        r.push('/');
    }
    append_chars(&mut r, rel);
    proof {
        if base@.len() == 0 {
            assert(r@ =~= rel@);
        }
    }
    r
}

/// The application directories for a given data directory.
pub fn search_paths_for(data_dir: Option<String>) -> (r: Vec<String>)
    ensures
        string_views(r@) == spec_search_paths(opt_view(data_dir)),
{
    let mut r: Vec<String> = Vec::new();
    r.push("/usr/share/applications".to_owned());
    r.push("/usr/local/share/applications".to_owned());
    r.push("/var/lib/flatpak/exports/share/applications".to_owned());
    if let Some(d) = data_dir {
        let dc = chars_of(d.as_str());
        let a = join_path(&dc, &lit("applications"));
        let b = join_path(&dc, &lit("flatpak/exports/share/applications"));
        r.push(string_of(&a));
        r.push(string_of(&b));
    }
    assert(string_views(r@) =~= spec_search_paths(opt_view(data_dir)));
    r
}

impl AppInfo {
    /// The application directories searched for `.desktop` files.
    pub fn get_search_paths() -> (r: Vec<String>)
        ensures
            exists|d: Option<Seq<char>>| string_views(r@) == #[trigger] spec_search_paths(d),
    {
        let d = user_data_dir();
        let r = search_paths_for(d);
        assert(string_views(r@) == spec_search_paths(opt_view(d)));
        r
    }
}

/// Reads every `.desktop` file under the application directories.
fn scan_desktop_entries() -> (r: Vec<DesktopCandidate>) {
    let paths = walk_desktop_files(&AppInfo::get_search_paths());
    let mut r: Vec<DesktopCandidate> = Vec::new();
    let mut i: usize = 0;
    while i < paths.len()
        invariant
            i <= paths.len(),
        decreases paths.len() - i,
    {
        let path = &paths[i];
        let fields = match read_desktop_entry(path) {
            Some(e) => Some(
                DesktopFields {
                    name: entry_raw_name(&e),
                    icon: entry_icon(&e),
                    exec_line: entry_exec(&e),
                    startup_wm_class: entry_startup_wm_class(&e),
                    gettext_domain: entry_gettext_domain(&e),
                },
            ),
            None => None,
        };
        r.push(DesktopCandidate { file_name: file_name_of(path), fields });
        i = i + 1;
    }
    r
}

/// Whether the name of an entry's application is translated: the file
/// names a gettext domain and has a `Name`, neither holding a NUL byte.
/// (`DesktopEntry::name` translates whenever both are there; with a NUL
/// byte gettext would panic, and the name is then kept as written.)
pub open spec fn translatable(f: DesktopFieldsView) -> bool {
    &&& f.gettext_domain matches Some(d) && !d.contains('\0')
    &&& f.name matches Some(n) && !n.contains('\0')
}

/// Whether `tr` can be asked for any name in any domain, neither holding a
/// NUL byte.
pub open spec fn translates_all<T: Fn(String, String) -> String>(tr: T) -> bool {
    forall|d: String, n: String|
        !d@.contains('\0') && !n@.contains('\0') ==> #[trigger] call_requires(tr, (d, n))
}

/// `out` is a name that `tr` gives back for the name `n` in the gettext
/// domain `d`.
pub open spec fn translated_by<T: Fn(String, String) -> String>(
    tr: T,
    d: Seq<char>,
    n: Seq<char>,
    out: Seq<char>,
) -> bool {
    exists|ds: String, ns: String, os: String|
        ds@ == d && ns@ == n && os@ == out && #[trigger] call_ensures(tr, (ds, ns), os)
}

/// `r` is `raw` with its icon resolved and, for an entry whose name is
/// translated, the name that `tr` gives back for the entry's `Name` in its
/// gettext domain; otherwise with the name as it was.
pub open spec fn finished<T: Fn(String, String) -> String>(
    tr: T,
    r: AppInfoView,
    raw: AppInfoView,
    f: DesktopFieldsView,
) -> bool {
    &&& r.id == raw.id
    &&& r.exec_line == raw.exec_line
    &&& match raw.icon {
        None => r.icon is None,
        Some(i) => r.icon == Some(spec_resolve_icon(i, true)) || r.icon == Some(
            spec_resolve_icon(i, false),
        ),
    }
    &&& if translatable(f) {
        translated_by(tr, f.gettext_domain.unwrap(), f.name.unwrap(), r.name)
    } else {
        r.name == raw.name
    }
}

/// What a lookup by window class over the entries `c` gives, names
/// translated by `tr`: nothing when no entry is chosen, else the chosen
/// entry's application, finished.
pub open spec fn spec_found_by_class<T: Fn(String, String) -> String>(
    tr: T,
    r: Option<AppInfoView>,
    class: Seq<char>,
    c: Seq<DesktopCandidateView>,
) -> bool {
    match spec_pick_by_class(class, c) {
        None => r is None,
        Some(i) => r matches Some(a) && finished(
            tr,
            a,
            spec_select_by_class(class, c).unwrap(),
            c[i].fields.unwrap(),
        ),
    }
}

/// What a lookup by pinned id over the entries `c` gives, names translated
/// by `tr`.
pub open spec fn spec_found_by_id<T: Fn(String, String) -> String>(
    tr: T,
    r: Option<AppInfoView>,
    id: Seq<char>,
    c: Seq<DesktopCandidateView>,
) -> bool {
    match spec_pick_by_id(id, c) {
        None => r is None,
        Some(i) => r matches Some(a) && finished(
            tr,
            a,
            spec_select_by_id(id, c).unwrap(),
            c[i].fields.unwrap(),
        ),
    }
}

/// Whether a string holds a NUL byte.
fn has_nul(s: &String) -> (b: bool)
    ensures
        b == s@.contains('\0'),
{
    let cs = chars_of(s.as_str());
    let mut i: usize = 0;
    while i < cs.len()
        invariant
            i <= cs.len(),
            cs@ == s@,
            forall|k: int| 0 <= k < i ==> cs@[k] != '\0',
        decreases cs.len() - i,
    {
        if cs[i] == '\0' {
            assert(s@[i as int] == '\0');
            return true;
        }
        i = i + 1;
    }
    false
}

/// The application of a chosen entry, finished: where its name is
/// translatable, the name that `translate` gives for it in the entry's
/// gettext domain; its icon resolved.
fn finish<T: Fn(String, String) -> String>(app: AppInfo, f: &DesktopFields, translate: &T) -> (r: AppInfo)
    requires
        translates_all(*translate),
    ensures
        finished(*translate, r@, app@, f@),
{
    let name = match (&f.gettext_domain, &f.name) {
        (Some(d), Some(n)) => if !has_nul(d) && !has_nul(n) {
            let ds = d.clone();
            let ns = n.clone();
            let out = translate(ds, ns);
            proof {
                assert(call_ensures(*translate, (ds, ns), out));
            }
            out
        } else {
            app.name
        },
        _ => app.name,
    };
    let icon = match &app.icon {
        Some(i) => Some(resolve_icon_name(i.as_str())),
        None => None,
    };
    AppInfo { id: app.id, name, icon, exec_line: app.exec_line }
}

/// Finishes the application of the chosen entry (`None` when none is
/// chosen).
fn finish_chosen<T: Fn(String, String) -> String>(
    chosen: Option<(AppInfo, usize)>,
    cands: &Vec<DesktopCandidate>,
    translate: &T,
) -> (r: Option<AppInfo>)
    requires
        chosen matches Some((_, i)) ==> i < cands@.len() && cands@[i as int].fields is Some,
        translates_all(*translate),
    ensures
        match chosen {
            None => r is None,
            Some((a, i)) => r matches Some(x) && finished(
                *translate,
                x@,
                a@,
                cands@[i as int].fields.unwrap()@,
            ),
        },
{
    match chosen {
        None => None,
        Some((a, i)) => match &cands[i].fields {
            Some(f) => Some(finish(a, f, translate)),
            None => None,
        },
    }
}

impl AppInfo {
    /// Looks up a pinned id among `.desktop` entries already read: the
    /// application of the chosen entry with its name translated by
    /// `translate` where it is translatable and its icon resolved.
    pub fn lookup_by_id<T: Fn(String, String) -> String>(
        id: &str,
        cands: &Vec<DesktopCandidate>,
        translate: &T,
    ) -> (r: Option<AppInfo>)
        requires
            translates_all(*translate),
        ensures
            spec_found_by_id(*translate, opt_app_view(r), id@, cand_views(cands@)),
    {
        let chosen = select_by_id(id, cands);
        proof {
            lemma_pick_has_fields_by_id(id@, cand_views(cands@));
        }
        finish_chosen(chosen, cands, translate)
    }

    /// Looks up a window class among `.desktop` entries already read, in
    /// the same way as `lookup_by_id`.
    pub fn lookup_by_class<T: Fn(String, String) -> String>(
        class: &str,
        cands: &Vec<DesktopCandidate>,
        translate: &T,
    ) -> (r: Option<AppInfo>)
        requires
            translates_all(*translate),
        ensures
            spec_found_by_class(*translate, opt_app_view(r), class@, cand_views(cands@)),
    {
        let chosen = select_by_class(class, cands);
        proof {
            lemma_pick_has_fields_by_class(class@, cand_views(cands@));
        }
        finish_chosen(chosen, cands, translate)
    }

    /// Looks up a pinned id in the `.desktop` files on disk, without memo;
    /// a name is translated by asking `translate` for the entry's `Name` in
    /// its gettext domain. Which files there are depends on the disk; the
    /// result is the lookup over the entries read.
    pub fn find_by_id_uncached<T: Fn(String, String) -> String>(id: &str, translate: &T) -> (r: Option<AppInfo>)
        requires
            translates_all(*translate),
        ensures
            exists|c: Seq<DesktopCandidateView>| #[trigger] spec_found_by_id(*translate, opt_app_view(r), id@, c),
    {
        let cands = scan_desktop_entries();
        Self::lookup_by_id(id, &cands, translate)
    }

    /// Looks up a window class in the `.desktop` files on disk, without
    /// memo, translating names as `find_by_id_uncached` does; an
    /// application found has the lowercased class as its id.
    pub fn find_by_class_uncached<T: Fn(String, String) -> String>(class: &str, translate: &T) -> (r: Option<AppInfo>)
        requires
            translates_all(*translate),
        ensures
            exists|c: Seq<DesktopCandidateView>| #[trigger] spec_found_by_class(*translate, opt_app_view(r), class@, c),
            r matches Some(a) ==> a@.id == lowercase(class@),
    {
        let cands = scan_desktop_entries();
        Self::lookup_by_class(class, &cands, translate)
    }

    /// The `hyprctl` arguments that launch this application as a floating,
    /// centred window: `dispatch exec "[float;center 1] <command>"`.
    pub fn launch_args(&self) -> (r: Vec<String>)
        ensures
            string_views(r@) == seq![
                "dispatch"@,
                "exec"@,
                "[float;center 1] "@ + spec_clean_exec(self.exec_line@),
            ],
    {
        let cmd = clean_exec(self.exec_line.as_str());
        let mut last = lit("[float;center 1] ");
        append_chars(&mut last, &chars_of(cmd.as_str()));
        let mut r: Vec<String> = Vec::new();
        r.push("dispatch".to_owned());
        r.push("exec".to_owned());
        r.push(string_of(&last));
        assert(string_views(r@) =~= seq![
            "dispatch"@,
            "exec"@,
            "[float;center 1] "@ + spec_clean_exec(self.exec_line@),
        ]);
        r
    }
}

// ── Memo of lookups ─────────────────────────────────────────────────────

/// The remembered result for `key`, the latest entry winning.
pub open spec fn memo_get(v: Seq<(String, Option<AppInfo>)>, key: Seq<char>) -> Option<
    Option<AppInfoView>,
>
    decreases v.len(),
{
    if v.len() == 0 {
        None
    } else if v.last().0@ == key {
        Some(opt_app_view(v.last().1))
    } else {
        memo_get(v.drop_last(), key)
    }
}

/// Remembers lookups so the `.desktop` files are not rescanned and reparsed
/// on each dock refresh. Negative results are remembered too.
pub struct AppInfoCache {
    by_id: Vec<(String, Option<AppInfo>)>,
    by_class: Vec<(String, Option<AppInfo>)>,
}

/// Every remembered app of a memo has its key as its id.
pub open spec fn keyed(v: Seq<(String, Option<AppInfo>)>) -> bool {
    forall|i: int| 0 <= i < v.len() ==> match #[trigger] v[i].1 {
        Some(a) => a.id@ == v[i].0@,
        None => true,
    }
}

impl AppInfoCache {
    /// The class memo remembers apps under their own ids (the lowercased
    /// class).
    #[verifier::type_invariant]
    spec fn classes_keyed_inv(self) -> bool {
        keyed(self.by_class@)
    }

    /// Every app remembered for a class has the lowercased class as its id.
    pub closed spec fn classes_keyed(&self) -> bool {
        forall|k: Seq<char>| #[trigger] self.class_entry(k) matches Some(Some(a)) ==> a.id == k
    }

    /// What is remembered for a pinned id.
    pub closed spec fn id_entry(&self, id: Seq<char>) -> Option<Option<AppInfoView>> {
        memo_get(self.by_id@, id)
    }

    /// What is remembered for a lowercased window class.
    pub closed spec fn class_entry(&self, class_lower: Seq<char>) -> Option<Option<AppInfoView>> {
        memo_get(self.by_class@, class_lower)
    }

    /// An empty memo.
    pub fn new() -> (c: AppInfoCache)
        ensures
            forall|k: Seq<char>| #[trigger] c.id_entry(k) is None,
            forall|k: Seq<char>| #[trigger] c.class_entry(k) is None,
            c.classes_keyed(),
    {
        AppInfoCache { by_id: Vec::new(), by_class: Vec::new() }
    }
}

/// The remembered result for `key`.
fn memo_lookup(v: &Vec<(String, Option<AppInfo>)>, key: &Vec<char>) -> (r: Option<Option<AppInfo>>)
    ensures
        match r {
            None => memo_get(v@, key@) is None,
            Some(x) => memo_get(v@, key@) == Some(opt_app_view(x)),
        },
{
    let mut i: usize = v.len();
    assert(v@.take(v.len() as int) =~= v@);
    while i > 0
        invariant
            i <= v.len(),
            memo_get(v@, key@) == memo_get(v@.take(i as int), key@),
        decreases i,
    {
        assert(v@.take(i as int).drop_last() =~= v@.take(i as int - 1));
        assert(v@.take(i as int).last() == v@[i as int - 1]);
        if chars_eq(&chars_of(v[i - 1].0.as_str()), key) {
            return Some(clone_opt_app(&v[i - 1].1));
        }
        i = i - 1;
    }
    None
}

/// In a keyed memo, what is remembered for a key has that key as its id.
proof fn lemma_keyed_memo(v: Seq<(String, Option<AppInfo>)>)
    requires
        keyed(v),
    ensures
        forall|k: Seq<char>| #[trigger] memo_get(v, k) matches Some(Some(a)) ==> a.id == k,
    decreases v.len(),
{
    if v.len() > 0 {
        let d = v.drop_last();
        assert(keyed(d)) by {
            assert forall|i: int| 0 <= i < d.len() implies match #[trigger] d[i].1 {
                Some(a) => a.id@ == d[i].0@,
                None => true,
            } by {
                assert(d[i] == v[i]);
            }
        }
        lemma_keyed_memo(d);
        let last = v[v.len() - 1].1;
        assert(match last {
            Some(a) => a.id@ == v[v.len() - 1].0@,
            None => true,
        });
        assert(v.last() == v[v.len() - 1]);
        assert forall|k: Seq<char>| (#[trigger] memo_get(v, k) matches Some(Some(a)) ==> a.id == k) by {
            if v.last().0@ != k {
                assert(memo_get(v, k) == memo_get(d, k));
            }
        }
    }
}

/// Remembering `x` for `key` changes the memo at `key` only.
proof fn lemma_memo_push(v: Seq<(String, Option<AppInfo>)>, key: String, x: Option<AppInfo>)
    ensures
        memo_get(v.push((key, x)), key@) == Some(opt_app_view(x)),
        forall|k: Seq<char>| k != key@ ==> #[trigger] memo_get(v.push((key, x)), k) == memo_get(v, k),
{
    assert(v.push((key, x)).drop_last() =~= v);
}

impl AppInfo {
    /// Looks up a pinned id, remembering the answer: a remembered id is
    /// answered from memory and leaves the memo unchanged; otherwise the
    /// `.desktop` files are searched and the answer is remembered.
    pub fn find_by_id<T: Fn(String, String) -> String>(cache: &mut AppInfoCache, id: &str, translate: &T) -> (r:
        Option<AppInfo>)
        requires
            translates_all(*translate),
        ensures
            old(cache).id_entry(id@) matches Some(x) ==> opt_app_view(r) == x && *final(cache)
                == *old(cache),
            old(cache).id_entry(id@) is None ==> exists|c: Seq<DesktopCandidateView>|
                #[trigger] spec_found_by_id(*translate, opt_app_view(r), id@, c),
            final(cache).classes_keyed(),
            final(cache).id_entry(id@) == Some(opt_app_view(r)),
            forall|k: Seq<char>| k != id@ ==> #[trigger] final(cache).id_entry(k) == old(
                cache,
            ).id_entry(k),
            forall|k: Seq<char>| #[trigger] final(cache).class_entry(k) == old(cache).class_entry(k),
    {
        proof {
            use_type_invariant(&*cache);
            lemma_keyed_memo(cache.by_class@);
        }
        let key = chars_of(id);
        if let Some(hit) = memo_lookup(&cache.by_id, &key) {
            return hit;
        }
        let result = Self::find_by_id_uncached(id, translate);
        let stored = clone_opt_app(&result);
        let ghost before = cache.by_id@;
        let k = id.to_owned();
        let mut ids: Vec<(String, Option<AppInfo>)> = Vec::new();
        std::mem::swap(&mut ids, &mut cache.by_id);
        ids.push((k, stored));
        cache.by_id = ids;
        proof {
            lemma_memo_push(before, k, stored);
        }
        proof {
            use_type_invariant(&*cache);
            lemma_keyed_memo(cache.by_class@);
        }
        result
    }

    /// Looks up a window class (case-insensitively), remembering the answer
    /// under the lowercased class in the same way as `find_by_id`.
    pub fn find_by_class<T: Fn(String, String) -> String>(
        cache: &mut AppInfoCache,
        class: &str,
        translate: &T,
    ) -> (r: Option<AppInfo>)
        requires
            translates_all(*translate),
        ensures
            old(cache).class_entry(lowercase(class@)) matches Some(x) ==> opt_app_view(r) == x
                && *final(cache) == *old(cache),
            old(cache).class_entry(lowercase(class@)) is None ==> exists|
                c: Seq<DesktopCandidateView>,
            | #[trigger] spec_found_by_class(*translate, opt_app_view(r), class@, c),
            r matches Some(a) ==> a@.id == lowercase(class@),
            final(cache).classes_keyed(),
            final(cache).class_entry(lowercase(class@)) == Some(opt_app_view(r)),
            forall|k: Seq<char>| k != lowercase(class@) ==> #[trigger] final(cache).class_entry(k)
                == old(cache).class_entry(k),
            forall|k: Seq<char>| #[trigger] final(cache).id_entry(k) == old(cache).id_entry(k),
    {
        proof {
            use_type_invariant(&*cache);
            lemma_keyed_memo(cache.by_class@);
        }
        let key = to_lowercase(class);
        let key_chars = chars_of(key.as_str());
        if let Some(hit) = memo_lookup(&cache.by_class, &key_chars) {
            return hit;
        }
        let result = Self::find_by_class_uncached(class, translate);
        let stored = clone_opt_app(&result);
        let ghost before = cache.by_class@;
        proof {
            assert(keyed(before.push((key, stored)))) by {
                assert forall|i: int| 0 <= i < before.len() + 1 implies match #[trigger] before.push(
                    (key, stored),
                )[i].1 {
                    Some(a) => a.id@ == before.push((key, stored))[i].0@,
                    None => true,
                } by {
                    if i < before.len() {
                        assert(before.push((key, stored))[i] == before[i]);
                    }
                }
            }
        }
        let mut classes: Vec<(String, Option<AppInfo>)> = Vec::new();
        std::mem::swap(&mut classes, &mut cache.by_class);
        classes.push((key, stored));
        cache.by_class = classes;
        proof {
            lemma_memo_push(before, key, stored);
            use_type_invariant(&*cache);
            lemma_keyed_memo(cache.by_class@);
        }
        result
    }
}

} // verus!
