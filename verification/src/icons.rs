//! Where an app's icon is looked for: the name the icon theme is asked
//! for, and the icon files searched across the data directories.

use vstd::prelude::*;
use crate::text::{first_index, Separator, split_seq, split_chars, views, chars_of, string_of, append_chars, ends_with, has_suffix, take_chars};
use crate::app_info::{path_join, join_path, path_exists};
use crate::config::sv;

verus! {

/// The name the icon theme is asked for: an Icon value with one image
/// extension (`.png`, `.svg` or `.xpm`) taken off; dots inside the name
/// stay (`com.github.rafostar.Clapper`).
pub open spec fn spec_icon_base(icon: Seq<char>) -> Seq<char> {
    if has_suffix(icon, ".png"@) || has_suffix(icon, ".svg"@) || has_suffix(icon, ".xpm"@) {
        icon.take(icon.len() - 4)
    } else {
        icon
    }
}

/// The name the icon theme is asked for.
pub fn icon_base(icon: &str) -> (r: String)
    ensures
        r@ == spec_icon_base(icon@),
{
    let cs = chars_of(icon);
    let png = chars_of(".png");
    let svg = chars_of(".svg");
    let xpm = chars_of(".xpm");
    proof {
        reveal_strlit(".png");
        reveal_strlit(".svg");
        reveal_strlit(".xpm");
    }
    if ends_with(&cs, &png) || ends_with(&cs, &svg) || ends_with(&cs, &xpm) {
        string_of(&take_chars(&cs, cs.len() - 4))
    } else {
        string_of(&cs)
    }
}

/// Whether an Icon value names a file (it holds a `/`) rather than a
/// themed icon.
pub fn is_icon_path(icon: &str) -> (b: bool)
    ensures
        b == icon@.contains('/'),
{
    let cs = chars_of(icon);
    let mut i: usize = 0;
    while i < cs.len()
        invariant
            i <= cs.len(),
            cs@ == icon@,
            forall|k: int| 0 <= k < i ==> cs@[k] != '/',
        decreases cs.len() - i,
    {
        if cs[i] == '/' {
            assert(icon@[i as int] == '/');
            return true;
        }
        i = i + 1;
    }
    false
}

/// The data directories searched when `XDG_DATA_DIRS` is unset.
pub open spec fn default_data_dirs() -> Seq<char> {
    "/usr/local/share:/usr/share"@
}

/// The directories searched for icon files: those of `XDG_DATA_DIRS` (or
/// the default), split at `:` (empty pieces kept), then, when `HOME` is
/// known, `~/.local/share` and `~/.icons`.
pub open spec fn spec_icon_dirs(xdg: Option<Seq<char>>, home: Option<Seq<char>>) -> Seq<Seq<char>> {
    let base = split_seq(
        match xdg {
            Some(x) => x,
            None => default_data_dirs(),
        },
        Separator::Char(':'),
    );
    match home {
        Some(h) => base.push(path_join(h, ".local/share"@)).push(path_join(h, ".icons"@)),
        None => base,
    }
}

/// The directories searched for icon files, given `XDG_DATA_DIRS` and
/// `HOME` (`None` where unset).
pub fn icon_dirs(xdg: &Option<String>, home: &Option<String>) -> (r: Vec<Vec<char>>)
    ensures
        views(r@) == spec_icon_dirs(
            sv(*xdg),
            sv(*home),
        ),
{
    let list = match xdg {
        Some(x) => chars_of(x.as_str()),
        None => chars_of("/usr/local/share:/usr/share"),
    };
    let mut r = split_chars(&list, Separator::Char(':'));
    match home {
        Some(h) => {
            let hc = chars_of(h.as_str());
            let a = join_path(&hc, &chars_of(".local/share"));
            let b = join_path(&hc, &chars_of(".icons"));
            let ghost before = r@;
            r.push(a);
            r.push(b);
            assert(views(r@) =~= views(before).push(a@).push(b@));
        },
        None => {},
    }
    r
}

/// The hicolor sizes, best first.
pub open spec fn hicolor_sizes() -> Seq<Seq<char>> {
    seq![
        "scalable"@,
        "512x512"@,
        "256x256"@,
        "128x128"@,
        "96x96"@,
        "64x64"@,
        "48x48"@,
        "32x32"@,
        "24x24"@,
        "22x22"@,
        "16x16"@,
    ]
}

/// The hicolor size at `i`.
fn hicolor_size(i: usize) -> (r: &'static str)
    requires
        i < 11,
    ensures
        r@ == hicolor_sizes()[i as int],
{
    match i {
        0 => "scalable",
        1 => "512x512",
        2 => "256x256",
        3 => "128x128",
        4 => "96x96",
        5 => "64x64",
        6 => "48x48",
        7 => "32x32",
        8 => "24x24",
        9 => "22x22",
        _ => "16x16",
    }
}

/// The extensions tried in the hicolor theme.
pub open spec fn theme_exts() -> Seq<Seq<char>> {
    seq!["svg"@, "png"@, "xpm"@]
}

/// The extensions tried in `pixmaps`.
pub open spec fn pixmap_exts() -> Seq<Seq<char>> {
    seq!["png"@, "svg"@, "xpm"@]
}

fn theme_ext(i: usize) -> (r: &'static str)
    requires
        i < 3,
    ensures
        r@ == theme_exts()[i as int],
{
    match i {
        0 => "svg",
        1 => "png",
        _ => "xpm",
    }
}

fn pixmap_ext(i: usize) -> (r: &'static str)
    requires
        i < 3,
    ensures
        r@ == pixmap_exts()[i as int],
{
    match i {
        0 => "png",
        1 => "svg",
        _ => "xpm",
    }
}

/// The `k`-th hicolor file of a directory: sizes in turn, each with the
/// three extensions.
pub open spec fn hicolor_file(dir: Seq<char>, name: Seq<char>, k: int) -> Seq<char> {
    path_join(
        dir,
        "icons/hicolor/"@ + hicolor_sizes()[k / 3] + "/apps/"@ + name + "."@ + theme_exts()[k % 3],
    )
}

/// The icon files looked for in one data directory, in order: the hicolor
/// theme at every size, then `icons/<name>/svg` and `icons/<name>/png`,
/// then `pixmaps/<name>` with each extension.
pub open spec fn dir_candidates(dir: Seq<char>, name: Seq<char>) -> Seq<Seq<char>> {
    Seq::new(33, |k: int| hicolor_file(dir, name, k)) + seq![
        path_join(dir, "icons/"@ + name + "/svg"@),
        path_join(dir, "icons/"@ + name + "/png"@),
    ] + Seq::new(3, |k: int| path_join(dir, "pixmaps/"@ + name + "."@ + pixmap_exts()[k]))
}

/// The icon files looked for, directory by directory.
pub open spec fn icon_candidates(dirs: Seq<Seq<char>>, name: Seq<char>) -> Seq<Seq<char>>
    decreases dirs.len(),
{
    if dirs.len() == 0 {
        Seq::empty()
    } else {
        icon_candidates(dirs.drop_last(), name) + dir_candidates(dirs.last(), name)
    }
}

/// `a`, then `b`, `c`, `d` and `e`, as one path.
fn concat5(a: &str, b: &Vec<char>, c: &str, d: &Vec<char>, e: &str) -> (r: Vec<char>)
    ensures
        r@ == a@ + b@ + c@ + d@ + e@,
{
    let mut r = chars_of(a);
    append_chars(&mut r, b);
    append_chars(&mut r, &chars_of(c));
    append_chars(&mut r, d);
    append_chars(&mut r, &chars_of(e));
    r
}

/// The icon files looked for in one data directory.
fn dir_candidate_list(dir: &Vec<char>, name: &Vec<char>) -> (r: Vec<Vec<char>>)
    ensures
        views(r@) == dir_candidates(dir@, name@),
{
    let ghost f = |k: int| hicolor_file(dir@, name@, k);
    let mut r: Vec<Vec<char>> = Vec::new();
    let mut k: usize = 0;
    while k < 33
        invariant
            k <= 33,
            f == (|k: int| hicolor_file(dir@, name@, k)),
            views(r@) == Seq::new(k as nat, f),
        decreases 33 - k,
    {
        let size: Vec<char> = chars_of(hicolor_size(k / 3));
        let ext = theme_ext(k % 3);
        let rel = concat5("icons/hicolor/", &size, "/apps/", name, ".");
        let mut rel2 = rel;
        append_chars(&mut rel2, &chars_of(ext));
        let p = join_path(dir, &rel2);
        let ghost before = r@;
        r.push(p);
        assert(size@ == hicolor_sizes()[k as int / 3]);
        assert(ext@ == theme_exts()[k as int % 3]);
        assert(rel2@ =~= "icons/hicolor/"@ + hicolor_sizes()[k as int / 3] + "/apps/"@ + name@ + "."@
            + theme_exts()[k as int % 3]);
        assert(p@ == f(k as int));
        assert(views(r@) =~= views(before).push(p@));
        assert(Seq::new(k as nat + 1, f) =~= Seq::new(k as nat, f).push(f(k as int)));
        k = k + 1;
    }
    let ghost hic = views(r@);
    let a = join_path(dir, &concat5("icons/", name, "/svg", &Vec::new(), ""));
    let b = join_path(dir, &concat5("icons/", name, "/png", &Vec::new(), ""));
    proof {
        reveal_strlit("");
    }
    r.push(a);
    r.push(b);
    let ghost g = |k: int| path_join(dir@, "pixmaps/"@ + name@ + "."@ + pixmap_exts()[k]);
    let ghost mid = views(r@);
    assert(mid =~= hic + seq![
        path_join(dir@, "icons/"@ + name@ + "/svg"@),
        path_join(dir@, "icons/"@ + name@ + "/png"@),
    ]);
    let mut j: usize = 0;
    while j < 3
        invariant
            j <= 3,
            g == (|k: int| path_join(dir@, "pixmaps/"@ + name@ + "."@ + pixmap_exts()[k])),
            views(r@) == mid + Seq::new(j as nat, g),
        decreases 3 - j,
    {
        let rel = concat5("pixmaps/", name, ".", &Vec::new(), pixmap_ext(j));
        let p = join_path(dir, &rel);
        let ghost before = r@;
        r.push(p);
        assert(rel@ =~= "pixmaps/"@ + name@ + "."@ + pixmap_exts()[j as int]);
        assert(p@ == g(j as int));
        assert(views(r@) =~= views(before).push(p@));
        assert(Seq::new(j as nat + 1, g) =~= Seq::new(j as nat, g).push(g(j as int)));
        j = j + 1;
    }
    r
}

/// The icon files looked for, directory by directory.
pub fn icon_candidate_list(dirs: &Vec<Vec<char>>, name: &str) -> (r: Vec<Vec<char>>)
    ensures
        views(r@) == icon_candidates(views(dirs@), name@),
{
    let nc = chars_of(name);
    let mut r: Vec<Vec<char>> = Vec::new();
    let mut i: usize = 0;
    while i < dirs.len()
        invariant
            i <= dirs.len(),
            nc@ == name@,
            views(r@) == icon_candidates(views(dirs@).take(i as int), name@),
        decreases dirs.len() - i,
    {
        let mut more = dir_candidate_list(&dirs[i], &nc);
        let ghost before = r@;
        let ghost add = more@;
        r.append(&mut more);
        assert(views(r@) =~= views(before) + views(add));
        assert(views(dirs@).take(i as int + 1).drop_last() =~= views(dirs@).take(i as int));
        i = i + 1;
    }
    assert(views(dirs@).take(dirs.len() as int) =~= views(dirs@));
    r
}

/// The answer that selects a candidate.
pub open spec fn says_yes() -> spec_fn(bool) -> bool {
    |b: bool| b
}

/// The first candidate whose answer is yes; `None` when no answer is.
pub open spec fn spec_first_existing(cands: Seq<Seq<char>>, exists: Seq<bool>) -> Option<Seq<char>> {
    match first_index(exists, says_yes()) {
        Some(k) => Some(cands[k]),
        None => None,
    }
}

/// The first candidate that exists, given for each candidate whether it
/// exists.
pub fn first_existing(cands: &Vec<Vec<char>>, exists: &Vec<bool>) -> (r: Option<String>)
    requires
        exists@.len() == cands@.len(),
    ensures
        sv(r) == spec_first_existing(views(cands@), exists@),
{
    let mut i: usize = 0;
    while i < exists.len()
        invariant
            i <= exists.len(),
            exists@.len() == cands@.len(),
            forall|k: int| 0 <= k < i ==> !exists@[k],
        decreases exists.len() - i,
    {
        if exists[i] {
            assert(says_yes()(exists@[i as int]));
            let p = string_of(&cands[i]);
            assert(views(cands@)[i as int] == cands@[i as int]@);
            proof {
                crate::text::lemma_first_index(exists@, says_yes());
                assert(first_index(exists@, says_yes()) == Some(i as int));
            }
            return Some(p);
        }
        i = i + 1;
    }
    proof {
        crate::text::lemma_first_index(exists@, says_yes());
        if first_index(exists@, says_yes()) is Some {
            let k = first_index(exists@, says_yes()).unwrap();
            assert(!exists@[k]);
        }
    }
    None
}

/// The first icon file that exists for `name`, given `XDG_DATA_DIRS` and
/// `HOME`: each candidate is looked for on disk, and the first found is
/// returned, `None` when none is. Which files exist is up to the file
/// system at the time of the call.
pub fn find_icon_file(name: &str, xdg: Option<String>, home: Option<String>) -> (r: Option<String>)
    ensures
        exists|answers: Seq<bool>|
            answers.len() == icon_candidates(spec_icon_dirs(sv(xdg), sv(home)), name@).len() && sv(r)
                == #[trigger] spec_first_existing(
                icon_candidates(spec_icon_dirs(sv(xdg), sv(home)), name@),
                answers,
            ),
        r matches Some(p) ==> icon_candidates(spec_icon_dirs(sv(xdg), sv(home)), name@).contains(p@),
{
    let ghost all = icon_candidates(spec_icon_dirs(sv(xdg), sv(home)), name@);
    let dirs = icon_dirs(&xdg, &home);
    let cands = icon_candidate_list(&dirs, name);
    let mut found: Vec<bool> = Vec::new();
    let mut i: usize = 0;
    while i < cands.len()
        invariant
            i <= cands.len(),
            found@.len() == i,
        decreases cands.len() - i,
    {
        let p = string_of(&cands[i]);
        found.push(path_exists(p.as_str()));
        i = i + 1;
    }
    let r = first_existing(&cands, &found);
    proof {
        crate::text::lemma_first_index(found@, says_yes());
        if first_index(found@, says_yes()) is Some {
            let k = first_index(found@, says_yes()).unwrap();
            assert(all.contains(all[k]));
        }
    }
    r
}

} // verus!
