use rust_dock::icons::{find_icon_file, first_existing, icon_base, icon_candidate_list, icon_dirs, is_icon_path};

fn text(v: &Vec<char>) -> String {
    v.iter().collect()
}

#[test]
fn one_image_extension_is_taken_off() {
    assert_eq!(icon_base("myapp.png"), "myapp");
    assert_eq!(icon_base("myapp.svg"), "myapp");
    assert_eq!(icon_base("myapp.xpm"), "myapp");
    assert_eq!(icon_base("com.github.rafostar.Clapper"), "com.github.rafostar.Clapper");
    assert_eq!(icon_base("a.png.png"), "a.png");
}

#[test]
fn paths_are_told_from_names() {
    assert!(is_icon_path("/usr/share/icons/x.png"));
    assert!(is_icon_path("icons/x"));
    assert!(!is_icon_path("firefox"));
}

#[test]
fn data_dirs_from_the_environment() {
    let dirs: Vec<String> = icon_dirs(&None, &Some("/home/u".to_string())).iter().map(text).collect();
    assert_eq!(dirs, vec!["/usr/local/share", "/usr/share", "/home/u/.local/share", "/home/u/.icons"]);
    let custom: Vec<String> = icon_dirs(&Some("/a::/b/".to_string()), &None).iter().map(text).collect();
    assert_eq!(custom, vec!["/a", "", "/b/"]);
}

#[test]
fn candidate_files_in_search_order() {
    let dirs = icon_dirs(&Some("/d".to_string()), &None);
    let c: Vec<String> = icon_candidate_list(&dirs, "app").iter().map(text).collect();
    assert_eq!(c.len(), 38);
    assert_eq!(c[0], "/d/icons/hicolor/scalable/apps/app.svg");
    assert_eq!(c[1], "/d/icons/hicolor/scalable/apps/app.png");
    assert_eq!(c[2], "/d/icons/hicolor/scalable/apps/app.xpm");
    assert_eq!(c[3], "/d/icons/hicolor/512x512/apps/app.svg");
    assert_eq!(c[32], "/d/icons/hicolor/16x16/apps/app.xpm");
    assert_eq!(c[33], "/d/icons/app/svg");
    assert_eq!(c[34], "/d/icons/app/png");
    assert_eq!(c[35], "/d/pixmaps/app.png");
    assert_eq!(c[36], "/d/pixmaps/app.svg");
    assert_eq!(c[37], "/d/pixmaps/app.xpm");
    let two = icon_candidate_list(&icon_dirs(&Some("/x:/y".to_string()), &None), "n");
    assert_eq!(two.len(), 76);
    assert_eq!(text(&two[38]), "/y/icons/hicolor/scalable/apps/n.svg");
}

#[test]
fn empty_directory_gives_relative_candidates() {
    let c: Vec<String> = icon_candidate_list(&icon_dirs(&Some("".to_string()), &None), "k").iter().map(text).collect();
    assert_eq!(c[0], "icons/hicolor/scalable/apps/k.svg");
}

#[test]
fn a_missing_icon_is_not_found() {
    assert_eq!(find_icon_file("zz-no-such-icon-anywhere", Some("/nonexistent-dir".to_string()), None), None);
}

#[test]
fn the_first_existing_candidate_is_chosen() {
    let cands: Vec<Vec<char>> = ["/a", "/b", "/c"].iter().map(|p| p.chars().collect()).collect();
    assert_eq!(first_existing(&cands, &vec![false, true, true]).as_deref(), Some("/b"));
    assert_eq!(first_existing(&cands, &vec![true, false, true]).as_deref(), Some("/a"));
    assert_eq!(first_existing(&cands, &vec![false, false, false]), None);
}
