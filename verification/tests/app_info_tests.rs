use rust_dock::app_info::{
    clean_exec, clean_exec_pub, resolve_icon_name_given, search_paths_for, select_by_class, select_by_id, AppInfo,
    AppInfoCache, DesktopCandidate, DesktopFields,
};

#[test]
fn clean_exec_removes_field_codes() {
    assert_eq!(clean_exec("firefox %u"), "firefox");
    assert_eq!(clean_exec("code --new-window %F"), "code --new-window");
    assert_eq!(clean_exec("kitty"), "kitty");
    assert_eq!(clean_exec(""), "");
}

#[test]
fn clean_exec_collapses_spaces_and_drops_every_field_code() {
    assert_eq!(clean_exec_pub("  env   FOO=1  app %U --flag %i  "), "env FOO=1 app --flag");
    assert_eq!(clean_exec_pub("%f"), "");
    assert_eq!(clean_exec_pub("a\tb"), "a b");
}

#[test]
fn bare_image_icon_resolves_against_pixmaps() {
    assert_eq!(resolve_icon_name_given("app.png", true), "/usr/share/pixmaps/app.png");
    assert_eq!(resolve_icon_name_given("app.svg", false), "app");
    assert_eq!(resolve_icon_name_given("/opt/app/icon.png", false), "/opt/app/icon.png");
    assert_eq!(resolve_icon_name_given("org.gnome.Terminal", true), "org.gnome.Terminal");
}

fn s(x: &str) -> Option<String> {
    Some(x.to_string())
}

fn cand(file: &str, name: Option<String>, wm: Option<String>) -> DesktopCandidate {
    DesktopCandidate {
        file_name: s(file),
        fields: Some(DesktopFields {
            name,
            icon: s("icon"),
            exec_line: s("run %u"),
            startup_wm_class: wm,
            gettext_domain: None,
        }),
    }
}

#[test]
fn class_lookup_prefers_the_file_named_after_the_class() {
    let cands = vec![
        cand("other.desktop", s("By WM class"), s("Kitty")),
        cand("Kitty.desktop", s("Kitty Terminal"), None),
    ];
    let (app, chosen) = select_by_class("KITTY", &cands).unwrap();
    assert_eq!(chosen, 1);
    assert_eq!(app.id, "kitty");
    assert_eq!(app.name, "Kitty Terminal");
    assert_eq!(app.exec_line, "run %u");
    assert_eq!(app.icon.as_deref(), Some("icon"));
}

#[test]
fn class_lookup_falls_back_to_the_first_wm_class() {
    let cands = vec![
        cand("a.desktop", None, s("code")),
        cand("b.desktop", s("Second"), s("Code")),
    ];
    let (app, chosen) = select_by_class("Code", &cands).unwrap();
    assert_eq!(chosen, 0);
    assert_eq!(app.id, "code");
    assert_eq!(app.name, "Code");
    assert!(select_by_class("nothing", &cands).is_none());
}

#[test]
fn id_lookup_keeps_the_id_and_falls_back_to_the_class() {
    let cands = vec![
        cand("Firefox.desktop", s("Firefox"), None),
        cand("code-oss.desktop", s("Code - OSS"), s("code")),
        DesktopCandidate { file_name: None, fields: None },
    ];
    let (ff, at) = select_by_id("FireFox", &cands).unwrap();
    assert_eq!(at, 0);
    assert_eq!(ff.id, "FireFox");
    assert_eq!(ff.name, "Firefox");
    let (code, at_code) = select_by_id("Code", &cands).unwrap();
    assert_eq!(at_code, 1);
    assert_eq!(code.id, "code");
    assert_eq!(code.name, "Code - OSS");
    let (plain, _) = select_by_id("firefox.desktop", &cands).unwrap();
    assert_eq!(plain.id, "firefox.desktop");
    assert!(select_by_id("missing", &cands).is_none());
}

#[test]
fn search_paths_cover_system_user_and_flatpak_dirs() {
    let with = search_paths_for(s("/home/u/.local/share"));
    assert_eq!(
        with,
        vec![
            "/usr/share/applications",
            "/usr/local/share/applications",
            "/var/lib/flatpak/exports/share/applications",
            "/home/u/.local/share/applications",
            "/home/u/.local/share/flatpak/exports/share/applications",
        ]
    );
    assert_eq!(search_paths_for(None).len(), 3);
}

#[test]
fn launch_runs_the_cleaned_exec_floating() {
    let app = AppInfo { id: "x".into(), name: "X".into(), icon: None, exec_line: "x-app %U --new".into() };
    assert_eq!(app.launch_args(), vec!["dispatch", "exec", "[float;center 1] x-app --new"]);
}

#[test]
fn memo_starts_empty_and_answers_again() {
    let mut cache = AppInfoCache::new();
    let keep = |_d: String, n: String| n;
    let first = AppInfo::find_by_class(&mut cache, "no-such-class-anywhere-xyz", &keep);
    let second = AppInfo::find_by_class(&mut cache, "NO-SUCH-CLASS-ANYWHERE-XYZ", &keep);
    assert_eq!(first.is_some(), second.is_some());
    let a = AppInfo::find_by_id(&mut cache, "no-such-id-anywhere-xyz", &keep);
    let b = AppInfo::find_by_id(&mut cache, "no-such-id-anywhere-xyz", &keep);
    assert_eq!(a.map(|x| x.name), b.map(|x| x.name));
}

#[test]
fn cleaning_twice_changes_nothing_more() {
    for line in ["firefox %u", "  a  %F b %% c ", "", "%x", "env A=1 run"] {
        let once = clean_exec(line);
        assert_eq!(clean_exec(&once), once);
        assert!(once.split_whitespace().all(|w| !w.starts_with('%')));
    }
}

#[test]
fn found_classes_carry_the_lowercased_class_as_id() {
    let mut cache = AppInfoCache::new();
    let keep = |_d: String, n: String| n;
    for class in ["Firefox", "kitty", "zz-Nothing-Installed"] {
        if let Some(a) = AppInfo::find_by_class(&mut cache, class, &keep) {
            assert_eq!(a.id, class.to_lowercase());
        }
    }
}

fn translated_cand(file: &str, name: &str, domain: Option<String>) -> DesktopCandidate {
    DesktopCandidate {
        file_name: s(file),
        fields: Some(DesktopFields {
            name: s(name),
            icon: s("/opt/app/icon.png"),
            exec_line: s("app %U"),
            startup_wm_class: None,
            gettext_domain: domain,
        }),
    }
}

#[test]
fn names_are_translated_through_the_entry_gettext_domain() {
    let tr = |d: String, n: String| format!("{}:{}", d, n.to_uppercase());
    let cands = vec![translated_cand("files.desktop", "Files", s("nautilus"))];
    let app = AppInfo::lookup_by_id("files", &cands, &tr).unwrap();
    assert_eq!(app.name, "nautilus:FILES");
    assert_eq!(app.id, "files");
    assert_eq!(app.icon.as_deref(), Some("/opt/app/icon.png"));
    let by_class = AppInfo::lookup_by_class("Files", &cands, &tr).unwrap();
    assert_eq!(by_class.name, "nautilus:FILES");
    assert_eq!(by_class.id, "files");
}

#[test]
fn names_without_a_gettext_domain_are_kept_as_written() {
    let tr = |_d: String, _n: String| "never".to_string();
    let cands = vec![
        translated_cand("plain.desktop", "Plain", None),
        translated_cand("nul.desktop", "Has\0Nul", s("dom")),
    ];
    assert_eq!(AppInfo::lookup_by_id("plain", &cands, &tr).unwrap().name, "Plain");
    assert_eq!(AppInfo::lookup_by_id("nul", &cands, &tr).unwrap().name, "Has\0Nul");
    assert!(AppInfo::lookup_by_id("absent", &cands, &tr).is_none());
}
