use dsh_launcher::resource::{
    arch_in, find_rc_files_recursive, host_arch, kits_dir, path_arch_hint, pick_preferred_rc,
    preferred_archs, resource_script, studio_dir, RcEntry, RcSearch, SearchAction, SearchEvent,
    STUDIO_DEPTH,
};
use dsh_launcher::version::version_key;

fn names(list: &[&str]) -> Vec<String> {
    list.iter().map(|s| s.to_string()).collect()
}

#[test]
fn script_holds_icon_and_version() {
    let want = r#"
1 ICON "D:/a/icons/app.ico"

1 VERSIONINFO
FILEVERSION    26,8,5,1
PRODUCTVERSION 26,8,5,1
FILEOS         0x40004
FILETYPE       0x1
BEGIN
    BLOCK "StringFileInfo"
    BEGIN
        BLOCK "040904b0"
        BEGIN
            VALUE "CompanyName",      "DshLauncher"
            VALUE "FileDescription",  "DeepSeek Harness Tray Guardian"
            VALUE "FileVersion",      "26.08.05.01"
            VALUE "InternalName",     "DshLauncher"
            VALUE "LegalCopyright",   "Copyright (C) 2026 DshLauncher"
            VALUE "OriginalFilename", "DshLauncher.exe"
            VALUE "ProductName",      "DshLauncher"
            VALUE "ProductVersion",   "26.08.05.01"
        END
    END
    BLOCK "VarFileInfo"
    BEGIN
        VALUE "Translation", 0x409, 1200
    END
END
"#;
    assert_eq!(resource_script(r"D:\a\icons\app.ico", (26, 8, 5, 1)), want);
}

#[test]
fn architectures_of_the_host() {
    assert_eq!(host_arch("x86_64"), "x64");
    assert_eq!(host_arch("x86"), "x86");
    assert_eq!(host_arch("aarch64"), "arm64");
    assert_eq!(host_arch("riscv64"), "x64");
    assert_eq!(preferred_archs("x64"), vec!["x64", "x86", "arm64"]);
    assert_eq!(preferred_archs("arm64"), vec!["arm64", "x64", "x86"]);
    assert_eq!(preferred_archs("x86"), vec!["x86", "x64", "arm64"]);
}

#[test]
fn architecture_of_a_path() {
    assert_eq!(path_arch_hint(r"C:\Kits\X64\rc.exe"), Some("x64"));
    assert_eq!(path_arch_hint(r"C:\Kits\ARM64\rc.exe"), Some("arm64"));
    assert_eq!(path_arch_hint(r"C:\Program Files (x86)\rc.exe"), Some("x86"));
    assert_eq!(path_arch_hint(r"C:\kits\É\rc.exe"), None);
    assert_eq!(arch_in("x64 and arm64"), Some("x64"));
    assert_eq!(arch_in("X64"), None);
}

#[test]
fn preferred_compiler_is_picked() {
    let found = names(&[r"C:\vs\x86\rc.exe", r"C:\vs\x64\rc.exe", r"C:\vs2\x64\rc.exe"]);
    assert_eq!(pick_preferred_rc(&found, "x64"), Some(1));
    assert_eq!(pick_preferred_rc(&found, "x86"), Some(0));
    // None for arm64: the next architecture in order.
    assert_eq!(pick_preferred_rc(&found, "arm64"), Some(1));
    assert_eq!(pick_preferred_rc(&names(&[r"C:\vs\rc.exe"]), "x64"), Some(0));
    assert_eq!(pick_preferred_rc(&Vec::new(), "x64"), None);
}

#[test]
fn keys_of_versions() {
    assert_eq!(version_key("10.0.22621.0"), vec![10, 0, 22621, 0]);
    assert_eq!(version_key("x64"), Vec::<u32>::new());
    assert_eq!(version_key("10.beta.3"), vec![10, 3]);
}

fn misses(search: &mut RcSearch) -> Vec<String> {
    let mut seen = Vec::new();
    while search.action() == SearchAction::Check {
        seen.push(search.place().to_string());
        search.step(SearchEvent::File(false));
    }
    seen
}

#[test]
fn setting_comes_first() {
    let mut search = RcSearch::find_rc_exe("x86_64");
    assert_eq!(search.action(), SearchAction::AskSetting);
    search.step(SearchEvent::Setting(Some(r"D:\rc.exe".to_string())));
    assert_eq!(search.place(), r"D:\rc.exe");
    search.step(SearchEvent::File(true));
    assert_eq!(search.action(), SearchAction::Finish);
    assert_eq!(search.result().as_deref(), Some(r"D:\rc.exe"));
}

#[test]
fn search_goes_through_all_places() {
    let mut search = RcSearch::find_rc_exe("x86_64");
    search.step(SearchEvent::Setting(None));
    assert_eq!(search.action(), SearchAction::SearchPath);
    search.step(SearchEvent::Listed(Some(b"C:\\a\\rc.exe\r\n  C:\\b\\rc.exe \r\n".to_vec())));
    assert_eq!(misses(&mut search), vec![r"C:\a\rc.exe", r"C:\b\rc.exe"]);

    assert_eq!(search.action(), SearchAction::ListKits(0));
    search.step(SearchEvent::Versions(names(&["9.0", "11.0", "arm64", "10.0.2", "10.0"])));
    let root = kits_dir(0);
    let mut want = Vec::new();
    for version in ["11.0", "10.0.2", "10.0", "9.0", "arm64"] {
        for arch in ["x64", "x86", "arm64"] {
            want.push(format!("{root}\\{version}\\{arch}\\rc.exe"));
        }
    }
    assert_eq!(misses(&mut search), want);

    assert_eq!(search.action(), SearchAction::ListKits(1));
    search.step(SearchEvent::Versions(Vec::new()));
    assert_eq!(search.action(), SearchAction::ListStudio(0));
    assert_eq!(studio_dir(0), r"C:\Program Files\Microsoft Visual Studio");
    search.step(SearchEvent::Found(names(&[r"C:\vs\x86\rc.exe"])));
    assert_eq!(search.action(), SearchAction::ListStudio(1));
    search.step(SearchEvent::Found(names(&[r"C:\vs\x64\rc.exe"])));
    assert_eq!(search.action(), SearchAction::Finish);
    assert_eq!(search.result().as_deref(), Some(r"C:\vs\x64\rc.exe"));
}

#[test]
fn nothing_found() {
    let mut search = RcSearch::find_rc_exe("aarch64");
    search.step(SearchEvent::Setting(None));
    search.step(SearchEvent::Listed(None));
    search.step(SearchEvent::Versions(Vec::new()));
    search.step(SearchEvent::Versions(Vec::new()));
    search.step(SearchEvent::Found(Vec::new()));
    search.step(SearchEvent::Found(Vec::new()));
    assert_eq!(search.action(), SearchAction::Finish);
    assert_eq!(search.result(), None);
}

#[test]
fn newest_kit_wins() {
    let mut search = RcSearch::find_rc_exe("x86_64");
    search.step(SearchEvent::Setting(None));
    search.step(SearchEvent::Listed(None));
    search.step(SearchEvent::Versions(names(&["10.0.9", "10.0.10"])));
    search.step(SearchEvent::File(false));
    search.step(SearchEvent::File(true));
    assert_eq!(
        search.result(),
        Some(format!("{}\\10.0.10\\x86\\rc.exe", kits_dir(0)))
    );
}

#[test]
fn entries_of_a_directory() {
    assert_eq!(find_rc_files_recursive(STUDIO_DEPTH, true, "bin"), RcEntry::Descend(4));
    assert_eq!(find_rc_files_recursive(1, true, "rc.exe"), RcEntry::Descend(0));
    assert_eq!(find_rc_files_recursive(1, false, "rc.exe"), RcEntry::Take);
    assert_eq!(find_rc_files_recursive(1, false, "RC.EXE"), RcEntry::Pass);
    assert_eq!(find_rc_files_recursive(0, false, "rc.exe"), RcEntry::Pass);
    assert_eq!(find_rc_files_recursive(0, true, "bin"), RcEntry::Pass);
}
