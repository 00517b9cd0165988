use pi_core::packages::{
    global_settings_path, handle_config, installed_message, list_packages, packages_to_update,
    path_line, project_settings_path, removed_message, scope_from_flag, updated_message,
    version_line, ListStep, PackageEntry, PackageScope,
};
use pi_core::paths::Platform;

fn package(source: &str, scope: PackageScope, filtered: bool) -> PackageEntry {
    PackageEntry { source: source.to_string(), scope, filtered }
}

fn line(s: &str) -> ListStep {
    ListStep::Print(s.to_string())
}

#[test]
fn flags_choose_the_scope() {
    assert_eq!(scope_from_flag(true), PackageScope::Project);
    assert_eq!(scope_from_flag(false), PackageScope::User);
}

#[test]
fn packages_are_listed_by_scope() {
    assert_eq!(list_packages(&[]), vec![line("No packages installed.")]);
    let steps = list_packages(&[
        package("npm:p", PackageScope::Project, false),
        package("npm:u", PackageScope::User, true),
        package("npm:t", PackageScope::Temporary, false),
    ]);
    assert_eq!(
        steps,
        vec![
            line("User packages:"),
            line("  npm:u (filtered)"),
            ListStep::ShowPath(1),
            line(""),
            line("Project packages:"),
            line("  npm:p"),
            ListStep::ShowPath(0),
            line("  npm:t"),
            ListStep::ShowPath(2),
        ]
    );
    let steps = list_packages(&[package("npm:p", PackageScope::Project, false)]);
    assert_eq!(
        steps,
        vec![line("Project packages:"), line("  npm:p"), ListStep::ShowPath(0)]
    );
    let steps = list_packages(&[package("npm:u", PackageScope::User, false)]);
    assert_eq!(steps, vec![line("User packages:"), line("  npm:u"), ListStep::ShowPath(0)]);
    assert_eq!(path_line("/x/y"), "    /x/y");
}

#[test]
fn updates_go_by_identity() {
    let ids = ["a".to_string(), "b".to_string(), "a".to_string()];
    assert_eq!(packages_to_update(&ids, Some("a")), vec![0, 2]);
    assert_eq!(packages_to_update(&ids, Some("c")), Vec::<usize>::new());
    assert_eq!(packages_to_update(&ids, None), vec![0, 1, 2]);
}

#[test]
fn messages_name_the_source() {
    assert_eq!(installed_message("npm:a"), "Installed npm:a");
    assert_eq!(removed_message("npm:a"), "Removed npm:a");
    assert_eq!(updated_message(Some("npm:a")), "Updated npm:a");
    assert_eq!(updated_message(None), "Updated packages");
}

#[test]
fn settings_have_paths() {
    assert_eq!(
        global_settings_path(None, "/home/u/.pi/agent", Platform::Unix),
        "/home/u/.pi/agent/settings.json"
    );
    assert_eq!(
        global_settings_path(Some("/etc/pi.json"), "/home/u", Platform::Unix),
        "/etc/pi.json"
    );
    assert_eq!(
        project_settings_path(r"C:\work", ".pi", Platform::Windows),
        r"C:\work\.pi\settings.json"
    );
    assert_eq!(project_settings_path("/work", ".pi", Platform::Unix), "/work/.pi/settings.json");
}

#[test]
fn configuration_is_reported() {
    assert_eq!(
        handle_config("/g/settings.json", "/p/.pi/settings.json", "/g/auth.json", "/g/sessions"),
        "Settings paths:\n  Global:  /g/settings.json\n  Project: /p/.pi/settings.json\n\n\
         Other paths:\n  Auth:     /g/auth.json\n  Sessions: /g/sessions\n\n\
         Settings precedence:\n  1) CLI flags\n  2) Environment variables\n  \
         3) Project settings (/p/.pi/settings.json)\n  4) Global settings (/g/settings.json)\n  \
         5) Built-in defaults\n"
    );
}

#[test]
fn versions_name_the_build() {
    assert_eq!(
        version_line("0.1.0", Some("abc123"), Some("2026-02-01")),
        "pi 0.1.0 (abc123 2026-02-01)"
    );
    assert_eq!(version_line("0.1.0", None, None), "pi 0.1.0 (unknown )");
}
