use template_sync::document::SyncError;
use template_sync::locate::{choose_installation, installation_folders, parse_index, sole_installation};
use template_sync::paths::{
    definitions_path, settings_path, template_destination, template_files, templates_dir, vendor_dir,
};
use template_sync::text::{name_from_path, starts_with_text};

fn strings(v: &[&str]) -> Vec<String> {
    v.iter().map(|s| s.to_string()).collect()
}

#[test]
fn no_installation_found() {
    let entries = strings(&["/h/Google/Chrome", "/h/Google/Drive"]);
    let found = installation_folders(&entries);
    assert!(found.is_empty());
    assert_eq!(sole_installation(&found), Err(SyncError::NoInstallation));
}

#[test]
fn single_installation_is_used() {
    let entries = strings(&["/h/Google/Chrome", "/h/Google/AndroidStudio2023.1"]);
    let found = installation_folders(&entries);
    assert_eq!(sole_installation(&found), Ok(Some("/h/Google/AndroidStudio2023.1".to_string())));
}

#[test]
fn operator_picks_second_of_three() {
    let entries = strings(&[
        "/h/Google/AndroidStudio4.1",
        "/h/Google/Chrome",
        "/h/Google/AndroidStudio2022.3",
        "/h/Google/AndroidStudio2023.1",
    ]);
    let found = installation_folders(&entries);
    assert_eq!(found.len(), 3);
    assert_eq!(sole_installation(&found), Ok(None));
    assert_eq!(choose_installation(&found, "2\n"), Ok("/h/Google/AndroidStudio2022.3".to_string()));
    assert_eq!(settings_path(&found[1]), "/h/Google/AndroidStudio2022.3/options/file.template.settings.xml");
}

#[test]
fn bad_choices_are_rejected() {
    let found = strings(&["a/AndroidStudio1", "a/AndroidStudio2", "a/AndroidStudio3"]);
    assert_eq!(choose_installation(&found, "0"), Err(SyncError::SelectionOutOfRange));
    assert_eq!(choose_installation(&found, "4"), Err(SyncError::SelectionOutOfRange));
    assert_eq!(choose_installation(&found, "two"), Err(SyncError::InvalidSelection));
    assert_eq!(choose_installation(&found, ""), Err(SyncError::InvalidSelection));
    assert_eq!(choose_installation(&found, " 3 \n"), Ok("a/AndroidStudio3".to_string()));
}

#[test]
fn parses_decimal_indices() {
    assert_eq!(parse_index("42"), Some(42));
    assert_eq!(parse_index("+7"), Some(7));
    assert_eq!(parse_index("007"), Some(7));
    assert_eq!(parse_index("+"), None);
    assert_eq!(parse_index(""), None);
    assert_eq!(parse_index("-1"), None);
    assert_eq!(parse_index("1a"), None);
    assert_eq!(parse_index("18446744073709551615"), Some(usize::MAX));
    assert_eq!(parse_index("18446744073709551616"), None);
}

#[test]
fn last_path_segment() {
    assert_eq!(name_from_path("/a/b/c.txt"), "c.txt");
    assert_eq!(name_from_path("plain"), "plain");
    assert_eq!(name_from_path("/a/b/"), "");
    assert_eq!(name_from_path(""), "");
}

#[test]
fn checks_text_prefix() {
    assert!(starts_with_text("AndroidStudio2024", "AndroidStudio"));
    assert!(!starts_with_text("xAndroidStudio", "AndroidStudio"));
    assert!(!starts_with_text("AndroidStudi", "AndroidStudio"));
    assert!(starts_with_text("abc", ""));
}

#[test]
fn builds_paths() {
    assert_eq!(definitions_path("/lib"), "/lib/shared_templates.xml");
    assert_eq!(definitions_path("/lib/"), "/lib/shared_templates.xml");
    assert_eq!(vendor_dir("/Users/me"), "/Users/me/Library/Application Support/Google");
    assert_eq!(templates_dir("/x/AS"), "/x/AS/fileTemplates");
    assert_eq!(template_destination("/x/AS/fileTemplates", "/lib/Activity.kt"), "/x/AS/fileTemplates/Activity.kt");
}

#[test]
fn template_files_leave_out_definitions() {
    let entries = strings(&["/lib/A.kt", "/lib/shared_templates.xml", "/lib/B.java"]);
    assert_eq!(template_files(&entries), strings(&["/lib/A.kt", "/lib/B.java"]));
}

#[test]
fn installation_name_must_begin_with_prefix() {
    let entries = strings(&["/h/Google/XAndroidStudio", "/h/Google/Chrome"]);
    let found = installation_folders(&entries);
    assert!(found.is_empty());
    assert_eq!(sole_installation(&found), Err(SyncError::NoInstallation));
}

#[test]
fn prefix_elsewhere_in_path_does_not_count() {
    let entries = strings(&["/AndroidStudio/Google/Chrome", "/AndroidStudio/Google/AndroidStudio2024.1"]);
    let found = installation_folders(&entries);
    assert_eq!(found, strings(&["/AndroidStudio/Google/AndroidStudio2024.1"]));
}

#[test]
fn only_the_definitions_document_is_left_out() {
    let entries = strings(&[
        "/shared_templates.xml.d/A.kt",
        "/shared_templates.xml.d/a_shared_templates.xml",
        "/shared_templates.xml.d/shared_templates.xml",
    ]);
    assert_eq!(
        template_files(&entries),
        strings(&["/shared_templates.xml.d/A.kt", "/shared_templates.xml.d/a_shared_templates.xml"])
    );
}
