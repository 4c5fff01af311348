use anduin::config::{
    default_dark_theme, default_light_theme, project_identity, push_recent_repo, settings_file_in, settings_path, AppTheme,
    MAX_RECENT_REPOS,
};

#[test]
fn theme_lists_split_by_darkness() {
    let light = AppTheme::all_light();
    let dark = AppTheme::all_dark();
    assert_eq!(light.len() + dark.len(), 24);
    assert!(light.iter().all(|t| !t.is_dark()));
    assert!(dark.iter().all(|t| t.is_dark()));
    assert_eq!(light[0], AppTheme::GitHubLight);
    assert_eq!(dark[0], AppTheme::GitHubDark);
}

#[test]
fn theme_names_and_defaults() {
    assert_eq!(AppTheme::CatppuccinFrappe.display_name(), "Catppuccin Frappé");
    assert_eq!(AppTheme::TokyoNightStorm.display_name(), "Tokyo Night Storm");
    assert_eq!(AppTheme::default(), AppTheme::GitHubDark);
    assert_eq!(default_light_theme(), AppTheme::GitHubLight);
    assert_eq!(default_dark_theme(), AppTheme::GitHubDark);
    assert!(!AppTheme::KanagawaLotus.is_dark());
    assert!(AppTheme::Ferra.is_dark());
}

#[test]
fn recent_repo_moves_to_front_once() {
    let mut recent = vec!["/a".to_owned(), "/b".to_owned(), "/c".to_owned()];
    push_recent_repo(&mut recent, "/b");
    assert_eq!(recent, vec!["/b", "/a", "/c"]);
    push_recent_repo(&mut recent, "/b");
    assert_eq!(recent, vec!["/b", "/a", "/c"]);
    push_recent_repo(&mut recent, "/d");
    assert_eq!(recent, vec!["/d", "/b", "/a", "/c"]);
}

#[test]
fn recent_repos_keep_at_most_twenty() {
    let mut recent: Vec<String> = (0..25).map(|i| format!("/r{i}")).collect();
    push_recent_repo(&mut recent, "/new");
    assert_eq!(recent.len(), MAX_RECENT_REPOS);
    assert_eq!(recent[0], "/new");
    assert_eq!(recent[19], "/r18");
}

#[test]
fn settings_file_is_joined_to_config_dir() {
    assert_eq!(
        settings_file_in(Some(b"/home/u/.config/anduin".to_vec()), "/"),
        Ok(b"/home/u/.config/anduin/settings.toml".to_vec())
    );
    assert_eq!(settings_file_in(Some(b"/cfg/".to_vec()), "/"), Ok(b"/cfg/settings.toml".to_vec()));
    assert_eq!(
        settings_file_in(None, "/"),
        Err("failed to determine platform config directories".to_owned())
    );
}

#[test]
fn settings_file_is_joined_with_the_platform_separator() {
    assert_eq!(
        settings_file_in(Some(b"C:\\Users\\u\\AppData\\Roaming\\anduin\\anduin\\config".to_vec()), "\\"),
        Ok(b"C:\\Users\\u\\AppData\\Roaming\\anduin\\anduin\\config\\settings.toml".to_vec())
    );
    assert_eq!(settings_file_in(Some(b"C:\\cfg\\".to_vec()), "\\"), Ok(b"C:\\cfg\\settings.toml".to_vec()));
    assert_eq!(settings_file_in(Some(b"C:/cfg/".to_vec()), "\\"), Ok(b"C:/cfg/settings.toml".to_vec()));
}

#[test]
fn settings_path_ends_with_file_name() {
    match settings_path() {
        Ok(p) => {
            let sep = std::path::MAIN_SEPARATOR_STR.as_bytes();
            assert!(p.ends_with(b"settings.toml"));
            assert!(p[..p.len() - b"settings.toml".len()].ends_with(sep));
        }
        Err(e) => assert_eq!(e, "failed to determine platform config directories"),
    }
}

#[test]
fn settings_are_looked_up_for_dev_anduin_anduin() {
    assert_eq!(project_identity(), ("dev", "anduin", "anduin"));
}
