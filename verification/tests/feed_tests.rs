use savesync::endpoint::OS;
use savesync::extract::{
    extract_datatype_endpoint_from_game_index, extract_executable_path_from_game,
    extract_registry_path_from_game, extract_save_path_from_game, i64_to_string,
};
use savesync::manifest::{
    FileConstraint, FileRule, Game, LaunchConstraint, LaunchEntry, Os, RegistryRule, Store, Tag,
};

fn empty_game() -> Game {
    Game {
        files: None,
        install_dir: None,
        launch: None,
        registry: None,
        steam: None,
        gog: None,
        id: None,
        alias: None,
        cloud: None,
        notes: None,
    }
}

fn file_rule(tags: Vec<Tag>, when: Vec<FileConstraint>) -> FileRule {
    FileRule { tags: Some(tags), when: Some(when) }
}

fn os_clause(os: Option<Os>) -> FileConstraint {
    FileConstraint { os, store: None }
}

#[test]
fn save_paths_keep_only_save_tagged_rules() {
    let mut game = empty_game();
    game.files = Some(vec![
        (
            "~/saves".to_string(),
            file_rule(vec![Tag::Save], vec![os_clause(Some(Os::Linux))]),
        ),
        (
            "~/config".to_string(),
            file_rule(vec![Tag::Config], vec![os_clause(Some(Os::Linux))]),
        ),
    ]);
    let paths = extract_save_path_from_game(&game);
    assert_eq!(paths.len(), 1);
    assert_eq!(paths[0].path, "~/saves");
    assert!(matches!(paths[0].operating_system, OS::Linux));
}

#[test]
fn save_paths_map_each_clause_os() {
    let mut game = empty_game();
    game.files = Some(vec![(
        "~/saves".to_string(),
        file_rule(
            vec![Tag::Save],
            vec![
                os_clause(Some(Os::Windows)),
                os_clause(None),
                os_clause(Some(Os::Mac)),
            ],
        ),
    )]);
    let paths = extract_save_path_from_game(&game);
    // the Mac clause is irrelevant; an absent OS means unconstrained
    assert_eq!(paths.len(), 2);
    assert_eq!(paths[0].path, "~/saves");
    assert!(matches!(paths[0].operating_system, OS::Windows));
    assert_eq!(paths[1].path, "~/saves");
    assert!(matches!(paths[1].operating_system, OS::Undefined));
}

#[test]
fn save_paths_are_deduplicated() {
    let mut game = empty_game();
    game.files = Some(vec![(
        "~/saves".to_string(),
        file_rule(
            vec![Tag::Save],
            vec![
                os_clause(Some(Os::Linux)),
                os_clause(Some(Os::Linux)),
            ],
        ),
    )]);
    let paths = extract_save_path_from_game(&game);
    assert_eq!(paths.len(), 1);
}

#[test]
fn rule_without_clauses_contributes_nothing() {
    let mut game = empty_game();
    game.files = Some(vec![(
        "~/saves".to_string(),
        FileRule { tags: Some(vec![Tag::Save]), when: None },
    )]);
    let paths = extract_save_path_from_game(&game);
    assert_eq!(paths.len(), 0);
}

#[test]
fn executables_come_from_launch_clauses() {
    let mut game = empty_game();
    game.launch = Some(vec![(
        "game.exe".to_string(),
        vec![
            LaunchEntry {
                arguments: None,
                working_dir: None,
                when: Some(vec![
                    LaunchConstraint { bit: None, os: Some(Os::Windows), store: None },
                    LaunchConstraint { bit: None, os: Some(Os::Windows), store: Some(Store::Steam) },
                ]),
            },
            LaunchEntry { arguments: None, working_dir: None, when: None },
        ],
    )]);
    let executables = extract_executable_path_from_game(&game);
    assert_eq!(executables.len(), 1);
    assert_eq!(executables[0].executable, "game.exe");
    assert!(matches!(executables[0].operating_system, OS::Windows));
}

#[test]
fn registry_paths_are_bare_and_save_tagged() {
    let mut game = empty_game();
    game.registry = Some(vec![
        (
            "HKEY_CURRENT_USER/Software/Game".to_string(),
            RegistryRule { tags: Some(vec![Tag::Save]), when: None },
        ),
        (
            "HKEY_CURRENT_USER/Software/GameSettings".to_string(),
            RegistryRule { tags: Some(vec![Tag::Config]), when: None },
        ),
        (
            "HKEY_CURRENT_USER/Software/Game".to_string(),
            RegistryRule { tags: Some(vec![Tag::Save]), when: None },
        ),
    ]);
    let registry = extract_registry_path_from_game(&game);
    assert_eq!(registry.len(), 1);
    assert_eq!(registry[0], "HKEY_CURRENT_USER/Software/Game");
}

#[test]
fn extracted_metadata_carries_steam_id_in_decimal() {
    let mut game = empty_game();
    game.steam = Some(savesync::manifest::SteamInfo { id: Some(123) });
    let (metadata, executables, paths) =
        extract_datatype_endpoint_from_game_index(&"Foo".to_string(), &game);
    assert_eq!(metadata.default_name, "Foo");
    assert_eq!(metadata.steam_appid, Some("123".to_string()));
    assert!(metadata.known_name.is_empty());
    assert!(executables.is_empty());
    assert!(paths.is_empty());
}

#[test]
fn decimal_rendering_is_exact() {
    assert_eq!(i64_to_string(0), "0");
    assert_eq!(i64_to_string(123), "123");
    assert_eq!(i64_to_string(-45), "-45");
    assert_eq!(i64_to_string(10), "10");
    assert_eq!(i64_to_string(i64::MAX), "9223372036854775807");
    assert_eq!(i64_to_string(i64::MIN), "-9223372036854775808");
}
