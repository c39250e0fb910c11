use savesync::endpoint::{ExecutableCreate, GameMetadataCreate, SavePathCreate, OS};
use savesync::store_rows::{
    executable_rows_for_game, metadata_row_for_game, name_rows_for_game, os_from_column_text,
    os_to_column_text, path_rows_for_game, str_eq,
};

#[test]
fn os_column_text_roundtrips() {
    for os in [OS::Windows, OS::Linux, OS::Undefined] {
        let text = os_to_column_text(os);
        assert_eq!(os_from_column_text(text), Some(os));
    }
    assert_eq!(os_to_column_text(OS::Windows), "windows");
    assert_eq!(os_to_column_text(OS::Linux), "linux");
    assert_eq!(os_to_column_text(OS::Undefined), "undefined");
    assert_eq!(os_from_column_text("mac"), None);
}

#[test]
fn str_eq_compares_characters() {
    assert!(str_eq("abc", "abc"));
    assert!(!str_eq("abc", "abd"));
    assert!(!str_eq("abc", "ab"));
    assert!(str_eq("", ""));
}

#[test]
fn rows_carry_the_game_id() {
    let metadata = GameMetadataCreate {
        known_name: vec!["Alias One".to_string(), "Alias Two".to_string()],
        steam_appid: Some("42".to_string()),
        default_name: "Game".to_string(),
    };
    let meta_row = metadata_row_for_game(&metadata);
    assert_eq!(meta_row.default_name, "Game");
    assert_eq!(meta_row.steam_appid, Some("42".to_string()));

    let names = name_rows_for_game(9, &metadata.known_name);
    assert_eq!(names.len(), 2);
    assert_eq!(names[0].name, "Alias One");
    assert_eq!(names[1].name, "Alias Two");
    assert!(names.iter().all(|row| row.game_metadata_id == 9));

    let paths = vec![SavePathCreate { path: "~/saves".to_string(), operating_system: OS::Linux }];
    let path_rows = path_rows_for_game(9, &paths);
    assert_eq!(path_rows.len(), 1);
    assert_eq!(path_rows[0].path, "~/saves");
    assert_eq!(path_rows[0].operating_system, "linux");
    assert_eq!(path_rows[0].game_metadata_id, 9);

    let executables =
        vec![ExecutableCreate { executable: "run.exe".to_string(), operating_system: OS::Windows }];
    let exec_rows = executable_rows_for_game(9, &executables);
    assert_eq!(exec_rows.len(), 1);
    assert_eq!(exec_rows[0].executable, "run.exe");
    assert_eq!(exec_rows[0].operating_system, "windows");
    assert_eq!(exec_rows[0].game_metadata_id, 9);
}
