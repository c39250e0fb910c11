use savesync::endpoint::{GameMetadataCreate, SavePathCreate, OS};
use savesync::manifest::{FileConstraint, FileRule, Game, GameIndex, SteamInfo, Tag};
use savesync::reconcile::{
    apply_plan, import_manifest, reconcile, Catalog, NewCatalogRow,
};

fn empty_game() -> Game {
    Game {
        files: None,
        install_dir: None,
        launch: None,
        registry: None,
        steam: None,
        gog: None,
        id: None,
        alias: None,
        cloud: None,
        notes: None,
    }
}

fn row_content(default_name: &str) -> NewCatalogRow {
    NewCatalogRow {
        metadata: GameMetadataCreate {
            known_name: Vec::new(),
            steam_appid: None,
            default_name: default_name.to_string(),
        },
        path_to_save: Vec::new(),
        executable: Vec::new(),
        registry_path: Vec::new(),
    }
}

/// Scenario: a feed with one real entry and one alias against an empty
/// catalog yields a single row carrying the alias as a synonym.
#[test]
fn alias_feed_against_empty_catalog() {
    let mut foo = empty_game();
    foo.steam = Some(SteamInfo { id: Some(123) });
    let mut remaster = empty_game();
    remaster.alias = Some("Foo".to_string());
    let feed = GameIndex {
        entries: vec![("Foo".to_string(), foo), ("Foo Remastered".to_string(), remaster)],
    };

    let mut catalog = Catalog::new();
    import_manifest(&mut catalog, &feed);

    assert_eq!(catalog.rows.len(), 1);
    let row = &catalog.rows[0];
    assert_eq!(row.content.metadata.default_name, "Foo");
    assert_eq!(row.content.metadata.known_name, vec!["Foo Remastered".to_string()]);
    assert_eq!(row.content.metadata.steam_appid, Some("123".to_string()));
    assert!(row.externally_managed);
}

/// Scenario: a user-entered row is left alone even when the feed knows
/// the game.
#[test]
fn user_entered_row_survives_import() {
    let mut catalog = Catalog::new();
    let mut content = row_content("Bar");
    content.path_to_save.push(SavePathCreate {
        path: "~/my-own-spot".to_string(),
        operating_system: OS::Linux,
    });
    catalog.insert_row(content, false);

    let mut bar = empty_game();
    bar.files = Some(vec![(
        "~/from-the-feed".to_string(),
        FileRule {
            tags: Some(vec![Tag::Save]),
            when: Some(vec![FileConstraint { os: None, store: None }]),
        },
    )]);
    let feed = GameIndex { entries: vec![("Bar".to_string(), bar)] };
    import_manifest(&mut catalog, &feed);

    assert_eq!(catalog.rows.len(), 1);
    let row = &catalog.rows[0];
    assert!(!row.externally_managed);
    assert_eq!(row.content.path_to_save.len(), 1);
    assert_eq!(row.content.path_to_save[0].path, "~/my-own-spot");
    assert!(row.content.executable.is_empty());
}

/// Importing the same feed twice leaves the catalog exactly as the first
/// import left it.
#[test]
fn second_import_changes_nothing() {
    let mut foo = empty_game();
    foo.steam = Some(SteamInfo { id: Some(7) });
    foo.files = Some(vec![(
        "~/saves".to_string(),
        FileRule {
            tags: Some(vec![Tag::Save]),
            when: Some(vec![FileConstraint { os: None, store: None }]),
        },
    )]);
    let mut remaster = empty_game();
    remaster.alias = Some("Foo".to_string());
    let feed = GameIndex {
        entries: vec![("Foo".to_string(), foo), ("Foo Remastered".to_string(), remaster)],
    };

    let mut catalog = Catalog::new();
    import_manifest(&mut catalog, &feed);
    let rows_after_first: Vec<(i64, bool, String, Vec<String>, Vec<String>)> = catalog
        .rows
        .iter()
        .map(|r| {
            (
                r.id,
                r.externally_managed,
                r.content.metadata.default_name.clone(),
                r.content.metadata.known_name.clone(),
                r.content.path_to_save.iter().map(|p| p.path.clone()).collect(),
            )
        })
        .collect();
    let next_after_first = catalog.next_id;

    import_manifest(&mut catalog, &feed);
    let rows_after_second: Vec<(i64, bool, String, Vec<String>, Vec<String>)> = catalog
        .rows
        .iter()
        .map(|r| {
            (
                r.id,
                r.externally_managed,
                r.content.metadata.default_name.clone(),
                r.content.metadata.known_name.clone(),
                r.content.path_to_save.iter().map(|p| p.path.clone()).collect(),
            )
        })
        .collect();

    assert_eq!(rows_after_first, rows_after_second);
    assert_eq!(next_after_first, catalog.next_id);
}

/// An externally managed row is fully replaced, keeping its id.
#[test]
fn externally_managed_row_is_replaced() {
    let mut catalog = Catalog::new();
    let mut stale = row_content("Foo");
    stale.metadata.steam_appid = Some("1".to_string());
    let id = catalog.insert_row(stale, true);

    let mut foo = empty_game();
    foo.steam = Some(SteamInfo { id: Some(2) });
    let feed = GameIndex { entries: vec![("Foo".to_string(), foo)] };
    import_manifest(&mut catalog, &feed);

    assert_eq!(catalog.rows.len(), 1);
    assert_eq!(catalog.rows[0].id, id);
    assert_eq!(catalog.rows[0].content.metadata.steam_appid, Some("2".to_string()));
    assert!(catalog.rows[0].externally_managed);
}

/// The plan itself can be inspected and applied separately: unknown names
/// insert, managed matches replace, user rows are skipped.
#[test]
fn plan_classifies_entries() {
    let mut catalog = Catalog::new();
    catalog.insert_row(row_content("Managed"), true);
    catalog.insert_row(row_content("Mine"), false);

    let feed = GameIndex {
        entries: vec![
            ("Managed".to_string(), empty_game()),
            ("Mine".to_string(), empty_game()),
            ("Fresh".to_string(), empty_game()),
        ],
    };
    let plan = reconcile(&catalog, &feed);
    assert_eq!(plan.inserts.len(), 1);
    assert_eq!(plan.inserts[0].metadata.default_name, "Fresh");
    assert_eq!(plan.replaces.len(), 1);
    assert_eq!(plan.replaces[0].0, 0);
    assert_eq!(plan.replaces[0].1.metadata.default_name, "Managed");

    apply_plan(&mut catalog, plan);
    assert_eq!(catalog.rows.len(), 3);
    assert_eq!(catalog.rows[2].content.metadata.default_name, "Fresh");
    assert_eq!(catalog.rows[2].id, 2);
}

#[test]
fn find_by_name_returns_first_match() {
    let mut catalog = Catalog::new();
    catalog.insert_row(row_content("A"), true);
    catalog.insert_row(row_content("B"), false);
    assert_eq!(catalog.find_by_name(&"B".to_string()), Some(1));
    assert_eq!(catalog.find_by_name(&"C".to_string()), None);
    assert_eq!(catalog.list_all().len(), 2);
}
