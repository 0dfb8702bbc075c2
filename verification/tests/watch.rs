use pipeline::edit::{AssetKind, TableId};
use pipeline::watch::{
    asset_for_override_path, batch_actions, classify_changes, game_path_from_override, table_for_override_path, BatchAction,
    ChangeBatch, ReloadOutcome,
};

#[test]
fn test_table_for_override_path() {
    let override_dir = "/tmp/override";

    let path = "/tmp/override/root.era/data/objects.xml";
    assert_eq!(table_for_override_path(override_dir, path), Some(TableId::Objects));

    let path = "/tmp/override/root.era/data/squads.xml.xmb";
    assert_eq!(table_for_override_path(override_dir, path), Some(TableId::Squads));

    let path = "/tmp/override/PHXscn01.era/scenario/skirmish/design/blood_gulch.scn";
    assert_eq!(table_for_override_path(override_dir, path), Some(TableId::Scenario));

    let path = "/other/dir/data/objects.xml";
    assert_eq!(table_for_override_path(override_dir, path), None);
}

#[test]
fn test_asset_for_override_path() {
    let override_dir = "/tmp/override";

    // Database table
    let path = "/tmp/override/root.era/data/objects.xml";
    assert_eq!(
        asset_for_override_path(override_dir, path),
        Some(AssetKind::DatabaseTable(TableId::Objects)),
    );

    // Visual
    let path = "/tmp/override/root.era/art/unsc_inf_marine_01.vis";
    assert_eq!(
        asset_for_override_path(override_dir, path),
        Some(AssetKind::Visual("art\\unsc_inf_marine_01.vis".into())),
    );

    // Model (.ugx)
    let path = "/tmp/override/root.era/art/unsc_inf_marine_01.ugx";
    assert_eq!(
        asset_for_override_path(override_dir, path),
        Some(AssetKind::Model("art\\unsc_inf_marine_01.ugx".into())),
    );

    // Texture (.ddx)
    let path = "/tmp/override/root.era/art/unsc_inf_marine_01_df.ddx";
    assert_eq!(
        asset_for_override_path(override_dir, path),
        Some(AssetKind::Texture("art\\unsc_inf_marine_01_df.ddx".into())),
    );

    // Tactics
    let path = "/tmp/override/root.era/data/tactics/unsc_inf_marine_01_tactics.xml.xmb";
    assert_eq!(
        asset_for_override_path(override_dir, path),
        Some(AssetKind::Tactics("data\\tactics\\unsc_inf_marine_01_tactics.xml".into())),
    );

    // Animation (.uax)
    let path = "/tmp/override/root.era/art/anim_idle_01.uax";
    assert_eq!(
        asset_for_override_path(override_dir, path),
        Some(AssetKind::Animation("art\\anim_idle_01.uax".into())),
    );

    // Terrain (.xtd)
    let path = "/tmp/override/PHXscn01.era/scenario/skirmish/blood_gulch.xtd";
    assert_eq!(
        asset_for_override_path(override_dir, path),
        Some(AssetKind::TerrainData("scenario\\skirmish\\blood_gulch.xtd".into())),
    );

    // Physics
    let path = "/tmp/override/root.era/physics/warthog.physics";
    assert_eq!(
        asset_for_override_path(override_dir, path),
        Some(AssetKind::Physics("physics\\warthog.physics".into())),
    );

    // Unknown extension
    let path = "/tmp/override/root.era/data/random.foo";
    assert_eq!(asset_for_override_path(override_dir, path), None);
}

#[test]
fn table_for_override_path_unit() {
    let dir = "/tmp/override";
    let path = "/tmp/override/root.era/data/objects.xml";
    assert_eq!(table_for_override_path(dir, path), Some(TableId::Objects));
}

#[test]
fn override_game_path_drops_directory_and_label() {
    assert_eq!(
        game_path_from_override("/tmp/override", "/tmp/override/root.era/data/objects.xml"),
        Some("data\\objects.xml".to_string()),
    );
    // Repeated and trailing separators and `.` parts do not count.
    assert_eq!(
        game_path_from_override("/tmp//override/", "/tmp/override/./root.era/art/x.vis"),
        Some("art\\x.vis".to_string()),
    );
    // Only the label: nothing is left.
    assert_eq!(game_path_from_override("/tmp/override", "/tmp/override/root.era"), None);
    // The directory itself.
    assert_eq!(game_path_from_override("/tmp/override", "/tmp/override"), None);
    // A sibling directory that shares a prefix of characters.
    assert_eq!(game_path_from_override("/tmp/over", "/tmp/override/root.era/a.xml"), None);
}

#[test]
fn batch_of_changes_is_sorted_out() {
    let paths = vec![
        "/tmp/override/root.era/data/objects.xml".to_string(),
        "/tmp/override/root.era/art/marine.vis".to_string(),
        "/tmp/override/root.era/data/objects.xml.xmb".to_string(),
        "/tmp/override/root.era/random.foo".to_string(),
        "/elsewhere/x.vis".to_string(),
    ];
    let batch = classify_changes("/tmp/override", &paths);
    assert_eq!(
        batch.assets,
        vec![AssetKind::DatabaseTable(TableId::Objects), AssetKind::Visual("art\\marine.vis".to_string())]
    );
    assert_eq!(batch.unknown, vec!["/tmp/override/root.era/random.foo".to_string(), "/elsewhere/x.vis".to_string()]);
}

#[test]
fn batch_reports_each_reload_then_revalidates_once() {
    let batch = ChangeBatch {
        assets: vec![
            AssetKind::Visual("art\\a.vis".into()),
            AssetKind::Tactics("data\\tactics\\b.xml".into()),
            AssetKind::Model("art\\c.ugx".into()),
            AssetKind::DatabaseTable(TableId::Objects),
        ],
        unknown: vec!["/o/root.era/readme.txt".into()],
    };
    let outcomes = vec![
        ReloadOutcome::SourceMissing,
        ReloadOutcome::Reloaded,
        ReloadOutcome::Failed("bad".into()),
        ReloadOutcome::Reloaded,
    ];
    assert_eq!(
        batch_actions(&batch, &outcomes),
        vec![
            BatchAction::SourceMissing(AssetKind::Visual("art\\a.vis".into())),
            BatchAction::Reloaded(AssetKind::Tactics("data\\tactics\\b.xml".into())),
            BatchAction::Failed(AssetKind::Model("art\\c.ugx".into()), "bad".into()),
            BatchAction::Reloaded(AssetKind::DatabaseTable(TableId::Objects)),
            BatchAction::Revalidate,
            BatchAction::Unknown("/o/root.era/readme.txt".into()),
        ]
    );

    let failed = vec![
        ReloadOutcome::SourceMissing,
        ReloadOutcome::SourceMissing,
        ReloadOutcome::Failed("x".into()),
        ReloadOutcome::SourceMissing,
    ];
    let actions = batch_actions(&batch, &failed);
    assert_eq!(actions.len(), 5);
    assert!(!actions.contains(&BatchAction::Revalidate));
}
