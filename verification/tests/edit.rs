use pipeline::edit::{AssetKind, DirtySet, TableId};

#[test]
fn table_from_game_path_normalises_spelling() {
    assert_eq!(TableId::from_game_path("data\\objects.xml"), Some(TableId::Objects));
    assert_eq!(TableId::from_game_path("DATA/Objects.XML.xmb"), Some(TableId::Objects));
    assert_eq!(TableId::from_game_path("data\\gamedata.xml.xmb"), Some(TableId::GameData));
    assert_eq!(TableId::from_game_path("scenario\\skirmish\\design\\x\\x.scn"), Some(TableId::Scenario));
    assert_eq!(TableId::from_game_path("data\\unknown.xml"), None);
    assert_eq!(TableId::from_game_path("art\\x.vis"), None);
}

#[test]
fn table_game_path_round_trip() {
    for t in TableId::all() {
        if let Some(p) = t.game_path() {
            assert_eq!(TableId::from_game_path(p), Some(t));
        }
    }
    assert_eq!(TableId::Objects.game_path(), Some("data\\objects.xml"));
    assert_eq!(TableId::Visuals.game_path(), None);
    assert_eq!(TableId::all().len(), 20);
}

#[test]
fn per_file_tables() {
    assert!(TableId::Visuals.is_per_file());
    assert!(TableId::Textures.is_per_file());
    assert!(!TableId::Objects.is_per_file());
    assert!(!TableId::Strings.is_per_file());
    assert_eq!(TableId::WeaponTypes.name(), "WeaponTypes");
}

#[test]
fn asset_kind_classifies_paths() {
    assert_eq!(AssetKind::from_game_path("data\\objects.xml.xmb"), Some(AssetKind::DatabaseTable(TableId::Objects)));
    assert_eq!(
        AssetKind::from_game_path("Scenario\\Skirmish\\x.scn"),
        Some(AssetKind::Scenario("scenario\\skirmish\\x.scn".to_string()))
    );
    assert_eq!(
        AssetKind::from_game_path("art/Marine.vis.xmb"),
        Some(AssetKind::Visual("art\\marine.vis".to_string()))
    );
    assert_eq!(
        AssetKind::from_game_path("data\\tactics\\marine.xml"),
        Some(AssetKind::Tactics("data\\tactics\\marine.xml".to_string()))
    );
    assert_eq!(
        AssetKind::from_game_path("physics\\w.physics"),
        Some(AssetKind::Physics("physics\\w.physics".to_string()))
    );
    assert_eq!(
        AssetKind::from_game_path("physics\\w.blueprint"),
        Some(AssetKind::Blueprint("physics\\w.blueprint".to_string()))
    );
    assert_eq!(AssetKind::from_game_path("physics\\w.shp"), Some(AssetKind::Shape("physics\\w.shp".to_string())));
    assert_eq!(AssetKind::from_game_path("art\\m.ugx"), Some(AssetKind::Model("art\\m.ugx".to_string())));
    assert_eq!(AssetKind::from_game_path("art\\a.uax"), Some(AssetKind::Animation("art\\a.uax".to_string())));
    assert_eq!(AssetKind::from_game_path("art\\t.ddx"), Some(AssetKind::Texture("art\\t.ddx".to_string())));
    assert_eq!(AssetKind::from_game_path("s\\t.xtd"), Some(AssetKind::TerrainData("s\\t.xtd".to_string())));
    assert_eq!(AssetKind::from_game_path("s\\t.xtt"), Some(AssetKind::TerrainTextures("s\\t.xtt".to_string())));
    assert_eq!(AssetKind::from_game_path("random.foo"), None);
}

#[test]
fn asset_kind_xml_or_binary() {
    let vis = AssetKind::Visual("art\\m.vis".to_string());
    assert!(vis.is_xml());
    assert!(!vis.is_binary());
    assert_eq!(vis.game_path(), "art\\m.vis");
    let tex = AssetKind::Texture("art\\t.ddx".to_string());
    assert!(tex.is_binary());
    assert!(!tex.is_xml());
    let table = AssetKind::DatabaseTable(TableId::Squads);
    assert_eq!(table.game_path(), "data\\squads.xml");
    assert!(table.is_xml());
}

#[test]
fn dirty_set_tracks_tables_and_keys() {
    let mut d = DirtySet::new();
    assert!(!d.is_any_dirty());
    assert!(d.dirty_tables().is_empty());

    d.mark_key(TableId::Visuals, "art\\a.vis".to_string());
    d.mark_key(TableId::Visuals, "art\\b.vis".to_string());
    d.mark_key(TableId::Visuals, "art\\a.vis".to_string());
    d.set_flag(TableId::Objects, true);
    assert!(d.is_any_dirty());
    assert!(d.is_dirty(TableId::Visuals));
    assert!(d.is_dirty(TableId::Objects));
    assert!(!d.is_dirty(TableId::Squads));
    assert_eq!(d.dirty_tables(), vec![TableId::Objects, TableId::Visuals]);
    assert_eq!(d.dirty_keys(TableId::Visuals), vec!["art\\a.vis".to_string(), "art\\b.vis".to_string()]);

    d.clear_key(TableId::Visuals, "art\\a.vis");
    assert!(d.is_dirty(TableId::Visuals));
    assert_eq!(d.dirty_keys(TableId::Visuals), vec!["art\\b.vis".to_string()]);
    d.clear_key(TableId::Visuals, "art\\b.vis");
    assert!(!d.is_dirty(TableId::Visuals));
    assert_eq!(d.dirty_tables(), vec![TableId::Objects]);

    d.clear();
    assert!(!d.is_any_dirty());
}

#[test]
fn clearing_a_key_keeps_a_whole_table_edit() {
    let mut d = DirtySet::new();
    d.set_flag(TableId::Visuals, true);
    d.clear_key(TableId::Visuals, "art\\a.vis");
    assert!(d.is_dirty(TableId::Visuals));
    assert!(d.dirty_keys(TableId::Visuals).is_empty());

    d.set_flag(TableId::Objects, true);
    d.clear_key(TableId::Objects, "data\\objects.xml");
    assert!(d.is_dirty(TableId::Objects));
    assert_eq!(d.dirty_tables(), vec![TableId::Objects, TableId::Visuals]);
}

#[test]
fn default_dirty_set_is_clean() {
    let d = DirtySet::default();
    assert!(!d.is_any_dirty());
    for t in TableId::all() {
        assert!(!d.is_dirty(t));
        assert!(d.dirty_keys(t).is_empty());
    }
}

#[test]
fn asset_kind_game_path_reads_back() {
    for p in ["Art/Units/Marine.VIS.xmb", "data/Tactics/marine.xml", "art\\x.ugx", "Data/Objects.xml.xmb", "scenario/a/b.scn"] {
        let k = AssetKind::from_game_path(p).unwrap();
        assert_eq!(AssetKind::from_game_path(k.game_path()), Some(k.clone()));
    }
    assert_eq!(
        AssetKind::from_game_path("Art/Units/Marine.VIS.xmb"),
        Some(AssetKind::Visual("art\\units\\marine.vis".into()))
    );
    assert_eq!(AssetKind::from_game_path("Data/Objects.xml.xmb").unwrap().game_path(), "data\\objects.xml");
}
