use std::time::Duration;

use pipeline::edit::{DirtySet, TableId};
use pipeline::save::{save_plan, KeyedPath, PhysicsPaths, SaveInputs};
use pipeline::stringtable::{table_path, StringElement, StringTable};
use pipeline::validate::{db_files, FileOutcome, FileResult, ValidateReport};

fn element(name: &str, id: Option<i32>, text: &str, mk: Option<&str>) -> StringElement {
    StringElement {
        name: name.to_string(),
        loc_id: id,
        text: text.to_string(),
        mouse_keyboard: mk.map(|s| s.to_string()),
        category: None,
        subtitle: None,
    }
}

#[test]
fn string_table_last_definition_wins() {
    let mut sub = element("String", Some(3), "sub", None);
    sub.category = Some("Code".to_string());
    sub.subtitle = Some(true);
    let t = StringTable::from_elements(
        "en".to_string(),
        "English".to_string(),
        vec![
            element("String", Some(1), "first", None),
            element("String", Some(2), "Press A", Some("Click")),
            element("Comment", Some(9), "not a string", None),
            element("String", None, "no id", None),
            element("String", Some(1), "second", None),
            sub,
        ],
    );
    assert_eq!(t.len(), 3);
    assert!(!t.is_empty());
    assert_eq!(t.get(1), Some("second"));
    assert_eq!(t.get(2), Some("Press A"));
    assert_eq!(t.get_pc(2), Some("Click"));
    assert_eq!(t.get_pc(1), Some("second"));
    assert_eq!(t.get(9), None);
    let e = t.get_entry(3).unwrap();
    assert_eq!(e.category, "Code");
    assert!(e.subtitle);
    assert_eq!(t.get_entry(1).unwrap().category, "");
    assert_eq!(table_path("en"), "data\\stringtable-en.xml");
}

#[test]
fn empty_string_table() {
    let t = StringTable::from_elements("de".to_string(), "Deutsch".to_string(), vec![]);
    assert!(t.is_empty());
    assert_eq!(t.len(), 0);
    assert_eq!(t.language_code, "de");
}

#[test]
fn database_files_in_order() {
    let files = db_files();
    assert_eq!(files.len(), 10);
    assert_eq!(files[0].path, "data\\objects.xml.xmb");
    assert_eq!(files[0].table, Some(("Objects", "Object", "proto objects")));
    assert_eq!(files[2].path, "data\\techs.xml.xmb");
    assert_eq!(files[2].label, "techs");
    assert_eq!(files[2].table, Some(("TechTree", "Tech", "techs")));
    assert_eq!(files[8].label, "damagetypes");
    assert_eq!(files[9].label, "gamedata");
    assert_eq!(files[9].table, None);
}

#[test]
fn report_counts() {
    let report = ValidateReport {
        files: vec![
            FileResult {
                label: "objects".to_string(),
                outcome: FileOutcome::Passed { summary: "10 objects".to_string(), warnings: vec!["w1".to_string(), "w2".to_string()] },
            },
            FileResult { label: "squads".to_string(), outcome: FileOutcome::Failed("bad".to_string()) },
            FileResult { label: "techs".to_string(), outcome: FileOutcome::Missing },
            FileResult {
                label: "civs".to_string(),
                outcome: FileOutcome::Passed { summary: "2 civs".to_string(), warnings: vec!["w3".to_string()] },
            },
        ],
        elapsed: Duration::from_millis(5),
    };
    assert_eq!(report.passed(), 2);
    assert_eq!(report.failed(), 1);
    assert_eq!(report.missing(), 1);
    assert_eq!(report.total_warnings(), 3);
    assert_eq!(report.passed() + report.failed() + report.missing(), report.files.len());
}

fn inputs() -> SaveInputs {
    SaveInputs {
        game_data_loaded: true,
        scenario_path: Some("scenario\\x\\x.scn".to_string()),
        terrain_data_path: Some("scenario\\x\\x.xtd".to_string()),
        terrain_textures_path: None,
        strings_path: Some("data\\stringtable-en.xml".to_string()),
        visuals: vec![
            KeyedPath { key: "art\\a.vis".to_string(), path: Some("art\\a.vis".to_string()) },
            KeyedPath { key: "art\\b.vis".to_string(), path: Some("art\\b.vis".to_string()) },
        ],
        tactics: vec![],
        physics: vec![PhysicsPaths {
            key: "hog".to_string(),
            physics: Some("physics\\hog.physics".to_string()),
            blueprint: None,
            shape: Some("physics\\hog.shp".to_string()),
        }],
        models: vec![],
        textures: vec!["art\\t1.ddx".to_string(), "art\\t2.ddx".to_string()],
        animations: vec![],
    }
}

#[test]
fn clean_world_saves_nothing() {
    assert!(save_plan(&DirtySet::new(), &inputs()).is_empty());
}

#[test]
fn save_plan_follows_dirty_tables() {
    let mut d = DirtySet::new();
    d.set_flag(TableId::Objects, true);
    d.mark_key(TableId::Visuals, "art\\b.vis".to_string());
    d.set_flag(TableId::Physics, true);
    d.set_flag(TableId::TerrainTextures, true);
    d.mark_key(TableId::Textures, "art\\t2.ddx".to_string());
    let plan = save_plan(&d, &inputs());
    let got: Vec<(TableId, Option<String>, String, bool)> =
        plan.into_iter().map(|s| (s.table, s.key, s.game_path, s.packed)).collect();
    assert_eq!(
        got,
        vec![
            (TableId::Objects, None, "data\\objects.xml".to_string(), true),
            (TableId::Visuals, Some("art\\b.vis".to_string()), "art\\b.vis".to_string(), true),
            (TableId::Physics, Some("hog".to_string()), "physics\\hog.physics".to_string(), true),
            (TableId::Physics, Some("hog".to_string()), "physics\\hog.shp".to_string(), true),
            (TableId::Textures, Some("art\\t2.ddx".to_string()), "art\\t2.ddx".to_string(), false),
        ]
    );
}

#[test]
fn whole_table_dirty_saves_every_entry() {
    let mut d = DirtySet::new();
    d.set_flag(TableId::Visuals, true);
    d.set_flag(TableId::Strings, true);
    d.set_flag(TableId::GameData, true);
    let plan = save_plan(&d, &inputs());
    let paths: Vec<String> = plan.into_iter().map(|s| s.game_path).collect();
    assert_eq!(
        paths,
        vec!["data\\gamedata.xml".to_string(), "art\\a.vis".to_string(), "art\\b.vis".to_string(), "data\\stringtable-en.xml".to_string()]
    );
}
