use pipeline::assets::AssetResolver;
use pipeline::database::{Anim, Asset, Component, Logic, LogicEntry, Model, Visual};
use pipeline::manifest::{
    collect_object_visual_assets, collect_scenario_assets_into, collect_visual_assets, material_texture,
    parse_preload_text, register_asset, terrain_texture_files, AssetManifest, BinaryValidation, ScenarioRefs,
};
use pipeline::resolve::ObjectAssets;
use pipeline::scenario::ScenarioDescriptor;

fn asset(kind: &str, file: Option<&str>, damage: Option<&str>) -> Asset {
    Asset {
        asset_type: kind.to_string(),
        file: file.map(|f| f.to_string()),
        damage_file: damage.map(|d| d.to_string()),
        weight: None,
    }
}

fn marine_visual() -> Visual {
    Visual {
        default_model: Some("base".to_string()),
        models: vec![Model {
            name: "base".to_string(),
            component: Some(Component {
                assets: vec![asset("Model", Some("unsc/marine"), Some("unsc/marine_dmg"))],
                attachments: vec![],
                points: vec![],
                logic: Some(Logic {
                    logic_type: "Variation".to_string(),
                    entries: vec![LogicEntry {
                        value: "a".to_string(),
                        model_ref: None,
                        weight: None,
                        asset: Some(asset("Model", Some("unsc/marine_b"), None)),
                    }],
                }),
            }),
            anims: vec![Anim {
                anim_type: "Idle".to_string(),
                exit_action: None,
                tween_time: None,
                assets: vec![asset("Anim", Some("unsc/marine_idle"), None), asset("Anim", Some("unsc/marine"), None)],
                ..Default::default()
            }],
        }],
    }
}

#[test]
fn register_asset_adds_model_anim_and_damage_paths() {
    let mut m = AssetManifest::default();
    register_asset(&asset("Model", Some("a/b"), Some("a/b_dmg")), &mut m);
    register_asset(&asset("Anim", Some("a/run"), None), &mut m);
    register_asset(&asset("Model", Some("a/b"), None), &mut m);
    register_asset(&asset("Particle", Some("fx/x"), None), &mut m);
    assert_eq!(m.model_refs, vec!["art\\a\\b.ugx".to_string()]);
    assert_eq!(m.anim_refs, vec!["art\\a\\run.uax".to_string()]);
    assert_eq!(m.damage_model_refs, vec!["art\\a\\b_dmg.ugx".to_string()]);
    assert!(m.texture_refs.is_empty());
}

#[test]
fn visual_assets_are_collected_once_and_sorted() {
    let mut m = AssetManifest::default();
    let vis = marine_visual();
    collect_visual_assets(&vis, &mut m);
    collect_visual_assets(&vis, &mut m);
    assert_eq!(m.model_refs, vec!["art\\unsc\\marine.ugx".to_string(), "art\\unsc\\marine_b.ugx".to_string()]);
    assert_eq!(m.anim_refs, vec!["art\\unsc\\marine.uax".to_string(), "art\\unsc\\marine_idle.uax".to_string()]);
    assert_eq!(m.damage_model_refs, vec!["art\\unsc\\marine_dmg.ugx".to_string()]);
}

#[test]
fn object_visual_assets_keep_order() {
    let mut oa = ObjectAssets::default();
    collect_object_visual_assets(&marine_visual(), &mut oa);
    assert_eq!(oa.models, vec!["art\\unsc\\marine.ugx".to_string(), "art\\unsc\\marine_b.ugx".to_string()]);
    assert_eq!(oa.anims, vec!["art\\unsc\\marine_idle.uax".to_string(), "art\\unsc\\marine.uax".to_string()]);
    assert_eq!(oa.damage_models, vec!["art\\unsc\\marine_dmg.ugx".to_string()]);
}

#[test]
fn textures_from_materials_and_terrain() {
    assert_eq!(material_texture("/unsc/marine_df"), "art\\unsc\\marine_df.ddx");
    let mut m = AssetManifest::default();
    m.add_material_texture("unsc/marine_df");
    m.add_material_texture("");
    m.add_material_texture("\\unsc\\marine_df");
    assert_eq!(m.texture_refs, vec!["art\\unsc\\marine_df.ddx".to_string()]);
    m.add_terrain_textures("terrain/grass", &["_df.ddx", "_nm.ddx"]);
    m.add_terrain_textures("", &["_df.ddx"]);
    assert_eq!(
        m.texture_refs,
        vec![
            "art\\terrain\\grass_df.ddx".to_string(),
            "art\\terrain\\grass_nm.ddx".to_string(),
            "art\\unsc\\marine_df.ddx".to_string()
        ]
    );
}

#[test]
fn preload_lists_skip_blank_lines() {
    let mut out = vec!["first".to_string()];
    parse_preload_text("  art\\a.vis \r\n\n\t\nart\\b.vis", &mut out);
    assert_eq!(out, vec!["first".to_string(), "art\\a.vis".to_string(), "art\\b.vis".to_string()]);
}

#[test]
fn scenario_refs_are_collected_and_cleared() {
    let desc = ScenarioDescriptor {
        file: "skirmish/design/blood_gulch/blood_gulch.scn".to_string(),
        ..Default::default()
    };
    let scn = ScenarioRefs {
        lightset: "gulch".to_string(),
        lightsets: vec!["".to_string(), "night".to_string()],
        cinematics: vec![(1, "intro.cin".to_string()), (2, String::new())],
        talking_heads: vec![(5, "cutter".to_string())],
        sky: "sky_gulch".to_string(),
        terrain_env: String::new(),
        minimap_texture: "ui\\gulch_map".to_string(),
        sound_banks: vec!["gulch".to_string()],
    };
    let mut m = AssetManifest::default();
    m.terrain_env_ref = Some("previous".to_string());
    collect_scenario_assets_into(&desc, &scn, &mut m);
    assert_eq!(
        m.terrain_refs,
        vec![
            "scenario\\skirmish\\design\\blood_gulch\\blood_gulch.xtd".to_string(),
            "scenario\\skirmish\\design\\blood_gulch\\blood_gulch.xtt".to_string()
        ]
    );
    assert_eq!(m.lightset_refs, vec!["gulch".to_string(), "night".to_string()]);
    assert_eq!(m.cinematic_refs, vec!["intro.cin".to_string()]);
    assert_eq!(m.talking_head_refs, vec!["cutter".to_string()]);
    assert_eq!(m.sky_ref.as_deref(), Some("sky_gulch"));
    assert_eq!(m.terrain_env_ref.as_deref(), Some("previous"));
    assert_eq!(m.minimap_ref.as_deref(), Some("ui\\gulch_map"));
    assert_eq!(m.sound_bank_refs, vec!["gulch".to_string()]);

    m.model_refs.push("art\\keep.ugx".to_string());
    m.clear_scenario_refs();
    assert!(m.terrain_refs.is_empty());
    assert!(m.lightset_refs.is_empty());
    assert!(m.cinematic_refs.is_empty());
    assert!(m.talking_head_refs.is_empty());
    assert!(m.sound_bank_refs.is_empty());
    assert_eq!(m.sky_ref, None);
    assert_eq!(m.terrain_env_ref, None);
    assert_eq!(m.minimap_ref, None);
    assert_eq!(m.model_refs, vec!["art\\keep.ugx".to_string()]);
}

#[test]
fn verify_splits_found_and_missing() {
    let mut m = AssetManifest::default();
    m.model_refs = vec!["art\\a.ugx".to_string(), "art\\b.ugx".to_string()];
    m.anim_refs = vec!["art\\a.uax".to_string()];
    m.texture_refs = vec!["art\\a.ddx".to_string(), "art\\b.ddx".to_string(), "art\\c.ddx".to_string()];
    let r = m.verify(&vec![true, false], &vec![true], &vec![false, true, false]);
    assert_eq!(r.models_found, 1);
    assert_eq!(r.models_missing, vec!["art\\b.ugx".to_string()]);
    assert_eq!(r.anims_found, 1);
    assert!(r.anims_missing.is_empty());
    assert_eq!(r.textures_found, 1);
    assert_eq!(r.textures_missing, vec!["art\\a.ddx".to_string(), "art\\c.ddx".to_string()]);
}

#[test]
fn binary_validation_total_errors() {
    let v = BinaryValidation {
        models_ok: 3,
        models_failed: vec!["a".to_string()],
        models_missing: vec![],
        anims_ok: 0,
        anims_failed: vec!["b".to_string(), "c".to_string()],
        anims_missing: vec!["d".to_string()],
        textures_ok: 9,
        textures_failed: vec![],
        textures_missing: vec!["e".to_string()],
    };
    assert_eq!(v.total_errors(), 5);
    assert_eq!(BinaryValidation::default().total_errors(), 0);
}

struct Known(Vec<&'static str>);

impl AssetResolver for Known {
    fn resolve(&mut self, path: &str) -> Option<Vec<u8>> {
        if self.0.contains(&path) {
            Some(Vec::new())
        } else {
            None
        }
    }

    fn file_exists(&self, path: &str) -> bool {
        self.0.contains(&path)
    }
}

#[test]
fn verify_with_asks_the_resolver() {
    let mut m = AssetManifest::default();
    m.model_refs = vec!["art\\a.ugx".to_string(), "art\\b.ugx".to_string()];
    m.texture_refs = vec!["art\\t.ddx".to_string()];
    let r = m.verify_with(&Known(vec!["art\\b.ugx", "art\\t.ddx"]));
    assert_eq!(r.models_found, 1);
    assert_eq!(r.models_missing, vec!["art\\a.ugx".to_string()]);
    assert_eq!(r.anims_found, 0);
    assert_eq!(r.textures_found, 1);
    assert!(r.textures_missing.is_empty());
}

#[test]
fn terrain_file_textures() {
    let refs = vec!["scenario\\a\\a.xtd".to_string(), "scenario\\a\\a.xtt".to_string(), "x.XTT".to_string()];
    assert_eq!(terrain_texture_files(&refs), vec!["scenario\\a\\a.xtt".to_string()]);

    let mut m = AssetManifest::default();
    m.add_xtt_textures(
        &vec!["arctic/snow".to_string(), String::new()],
        &vec!["decal/crack".to_string()],
        &vec!["\\foliage\\set".to_string()],
    );
    let expected: Vec<String> = vec![
        "art\\arctic\\snow_df.ddx",
        "art\\arctic\\snow_em.ddx",
        "art\\arctic\\snow_env.ddx",
        "art\\arctic\\snow_nm.ddx",
        "art\\arctic\\snow_sp.ddx",
        "art\\decal\\crack_df.ddx",
        "art\\decal\\crack_nm.ddx",
        "art\\decal\\crack_op.ddx",
        "art\\foliage\\set_df.ddx",
        "art\\foliage\\set_nm.ddx",
        "art\\foliage\\set_op.ddx",
        "art\\foliage\\set_sp.ddx",
    ]
    .into_iter()
    .map(|s| s.to_string())
    .collect();
    assert_eq!(m.texture_refs, expected);
}
