use pipeline::resolve::{
    assets_by_class, assets_by_type, blueprint_base, owners_of_asset, physics_base, search_assets, shape_base,
    tactics_base, visual_base, ChainOutcome, LoadStats, ObjectAssets,
};

fn object(name: &str, class: Option<&str>, types: &[&str]) -> ObjectAssets {
    ObjectAssets {
        name: name.to_string(),
        object_class: class.map(|c| c.to_string()),
        object_types: types.iter().map(|t| t.to_string()).collect(),
        ..Default::default()
    }
}

#[test]
fn chain_paths() {
    assert_eq!(visual_base("unsc/inf/marine.vis"), "art\\unsc\\inf\\marine.vis");
    assert_eq!(visual_base("\\\\marine.vis"), "art\\marine.vis");
    assert_eq!(tactics_base("marine.tactics"), "data\\tactics\\marine.tactics");
    assert_eq!(physics_base("warthog"), "physics\\warthog.physics");
    assert_eq!(blueprint_base("warthog"), "physics\\warthog.blueprint");
    assert_eq!(shape_base("warthog"), "physics\\warthog.shp");
}

#[test]
fn for_object_fills_chain_paths() {
    let oa = ObjectAssets::for_object(
        "unsc_inf_marine_01".to_string(),
        Some("Unit".to_string()),
        vec!["Military".to_string()],
        &Some("unsc/marine.vis".to_string()),
        &None,
        &Some("marine".to_string()),
    );
    assert_eq!(oa.name, "unsc_inf_marine_01");
    assert_eq!(oa.visual.as_deref(), Some("art\\unsc\\marine.vis"));
    assert_eq!(oa.tactics, None);
    assert_eq!(oa.physics.as_deref(), Some("physics\\marine.physics"));
    assert!(oa.models.is_empty());
    assert_eq!(oa.all_files(), vec!["art\\unsc\\marine.vis", "physics\\marine.physics"]);
}

#[test]
fn all_files_lists_every_path_in_order() {
    let mut oa = object("hog", None, &[]);
    oa.visual = Some("art\\hog.vis".to_string());
    oa.tactics = Some("data\\tactics\\hog.tactics".to_string());
    oa.blueprint = Some("physics\\hog.blueprint".to_string());
    oa.models = vec!["art\\hog.ugx".to_string()];
    oa.anims = vec!["art\\hog_drive.uax".to_string()];
    oa.damage_models = vec!["art\\hog_dmg.ugx".to_string()];
    assert_eq!(
        oa.all_files(),
        vec![
            "art\\hog.vis",
            "data\\tactics\\hog.tactics",
            "physics\\hog.blueprint",
            "art\\hog.ugx",
            "art\\hog_drive.uax",
            "art\\hog_dmg.ugx"
        ]
    );
}

#[test]
fn owners_ignore_ascii_case() {
    let mut a = object("marine", None, &[]);
    a.models = vec!["art\\Marine.ugx".to_string()];
    let mut b = object("odst", None, &[]);
    b.models = vec!["art\\marine.ugx".to_string(), "art\\odst.ugx".to_string()];
    let c = object("hog", None, &[]);
    let objects = vec![a, b, c];
    assert_eq!(owners_of_asset(&objects, "ART\\MARINE.UGX"), vec!["marine".to_string(), "odst".to_string()]);
    assert_eq!(owners_of_asset(&objects, "art\\odst.ugx"), vec!["odst".to_string()]);
    assert!(owners_of_asset(&objects, "art\\none.ugx").is_empty());
}

#[test]
fn queries_filter_in_order() {
    let objects = vec![
        object("UNSC_Marine", Some("Unit"), &["Military", "Infantry"]),
        object("unsc_warthog", Some("Unit"), &["Military"]),
        object("unsc_base", Some("Building"), &[]),
        object("cov_grunt", None, &["Infantry"]),
    ];
    let found: Vec<&str> = search_assets(&objects, "UNSC").iter().map(|o| o.name.as_str()).collect();
    assert_eq!(found, vec!["UNSC_Marine", "unsc_warthog", "unsc_base"]);
    let units: Vec<&str> = assets_by_class(&objects, "Unit").iter().map(|o| o.name.as_str()).collect();
    assert_eq!(units, vec!["UNSC_Marine", "unsc_warthog"]);
    assert!(assets_by_class(&objects, "unit").is_empty());
    let infantry: Vec<&str> = assets_by_type(&objects, "Infantry").iter().map(|o| o.name.as_str()).collect();
    assert_eq!(infantry, vec!["UNSC_Marine", "cov_grunt"]);
}

#[test]
fn load_stats_record_outcomes() {
    let mut s = LoadStats::default();
    s.record_visual(&"art\\a.vis".to_string(), &ChainOutcome::Resolved);
    s.record_visual(&"art\\b.vis".to_string(), &ChainOutcome::Failed("bad xml".to_string()));
    s.record_visual(&"art\\c.vis".to_string(), &ChainOutcome::Missing);
    s.record_tactics(&"data\\tactics\\t.tactics".to_string(), &ChainOutcome::Resolved);
    s.record_physics(&"physics\\p.physics".to_string(), &ChainOutcome::Missing);
    assert_eq!(s.objects_with_visual, 3);
    assert_eq!(s.visuals_resolved, 1);
    assert_eq!(s.visuals_failed, vec!["art\\b.vis: bad xml".to_string(), "art\\c.vis".to_string()]);
    assert_eq!(s.objects_with_tactics, 1);
    assert_eq!(s.tactics_resolved, 1);
    assert!(s.tactics_failed.is_empty());
    assert_eq!(s.objects_with_physics, 1);
    assert_eq!(s.physics_resolved, 0);
    assert_eq!(s.physics_failed, vec!["physics\\p.physics".to_string()]);
    assert_eq!(s.objects_total, 0);
}
