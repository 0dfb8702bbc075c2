use pipeline::database::{UnitEntry, UnitsWrapper};
use pipeline::diagnostics::{
    validate_world, Diagnostic, DiagnosticCode, LeaderRefs, Location, ObjectRefs, Severity, SquadRefs, TacticsRefs,
    WeaponRefs, WorldRefs,
};
use pipeline::edit::TableId;

fn object(name: &str, visual: Option<&str>, tactics: Option<&str>, physics: Option<&str>) -> ObjectRefs {
    ObjectRefs {
        name: name.to_string(),
        visual: visual.map(|s| s.to_string()),
        tactics: tactics.map(|s| s.to_string()),
        physics_info: physics.map(|s| s.to_string()),
    }
}

fn squad(name: &str, units: Option<&[&str]>) -> SquadRefs {
    SquadRefs {
        name: name.to_string(),
        units: units.map(|us| UnitsWrapper {
            entries: us
                .iter()
                .map(|u| UnitEntry { proto_object: u.to_string(), count: 1, role: None })
                .collect(),
        }),
    }
}

fn strings(v: &[&str]) -> Vec<String> {
    v.iter().map(|s| s.to_string()).collect()
}

fn tactics(name: &str, weapons: &[(&str, Option<&str>)]) -> TacticsRefs {
    TacticsRefs {
        name: name.to_string(),
        path: format!("data\\tactics\\{name}.tactics"),
        weapons: weapons
            .iter()
            .map(|(w, t)| WeaponRefs { name: w.to_string(), weapon_type: t.map(|s| s.to_string()) })
            .collect(),
    }
}

#[test]
fn consistent_world_has_no_diagnostics() {
    let world = WorldRefs {
        objects: vec![object("marine", Some("marine"), Some("marine_tac"), Some("marine_phys"))],
        squads: vec![squad("marine_squad", Some(&["marine"]))],
        leaders: vec![LeaderRefs { name: "Cutter".into(), civ: Some("UNSC".into()) }],
        civs: strings(&["UNSC"]),
        weapon_types: strings(&["Rifle"]),
        visuals: strings(&["marine"]),
        tactics: vec![tactics("marine_tac", &[("gun", Some("Rifle"))])],
        physics: strings(&["marine_phys"]),
    };
    let report = validate_world(&world);
    assert!(report.diagnostics.is_empty());
    assert_eq!(report.errors(), 0);
    assert_eq!(report.warnings(), 0);
    assert_eq!(report.infos(), 0);
}

#[test]
fn bad_references_and_duplicates_are_reported_in_order() {
    let world = WorldRefs {
        objects: vec![
            object("marine", Some("missing_vis"), Some(""), Some("nophys")),
            object("marine", None, Some("missing_tac"), None),
            object("", None, None, None),
            object("", None, None, None),
        ],
        squads: vec![
            squad("s", Some(&["marine", "ghost", ""])),
            squad("s", None),
        ],
        leaders: vec![],
        civs: vec![],
        weapon_types: vec![],
        visuals: vec![],
        tactics: vec![],
        physics: vec![],
    };
    let report = validate_world(&world);
    let d = &report.diagnostics;
    assert_eq!(d.len(), 6);

    assert_eq!(d[0].path, "data\\objects.xml");
    assert_eq!(d[0].code, DiagnosticCode::DuplicateName);
    assert_eq!(d[0].severity, Severity::Warning);
    assert_eq!(d[0].message, "duplicate object name 'marine'");
    assert_eq!(d[0].location, Location::Entry { table: TableId::Objects, name: "marine".into() });

    assert_eq!(d[1].path, "data\\squads.xml");
    assert_eq!(d[1].message, "duplicate squad name 's'");

    assert_eq!(d[2].message, "object 'marine' references visual 'missing_vis' which was not loaded");
    assert_eq!(
        d[2].location,
        Location::Field { table: TableId::Objects, name: "marine".into(), field: "Visual".into() }
    );
    assert_eq!(d[3].message, "object 'marine' references tactics 'missing_tac' which was not loaded");
    assert_eq!(d[3].severity, Severity::Warning);
    assert_eq!(d[4].message, "object 'marine' references physics 'nophys' which was not loaded");
    assert_eq!(d[4].severity, Severity::Info);
    assert_eq!(
        d[4].location,
        Location::Field { table: TableId::Objects, name: "marine".into(), field: "PhysicsInfo".into() }
    );
    assert_eq!(d[5].message, "squad 's' references object 'ghost' which does not exist");
    assert_eq!(d[5].path, "data\\squads.xml");

    assert_eq!(report.errors(), 0);
    assert_eq!(report.warnings(), 5);
    assert_eq!(report.infos(), 1);
}

#[test]
fn diagnostic_display() {
    let d = Diagnostic {
        path: "data\\objects.xml".into(),
        location: Location::Field { table: TableId::Objects, name: "warthog".into(), field: "Visual".into() },
        severity: Severity::Warning,
        code: DiagnosticCode::MissingReference,
        message: "m".into(),
    };
    assert_eq!(d.display_string(), "[warning] data\\objects.xml (Objects::warthog.Visual): missing-reference — m");
    assert_eq!(Location::Table(TableId::Squads).display_string(), "Squads");
    assert_eq!(
        Location::Entry { table: TableId::Techs, name: "t".into() }.display_string(),
        "Techs::t"
    );
    assert_eq!(Severity::Error.display_string(), "error");
    assert_eq!(Severity::Info.display_string(), "info");
    assert_eq!(DiagnosticCode::ParseError.display_string(), "parse-error");
    assert_eq!(DiagnosticCode::UnknownField.display_string(), "unknown-field");
    assert_eq!(DiagnosticCode::TypeMismatch.display_string(), "type-mismatch");
    assert_eq!(DiagnosticCode::DuplicateName.display_string(), "duplicate-name");
    assert_eq!(DiagnosticCode::MissingAsset.display_string(), "missing-asset");
    assert_eq!(DiagnosticCode::MissingFile.display_string(), "missing-file");
}

#[test]
fn report_counts_by_severity() {
    let mk = |s: Severity| Diagnostic {
        path: String::new(),
        location: Location::Table(TableId::Objects),
        severity: s,
        code: DiagnosticCode::ParseError,
        message: String::new(),
    };
    let mut report = pipeline::diagnostics::DiagnosticReport::default();
    report.diagnostics = vec![mk(Severity::Error), mk(Severity::Error), mk(Severity::Warning), mk(Severity::Info)];
    assert_eq!(report.errors(), 2);
    assert_eq!(report.warnings(), 1);
    assert_eq!(report.infos(), 1);
    assert_eq!(report.errors() + report.warnings() + report.infos(), report.diagnostics.len());
}

#[test]
fn injected_bad_references_are_reported() {
    let world = WorldRefs {
        objects: vec![object("marine", Some("nonexistent_visual_12345"), None, None)],
        squads: vec![squad("marine_squad", Some(&["marine", "nonexistent_object_12345"]))],
        leaders: vec![
            LeaderRefs { name: "Cutter".into(), civ: Some("UNSC".into()) },
            LeaderRefs { name: "Anders".into(), civ: Some("nonexistent_civ_99999".into()) },
            LeaderRefs { name: "Forge".into(), civ: Some(String::new()) },
            LeaderRefs { name: "Arbiter".into(), civ: None },
        ],
        civs: strings(&["UNSC", "Covenant"]),
        weapon_types: strings(&["Rifle"]),
        visuals: vec![],
        tactics: vec![
            tactics("marine_tac", &[("gun", Some("Rifle")), ("bad", Some("nonexistent_wt_99999")), ("none", None)]),
            tactics("hog_tac", &[("empty", Some(""))]),
        ],
        physics: vec![],
    };
    let report = validate_world(&world);
    let d = &report.diagnostics;
    assert_eq!(d.len(), 4);
    for diag in d {
        assert_eq!(diag.code, DiagnosticCode::MissingReference);
        assert_eq!(diag.severity, Severity::Warning);
    }
    assert!(d[0].message.contains("nonexistent_visual_12345"));
    assert!(d[1].message.contains("nonexistent_object_12345"));

    assert_eq!(d[2].path, "data\\leaders.xml");
    assert_eq!(d[2].location, Location::Field { table: TableId::Leaders, name: "Anders".into(), field: "Civ".into() });
    assert_eq!(d[2].message, "leader 'Anders' references civ 'nonexistent_civ_99999' which does not exist");

    assert_eq!(d[3].path, "data\\tactics\\marine_tac.tactics");
    assert_eq!(
        d[3].location,
        Location::Field { table: TableId::Tactics, name: "marine_tac".into(), field: "WeaponType".into() }
    );
    assert_eq!(
        d[3].message,
        "tactics 'marine_tac' weapon 'bad' references weapon type 'nonexistent_wt_99999' which does not exist"
    );
}

#[test]
fn duplicate_names_are_counted_after_the_first() {
    let world = WorldRefs {
        objects: vec![
            object("marine", None, None, None),
            object("hog", None, None, None),
            object("marine", None, None, None),
            object("marine", None, None, None),
        ],
        squads: vec![squad("s", None), squad("s", None)],
        leaders: vec![],
        civs: vec![],
        weapon_types: vec![],
        visuals: vec![],
        tactics: vec![],
        physics: vec![],
    };
    let d = validate_world(&world).diagnostics;
    let marine = d
        .iter()
        .filter(|x| {
            x.code == DiagnosticCode::DuplicateName
                && x.location == Location::Entry { table: TableId::Objects, name: "marine".into() }
        })
        .count();
    assert_eq!(marine, 2);
    assert_eq!(d.iter().filter(|x| x.code == DiagnosticCode::DuplicateName).count(), 3);
    assert_eq!(d[2].path, "data\\squads.xml");
    assert!(d.iter().all(|x| x.severity == Severity::Warning));
}
