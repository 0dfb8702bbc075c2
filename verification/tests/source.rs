use pipeline::source::{
    data_candidate_paths, game_path_components, normalise_path, xml_path_for, xmb_path_for, ArchiveIndex,
    FlattenReport, FolderIndex, LayerStack, LoadRule, Overwrite, ReadStep,
};

fn names(v: &[&str]) -> Vec<Option<String>> {
    v.iter().map(|s| Some(s.to_string())).collect()
}

fn files(v: &[(&str, &str)]) -> Vec<(String, String)> {
    v.iter().map(|(a, b)| (a.to_string(), b.to_string())).collect()
}

#[test]
fn normalise_lowercases_and_uses_backslashes() {
    assert_eq!(normalise_path("Data/Objects.XML"), "data\\objects.xml");
    assert_eq!(normalise_path("art\\Foo/Bar.vis"), "art\\foo\\bar.vis");
    assert_eq!(normalise_path(""), "");
}

#[test]
fn last_loaded_archive_wins() {
    let mut stack = LayerStack::new();
    stack.archives.push(ArchiveIndex::new("root.era".into(), &names(&["Data\\Objects.xml.xmb", "art/a.vis"])));
    stack.archives.push(ArchiveIndex::new("dlc01.era".into(), &names(&["data\\objects.xml.xmb"])));
    assert_eq!(stack.era_count(), 2);

    let p = stack.provenance_era_only("data\\objects.xml.xmb").unwrap();
    assert_eq!(p.era_label, "dlc01.era");
    assert_eq!(p.game_path, "data\\objects.xml.xmb");

    let p = stack.provenance_era_only("ART\\A.VIS").unwrap();
    assert_eq!(p.era_label, "root.era");
    assert_eq!(p.game_path, "art\\a.vis");

    assert!(stack.provenance_era_only("missing").is_none());

    // The override directory wins over every archive.
    let p = stack.provenance("data\\objects.xml.xmb", true).unwrap();
    assert_eq!(p.era_label, "<override>");

    // Packed fallbacks.
    let p = stack.provenance_data_era_only("data\\objects.xml").unwrap();
    assert_eq!(p.game_path, "data\\objects.xml.xmb");
    assert_eq!(stack.write_label("data/objects.xml"), "dlc01.era");
    assert_eq!(stack.write_label("data\\new.xml"), "_new");
}

#[test]
fn archive_index_keeps_the_last_entry_of_a_name() {
    let idx = ArchiveIndex::new("a.era".into(), &vec![Some("x".to_string()), None, Some("X".to_string())]);
    assert_eq!(idx.index.len(), 1);
    assert_eq!(idx.index.get(&"x".to_string()), Some(&2));
}

#[test]
fn data_candidates_try_packed_forms() {
    assert_eq!(data_candidate_paths("art\\foo.vis.xml"), vec!["art\\foo.vis.xml", "art\\foo.vis.xml.xmb", "art\\foo.vis.xmb"]);
    assert_eq!(data_candidate_paths("data\\objects"), vec!["data\\objects", "data\\objects.xmb"]);
}

#[test]
fn written_paths() {
    assert_eq!(xmb_path_for("Data/Objects.xml"), "data\\objects.xml.xmb");
    assert_eq!(xmb_path_for("data\\objects.xml.xmb"), "data\\objects.xml.xmb");
    assert_eq!(xml_path_for("data\\objects.xml.xmb"), "data\\objects.xml");
    assert_eq!(xml_path_for("data\\foo.xmb.xmb"), "data\\foo.xml");
    assert_eq!(xml_path_for("art\\foo.vis"), "art\\foo.vis.xml");
    assert_eq!(game_path_components("art\\foo\\bar.vis"), vec!["art", "foo", "bar.vis"]);
    assert_eq!(game_path_components("a\\\\b\\"), vec!["a", "", "b", ""]);
    assert_eq!(game_path_components(""), vec![""]);
}

/// Folders resolve top-wins, surface every layer's version, and plan a
/// flatten that skips excluded paths and reports overwrites.
#[test]
fn folder_layers_plan_flatten() {
    let mut stack = LayerStack::new();
    stack.folders.push(FolderIndex::new(
        "a".into(),
        LoadRule::Replace,
        &files(&[("art/icon.ddx", "/a/art/icon.ddx"), ("data/objects.xml", "/a/data/objects.xml")]),
    ));
    stack.folders.push(FolderIndex::new(
        "b".into(),
        LoadRule::Replace,
        &files(&[("art/icon.ddx", "/b/art/icon.ddx"), ("art/banner.ddx", "/b/art/banner.ddx")]),
    ));
    assert_eq!(stack.folder_count(), 2);

    // The later folder wins on resolve.
    assert_eq!(stack.folder_for(&"art\\icon.ddx".to_string()), Some(1));
    // Every layer's version, in load order.
    let each = stack.folder_sources("art\\icon.ddx");
    assert_eq!(each, vec![("a".to_string(), "/a/art/icon.ddx".to_string()), ("b".to_string(), "/b/art/icon.ddx".to_string())]);

    let skip = vec![normalise_path("data\\objects.xml")];
    let plan = stack.plan_flatten(&skip);
    let keys: Vec<&str> = plan.iter().map(|i| i.key.as_str()).collect();
    assert_eq!(keys, ["art\\banner.ddx", "art\\icon.ddx"]);
    assert_eq!(plan[1].src, "/b/art/icon.ddx");
    assert_eq!(plan[1].winner, "b");
    assert_eq!(plan[1].previous.as_deref(), Some("a"));
    assert_eq!(plan[0].previous, None);

    let mut report = FlattenReport::default();
    for item in plan {
        let dest = format!("/out/{}", item.key);
        report.record_written(item, dest);
    }
    assert_eq!(report.files_written.len(), 2);
    assert_eq!(
        report.overwrites,
        vec![Overwrite { game_path: "art\\icon.ddx".into(), previous: "a".into(), winner: "b".into() }]
    );
    report.record_skipped();
    assert_eq!(report.skipped_vanilla, 1);
}

/// An additive layer contributes only paths no lower layer provides.
#[test]
fn additive_layer_plan_does_not_override() {
    let mut stack = LayerStack::new();
    stack.folders.push(FolderIndex::new("a".into(), LoadRule::Replace, &files(&[("shared.txt", "/a/shared.txt")])));
    stack.folders.push(FolderIndex::new(
        "b".into(),
        LoadRule::Additive,
        &files(&[("shared.txt", "/b/shared.txt"), ("extra.txt", "/b/extra.txt")]),
    ));
    let plan = stack.plan_flatten(&vec![]);
    assert_eq!(plan.len(), 2);
    assert_eq!(plan[0].key, "extra.txt");
    assert_eq!(plan[0].winner, "b");
    assert_eq!(plan[1].key, "shared.txt");
    assert_eq!(plan[1].src, "/a/shared.txt");
    assert_eq!(plan[1].winner, "a");
    assert!(plan.iter().all(|i| i.previous.is_none()));
    assert_eq!(LoadRule::default(), LoadRule::Replace);
}

#[test]
fn exists_checks_every_layer() {
    let mut stack = LayerStack::new();
    stack.archives.push(ArchiveIndex::new("root.era".into(), &names(&["a.xml"])));
    stack.folders.push(FolderIndex::new("m".into(), LoadRule::Replace, &files(&[("b.xml", "/m/b.xml")])));
    assert!(stack.holds_path("A.xml", false));
    assert!(stack.holds_path("b.xml", false));
    assert!(!stack.holds_path("c.xml", false));
    assert!(stack.holds_path("c.xml", true));
}

#[test]
fn archive_summary_and_sorted_files() {
    let mut stack = LayerStack::new();
    stack.archives.push(ArchiveIndex::new("root.era".into(), &names(&["b.txt", "A.txt", "a.txt"])));
    stack.archives.push(ArchiveIndex::new("dlc01.era".into(), &vec![None, Some("x\\y.vis".to_string())]));
    assert_eq!(stack.summary(), vec![("root.era".to_string(), 2), ("dlc01.era".to_string(), 1)]);
    assert_eq!(
        stack.files_per_archive(),
        vec![
            ("root.era".to_string(), vec!["a.txt".to_string(), "b.txt".to_string()]),
            ("dlc01.era".to_string(), vec!["x\\y.vis".to_string()]),
        ]
    );
}

/// Resolution tries every variant in the override directory, then in the
/// folders (later added wins), then in the archives (later loaded wins).
#[test]
fn read_plan_orders_override_then_folders_then_archives() {
    let mut stack = LayerStack::new();
    stack.push_archive(ArchiveIndex::new("root.era".into(), &names(&["data\\objects.xml.xmb", "data\\objects.xml"])));
    stack.push_archive(ArchiveIndex::new("dlc.era".into(), &names(&["x", "Data\\Objects.xml.xmb"])));
    stack.push_folder(FolderIndex::new("a".into(), LoadRule::Replace, &files(&[("data/objects.xml.xmb", "/a/o.xmb")])));
    stack.push_folder(FolderIndex::new("b".into(), LoadRule::Replace, &files(&[("data/objects.xml.xmb", "/b/o.xmb")])));
    let plan = stack.read_plan("Data/Objects.xml", &vec![".xmb".to_string()]);
    assert_eq!(
        plan,
        vec![
            ReadStep::Override("data\\objects.xml".into()),
            ReadStep::Override("data\\objects.xml.xmb".into()),
            ReadStep::Folder("/b/o.xmb".into()),
            ReadStep::Archive(0, 1),
            ReadStep::Archive(1, 1),
        ]
    );
    assert_eq!(stack.archive_entry("DATA\\objects.xml.xmb"), Some((1, 1)));
    assert_eq!(stack.archive_entry("missing"), None);
    assert_eq!(stack.pop_archive(), Some("dlc.era".to_string()));
    assert_eq!(stack.archive_entry("data\\objects.xml.xmb"), Some((0, 0)));
    assert_eq!(stack.pop_archive(), Some("root.era".to_string()));
    assert_eq!(stack.pop_archive(), None);
    assert_eq!(stack.folder_count(), 2);
}
