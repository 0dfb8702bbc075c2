use pipeline::loader::{era_candidate, era_load_order, match_era_listing};
use pipeline::scenario::{ScenarioDescriptor, ScenarioList};
use pipeline::scene::{parse_i32, read_scene, XmlElement, XmlLeaf};

fn desc(file: &str) -> ScenarioDescriptor {
    ScenarioDescriptor { file: file.to_string(), ..Default::default() }
}

fn leaf(name: &str, text: &str, attrs: &[(&str, &str)]) -> XmlLeaf {
    XmlLeaf {
        name: name.to_string(),
        text: text.to_string(),
        attributes: attrs.iter().map(|(k, v)| (k.to_string(), v.to_string())).collect(),
    }
}

fn elem(name: &str, text: &str, attrs: &[(&str, &str)], children: Vec<XmlLeaf>) -> XmlElement {
    XmlElement {
        name: name.to_string(),
        text: text.to_string(),
        attributes: attrs.iter().map(|(k, v)| (k.to_string(), v.to_string())).collect(),
        children,
    }
}

#[test]
fn descriptor_paths() {
    let d = desc("CampaignUNSC/design/phx01/PHXscn01.scn");
    assert_eq!(d.name(), "PHXscn01");
    assert_eq!(d.scn_path(), "scenario\\CampaignUNSC\\design\\phx01\\PHXscn01.scn");
    assert_eq!(d.xtd_path().as_deref(), Some("scenario\\CampaignUNSC\\design\\phx01\\PHXscn01.xtd"));
    assert_eq!(d.xtt_path().as_deref(), Some("scenario\\CampaignUNSC\\design\\phx01\\PHXscn01.xtt"));

    let odd = desc("maps\\readme.txt");
    assert_eq!(odd.name(), "maps\\readme.txt");
    assert_eq!(odd.xtd_path(), None);
    assert_eq!(odd.xtt_path(), None);
    assert_eq!(desc("plain.scn").name(), "plain");
}

#[test]
fn scenario_list_keys_by_name_last_wins() {
    let mut a = desc("skirmish\\design\\gulch\\gulch.scn");
    a.max_players = 2;
    let mut b = desc("other\\gulch.scn");
    b.max_players = 6;
    let c = desc("campaign\\phx01.scn");
    let empty = desc(".scn");
    let list = ScenarioList::from_descriptors(vec![a, c, b, empty]);
    assert_eq!(list.scenarios.len(), 2);
    assert_eq!(list.scenarios.keys(), &vec!["gulch".to_string(), "phx01".to_string()]);
    assert_eq!(list.scenarios.get(&"gulch".to_string()).map(|d| d.max_players), Some(6));
    assert!(!list.scenarios.contains_key(&"".to_string()));
    assert_eq!(ScenarioList::new().scenarios.len(), 0);
}

#[test]
fn parse_i32_matches_std() {
    for s in ["0", "42", "-7", "+5", "007", "2147483647", "-2147483648", "2147483648", "-2147483649", "", "-", "+", "1a", " 1", "--1", "1.0"] {
        assert_eq!(parse_i32(s), s.parse::<i32>().ok(), "input {s:?}");
    }
}

#[test]
fn scene_references_are_read_in_order() {
    let children = vec![
        elem("Terrain", "  gulch_terrain ", &[("LoadVisRep", "TRUE")], vec![]),
        elem("Sky", "sky01", &[], vec![]),
        elem("Lightset", "ls_a", &[], vec![]),
        elem("Lightset", " ls_b ", &[], vec![]),
        elem("Lightsets", "", &[], vec![leaf("Lightset", " one ", &[]), leaf("Lightset", "   ", &[])]),
        elem("PlayerPlacement", "", &[("Type", "Random")], vec![]),
        elem("Minimap", "", &[], vec![leaf("MinimapTexture", " ui\\a ", &[]), leaf("MinimapTexture", "ui\\b", &[])]),
        elem(
            "Cinematics",
            "",
            &[],
            vec![leaf("Cinematic", " intro ", &[("ID", "3")]), leaf("Cinematic", "outro", &[("ID", "x")]), leaf("Other", "z", &[])],
        ),
        elem("Objectives", "", &[], vec![leaf("Objective", "win", &[("id", "-2")])]),
        elem("SoundBanks", "", &[], vec![leaf("SoundBank", "gulch", &[])]),
        elem("Unknown", "ignored", &[], vec![]),
    ];
    let s = read_scene(&children);
    assert_eq!(s.terrain, "gulch_terrain");
    assert!(s.terrain_load_vis_rep);
    assert_eq!(s.sky, "sky01");
    assert_eq!(s.lightset, "ls_b");
    assert_eq!(s.lightsets, vec!["one".to_string()]);
    assert_eq!(s.player_placement_type, "Random");
    assert_eq!(s.minimap_texture, "ui\\b");
    assert_eq!(s.cinematics, vec![(3, "intro".to_string()), (0, "outro".to_string())]);
    assert!(s.talking_heads.is_empty());
    assert_eq!(s.objectives, vec![(-2, "win".to_string())]);
    assert_eq!(s.sound_banks, vec!["gulch".to_string()]);
    assert_eq!(s.pathing, "");
}

#[test]
fn empty_scene_is_empty() {
    let s = read_scene(&vec![]);
    assert_eq!(s.terrain, "");
    assert!(!s.terrain_load_vis_rep);
    assert!(s.lightsets.is_empty());
}

#[test]
fn era_names() {
    let order = era_load_order();
    assert_eq!(order.len(), 18);
    assert_eq!(order[0], "locale.era");
    assert_eq!(order[1], "root.era");
    assert_eq!(order[17], "dlc10.era");
    assert_eq!(era_candidate("PHXscn01.era"), "PHXscn01.era");
    assert_eq!(era_candidate("PHXscn01"), "PHXscn01.era");
    assert_eq!(era_candidate("campaign\\phx\\PHXscn01.scn"), "PHXscn01.era");
}

#[test]
fn era_listing_match_ignores_case() {
    let files = vec!["root.era".to_string(), "phxSCN01.ERA".to_string(), "phxSCN01.era".to_string(), "notes.txt".to_string()];
    // The upper-case extension is recognised but not stripped, so that file's stem does not match.
    assert_eq!(match_era_listing(&files, "PHXscn01"), Some("phxSCN01.era".to_string()));
    assert_eq!(match_era_listing(&files, "root"), Some("root.era".to_string()));
    assert_eq!(match_era_listing(&files, "phxscn02"), None);
    assert_eq!(match_era_listing(&files, "notes"), None);
}

#[test]
fn candidates_come_in_file_order() {
    let list = ScenarioList::from_descriptors(vec![
        desc("skirmish\\zeta.scn"),
        desc("campaign\\b\\alpha.scn"),
        desc("campaign\\a\\mid.scn"),
    ]);
    let files: Vec<&str> = list.candidates_by_file().iter().map(|d| d.file.as_str()).collect();
    assert_eq!(files, vec!["campaign\\a\\mid.scn", "campaign\\b\\alpha.scn", "skirmish\\zeta.scn"]);
    assert!(ScenarioList::new().candidates_by_file().is_empty());
}
