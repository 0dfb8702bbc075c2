//! The engine's archive load order and the naming of scenario archives.
//!
//! Archives loaded later have higher priority (the last loaded wins), so
//! the order below decides which archive a file resolves from.
use vstd::prelude::*;

use crate::scenario::scenario_name;
use crate::source::{to_lowercase, unicode_lowercase};
use crate::text::{chars_of, concat_str, ends_with_str, has_suffix, string_from_chars, string_views, strip_suffix_or_self};

verus! {

/// The base archives, in the engine's load order: early init, game init,
/// scenario prefetch, then the ten DLC archives.
pub open spec fn base_eras() -> Seq<Seq<char>> {
    seq![
        "locale.era"@,
        "root.era"@,
        "root_update.era"@,
        "shader.era"@,
        "miniloader.era"@,
        "pregameUI.era"@,
        "ingameUI.era"@,
        "scenarioshared.era"@,
        "dlc01.era"@,
        "dlc02.era"@,
        "dlc03.era"@,
        "dlc04.era"@,
        "dlc05.era"@,
        "dlc06.era"@,
        "dlc07.era"@,
        "dlc08.era"@,
        "dlc09.era"@,
        "dlc10.era"@,
    ]
}

/// The base archives, in the engine's load order.
pub fn era_load_order() -> (r: Vec<&'static str>)
    ensures
        r@.map_values(|s: &str| s@) == base_eras(),
{
    let r = vec![
        "locale.era",
        "root.era",
        "root_update.era",
        "shader.era",
        "miniloader.era",
        "pregameUI.era",
        "ingameUI.era",
        "scenarioshared.era",
        "dlc01.era",
        "dlc02.era",
        "dlc03.era",
        "dlc04.era",
        "dlc05.era",
        "dlc06.era",
        "dlc07.era",
        "dlc08.era",
        "dlc09.era",
        "dlc10.era",
    ];
    assert(r@.map_values(|s: &str| s@) =~= base_eras());
    r
}

/// The archive file first looked for when a scenario is named: the name
/// itself when it already ends in `.era`, else the scenario's short name
/// with `.era` appended.
pub open spec fn scenario_era_candidate(scenario: Seq<char>) -> Seq<char> {
    if has_suffix(scenario, ".era"@) {
        scenario
    } else {
        scenario_name(scenario) + ".era"@
    }
}

/// The archive file first looked for when a scenario is named.
pub fn era_candidate(scenario: &str) -> (r: String)
    ensures
        r@ == scenario_era_candidate(scenario@),
{
    let chars = chars_of(scenario);
    if ends_with_str(chars.as_slice(), ".era") {
        string_from_chars(chars.as_slice())
    } else {
        let d = crate::scenario::ScenarioDescriptor {
            file: String::from_str(scenario),
            scenario_type: String::new(),
            max_players: 0,
            name_string_id: None,
            info_string_id: None,
            map_name: None,
            loading_screen: None,
        };
        let stem = d.name();
        string_from_chars(concat_str(chars_of(stem).as_slice(), ".era").as_slice())
    }
}

/// A listed file is the scenario's archive: its lowercased name ends in
/// `.era` and its name without `.era`, lowercased, is the lowercased short
/// name.
pub open spec fn era_matches(file: Seq<char>, stem: Seq<char>) -> bool {
    &&& has_suffix(unicode_lowercase(file), ".era"@)
    &&& unicode_lowercase(strip_suffix_or_self(file, ".era"@)) == unicode_lowercase(stem)
}

/// The first listed file that is the scenario's archive.
pub open spec fn first_era_match(files: Seq<Seq<char>>, stem: Seq<char>) -> Option<Seq<char>>
    decreases files.len(),
{
    if files.len() == 0 {
        None
    } else if era_matches(files[0], stem) {
        Some(files[0])
    } else {
        first_era_match(files.drop_first(), stem)
    }
}

/// The first file of a directory listing that is the archive of the
/// scenario with the given short name, ignoring case.
pub fn match_era_listing(files: &Vec<String>, stem: &str) -> (r: Option<String>)
    ensures
        match r {
            Some(f) => first_era_match(string_views(files@), stem@) == Some(f@),
            None => first_era_match(string_views(files@), stem@) is None,
        },
{
    let stem_lower = chars_of(to_lowercase(stem).as_str());
    let ghost fv = string_views(files@);
    let mut i: usize = 0;
    assert(fv.subrange(0, fv.len() as int) =~= fv);
    while i < files.len()
        invariant
            i <= files@.len(),
            fv == string_views(files@),
            stem_lower@ == unicode_lowercase(stem@),
            first_era_match(fv, stem@) == first_era_match(fv.subrange(i as int, fv.len() as int), stem@),
        decreases files@.len() - i,
    {
        let ghost rest = fv.subrange(i as int, fv.len() as int);
        assert(rest[0] == files@[i as int]@);
        assert(rest.drop_first() =~= fv.subrange(i + 1, fv.len() as int));
        let name = &files[i];
        let lower = chars_of(to_lowercase(name.as_str()).as_str());
        if ends_with_str(lower.as_slice(), ".era") {
            let stripped = crate::text::strip_suffix_str(chars_of(name.as_str()).as_slice(), ".era");
            let file_stem = string_from_chars(stripped.as_slice());
            let fl = chars_of(to_lowercase(file_stem.as_str()).as_str());
            if crate::text::chars_eq(fl.as_slice(), stem_lower.as_slice()) {
                return Some(name.clone());
            }
        }
        i = i + 1;
    }
    None
}

} // verus!
