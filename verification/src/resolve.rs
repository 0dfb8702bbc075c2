//! Per-object asset resolution: the visual, tactics and physics chains.
//!
//! Each proto-object can reference a visual (models, animations, damage
//! models), a tactics file and a physics entry (then a blueprint, then a
//! shape). [`ObjectAssets`] gathers every file path of one object; the
//! functions here derive those paths from the references in the database
//! and answer which objects own a given file.
use vstd::prelude::*;

use crate::source::{to_lowercase, unicode_lowercase};
use crate::text::{
    chars_of, concat_chars, concat_str, contains_chars, contains_run, lower_ascii, lower_ascii_chars,
    replace_char, replace_chars, string_from_chars, trim_start_chars, trim_start_set,
};

verus! {

/// All file paths associated with a single proto-object.
#[derive(Debug, Clone, Default, PartialEq, Eq)]
pub struct ObjectAssets {
    /// Object name.
    pub name: String,
    /// Object class from the database (such as `Unit` or `Building`).
    pub object_class: Option<String>,
    /// Object type tags (such as `Military`).
    pub object_types: Vec<String>,
    /// Path to the `.vis` file.
    pub visual: Option<String>,
    /// Path to the `.tactics` file.
    pub tactics: Option<String>,
    /// Path to the `.physics` file.
    pub physics: Option<String>,
    /// Path to the `.blueprint` file.
    pub blueprint: Option<String>,
    /// Path to the `.shp` file.
    pub shape: Option<String>,
    /// Model files (.ugx) referenced by the visual.
    pub models: Vec<String>,
    /// Animation files (.uax) referenced by the visual.
    pub anims: Vec<String>,
    /// Damage model files (.ugx) referenced by the visual.
    pub damage_models: Vec<String>,
}

/// Statistics from the world loading process.
#[derive(Debug, Clone, Default, PartialEq, Eq)]
pub struct LoadStats {
    pub objects_total: usize,
    pub objects_with_visual: usize,
    pub objects_with_tactics: usize,
    pub objects_with_physics: usize,
    pub visuals_resolved: usize,
    pub visuals_failed: Vec<String>,
    pub tactics_resolved: usize,
    pub tactics_failed: Vec<String>,
    pub physics_resolved: usize,
    pub physics_failed: Vec<String>,
    pub blueprints_resolved: usize,
    pub shapes_resolved: usize,
}

/// The views of a list of string slices.
pub open spec fn str_views(v: Seq<&str>) -> Seq<Seq<char>> {
    v.map_values(|s: &str| s@)
}

/// The view of an optional path, as a list of zero or one element.
pub open spec fn opt_path(p: Option<String>) -> Seq<Seq<char>> {
    match p {
        Some(s) => seq![s@],
        None => Seq::empty(),
    }
}

/// The views of a list of strings.
pub open spec fn paths_of(v: Seq<String>) -> Seq<Seq<char>> {
    v.map_values(|s: String| s@)
}

/// Every file of an object, in order: visual, tactics, physics, blueprint,
/// shape, then the models, animations and damage models.
pub open spec fn object_files(oa: ObjectAssets) -> Seq<Seq<char>> {
    opt_path(oa.visual) + opt_path(oa.tactics) + opt_path(oa.physics) + opt_path(oa.blueprint) + opt_path(
        oa.shape,
    ) + paths_of(oa.models@) + paths_of(oa.anims@) + paths_of(oa.damage_models@)
}

fn push_opt<'a>(files: &mut Vec<&'a str>, p: &'a Option<String>)
    ensures
        str_views(final(files)@) == str_views(old(files)@) + opt_path(*p),
{
    let ghost before = files@;
    match p {
        Some(s) => {
            files.push(s.as_str());
            assert(str_views(files@) =~= str_views(before) + opt_path(*p));
        },
        None => {
            assert(str_views(files@) =~= str_views(before) + opt_path(*p));
        },
    }
}

fn push_all<'a>(files: &mut Vec<&'a str>, v: &'a Vec<String>)
    ensures
        str_views(final(files)@) == str_views(old(files)@) + paths_of(v@),
{
    let ghost start = str_views(files@);
    let mut i: usize = 0;
    while i < v.len()
        invariant
            i <= v.len(),
            str_views(files@) == start + paths_of(v@).take(i as int),
        decreases v.len() - i,
    {
        let ghost before = files@;
        let item = v[i].as_str();
        files.push(item);
        assert(str_views(files@) =~= start + paths_of(v@).take(i + 1)) by {
            assert(str_views(before) == start + paths_of(v@).take(i as int));
            assert(files@ == before.push(item));
            assert(str_views(files@) =~= str_views(before).push(item@));
            assert(item@ == v@[i as int]@);
            assert(paths_of(v@).take(i + 1) =~= paths_of(v@).take(i as int).push(v@[i as int]@));
        }
        i = i + 1;
    }
    assert(paths_of(v@).take(v.len() as int) =~= paths_of(v@));
}

impl ObjectAssets {
    /// All file paths referenced by this object.
    pub fn all_files(&self) -> (r: Vec<&str>)
        ensures
            str_views(r@) == object_files(*self),
    {
        let mut files: Vec<&str> = Vec::new();
        assert(str_views(files@) =~= Seq::<Seq<char>>::empty());
        push_opt(&mut files, &self.visual);
        push_opt(&mut files, &self.tactics);
        push_opt(&mut files, &self.physics);
        push_opt(&mut files, &self.blueprint);
        push_opt(&mut files, &self.shape);
        push_all(&mut files, &self.models);
        push_all(&mut files, &self.anims);
        push_all(&mut files, &self.damage_models);
        assert(str_views(files@) =~= object_files(*self));
        files
    }
}

// ── Paths of the chains ─────────────────────────────────────────────────

/// The `.vis` path of a visual reference: separators turned to backslashes,
/// leading backslashes dropped, under `art\`.
pub open spec fn visual_path(vis_ref: Seq<char>) -> Seq<char> {
    "art\\"@ + trim_start_set(replace_char(vis_ref, '/', '\\'), seq!['\\'])
}

/// The tactics path of a tactics reference.
pub open spec fn tactics_path(tac_ref: Seq<char>) -> Seq<char> {
    "data\\tactics\\"@ + tac_ref
}

/// The `.physics` path of a physics reference.
pub open spec fn physics_path(phys_ref: Seq<char>) -> Seq<char> {
    "physics\\"@ + phys_ref + ".physics"@
}

/// The `.blueprint` path of a blueprint reference.
pub open spec fn blueprint_path(bp_ref: Seq<char>) -> Seq<char> {
    "physics\\"@ + bp_ref + ".blueprint"@
}

/// The `.shp` path of a shape reference.
pub open spec fn shape_path(shp_ref: Seq<char>) -> Seq<char> {
    "physics\\"@ + shp_ref + ".shp"@
}

/// `a + s + b` as a new string.
fn wrap(a: &str, s: &str, b: &str) -> (r: String)
    ensures
        r@ == a@ + s@ + b@,
{
    let x = concat_str(chars_of(a).as_slice(), s);
    let y = concat_str(x.as_slice(), b);
    string_from_chars(y.as_slice())
}

/// The `.vis` path of a visual reference.
pub fn visual_base(vis_ref: &str) -> (r: String)
    ensures
        r@ == visual_path(vis_ref@),
{
    let replaced = replace_chars(chars_of(vis_ref).as_slice(), '/', '\\');
    let backslash: Vec<char> = vec!['\\'];
    let trimmed = trim_start_chars(replaced.as_slice(), backslash.as_slice());
    let r = concat_chars(chars_of("art\\").as_slice(), trimmed.as_slice());
    proof {
        assert(backslash@ =~= seq!['\\']);
    }
    string_from_chars(r.as_slice())
}

/// The tactics path of a tactics reference.
pub fn tactics_base(tac_ref: &str) -> (r: String)
    ensures
        r@ == tactics_path(tac_ref@),
{
    let x = concat_str(chars_of("data\\tactics\\").as_slice(), tac_ref);
    string_from_chars(x.as_slice())
}

/// The `.physics` path of a physics reference.
pub fn physics_base(phys_ref: &str) -> (r: String)
    ensures
        r@ == physics_path(phys_ref@),
{
    wrap("physics\\", phys_ref, ".physics")
}

/// The `.blueprint` path of a blueprint reference.
pub fn blueprint_base(bp_ref: &str) -> (r: String)
    ensures
        r@ == blueprint_path(bp_ref@),
{
    wrap("physics\\", bp_ref, ".blueprint")
}

/// The `.shp` path of a shape reference.
pub fn shape_base(shp_ref: &str) -> (r: String)
    ensures
        r@ == shape_path(shp_ref@),
{
    wrap("physics\\", shp_ref, ".shp")
}

impl ObjectAssets {
    /// The paths of an object before its chains are read: its identity and
    /// the visual, tactics and physics paths of whichever references it has.
    pub fn for_object(
        name: String,
        object_class: Option<String>,
        object_types: Vec<String>,
        visual: &Option<String>,
        tactics: &Option<String>,
        physics: &Option<String>,
    ) -> (r: ObjectAssets)
        ensures
            r.name == name,
            r.object_class == object_class,
            r.object_types == object_types,
            match *visual {
                Some(v) => r.visual is Some && r.visual.unwrap()@ == visual_path(v@),
                None => r.visual is None,
            },
            match *tactics {
                Some(t) => r.tactics is Some && r.tactics.unwrap()@ == tactics_path(t@),
                None => r.tactics is None,
            },
            match *physics {
                Some(p) => r.physics is Some && r.physics.unwrap()@ == physics_path(p@),
                None => r.physics is None,
            },
            r.blueprint is None,
            r.shape is None,
            r.models@.len() == 0,
            r.anims@.len() == 0,
            r.damage_models@.len() == 0,
    {
        let visual = match visual {
            Some(v) => Some(visual_base(v.as_str())),
            None => None,
        };
        let tactics = match tactics {
            Some(t) => Some(tactics_base(t.as_str())),
            None => None,
        };
        let physics = match physics {
            Some(p) => Some(physics_base(p.as_str())),
            None => None,
        };
        ObjectAssets {
            name,
            object_class,
            object_types,
            visual,
            tactics,
            physics,
            blueprint: None,
            shape: None,
            models: Vec::new(),
            anims: Vec::new(),
            damage_models: Vec::new(),
        }
    }
}

// ── Queries over the objects ────────────────────────────────────────────

/// Some file of the object is `game_path`, ignoring ASCII case.
pub open spec fn owns_path(oa: ObjectAssets, game_path: Seq<char>) -> bool {
    exists|i: int|
        0 <= i < object_files(oa).len() && lower_ascii(#[trigger] object_files(oa)[i]) == lower_ascii(game_path)
}

/// The names of the objects that own `game_path`, in order.
pub open spec fn owners(objects: Seq<ObjectAssets>, game_path: Seq<char>) -> Seq<Seq<char>>
    decreases objects.len(),
{
    if objects.len() == 0 {
        Seq::empty()
    } else {
        let prev = owners(objects.drop_last(), game_path);
        if owns_path(objects.last(), game_path) {
            prev.push(objects.last().name@)
        } else {
            prev
        }
    }
}

/// Whether some file of the object is `needle` (already ASCII-lowercased),
/// ignoring ASCII case.
fn object_owns(oa: &ObjectAssets, needle: &Vec<char>) -> (r: bool)
    requires
        needle@ == lower_ascii(needle@),
    ensures
        r == (exists|i: int| 0 <= i < object_files(*oa).len() && lower_ascii(#[trigger] object_files(*oa)[i]) == needle@),
{
    let files = oa.all_files();
    let ghost fs = str_views(files@);
    let mut i: usize = 0;
    while i < files.len()
        invariant
            i <= files@.len(),
            fs == str_views(files@),
            fs == object_files(*oa),
            forall|j: int| 0 <= j < i ==> lower_ascii(#[trigger] fs[j]) != needle@,
        decreases files@.len() - i,
    {
        let lowered = lower_ascii_chars(chars_of(files[i]).as_slice());
        assert(fs[i as int] == files@[i as int]@);
        if crate::text::chars_eq(lowered.as_slice(), needle.as_slice()) {
            return true;
        }
        i = i + 1;
    }
    false
}

/// The names of the objects whose files include `game_path`, ignoring
/// ASCII case.
pub fn owners_of_asset(objects: &Vec<ObjectAssets>, game_path: &str) -> (r: Vec<String>)
    ensures
        paths_of(r@) == owners(objects@, game_path@),
{
    let needle = lower_ascii_chars(chars_of(game_path).as_slice());
    proof {
        assert(lower_ascii(needle@) =~= needle@);
    }
    let mut r: Vec<String> = Vec::new();
    let mut i: usize = 0;
    while i < objects.len()
        invariant
            i <= objects@.len(),
            needle@ == lower_ascii(game_path@),
            needle@ == lower_ascii(needle@),
            paths_of(r@) == owners(objects@.take(i as int), game_path@),
        decreases objects@.len() - i,
    {
        let ghost t = objects@.take(i + 1);
        assert(t.drop_last() =~= objects@.take(i as int));
        assert(t.last() == objects@[i as int]);
        if object_owns(&objects[i], &needle) {
            let ghost before = r@;
            r.push(objects[i].name.clone());
            assert(paths_of(r@) =~= paths_of(before).push(objects@[i as int].name@));
        }
        i = i + 1;
    }
    assert(objects@.take(objects@.len() as int) =~= objects@);
    r
}

/// The objects whose lowercased name contains the lowercased pattern.
pub open spec fn name_matches(oa: ObjectAssets, pattern: Seq<char>) -> bool {
    contains_run(unicode_lowercase(oa.name@), unicode_lowercase(pattern))
}

/// The objects whose name contains `pattern`, ignoring case.
pub fn search_assets<'a>(objects: &'a Vec<ObjectAssets>, pattern: &str) -> (r: Vec<&'a ObjectAssets>)
    ensures
        r@.map_values(|a: &ObjectAssets| *a) == objects@.filter(|a: ObjectAssets| name_matches(a, pattern@)),
{
    let lower = chars_of(to_lowercase(pattern).as_str());
    let mut r: Vec<&'a ObjectAssets> = Vec::new();
    let mut i: usize = 0;
    while i < objects.len()
        invariant
            i <= objects@.len(),
            lower@ == unicode_lowercase(pattern@),
            r@.map_values(|a: &ObjectAssets| *a) == objects@.take(i as int).filter(|a: ObjectAssets| name_matches(a, pattern@)),
        decreases objects@.len() - i,
    {
        let name = chars_of(to_lowercase(objects[i].name.as_str()).as_str());
        let ghost before = r@;
        if contains_chars(name.as_slice(), lower.as_slice()) {
            r.push(&objects[i]);
        }
        proof {
            let t = objects@.take(i + 1);
            assert(t.drop_last() =~= objects@.take(i as int));
            reveal(Seq::filter);
            assert(r@.map_values(|a: &ObjectAssets| *a) =~= t.filter(|a: ObjectAssets| name_matches(a, pattern@)));
        }
        i = i + 1;
    }
    assert(objects@.take(objects@.len() as int) =~= objects@);
    r
}

/// The objects of a given class.
pub fn assets_by_class<'a>(objects: &'a Vec<ObjectAssets>, class: &str) -> (r: Vec<&'a ObjectAssets>)
    ensures
        r@.map_values(|a: &ObjectAssets| *a) == objects@.filter(
            |a: ObjectAssets| a.object_class is Some && a.object_class.unwrap()@ == class@,
        ),
{
    let class_s = String::from_str(class);
    let mut r: Vec<&'a ObjectAssets> = Vec::new();
    let mut i: usize = 0;
    while i < objects.len()
        invariant
            i <= objects@.len(),
            class_s@ == class@,
            r@.map_values(|a: &ObjectAssets| *a) == objects@.take(i as int).filter(
                |a: ObjectAssets| a.object_class is Some && a.object_class.unwrap()@ == class@,
            ),
        decreases objects@.len() - i,
    {
        let matches = match &objects[i].object_class {
            Some(c) => *c == class_s,
            None => false,
        };
        if matches {
            r.push(&objects[i]);
        }
        proof {
            let t = objects@.take(i + 1);
            assert(t.drop_last() =~= objects@.take(i as int));
            reveal(Seq::filter);
            assert(r@.map_values(|a: &ObjectAssets| *a) =~= t.filter(
                |a: ObjectAssets| a.object_class is Some && a.object_class.unwrap()@ == class@,
            ));
        }
        i = i + 1;
    }
    assert(objects@.take(objects@.len() as int) =~= objects@);
    r
}

/// The object carries the type tag.
pub open spec fn has_type(a: ObjectAssets, t: Seq<char>) -> bool {
    exists|j: int| 0 <= j < a.object_types@.len() && (#[trigger] a.object_types@[j])@ == t
}

/// The objects carrying a given type tag.
pub fn assets_by_type<'a>(objects: &'a Vec<ObjectAssets>, object_type: &str) -> (r: Vec<&'a ObjectAssets>)
    ensures
        r@.map_values(|a: &ObjectAssets| *a) == objects@.filter(|a: ObjectAssets| has_type(a, object_type@)),
{
    let t = String::from_str(object_type);
    let mut r: Vec<&'a ObjectAssets> = Vec::new();
    let mut i: usize = 0;
    while i < objects.len()
        invariant
            i <= objects@.len(),
            t@ == object_type@,
            r@.map_values(|a: &ObjectAssets| *a) == objects@.take(i as int).filter(|a: ObjectAssets| has_type(a, object_type@)),
        decreases objects@.len() - i,
    {
        let has = crate::text::contains_string(&objects[i].object_types, &t);
        proof {
            if has {
                let j = choose|j: int| 0 <= j < crate::text::string_views(objects@[i as int].object_types@).len()
                    && crate::text::string_views(objects@[i as int].object_types@)[j] == t@;
                assert(objects@[i as int].object_types@[j]@ == object_type@);
            }
            if has_type(objects@[i as int], object_type@) {
                let j = choose|j: int| 0 <= j < objects@[i as int].object_types@.len() && (#[trigger] objects@[i as int].object_types@[j])@ == object_type@;
                assert(crate::text::string_views(objects@[i as int].object_types@)[j] == t@);
            }
        }
        if has {
            r.push(&objects[i]);
        }
        proof {
            let tk = objects@.take(i + 1);
            assert(tk.drop_last() =~= objects@.take(i as int));
            reveal(Seq::filter);
            assert(r@.map_values(|a: &ObjectAssets| *a) =~= tk.filter(|a: ObjectAssets| has_type(a, object_type@)));
        }
        i = i + 1;
    }
    assert(objects@.take(objects@.len() as int) =~= objects@);
    r
}

// ── Load statistics ─────────────────────────────────────────────────────

/// How following one link of a chain (visual, tactics, physics) went.
#[derive(Debug, Clone, PartialEq, Eq)]
pub enum ChainOutcome {
    /// The file was found and parsed.
    Resolved,
    /// The file was found but did not parse; the parser's message.
    Failed(String),
    /// The file was not found.
    Missing,
}

/// A failure entry: the path, then `: ` and the message for a parse
/// failure, or the path alone for a missing file.
pub open spec fn failure_entry(path: Seq<char>, outcome: ChainOutcome) -> Option<Seq<char>> {
    match outcome {
        ChainOutcome::Resolved => None,
        ChainOutcome::Failed(e) => Some(path + ": "@ + e@),
        ChainOutcome::Missing => Some(path),
    }
}

fn failure_text(path: &String, outcome: &ChainOutcome) -> (r: Option<String>)
    ensures
        match r {
            Some(t) => failure_entry(path@, *outcome) == Some(t@),
            None => failure_entry(path@, *outcome) is None,
        },
{
    match outcome {
        ChainOutcome::Resolved => None,
        ChainOutcome::Failed(e) => {
            let a = concat_str(chars_of(path.as_str()).as_slice(), ": ");
            let b = concat_str(a.as_slice(), e.as_str());
            Some(string_from_chars(b.as_slice()))
        },
        ChainOutcome::Missing => Some(path.clone()),
    }
}

/// The list with the failure entry appended, if any.
pub open spec fn with_failure(list: Seq<Seq<char>>, path: Seq<char>, outcome: ChainOutcome) -> Seq<Seq<char>> {
    match failure_entry(path, outcome) {
        Some(t) => list.push(t),
        None => list,
    }
}

impl LoadStats {
    /// Records an object with a visual reference and how reading its visual
    /// at `path` went.
    pub fn record_visual(&mut self, path: &String, outcome: &ChainOutcome)
        requires
            old(self).objects_with_visual < usize::MAX,
            old(self).visuals_resolved < usize::MAX,
        ensures
            final(self).objects_with_visual == old(self).objects_with_visual + 1,
            final(self).visuals_resolved == old(self).visuals_resolved + if *outcome is Resolved {
                1int
            } else {
                0
            },
            paths_of(final(self).visuals_failed@) == with_failure(paths_of(old(self).visuals_failed@), path@, *outcome),
            final(self).tactics_resolved == old(self).tactics_resolved,
            final(self).physics_resolved == old(self).physics_resolved,
            final(self).tactics_failed == old(self).tactics_failed,
            final(self).physics_failed == old(self).physics_failed,
            final(self).objects_with_tactics == old(self).objects_with_tactics,
            final(self).objects_with_physics == old(self).objects_with_physics,
            final(self).objects_total == old(self).objects_total,
            final(self).blueprints_resolved == old(self).blueprints_resolved,
            final(self).shapes_resolved == old(self).shapes_resolved,
    {
        self.objects_with_visual = self.objects_with_visual + 1;
        if let ChainOutcome::Resolved = outcome {
            self.visuals_resolved = self.visuals_resolved + 1;
        }
        match failure_text(path, outcome) {
            Some(t) => {
                let ghost tv = t@;
                self.visuals_failed.push(t);
                assert(paths_of(self.visuals_failed@) =~= paths_of(old(self).visuals_failed@).push(tv));
            },
            None => {},
        }
    }

    /// Records an object with a tactics reference and how reading its
    /// tactics at `path` went.
    pub fn record_tactics(&mut self, path: &String, outcome: &ChainOutcome)
        requires
            old(self).objects_with_tactics < usize::MAX,
            old(self).tactics_resolved < usize::MAX,
        ensures
            final(self).objects_with_tactics == old(self).objects_with_tactics + 1,
            final(self).tactics_resolved == old(self).tactics_resolved + if *outcome is Resolved {
                1int
            } else {
                0
            },
            paths_of(final(self).tactics_failed@) == with_failure(paths_of(old(self).tactics_failed@), path@, *outcome),
            final(self).visuals_resolved == old(self).visuals_resolved,
            final(self).physics_resolved == old(self).physics_resolved,
            final(self).visuals_failed == old(self).visuals_failed,
            final(self).physics_failed == old(self).physics_failed,
            final(self).objects_with_visual == old(self).objects_with_visual,
            final(self).objects_with_physics == old(self).objects_with_physics,
            final(self).objects_total == old(self).objects_total,
            final(self).blueprints_resolved == old(self).blueprints_resolved,
            final(self).shapes_resolved == old(self).shapes_resolved,
    {
        self.objects_with_tactics = self.objects_with_tactics + 1;
        if let ChainOutcome::Resolved = outcome {
            self.tactics_resolved = self.tactics_resolved + 1;
        }
        match failure_text(path, outcome) {
            Some(t) => {
                let ghost tv = t@;
                self.tactics_failed.push(t);
                assert(paths_of(self.tactics_failed@) =~= paths_of(old(self).tactics_failed@).push(tv));
            },
            None => {},
        }
    }

    /// Records an object with a physics reference and how reading its
    /// physics entry at `path` went.
    pub fn record_physics(&mut self, path: &String, outcome: &ChainOutcome)
        requires
            old(self).objects_with_physics < usize::MAX,
            old(self).physics_resolved < usize::MAX,
        ensures
            final(self).objects_with_physics == old(self).objects_with_physics + 1,
            final(self).physics_resolved == old(self).physics_resolved + if *outcome is Resolved {
                1int
            } else {
                0
            },
            paths_of(final(self).physics_failed@) == with_failure(paths_of(old(self).physics_failed@), path@, *outcome),
            final(self).visuals_resolved == old(self).visuals_resolved,
            final(self).tactics_resolved == old(self).tactics_resolved,
            final(self).visuals_failed == old(self).visuals_failed,
            final(self).tactics_failed == old(self).tactics_failed,
            final(self).objects_with_visual == old(self).objects_with_visual,
            final(self).objects_with_tactics == old(self).objects_with_tactics,
            final(self).objects_total == old(self).objects_total,
            final(self).blueprints_resolved == old(self).blueprints_resolved,
            final(self).shapes_resolved == old(self).shapes_resolved,
    {
        self.objects_with_physics = self.objects_with_physics + 1;
        if let ChainOutcome::Resolved = outcome {
            self.physics_resolved = self.physics_resolved + 1;
        }
        match failure_text(path, outcome) {
            Some(t) => {
                let ghost tv = t@;
                self.physics_failed.push(t);
                assert(paths_of(self.physics_failed@) =~= paths_of(old(self).physics_failed@).push(tv));
            },
            None => {},
        }
    }
}

/// Whether an object owns a game path, as a predicate.
pub open spec fn owns(game_path: Seq<char>) -> spec_fn(ObjectAssets) -> bool {
    |oa: ObjectAssets| owns_path(oa, game_path)
}

/// An object's name.
pub open spec fn object_name() -> spec_fn(ObjectAssets) -> Seq<char> {
    |oa: ObjectAssets| oa.name@
}

/// The owners of a game path are exactly the objects, in order and none
/// left out, one of whose files (visual, tactics, physics, blueprint, shape,
/// models, animations, damage models) is that path, ignoring ASCII case.
pub proof fn law_owners_are_every_owning_object(objects: Seq<ObjectAssets>, game_path: Seq<char>)
    ensures
        owners(objects, game_path) == objects.filter(owns(game_path)).map_values(object_name()),
    decreases objects.len(),
{
    reveal(Seq::filter);
    if objects.len() > 0 {
        law_owners_are_every_owning_object(objects.drop_last(), game_path);
        let pred = owns(game_path);
        let g = object_name();
        let prev = objects.drop_last().filter(pred);
        if pred(objects.last()) {
            assert(objects.filter(pred) == prev.push(objects.last()));
            assert(prev.push(objects.last()).map_values(g) =~= prev.map_values(g).push(g(objects.last())));
        } else {
            assert(objects.filter(pred) == prev);
        }
    }
}

} // verus!

