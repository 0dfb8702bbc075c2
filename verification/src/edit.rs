//! Dirty tracking for the edit/save workflow.
//!
//! A [`DirtySet`] records which tables of a world have been modified and,
//! for the per-file tables (visuals, tactics, physics, models, animations,
//! textures), which keys. [`TableId`] names a table and [`AssetKind`]
//! classifies any game path into the asset category it belongs to.
//!
//! The guards [`DirtyGuard`] and [`KeyDirtyGuard`] hand out mutable access to
//! a piece of data; creating one marks the owning table (or key) dirty, which
//! is the state the set is in once the guard has been dropped.
use vstd::prelude::*;

use vstd::seq_lib::group_filter_ensures;

use crate::text::{
    list_contains, string_views,
    chars_eq_str, chars_of, copy_string, ends_with_str, has_prefix, has_suffix, lower_ascii, lower_ascii_char,
    lower_ascii_chars,
    replace_char, replace_chars, starts_with_str, string_from_chars, strip_suffix_or_self,
    strip_suffix_str,
};

verus! {

broadcast use group_filter_ensures;

/// Identifies a data table in a world.
#[derive(Debug, Clone, Copy, PartialEq, Eq, Hash, Structural)]
pub enum TableId {
    Objects,
    Squads,
    Techs,
    Abilities,
    Powers,
    Civs,
    Leaders,
    WeaponTypes,
    DamageTypes,
    GameData,
    Scenario,
    Visuals,
    Tactics,
    Physics,
    TerrainData,
    TerrainTextures,
    Strings,
    Models,
    Animations,
    Textures,
}

/// Number of tables.
pub const TABLE_COUNT: usize = 20;

/// Position of a table in the canonical table order.
pub open spec fn table_index(t: TableId) -> int {
    match t {
        TableId::Objects => 0,
        TableId::Squads => 1,
        TableId::Techs => 2,
        TableId::Abilities => 3,
        TableId::Powers => 4,
        TableId::Civs => 5,
        TableId::Leaders => 6,
        TableId::WeaponTypes => 7,
        TableId::DamageTypes => 8,
        TableId::GameData => 9,
        TableId::Scenario => 10,
        TableId::Visuals => 11,
        TableId::Tactics => 12,
        TableId::Physics => 13,
        TableId::TerrainData => 14,
        TableId::TerrainTextures => 15,
        TableId::Strings => 16,
        TableId::Models => 17,
        TableId::Animations => 18,
        TableId::Textures => 19,
    }
}

/// Every table, in canonical order.
pub open spec fn all_tables_spec() -> Seq<TableId> {
    seq![
        TableId::Objects,
        TableId::Squads,
        TableId::Techs,
        TableId::Abilities,
        TableId::Powers,
        TableId::Civs,
        TableId::Leaders,
        TableId::WeaponTypes,
        TableId::DamageTypes,
        TableId::GameData,
        TableId::Scenario,
        TableId::Visuals,
        TableId::Tactics,
        TableId::Physics,
        TableId::TerrainData,
        TableId::TerrainTextures,
        TableId::Strings,
        TableId::Models,
        TableId::Animations,
        TableId::Textures,
    ]
}

/// The per-file tables: each entry is saved as a file of its own, so dirty
/// keys are tracked for them.
pub open spec fn is_per_file(t: TableId) -> bool {
    t == TableId::Visuals || t == TableId::Tactics || t == TableId::Physics || t
        == TableId::Models || t == TableId::Animations || t == TableId::Textures
}

/// The well-known game path of a database table.
pub open spec fn table_game_path(t: TableId) -> Option<Seq<char>> {
    match t {
        TableId::Objects => Some("data\\objects.xml"@),
        TableId::Squads => Some("data\\squads.xml"@),
        TableId::Techs => Some("data\\techs.xml"@),
        TableId::Abilities => Some("data\\abilities.xml"@),
        TableId::Powers => Some("data\\powers.xml"@),
        TableId::Civs => Some("data\\civs.xml"@),
        TableId::Leaders => Some("data\\leaders.xml"@),
        TableId::WeaponTypes => Some("data\\weapontypes.xml"@),
        TableId::DamageTypes => Some("data\\damagetypes.xml"@),
        TableId::GameData => Some("data\\gamedata.xml"@),
        _ => None,
    }
}

/// A game path brought to canonical form: ASCII lowercase, `/` turned into
/// `\`, and one trailing `.xmb` removed.
pub open spec fn canonical_game_path(p: Seq<char>) -> Seq<char> {
    strip_suffix_or_self(replace_char(lower_ascii(p), '/', '\\'), ".xmb"@)
}

/// The table that a canonical game path names.
pub open spec fn table_of_canonical(p: Seq<char>) -> Option<TableId> {
    if p == "data\\objects.xml"@ {
        Some(TableId::Objects)
    } else if p == "data\\squads.xml"@ {
        Some(TableId::Squads)
    } else if p == "data\\techs.xml"@ {
        Some(TableId::Techs)
    } else if p == "data\\abilities.xml"@ {
        Some(TableId::Abilities)
    } else if p == "data\\powers.xml"@ {
        Some(TableId::Powers)
    } else if p == "data\\civs.xml"@ {
        Some(TableId::Civs)
    } else if p == "data\\leaders.xml"@ {
        Some(TableId::Leaders)
    } else if p == "data\\weapontypes.xml"@ {
        Some(TableId::WeaponTypes)
    } else if p == "data\\damagetypes.xml"@ {
        Some(TableId::DamageTypes)
    } else if p == "data\\gamedata.xml"@ {
        Some(TableId::GameData)
    } else if has_prefix(p, "scenario\\"@) && has_suffix(p, ".scn"@) {
        Some(TableId::Scenario)
    } else {
        None
    }
}

/// The table a game path (in any spelling) refers to.
pub open spec fn table_for_game_path(p: Seq<char>) -> Option<TableId> {
    table_of_canonical(canonical_game_path(p))
}

impl TableId {
    /// Number of tables.
    pub const COUNT: usize = 20;

    /// Position of this table in the canonical order.
    pub(crate) fn index(self) -> (r: usize)
        ensures
            r == table_index(self),
            r < 20,
    {
        match self {
            TableId::Objects => 0,
            TableId::Squads => 1,
            TableId::Techs => 2,
            TableId::Abilities => 3,
            TableId::Powers => 4,
            TableId::Civs => 5,
            TableId::Leaders => 6,
            TableId::WeaponTypes => 7,
            TableId::DamageTypes => 8,
            TableId::GameData => 9,
            TableId::Scenario => 10,
            TableId::Visuals => 11,
            TableId::Tactics => 12,
            TableId::Physics => 13,
            TableId::TerrainData => 14,
            TableId::TerrainTextures => 15,
            TableId::Strings => 16,
            TableId::Models => 17,
            TableId::Animations => 18,
            TableId::Textures => 19,
        }
    }

    /// Every table, in canonical order.
    pub fn all() -> (r: Vec<TableId>)
        ensures
            r@ == all_tables_spec(),
    {
        let r = vec![
            TableId::Objects,
            TableId::Squads,
            TableId::Techs,
            TableId::Abilities,
            TableId::Powers,
            TableId::Civs,
            TableId::Leaders,
            TableId::WeaponTypes,
            TableId::DamageTypes,
            TableId::GameData,
            TableId::Scenario,
            TableId::Visuals,
            TableId::Tactics,
            TableId::Physics,
            TableId::TerrainData,
            TableId::TerrainTextures,
            TableId::Strings,
            TableId::Models,
            TableId::Animations,
            TableId::Textures,
        ];
        assert(r@ =~= all_tables_spec());
        r
    }

    /// Whether entries of this table are tracked key by key.
    pub fn is_per_file(self) -> (r: bool)
        ensures
            r == is_per_file(self),
    {
        match self {
            TableId::Visuals | TableId::Tactics | TableId::Physics | TableId::Models
            | TableId::Animations | TableId::Textures => true,
            _ => false,
        }
    }

    /// Map a game path (e.g. `"data\\objects.xml"`, any case, either slash,
    /// with or without `.xmb`) to the table it names.
    ///
    /// Returns `None` for paths that don't correspond to a database table.
    pub fn from_game_path(path: &str) -> (r: Option<TableId>)
        ensures
            r == table_for_game_path(path@),
    {
        let raw = chars_of(path);
        let p = canonical_chars(raw.as_slice());
        table_of_canonical_chars(p.as_slice())
    }

    /// The well-known game path for this table (reverse of
    /// [`from_game_path`](Self::from_game_path)).
    pub fn game_path(self) -> (r: Option<&'static str>)
        ensures
            match r {
                Some(s) => table_game_path(self) == Some(s@),
                None => table_game_path(self) is None,
            },
    {
        match self {
            TableId::Objects => Some("data\\objects.xml"),
            TableId::Squads => Some("data\\squads.xml"),
            TableId::Techs => Some("data\\techs.xml"),
            TableId::Abilities => Some("data\\abilities.xml"),
            TableId::Powers => Some("data\\powers.xml"),
            TableId::Civs => Some("data\\civs.xml"),
            TableId::Leaders => Some("data\\leaders.xml"),
            TableId::WeaponTypes => Some("data\\weapontypes.xml"),
            TableId::DamageTypes => Some("data\\damagetypes.xml"),
            TableId::GameData => Some("data\\gamedata.xml"),
            _ => None,
        }
    }

    /// The variant's name, as `{:?}` prints it.
    pub fn name(self) -> (r: &'static str)
        ensures
            r@ == table_name(self),
    {
        match self {
            TableId::Objects => "Objects",
            TableId::Squads => "Squads",
            TableId::Techs => "Techs",
            TableId::Abilities => "Abilities",
            TableId::Powers => "Powers",
            TableId::Civs => "Civs",
            TableId::Leaders => "Leaders",
            TableId::WeaponTypes => "WeaponTypes",
            TableId::DamageTypes => "DamageTypes",
            TableId::GameData => "GameData",
            TableId::Scenario => "Scenario",
            TableId::Visuals => "Visuals",
            TableId::Tactics => "Tactics",
            TableId::Physics => "Physics",
            TableId::TerrainData => "TerrainData",
            TableId::TerrainTextures => "TerrainTextures",
            TableId::Strings => "Strings",
            TableId::Models => "Models",
            TableId::Animations => "Animations",
            TableId::Textures => "Textures",
        }
    }
}

/// The variant name of a table.
pub open spec fn table_name(t: TableId) -> Seq<char> {
    match t {
        TableId::Objects => "Objects"@,
        TableId::Squads => "Squads"@,
        TableId::Techs => "Techs"@,
        TableId::Abilities => "Abilities"@,
        TableId::Powers => "Powers"@,
        TableId::Civs => "Civs"@,
        TableId::Leaders => "Leaders"@,
        TableId::WeaponTypes => "WeaponTypes"@,
        TableId::DamageTypes => "DamageTypes"@,
        TableId::GameData => "GameData"@,
        TableId::Scenario => "Scenario"@,
        TableId::Visuals => "Visuals"@,
        TableId::Tactics => "Tactics"@,
        TableId::Physics => "Physics"@,
        TableId::TerrainData => "TerrainData"@,
        TableId::TerrainTextures => "TerrainTextures"@,
        TableId::Strings => "Strings"@,
        TableId::Models => "Models"@,
        TableId::Animations => "Animations"@,
        TableId::Textures => "Textures"@,
    }
}

/// Brings a game path to canonical form.
pub fn canonical_chars(raw: &[char]) -> (r: Vec<char>)
    ensures
        r@ == canonical_game_path(raw@),
{
    let lower = lower_ascii_chars(raw);
    let slashed = replace_chars(lower.as_slice(), '/', '\\');
    strip_suffix_str(slashed.as_slice(), ".xmb")
}

fn table_of_canonical_chars(p: &[char]) -> (r: Option<TableId>)
    ensures
        r == table_of_canonical(p@),
{
    if chars_eq_str(p, "data\\objects.xml") {
        Some(TableId::Objects)
    } else if chars_eq_str(p, "data\\squads.xml") {
        Some(TableId::Squads)
    } else if chars_eq_str(p, "data\\techs.xml") {
        Some(TableId::Techs)
    } else if chars_eq_str(p, "data\\abilities.xml") {
        Some(TableId::Abilities)
    } else if chars_eq_str(p, "data\\powers.xml") {
        Some(TableId::Powers)
    } else if chars_eq_str(p, "data\\civs.xml") {
        Some(TableId::Civs)
    } else if chars_eq_str(p, "data\\leaders.xml") {
        Some(TableId::Leaders)
    } else if chars_eq_str(p, "data\\weapontypes.xml") {
        Some(TableId::WeaponTypes)
    } else if chars_eq_str(p, "data\\damagetypes.xml") {
        Some(TableId::DamageTypes)
    } else if chars_eq_str(p, "data\\gamedata.xml") {
        Some(TableId::GameData)
    } else if starts_with_str(p, "scenario\\") && ends_with_str(p, ".scn") {
        Some(TableId::Scenario)
    } else {
        None
    }
}


/// Classifies any game path into a typed asset category.
///
/// Where [`TableId`] only covers the database tables, `AssetKind` handles
/// every file type the pipeline knows about, including per-object XML files
/// (`.vis`, tactics, `.physics`) and binary assets (`.ugx`, `.uax`, `.ddx`,
/// `.xtd`, `.xtt`). The contained `String` is the canonical game path.
#[derive(Debug, Clone, PartialEq, Eq, Hash)]
pub enum AssetKind {
    /// A top-level database XML table (objects.xml, squads.xml, ...).
    DatabaseTable(TableId),
    /// A per-object visual definition (`.vis` / `.vis.xmb`).
    Visual(String),
    /// A per-object tactics definition (`data\tactics\*.xml`).
    Tactics(String),
    /// A physics definition (`.physics` / `.physics.xmb`).
    Physics(String),
    /// A physics blueprint (`.blueprint` / `.blueprint.xmb`).
    Blueprint(String),
    /// A physics shape (`.shp` / `.shp.xmb`).
    Shape(String),
    /// A binary model (`.ugx`).
    Model(String),
    /// A binary animation (`.uax`).
    Animation(String),
    /// A binary texture (`.ddx`).
    Texture(String),
    /// Scenario scene data (`.scn`).
    Scenario(String),
    /// Terrain heightmap / lighting (`.xtd`).
    TerrainData(String),
    /// Terrain textures / foliage (`.xtt`).
    TerrainTextures(String),
}

/// The abstract value of an [`AssetKind`]: its category and path.
pub enum AssetKindModel {
    DatabaseTable(TableId),
    Visual(Seq<char>),
    Tactics(Seq<char>),
    Physics(Seq<char>),
    Blueprint(Seq<char>),
    Shape(Seq<char>),
    Model(Seq<char>),
    Animation(Seq<char>),
    Texture(Seq<char>),
    Scenario(Seq<char>),
    TerrainData(Seq<char>),
    TerrainTextures(Seq<char>),
}

impl View for AssetKind {
    type V = AssetKindModel;

    open spec fn view(&self) -> AssetKindModel {
        match self {
            AssetKind::DatabaseTable(t) => AssetKindModel::DatabaseTable(*t),
            AssetKind::Visual(p) => AssetKindModel::Visual(p@),
            AssetKind::Tactics(p) => AssetKindModel::Tactics(p@),
            AssetKind::Physics(p) => AssetKindModel::Physics(p@),
            AssetKind::Blueprint(p) => AssetKindModel::Blueprint(p@),
            AssetKind::Shape(p) => AssetKindModel::Shape(p@),
            AssetKind::Model(p) => AssetKindModel::Model(p@),
            AssetKind::Animation(p) => AssetKindModel::Animation(p@),
            AssetKind::Texture(p) => AssetKindModel::Texture(p@),
            AssetKind::Scenario(p) => AssetKindModel::Scenario(p@),
            AssetKind::TerrainData(p) => AssetKindModel::TerrainData(p@),
            AssetKind::TerrainTextures(p) => AssetKindModel::TerrainTextures(p@),
        }
    }
}

/// Classification of a canonical game path that is not a database table.
pub open spec fn asset_kind_by_extension(p: Seq<char>) -> Option<AssetKindModel> {
    if has_suffix(p, ".vis"@) {
        Some(AssetKindModel::Visual(p))
    } else if has_prefix(p, "data\\tactics\\"@) && has_suffix(p, ".xml"@) {
        Some(AssetKindModel::Tactics(p))
    } else if has_suffix(p, ".physics"@) {
        Some(AssetKindModel::Physics(p))
    } else if has_suffix(p, ".blueprint"@) {
        Some(AssetKindModel::Blueprint(p))
    } else if has_suffix(p, ".shp"@) {
        Some(AssetKindModel::Shape(p))
    } else if has_suffix(p, ".ugx"@) {
        Some(AssetKindModel::Model(p))
    } else if has_suffix(p, ".uax"@) {
        Some(AssetKindModel::Animation(p))
    } else if has_suffix(p, ".ddx"@) {
        Some(AssetKindModel::Texture(p))
    } else if has_suffix(p, ".xtd"@) {
        Some(AssetKindModel::TerrainData(p))
    } else if has_suffix(p, ".xtt"@) {
        Some(AssetKindModel::TerrainTextures(p))
    } else {
        None
    }
}

/// The asset category of a game path: database tables first (a scenario
/// `.scn` keeps its path), then per-file XML assets, binary assets and
/// terrain files by extension.
pub open spec fn asset_kind_for_game_path(path: Seq<char>) -> Option<AssetKindModel> {
    let p = canonical_game_path(path);
    match table_for_game_path(p) {
        Some(TableId::Scenario) => Some(AssetKindModel::Scenario(p)),
        Some(t) => Some(AssetKindModel::DatabaseTable(t)),
        None => asset_kind_by_extension(p),
    }
}

/// The game path an asset category carries (empty for a table without one).
pub open spec fn asset_kind_game_path(k: AssetKindModel) -> Seq<char> {
    match k {
        AssetKindModel::DatabaseTable(t) => match table_game_path(t) {
            Some(p) => p,
            None => Seq::empty(),
        },
        AssetKindModel::Visual(p) => p,
        AssetKindModel::Tactics(p) => p,
        AssetKindModel::Physics(p) => p,
        AssetKindModel::Blueprint(p) => p,
        AssetKindModel::Shape(p) => p,
        AssetKindModel::Model(p) => p,
        AssetKindModel::Animation(p) => p,
        AssetKindModel::Texture(p) => p,
        AssetKindModel::Scenario(p) => p,
        AssetKindModel::TerrainData(p) => p,
        AssetKindModel::TerrainTextures(p) => p,
    }
}

/// Whether an asset category is parseable XML/XMB.
pub open spec fn asset_kind_is_xml(k: AssetKindModel) -> bool {
    match k {
        AssetKindModel::DatabaseTable(_) | AssetKindModel::Visual(_) | AssetKindModel::Tactics(_)
        | AssetKindModel::Physics(_) | AssetKindModel::Blueprint(_) | AssetKindModel::Shape(_)
        | AssetKindModel::Scenario(_) => true,
        _ => false,
    }
}

/// Whether an asset category is a binary blob loaded lazily.
pub open spec fn asset_kind_is_binary(k: AssetKindModel) -> bool {
    match k {
        AssetKindModel::Model(_) | AssetKindModel::Animation(_) | AssetKindModel::Texture(_)
        | AssetKindModel::TerrainData(_) | AssetKindModel::TerrainTextures(_) => true,
        _ => false,
    }
}

impl AssetKind {
    /// Classify a game path into an [`AssetKind`].
    ///
    /// Accepts paths with forward or back slashes, with or without an `.xmb`
    /// suffix. Returns `None` for unrecognised patterns.
    pub fn from_game_path(path: &str) -> (r: Option<AssetKind>)
        ensures
            match r {
                Some(k) => asset_kind_for_game_path(path@) == Some(k@),
                None => asset_kind_for_game_path(path@) is None,
            },
    {
        let raw = chars_of(path);
        let p = canonical_chars(raw.as_slice());
        let again = canonical_chars(p.as_slice());
        match table_of_canonical_chars(again.as_slice()) {
            Some(TableId::Scenario) => {
                return Some(AssetKind::Scenario(string_from_chars(p.as_slice())));
            },
            Some(t) => {
                return Some(AssetKind::DatabaseTable(t));
            },
            None => {},
        }
        let ps = p.as_slice();
        if ends_with_str(ps, ".vis") {
            Some(AssetKind::Visual(string_from_chars(ps)))
        } else if starts_with_str(ps, "data\\tactics\\") && ends_with_str(ps, ".xml") {
            Some(AssetKind::Tactics(string_from_chars(ps)))
        } else if ends_with_str(ps, ".physics") {
            Some(AssetKind::Physics(string_from_chars(ps)))
        } else if ends_with_str(ps, ".blueprint") {
            Some(AssetKind::Blueprint(string_from_chars(ps)))
        } else if ends_with_str(ps, ".shp") {
            Some(AssetKind::Shape(string_from_chars(ps)))
        } else if ends_with_str(ps, ".ugx") {
            Some(AssetKind::Model(string_from_chars(ps)))
        } else if ends_with_str(ps, ".uax") {
            Some(AssetKind::Animation(string_from_chars(ps)))
        } else if ends_with_str(ps, ".ddx") {
            Some(AssetKind::Texture(string_from_chars(ps)))
        } else if ends_with_str(ps, ".xtd") {
            Some(AssetKind::TerrainData(string_from_chars(ps)))
        } else if ends_with_str(ps, ".xtt") {
            Some(AssetKind::TerrainTextures(string_from_chars(ps)))
        } else {
            None
        }
    }

    /// The game path carried by this asset kind (empty for a table that has
    /// no well-known path).
    pub fn game_path(&self) -> (r: &str)
        ensures
            r@ == asset_kind_game_path(self@),
    {
        match self {
            AssetKind::DatabaseTable(t) => match t.game_path() {
                Some(p) => p,
                None => {
                    proof {
                        reveal_strlit("");
                    }
                    ""
                },
            },
            AssetKind::Visual(p) => p.as_str(),
            AssetKind::Tactics(p) => p.as_str(),
            AssetKind::Physics(p) => p.as_str(),
            AssetKind::Blueprint(p) => p.as_str(),
            AssetKind::Shape(p) => p.as_str(),
            AssetKind::Model(p) => p.as_str(),
            AssetKind::Animation(p) => p.as_str(),
            AssetKind::Texture(p) => p.as_str(),
            AssetKind::Scenario(p) => p.as_str(),
            AssetKind::TerrainData(p) => p.as_str(),
            AssetKind::TerrainTextures(p) => p.as_str(),
        }
    }

    /// Whether this is a parseable XML/XMB asset (vs. a binary blob).
    pub fn is_xml(&self) -> (r: bool)
        ensures
            r == asset_kind_is_xml(self@),
    {
        match self {
            AssetKind::DatabaseTable(_) | AssetKind::Visual(_) | AssetKind::Tactics(_)
            | AssetKind::Physics(_) | AssetKind::Blueprint(_) | AssetKind::Shape(_)
            | AssetKind::Scenario(_) => true,
            _ => false,
        }
    }

    /// Whether this is a binary asset that the engine loads lazily.
    pub fn is_binary(&self) -> (r: bool)
        ensures
            r == asset_kind_is_binary(self@),
    {
        match self {
            AssetKind::Model(_) | AssetKind::Animation(_) | AssetKind::Texture(_)
            | AssetKind::TerrainData(_) | AssetKind::TerrainTextures(_) => true,
            _ => false,
        }
    }
}


// ── Dirty tracking ──────────────────────────────────────────────────────

/// The predicate "is not `key`".
pub open spec fn differs_from(key: Seq<char>) -> spec_fn(Seq<char>) -> bool {
    |k: Seq<char>| k != key
}

/// The abstract state of a [`DirtySet`]: one flag and one sequence of dirty
/// keys per table, both indexed by [`table_index`].
pub struct DirtyModel {
    pub flags: Seq<bool>,
    pub keys: Seq<Seq<Seq<char>>>,
}

impl DirtyModel {
    /// The state of a fresh set: nothing is dirty.
    pub open spec fn clean() -> DirtyModel {
        DirtyModel {
            flags: Seq::new(20, |i: int| false),
            keys: Seq::new(20, |i: int| Seq::<Seq<char>>::empty()),
        }
    }

    /// Whether a table is flagged dirty.
    pub open spec fn flag(self, t: TableId) -> bool {
        self.flags[table_index(t)]
    }

    /// The dirty keys recorded for a table, in the order they were marked.
    pub open spec fn keys_of(self, t: TableId) -> Seq<Seq<char>> {
        self.keys[table_index(t)]
    }

    /// The flagged tables in canonical order.
    pub open spec fn dirty_tables(self) -> Seq<TableId> {
        all_tables_spec().filter(|t: TableId| self.flag(t))
    }

    /// The state after marking `key` dirty in table `t`: the table is
    /// flagged, and for a per-file table the key is recorded (once).
    pub open spec fn mark_key(self, t: TableId, key: Seq<char>) -> DirtyModel {
        let i = table_index(t);
        DirtyModel {
            flags: self.flags.update(i, true),
            keys: if is_per_file(t) && !self.keys[i].contains(key) {
                self.keys.update(i, self.keys[i].push(key))
            } else {
                self.keys
            },
        }
    }

    /// The state after setting the table-level flag of `t` to `value`.
    pub open spec fn set_flag(self, t: TableId, value: bool) -> DirtyModel {
        DirtyModel { flags: self.flags.update(table_index(t), value), keys: self.keys }
    }

    /// The state after clearing one key of a per-file table: the key is
    /// forgotten, and the table flag drops once the last recorded key is
    /// gone. A flag set with no recorded key means the whole table was
    /// dirtied, and it stays set. Other tables, and tables without per-file
    /// keys, are unaffected.
    pub open spec fn clear_key(self, t: TableId, key: Seq<char>) -> DirtyModel {
        let i = table_index(t);
        if !is_per_file(t) {
            self
        } else {
            let rest = self.keys[i].filter(differs_from(key));
            DirtyModel {
                flags: if self.keys[i].len() > 0 && rest.len() == 0 {
                    self.flags.update(i, false)
                } else {
                    self.flags
                },
                keys: self.keys.update(i, rest),
            }
        }
    }

    /// Shape invariant: one flag and one key list per table, keys only for
    /// per-file tables, and no key recorded twice.
    pub open spec fn wf(self) -> bool {
        &&& self.flags.len() == 20
        &&& self.keys.len() == 20
        &&& forall|t: TableId| !is_per_file(t) ==> #[trigger] self.keys_of(t).len() == 0
        &&& forall|i: int| 0 <= i < 20 ==> #[trigger] self.keys[i].no_duplicates()
    }
}

/// Tracks which tables have been modified.
///
/// For per-file tables (visuals, tactics, physics, models, animations,
/// textures) it also tracks which specific keys are dirty, so that a save can
/// write only the changed files instead of the entire table.
pub struct DirtySet {
    flags: Vec<bool>,
    dirty_visuals: Vec<String>,
    dirty_tactics: Vec<String>,
    dirty_physics: Vec<String>,
    dirty_models: Vec<String>,
    dirty_animations: Vec<String>,
    dirty_textures: Vec<String>,
}

impl View for DirtySet {
    type V = DirtyModel;

    closed spec fn view(&self) -> DirtyModel {
        DirtyModel {
            flags: self.flags@,
            keys: Seq::new(
                20,
                |i: int|
                    if i == 11 {
                        string_views(self.dirty_visuals@)
                    } else if i == 12 {
                        string_views(self.dirty_tactics@)
                    } else if i == 13 {
                        string_views(self.dirty_physics@)
                    } else if i == 17 {
                        string_views(self.dirty_models@)
                    } else if i == 18 {
                        string_views(self.dirty_animations@)
                    } else if i == 19 {
                        string_views(self.dirty_textures@)
                    } else {
                        Seq::empty()
                    },
            ),
        }
    }
}

/// Appends `key` unless it is already present.
fn list_add(list: &mut Vec<String>, key: String)
    requires
        string_views(old(list)@).no_duplicates(),
    ensures
        string_views(final(list)@) == if string_views(old(list)@).contains(key@) {
            string_views(old(list)@)
        } else {
            string_views(old(list)@).push(key@)
        },
        string_views(final(list)@).no_duplicates(),
{
    if !list_contains(list, key.as_str()) {
        let ghost before = string_views(list@);
        list.push(key);
        assert(string_views(list@) =~= before.push(key@));
    }
}

/// Removes `key` from the list.
fn list_remove(list: &mut Vec<String>, key: &str)
    requires
        string_views(old(list)@).no_duplicates(),
    ensures
        string_views(final(list)@) == string_views(old(list)@).filter(differs_from(key@)),
        string_views(final(list)@).no_duplicates(),
{
    let ghost before = string_views(list@);
    let mut kept: Vec<String> = Vec::new();
    let mut i: usize = 0;
    while i < list.len()
        invariant
            i <= list.len(),
            before == string_views(list@),
            before.no_duplicates(),
            string_views(kept@) == before.take(i as int).filter(differs_from(key@)),
        decreases list.len() - i,
    {
        let ghost prev = string_views(kept@);
        let keep = !chars_eq_str(chars_of(list[i].as_str()).as_slice(), key);
        if keep {
            let c = copy_string(list[i].as_str());
            kept.push(c);
            assert(string_views(kept@) =~= prev.push(before[i as int]));
        } else {
            assert(string_views(kept@) =~= prev);
        }
        assert(before.take(i + 1).drop_last() =~= before.take(i as int));
        assert(before.take(i + 1).last() == before[i as int]);
        reveal_with_fuel(Seq::filter, 1);
        i = i + 1;
    }
    assert(before.take(before.len() as int) =~= before);
    proof {
        lemma_filter_no_duplicates(before, key@);
        assert(string_views(kept@).no_duplicates());
    }
    *list = kept;
}

/// Filtering keeps a sequence free of duplicates.
proof fn lemma_filter_no_duplicates(s: Seq<Seq<char>>, key: Seq<char>)
    requires
        s.no_duplicates(),
    ensures
        s.filter(differs_from(key)).no_duplicates(),
    decreases s.len(),
{
    reveal_with_fuel(Seq::filter, 1);
    if s.len() > 0 {
        let init = s.drop_last();
        assert(init.no_duplicates());
        lemma_filter_no_duplicates(init, key);
        let f = init.filter(differs_from(key));
        if s.last() != key {
            assert(!f.contains(s.last())) by {
                if f.contains(s.last()) {
                    init.lemma_filter_contains_rev(differs_from(key), s.last());
                    let m = choose|m: int| 0 <= m < init.len() && init[m] == s.last();
                    assert(s[m] == s[s.len() - 1]);
                }
            }
        }
    }
}

/// A copy of every string in the list.
fn copy_list(list: &Vec<String>) -> (r: Vec<String>)
    ensures
        string_views(r@) == string_views(list@),
{
    let mut r: Vec<String> = Vec::new();
    let mut i: usize = 0;
    while i < list.len()
        invariant
            i <= list.len(),
            string_views(r@) == string_views(list@).take(i as int),
        decreases list.len() - i,
    {
        let ghost prev = string_views(r@);
        let c = copy_string(list[i].as_str());
        r.push(c);
        assert(string_views(r@) =~= prev.push(list@[i as int]@));
        assert(string_views(list@).take(i + 1) =~= string_views(list@).take(i as int).push(
            list@[i as int]@,
        ));
        i = i + 1;
    }
    assert(string_views(list@).take(list@.len() as int) =~= string_views(list@));
    r
}

impl DirtySet {
    /// How the view is built from the fields.
    proof fn lemma_view(&self)
        ensures
            self@.flags == self.flags@,
            self@.keys.len() == 20,
            self@.keys[11] == string_views(self.dirty_visuals@),
            self@.keys[12] == string_views(self.dirty_tactics@),
            self@.keys[13] == string_views(self.dirty_physics@),
            self@.keys[17] == string_views(self.dirty_models@),
            self@.keys[18] == string_views(self.dirty_animations@),
            self@.keys[19] == string_views(self.dirty_textures@),
            forall|i: int|
                0 <= i < 20 && i != 11 && i != 12 && i != 13 && i != 17 && i != 18 && i != 19
                    ==> self@.keys[i] == Seq::<Seq<char>>::empty(),
    {
    }

    /// A set in which nothing is dirty.
    pub fn new() -> (r: DirtySet)
        ensures
            r@ == DirtyModel::clean(),
            r@.wf(),
    {
        let mut flags: Vec<bool> = Vec::new();
        let mut i: usize = 0;
        while i < 20
            invariant
                i <= 20,
                flags@ == Seq::new(i as nat, |j: int| false),
            decreases 20 - i,
        {
            flags.push(false);
            i = i + 1;
            assert(flags@ =~= Seq::new(i as nat, |j: int| false));
        }
        let r = DirtySet {
            flags,
            dirty_visuals: Vec::new(),
            dirty_tactics: Vec::new(),
            dirty_physics: Vec::new(),
            dirty_models: Vec::new(),
            dirty_animations: Vec::new(),
            dirty_textures: Vec::new(),
        };
        assert(r@.keys =~~= DirtyModel::clean().keys);
        assert(r@.flags =~= DirtyModel::clean().flags);
        r
    }

    /// Whether table `t` is flagged dirty.
    pub fn is_dirty(&self, table: TableId) -> (r: bool)
        requires
            self@.wf(),
        ensures
            r == self@.flag(table),
    {
        self.flags[table.index()]
    }

    /// Whether any table is flagged dirty.
    pub fn is_any_dirty(&self) -> (r: bool)
        requires
            self@.wf(),
        ensures
            r == exists|t: TableId| #[trigger] self@.flag(t),
            r == (self@.dirty_tables().len() > 0),
    {
        let tables = self.dirty_tables();
        proof {
            self.lemma_dirty_tables_complete();
        }
        tables.len() > 0
    }

    /// The flagged tables, in canonical order.
    pub fn dirty_tables(&self) -> (r: Vec<TableId>)
        requires
            self@.wf(),
        ensures
            r@ == self@.dirty_tables(),
    {
        let all = TableId::all();
        let mut r: Vec<TableId> = Vec::new();
        let mut i: usize = 0;
        while i < all.len()
            invariant
                i <= all.len(),
                all@ == all_tables_spec(),
                self@.wf(),
                r@ == all_tables_spec().take(i as int).filter(|t: TableId| self@.flag(t)),
            decreases all.len() - i,
        {
            let t = all[i];
            if self.is_dirty(t) {
                r.push(t);
            }
            assert(all_tables_spec().take(i + 1).drop_last() =~= all_tables_spec().take(i as int));
            assert(all_tables_spec().take(i + 1).last() == t);
            reveal_with_fuel(Seq::filter, 1);
            i = i + 1;
        }
        assert(all_tables_spec().take(20) =~= all_tables_spec());
        r
    }

    /// A table is flagged exactly when it is among the dirty tables.
    proof fn lemma_dirty_tables_complete(&self)
        requires
            self@.wf(),
        ensures
            (exists|t: TableId| #[trigger] self@.flag(t)) == (self@.dirty_tables().len() > 0),
    {
        let f = |t: TableId| self@.flag(t);
        if exists|t: TableId| #[trigger] self@.flag(t) {
            let t = choose|t: TableId| #[trigger] self@.flag(t);
            lemma_table_in_all(t);
            let j = choose|j: int| 0 <= j < 20 && all_tables_spec()[j] == t;
            assert(all_tables_spec().filter(f).contains(t));
        }
        if self@.dirty_tables().len() > 0 {
            assert(self@.flag(self@.dirty_tables()[0]));
        }
    }

    /// The dirty keys recorded for a per-file table (empty for other tables).
    ///
    /// When the table-level flag is set but no key is recorded, the whole
    /// table was dirtied and every entry should be saved.
    pub fn dirty_keys(&self, table: TableId) -> (r: Vec<String>)
        requires
            self@.wf(),
        ensures
            string_views(r@) == self@.keys_of(table),
    {
        match table {
            TableId::Visuals => copy_list(&self.dirty_visuals),
            TableId::Tactics => copy_list(&self.dirty_tactics),
            TableId::Physics => copy_list(&self.dirty_physics),
            TableId::Models => copy_list(&self.dirty_models),
            TableId::Animations => copy_list(&self.dirty_animations),
            TableId::Textures => copy_list(&self.dirty_textures),
            _ => {
                let r: Vec<String> = Vec::new();
                assert(string_views(r@) =~= Seq::<Seq<char>>::empty());
                r
            },
        }
    }

    /// Mark a specific key dirty within a per-file table; also sets the
    /// table-level flag. For other tables only the flag is set.
    pub fn mark_key(&mut self, table: TableId, key: String)
        requires
            old(self)@.wf(),
        ensures
            final(self)@.wf(),
            final(self)@ == old(self)@.mark_key(table, key@),
    {
        proof {
            self.lemma_view();
        }
        let ghost before = self@;
        let i = table.index();
        self.flags.set(i, true);
        match table {
            TableId::Visuals => list_add(&mut self.dirty_visuals, key),
            TableId::Tactics => list_add(&mut self.dirty_tactics, key),
            TableId::Physics => list_add(&mut self.dirty_physics, key),
            TableId::Models => list_add(&mut self.dirty_models, key),
            TableId::Animations => list_add(&mut self.dirty_animations, key),
            TableId::Textures => list_add(&mut self.dirty_textures, key),
            _ => {},
        }
        assert(self@.flags =~= before.mark_key(table, key@).flags);
        assert(self@.keys =~= before.mark_key(table, key@).keys);
    }

    /// Set the table-level flag of `table` to `value`, leaving keys alone.
    pub fn set_flag(&mut self, table: TableId, value: bool)
        requires
            old(self)@.wf(),
        ensures
            final(self)@.wf(),
            final(self)@ == old(self)@.set_flag(table, value),
    {
        proof {
            self.lemma_view();
        }
        let ghost before = self@;
        self.flags.set(table.index(), value);
        assert(self@.flags =~= before.set_flag(table, value).flags);
        assert(self@.keys =~= before.set_flag(table, value).keys);
    }

    /// Forget every flag and key.
    pub fn clear(&mut self)
        requires
            old(self)@.wf(),
        ensures
            final(self)@.wf(),
            final(self)@ == DirtyModel::clean(),
    {
        let mut i: usize = 0;
        while i < 20
            invariant
                i <= 20,
                self.flags@.len() == 20,
                forall|j: int| 0 <= j < i ==> !self.flags@[j],
            decreases 20 - i,
        {
            self.flags.set(i, false);
            i = i + 1;
        }
        self.dirty_visuals.clear();
        self.dirty_tactics.clear();
        self.dirty_physics.clear();
        self.dirty_models.clear();
        self.dirty_animations.clear();
        self.dirty_textures.clear();
        assert(self@.flags =~= DirtyModel::clean().flags);
        assert(self@.keys =~~= DirtyModel::clean().keys);
    }

    /// Clear dirty state for a single per-file key; when the last recorded
    /// key of that table goes, the table-level flag is cleared too. A table
    /// dirtied as a whole (flag set, no key recorded) stays dirty.
    pub fn clear_key(&mut self, table: TableId, key: &str)
        requires
            old(self)@.wf(),
        ensures
            final(self)@.wf(),
            final(self)@ == old(self)@.clear_key(table, key@),
    {
        proof {
            self.lemma_view();
        }
        let ghost before = self@;
        if !table.is_per_file() {
            return;
        }
        let empty = match table {
            TableId::Visuals => {
                let had = self.dirty_visuals.len() > 0;
                list_remove(&mut self.dirty_visuals, key);
                had && self.dirty_visuals.len() == 0
            },
            TableId::Tactics => {
                let had = self.dirty_tactics.len() > 0;
                list_remove(&mut self.dirty_tactics, key);
                had && self.dirty_tactics.len() == 0
            },
            TableId::Physics => {
                let had = self.dirty_physics.len() > 0;
                list_remove(&mut self.dirty_physics, key);
                had && self.dirty_physics.len() == 0
            },
            TableId::Models => {
                let had = self.dirty_models.len() > 0;
                list_remove(&mut self.dirty_models, key);
                had && self.dirty_models.len() == 0
            },
            TableId::Animations => {
                let had = self.dirty_animations.len() > 0;
                list_remove(&mut self.dirty_animations, key);
                had && self.dirty_animations.len() == 0
            },
            _ => {
                let had = self.dirty_textures.len() > 0;
                list_remove(&mut self.dirty_textures, key);
                had && self.dirty_textures.len() == 0
            },
        };
        if empty {
            self.flags.set(table.index(), false);
        }
        assert(self@.flags =~= before.clear_key(table, key@).flags);
        assert(self@.keys =~= before.clear_key(table, key@).keys);
    }
}

impl Default for DirtySet {
    fn default() -> (r: DirtySet)
        ensures
            r@ == DirtyModel::clean(),
            r@.wf(),
    {
        DirtySet::new()
    }
}

/// Every table occurs in the canonical table list, at its index.
pub proof fn lemma_table_in_all(t: TableId)
    ensures
        all_tables_spec()[table_index(t)] == t,
        0 <= table_index(t) < 20,
        all_tables_spec().len() == 20,
{
}


// ── Guards ──────────────────────────────────────────────────────────────

/// Mutable access to a whole table.
///
/// Creating the guard marks the owning table dirty: whatever is done through
/// it, the table counts as modified afterwards, even if nothing changed.
pub struct DirtyGuard<'a, T> {
    /// The guarded data.
    pub data: &'a mut T,
}

impl<'a, T> DirtyGuard<'a, T> {
    /// The current value of the guarded data.
    pub open spec fn value(&self) -> T {
        *self.data
    }

    /// Wraps `data`, marking `table` dirty in `dirty`.
    pub fn new(data: &'a mut T, dirty: &mut DirtySet, table: TableId) -> (r: Self)
        requires
            old(dirty)@.wf(),
        ensures
            final(dirty)@ == old(dirty)@.set_flag(table, true),
            final(dirty)@.wf(),
            *r.data == *old(data),
            *final(data) == *final(r.data),
    {
        dirty.set_flag(table, true);
        DirtyGuard { data }
    }

    /// The guarded data.
    pub fn get(&self) -> (r: &T)
        ensures
            *r == self.value(),
    {
        &*self.data
    }

    /// Mutable access to the guarded data.
    pub fn get_mut(&mut self) -> (r: &mut T)
        ensures
            *r == old(self).value(),
            *final(self).data == *final(r),
    {
        &mut *self.data
    }
}

/// Mutable access to one entry of a per-file table.
///
/// Creating the guard marks the table flag and records the key, so that a
/// save writes only that one file.
pub struct KeyDirtyGuard<'a, T> {
    /// The guarded data.
    pub data: &'a mut T,
}

impl<'a, T> KeyDirtyGuard<'a, T> {
    /// The current value of the guarded data.
    pub open spec fn value(&self) -> T {
        *self.data
    }

    /// Wraps `data`, marking `key` of `table` dirty in `dirty`.
    pub fn new(data: &'a mut T, dirty: &mut DirtySet, table: TableId, key: String) -> (r: Self)
        requires
            old(dirty)@.wf(),
        ensures
            final(dirty)@ == old(dirty)@.mark_key(table, key@),
            final(dirty)@.wf(),
            *r.data == *old(data),
            *final(data) == *final(r.data),
    {
        dirty.mark_key(table, key);
        KeyDirtyGuard { data }
    }

    /// The guarded data.
    pub fn get(&self) -> (r: &T)
        ensures
            *r == self.value(),
    {
        &*self.data
    }

    /// Mutable access to the guarded data.
    pub fn get_mut(&mut self) -> (r: &mut T)
        ensures
            *r == old(self).value(),
            *final(self).data == *final(r),
    {
        &mut *self.data
    }
}

// ── Laws ────────────────────────────────────────────────────────────────

/// A path with no uppercase ASCII letter, no `/` and no `.xmb` ending is
/// already canonical.
proof fn lemma_canonical_fixed(p: Seq<char>)
    requires
        forall|i: int| 0 <= i < p.len() ==> !('A' <= #[trigger] p[i] && p[i] <= 'Z') && p[i] != '/',
        !has_suffix(p, ".xmb"@),
    ensures
        canonical_game_path(p) == p,
{
    assert(lower_ascii(p) =~= p);
    assert(replace_char(lower_ascii(p), '/', '\\') =~= p);
}

/// Reading a table's well-known game path back gives the same table: for
/// every table that has a game path, `TableId::from_game_path` applied to
/// `TableId::game_path` yields that table.
pub proof fn law_table_game_path_round_trip(t: TableId)
    requires
        table_game_path(t) is Some,
    ensures
        table_for_game_path(table_game_path(t)->0) == Some(t),
{
    reveal_strlit(".xmb");
    reveal_strlit("data\\objects.xml");
    reveal_strlit("data\\squads.xml");
    reveal_strlit("data\\techs.xml");
    reveal_strlit("data\\abilities.xml");
    reveal_strlit("data\\powers.xml");
    reveal_strlit("data\\civs.xml");
    reveal_strlit("data\\leaders.xml");
    reveal_strlit("data\\weapontypes.xml");
    reveal_strlit("data\\damagetypes.xml");
    reveal_strlit("data\\gamedata.xml");
    let p = table_game_path(t)->0;
    assert(p[p.len() - 1] == 'l');
    assert(!has_suffix(p, ".xmb"@)) by {
        if has_suffix(p, ".xmb"@) {
            assert(p.subrange(p.len() - 4, p.len() as int)[3] == 'b');
        }
    }
    lemma_canonical_fixed(p);
    let o = "data\\objects.xml"@;
    let sq = "data\\squads.xml"@;
    let te = "data\\techs.xml"@;
    let ab = "data\\abilities.xml"@;
    let po = "data\\powers.xml"@;
    let ci = "data\\civs.xml"@;
    let le = "data\\leaders.xml"@;
    let we = "data\\weapontypes.xml"@;
    let da = "data\\damagetypes.xml"@;
    let ga = "data\\gamedata.xml"@;
    assert(o.len() == 16 && o[5] == 'o');
    assert(sq.len() == 15 && sq[5] == 's');
    assert(te.len() == 14);
    assert(ab.len() == 18);
    assert(po.len() == 15 && po[5] == 'p');
    assert(ci.len() == 13);
    assert(le.len() == 16 && le[5] == 'l');
    assert(we.len() == 20 && we[5] == 'w');
    assert(da.len() == 20 && da[5] == 'd');
    assert(ga.len() == 17);
    match t {
        TableId::Squads => { assert(p != o); },
        TableId::Techs => { assert(p != o && p != sq); },
        TableId::Abilities => { assert(p != o && p != sq && p != te); },
        TableId::Powers => { assert(p != o && p != sq && p != te && p != ab); },
        TableId::Civs => { assert(p != o && p != sq && p != te && p != ab && p != po); },
        TableId::Leaders => {
            assert(p != o && p != sq && p != te && p != ab && p != po && p != ci);
        },
        TableId::WeaponTypes => {
            assert(p != o && p != sq && p != te && p != ab && p != po && p != ci && p != le);
        },
        TableId::DamageTypes => {
            assert(p != o && p != sq && p != te && p != ab && p != po && p != ci && p != le
                && p != we);
        },
        TableId::GameData => {
            assert(p != o && p != sq && p != te && p != ab && p != po && p != ci && p != le
                && p != we && p != da);
        },
        _ => {},
    }
}

/// A canonical game path has no uppercase ASCII letter and no `/`; when it
/// does not itself end in `.xmb`, bringing it to canonical form again leaves
/// it unchanged.
proof fn lemma_canonical_idempotent(path: Seq<char>)
    requires
        !has_suffix(canonical_game_path(path), ".xmb"@),
    ensures
        canonical_game_path(canonical_game_path(path)) == canonical_game_path(path),
{
    let r = replace_char(lower_ascii(path), '/', '\\');
    let q = canonical_game_path(path);
    assert forall|i: int| 0 <= i < q.len() implies !('A' <= #[trigger] q[i] && q[i] <= 'Z') && q[i] != '/' by {
        assert(q[i] == r[i]);
        let c = path[i];
        if 'A' <= c && c <= 'Z' {
            assert(lower_ascii_char(c) == ((c as u32) + 32) as char);
        }
    }
    lemma_canonical_fixed(q);
}

/// Reading an asset category's game path back gives the same category: for
/// a game path that classifies (and whose canonical form does not itself end
/// in `.xmb`, which would be stripped a second time), the category's game
/// path classifies as that category again. That game path is the table's
/// well-known path for a database table, and the canonical form of the
/// original path (ASCII lowercase, `/` turned into `\`, one trailing `.xmb`
/// removed) for every other category.
pub proof fn law_asset_kind_game_path_round_trip(path: Seq<char>)
    requires
        asset_kind_for_game_path(path) is Some,
        !has_suffix(canonical_game_path(path), ".xmb"@),
    ensures
        ({
            let k = asset_kind_for_game_path(path)->0;
            &&& asset_kind_for_game_path(asset_kind_game_path(k)) == Some(k)
            &&& match k {
                AssetKindModel::DatabaseTable(t) => table_game_path(t) == Some(asset_kind_game_path(k)),
                _ => asset_kind_game_path(k) == canonical_game_path(path),
            }
        }),
{
    let q = canonical_game_path(path);
    lemma_canonical_idempotent(path);
    let k = asset_kind_for_game_path(path)->0;
    match k {
        AssetKindModel::DatabaseTable(t) => {
            assert(table_game_path(t) is Some) by {
                assert(table_for_game_path(q) == Some(t));
                assert(t != TableId::Scenario);
            }
            law_table_game_path_round_trip(t);
            let g = table_game_path(t)->0;
            reveal_strlit(".xmb");
            reveal_strlit("data\\objects.xml");
            reveal_strlit("data\\squads.xml");
            reveal_strlit("data\\techs.xml");
            reveal_strlit("data\\abilities.xml");
            reveal_strlit("data\\powers.xml");
            reveal_strlit("data\\civs.xml");
            reveal_strlit("data\\leaders.xml");
            reveal_strlit("data\\weapontypes.xml");
            reveal_strlit("data\\damagetypes.xml");
            reveal_strlit("data\\gamedata.xml");
            assert(g[g.len() - 1] == 'l');
            assert(!has_suffix(g, ".xmb"@)) by {
                if has_suffix(g, ".xmb"@) {
                    assert(g.subrange(g.len() - 4, g.len() as int)[3] == 'b');
                }
            }
            assert forall|i: int| 0 <= i < g.len() implies !('A' <= #[trigger] g[i] && g[i] <= 'Z') && g[i] != '/' by {}
            lemma_canonical_fixed(g);
        },
        _ => {},
    }
}

/// Every asset category is either parseable XML or a binary blob, never
/// both.
pub proof fn law_asset_kind_xml_or_binary(k: AssetKindModel)
    ensures
        asset_kind_is_xml(k) != asset_kind_is_binary(k),
{
}

/// A fresh (or cleared) set has no dirty table and no dirty key.
pub proof fn law_clean_set_is_clean()
    ensures
        DirtyModel::clean().wf(),
        DirtyModel::clean().dirty_tables().len() == 0,
        forall|t: TableId| !#[trigger] DirtyModel::clean().flag(t),
        forall|t: TableId| #[trigger] DirtyModel::clean().keys_of(t).len() == 0,
{
    let m = DirtyModel::clean();
    assert forall|t: TableId| !#[trigger] m.flag(t) by {
        lemma_table_in_all(t);
    }
    assert(m.dirty_tables().len() == 0) by {
        if m.dirty_tables().len() > 0 {
            assert(all_tables_spec().filter(|t: TableId| m.flag(t)).len() > 0);
            let t = m.dirty_tables()[0];
            assert(m.flag(t));
            lemma_table_in_all(t);
        }
    }
    assert forall|t: TableId| #[trigger] m.keys_of(t).len() == 0 by {
        lemma_table_in_all(t);
    }
}

/// Distinct tables sit at distinct positions.
proof fn lemma_table_index_injective(t: TableId, u: TableId)
    ensures
        t != u ==> table_index(t) != table_index(u),
{
}

/// Marking a key dirty flags its table, records the key for a per-file
/// table, and leaves every other table as it was.
pub proof fn law_mark_key_effect(m: DirtyModel, t: TableId, key: Seq<char>, u: TableId)
    requires
        m.wf(),
    ensures
        m.mark_key(t, key).wf(),
        m.mark_key(t, key).flag(t),
        is_per_file(t) ==> m.mark_key(t, key).keys_of(t).contains(key),
        u != t ==> m.mark_key(t, key).flag(u) == m.flag(u) && m.mark_key(t, key).keys_of(u)
            == m.keys_of(u),
{
    lemma_table_in_all(t);
    lemma_table_in_all(u);
    lemma_table_index_injective(t, u);
    let n = m.mark_key(t, key);
    let i = table_index(t);
    if is_per_file(t) && !m.keys[i].contains(key) {
        assert(n.keys[i] == m.keys[i].push(key));
        assert(n.keys[i][m.keys[i].len() as int] == key);
        assert forall|j: int| 0 <= j < 20 implies #[trigger] n.keys[j].no_duplicates() by {
            if j == i {
                assert(m.keys[i].no_duplicates());
            }
        }
    }
    assert forall|v: TableId| !is_per_file(v) implies #[trigger] n.keys_of(v).len() == 0 by {
        lemma_table_in_all(v);
        lemma_table_index_injective(t, v);
        assert(m.keys_of(v).len() == 0);
    }
}

/// Marking the same key twice is the same as marking it once.
pub proof fn law_mark_key_idempotent(m: DirtyModel, t: TableId, key: Seq<char>)
    requires
        m.wf(),
    ensures
        m.mark_key(t, key).mark_key(t, key) == m.mark_key(t, key),
{
    lemma_table_in_all(t);
    let n = m.mark_key(t, key);
    let i = table_index(t);
    if is_per_file(t) && !m.keys[i].contains(key) {
        assert(n.keys[i][m.keys[i].len() as int] == key);
        assert(n.keys[i].contains(key));
    }
    assert(n.mark_key(t, key).flags =~= n.flags);
    assert(n.mark_key(t, key).keys =~= n.keys);
}

/// On a clean per-file table, clearing the key that was just marked undoes
/// the mark entirely.
pub proof fn law_clear_key_undoes_mark_key(m: DirtyModel, t: TableId, key: Seq<char>)
    requires
        m.wf(),
        is_per_file(t),
        !m.flag(t),
        m.keys_of(t).len() == 0,
    ensures
        m.mark_key(t, key).clear_key(t, key) == m,
{
    lemma_table_in_all(t);
    let i = table_index(t);
    let n = m.mark_key(t, key);
    assert(n.keys[i] =~= seq![key]);
    reveal_with_fuel(Seq::filter, 2);
    assert(seq![key].drop_last() =~= Seq::<Seq<char>>::empty());
    assert(n.keys[i].filter(differs_from(key)) =~= Seq::<Seq<char>>::empty());
    assert(m.keys[i] =~= Seq::<Seq<char>>::empty());
    assert(n.clear_key(t, key).flags =~= m.flags);
    assert(n.clear_key(t, key).keys =~~= m.keys);
}

/// Clearing a key never loses a whole-table edit: when a per-file table is
/// flagged with no key recorded, it stays flagged (and keyless), and every
/// other table, including every table without per-file keys, keeps its
/// state.
pub proof fn law_clear_key_keeps_whole_table_edit(m: DirtyModel, t: TableId, key: Seq<char>, u: TableId)
    requires
        m.wf(),
        m.flag(t),
        m.keys_of(t).len() == 0,
        u != t,
    ensures
        m.clear_key(t, key).flag(t),
        m.clear_key(t, key).keys_of(t).len() == 0,
        m.clear_key(t, key).flag(u) == m.flag(u),
        m.clear_key(t, key).keys_of(u) == m.keys_of(u),
{
    lemma_table_in_all(t);
    lemma_table_in_all(u);
    let i = table_index(t);
    if is_per_file(t) {
        assert(m.keys[i] =~= Seq::<Seq<char>>::empty());
        assert(m.keys[i].filter(differs_from(key)) =~= Seq::<Seq<char>>::empty());
    }
}

/// A table is among the dirty tables exactly when its flag is set.
pub proof fn law_dirty_tables_are_flagged(m: DirtyModel, t: TableId)
    ensures
        m.dirty_tables().contains(t) == m.flag(t),
{
    lemma_table_in_all(t);
    if m.flag(t) {
        all_tables_spec().lemma_filter_contains(|u: TableId| m.flag(u), table_index(t));
    }
    if m.dirty_tables().contains(t) {
        let j = choose|j: int| 0 <= j < m.dirty_tables().len() && m.dirty_tables()[j] == t;
        assert(m.flag(m.dirty_tables()[j]));
    }
}

} // verus!
