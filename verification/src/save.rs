//! What a save of an edited world writes.
//!
//! Saving serializes only the dirty tables and files to the override
//! directory. [`save_plan`] decides, from the dirty set and from what the
//! world holds, which documents are written and where: whole tables at their
//! fixed game paths, and for the per-file tables each dirty entry (or every
//! entry, when the whole table was dirtied) at its own path. Serializing and
//! writing each step is left to the owner of the world.
use vstd::prelude::*;

use vstd::seq_lib::group_filter_ensures;

use crate::edit::{table_game_path, DirtyModel, DirtySet, TableId};
use crate::text::{contains_string, string_views};

verus! {

broadcast use group_filter_ensures;

/// One file to write.
#[derive(Debug, Clone, PartialEq, Eq)]
pub struct SaveStep {
    /// The table the file belongs to.
    pub table: TableId,
    /// The entry of a per-file table (object name or file path); none for a
    /// whole table.
    pub key: Option<String>,
    /// Where the file goes.
    pub game_path: String,
    /// Written as a packed document (`true`) or as raw bytes (`false`).
    pub packed: bool,
}

/// The mathematical content of a [`SaveStep`].
pub struct SaveStepModel {
    pub table: TableId,
    pub key: Option<Seq<char>>,
    pub game_path: Seq<char>,
    pub packed: bool,
}

impl View for SaveStep {
    type V = SaveStepModel;

    open spec fn view(&self) -> SaveStepModel {
        SaveStepModel {
            table: self.table,
            key: match self.key {
                Some(k) => Some(k@),
                None => None,
            },
            game_path: self.game_path@,
            packed: self.packed,
        }
    }
}

/// A loaded per-object entry and the path its object's assets give it.
#[derive(Debug, Clone, PartialEq, Eq)]
pub struct KeyedPath {
    pub key: String,
    pub path: Option<String>,
}

/// A loaded physics chain and the paths of its parts that are written: the
/// physics file, and the blueprint and shape when both the chain holds them
/// and the object's assets name their paths.
#[derive(Debug, Clone, PartialEq, Eq)]
pub struct PhysicsPaths {
    pub key: String,
    pub physics: Option<String>,
    pub blueprint: Option<String>,
    pub shape: Option<String>,
}

/// What a save reads of a world.
#[derive(Debug, Clone, PartialEq, Eq)]
pub struct SaveInputs {
    /// The game data document is loaded.
    pub game_data_loaded: bool,
    /// The scene path, when a scenario and its scene data are loaded.
    pub scenario_path: Option<String>,
    /// The terrain heightmap path, when terrain data is loaded and the
    /// scenario names one.
    pub terrain_data_path: Option<String>,
    /// The terrain textures path, when terrain textures are loaded and the
    /// scenario names one.
    pub terrain_textures_path: Option<String>,
    /// The string table's path, when one is loaded.
    pub strings_path: Option<String>,
    /// The loaded visuals, in the world's order.
    pub visuals: Vec<KeyedPath>,
    /// The loaded tactics, in the world's order.
    pub tactics: Vec<KeyedPath>,
    /// The loaded physics chains, in the world's order.
    pub physics: Vec<PhysicsPaths>,
    /// The cached models' paths.
    pub models: Vec<String>,
    /// The cached textures' paths.
    pub textures: Vec<String>,
    /// The cached animations' paths.
    pub animations: Vec<String>,
}

/// An entry is saved when no key is recorded (the whole table was dirtied)
/// or when its key is recorded.
pub open spec fn selected(keys: Seq<Seq<char>>, k: Seq<char>) -> bool {
    keys.len() == 0 || keys.contains(k)
}

pub open spec fn step(t: TableId, key: Option<Seq<char>>, path: Seq<char>, packed: bool) -> SaveStepModel {
    SaveStepModel { table: t, key, game_path: path, packed }
}

/// A step at an optional path, keyed or not.
pub open spec fn opt_step(t: TableId, key: Option<Seq<char>>, path: Option<String>, packed: bool) -> Seq<
    SaveStepModel,
> {
    match path {
        Some(p) => seq![step(t, key, p@, packed)],
        None => Seq::empty(),
    }
}

/// The steps of the selected per-object entries that have a path.
pub open spec fn keyed_steps(t: TableId, entries: Seq<KeyedPath>, keys: Seq<Seq<char>>) -> Seq<SaveStepModel>
    decreases entries.len(),
{
    if entries.len() == 0 {
        Seq::empty()
    } else {
        let prev = keyed_steps(t, entries.drop_last(), keys);
        let e = entries.last();
        if selected(keys, e.key@) {
            prev + opt_step(t, Some(e.key@), e.path, true)
        } else {
            prev
        }
    }
}

/// The steps of the selected physics chains: physics, blueprint, shape.
pub open spec fn physics_steps(entries: Seq<PhysicsPaths>, keys: Seq<Seq<char>>) -> Seq<SaveStepModel>
    decreases entries.len(),
{
    if entries.len() == 0 {
        Seq::empty()
    } else {
        let prev = physics_steps(entries.drop_last(), keys);
        let e = entries.last();
        let k = Some(e.key@);
        if selected(keys, e.key@) {
            prev + opt_step(TableId::Physics, k, e.physics, true) + opt_step(TableId::Physics, k, e.blueprint, true)
                + opt_step(TableId::Physics, k, e.shape, true)
        } else {
            prev
        }
    }
}

/// The raw steps of the selected cached files, each at its own path.
pub open spec fn raw_steps(t: TableId, paths: Seq<String>, keys: Seq<Seq<char>>) -> Seq<SaveStepModel>
    decreases paths.len(),
{
    if paths.len() == 0 {
        Seq::empty()
    } else {
        let prev = raw_steps(t, paths.drop_last(), keys);
        let p = paths.last()@;
        if selected(keys, p) {
            prev.push(step(t, Some(p), p, false))
        } else {
            prev
        }
    }
}

/// The steps of one dirty table.
pub open spec fn table_steps(t: TableId, dirty: DirtyModel, inp: SaveInputs) -> Seq<SaveStepModel> {
    match t {
        TableId::GameData => if inp.game_data_loaded {
            seq![step(t, None, table_game_path(t).unwrap(), true)]
        } else {
            Seq::empty()
        },
        TableId::Scenario => opt_step(t, None, inp.scenario_path, true),
        TableId::Visuals => keyed_steps(t, inp.visuals@, dirty.keys_of(t)),
        TableId::Tactics => keyed_steps(t, inp.tactics@, dirty.keys_of(t)),
        TableId::Physics => physics_steps(inp.physics@, dirty.keys_of(t)),
        TableId::TerrainData => opt_step(t, None, inp.terrain_data_path, false),
        TableId::TerrainTextures => opt_step(t, None, inp.terrain_textures_path, false),
        TableId::Strings => opt_step(t, None, inp.strings_path, true),
        TableId::Models => raw_steps(t, inp.models@, dirty.keys_of(t)),
        TableId::Textures => raw_steps(t, inp.textures@, dirty.keys_of(t)),
        TableId::Animations => raw_steps(t, inp.animations@, dirty.keys_of(t)),
        _ => seq![step(t, None, table_game_path(t).unwrap(), true)],
    }
}

/// The steps of the given tables, in order.
pub open spec fn steps_for(tables: Seq<TableId>, dirty: DirtyModel, inp: SaveInputs) -> Seq<SaveStepModel>
    decreases tables.len(),
{
    if tables.len() == 0 {
        Seq::empty()
    } else {
        steps_for(tables.drop_last(), dirty, inp) + table_steps(tables.last(), dirty, inp)
    }
}

/// The steps of a save: those of each dirty table, in table order.
pub open spec fn save_steps(dirty: DirtyModel, inp: SaveInputs) -> Seq<SaveStepModel> {
    steps_for(dirty.dirty_tables(), dirty, inp)
}

/// The models of a list of steps.
pub open spec fn step_models(ss: Seq<SaveStep>) -> Seq<SaveStepModel> {
    ss.map_values(|s: SaveStep| s@)
}

fn push_step(out: &mut Vec<SaveStep>, s: SaveStep)
    ensures
        step_models(final(out)@) == step_models(old(out)@).push(s@),
{
    out.push(s);
    assert(step_models(out@) =~= step_models(old(out)@).push(s@));
}

fn push_opt_step(out: &mut Vec<SaveStep>, t: TableId, key: &Option<String>, path: &Option<String>, packed: bool)
    ensures
        step_models(final(out)@) == step_models(old(out)@) + opt_step(
            t,
            match *key {
                Some(k) => Some(k@),
                None => None,
            },
            *path,
            packed,
        ),
{
    match path {
        Some(p) => {
            push_step(out, SaveStep { table: t, key: key.clone(), game_path: p.clone(), packed });
            proof {
                assert(step_models(out@) =~= step_models(old(out)@) + opt_step(
                    t,
                    match *key {
                        Some(k) => Some(k@),
                        None => None,
                    },
                    *path,
                    packed,
                ));
            }
        },
        None => {
            assert(step_models(out@) =~= step_models(old(out)@) + Seq::<SaveStepModel>::empty());
        },
    }
}

fn is_selected(keys: &Vec<String>, k: &String) -> (r: bool)
    ensures
        r == selected(string_views(keys@), k@),
{
    keys.len() == 0 || contains_string(keys, k)
}

fn add_keyed_steps(out: &mut Vec<SaveStep>, t: TableId, entries: &Vec<KeyedPath>, keys: &Vec<String>)
    ensures
        step_models(final(out)@) == step_models(old(out)@) + keyed_steps(t, entries@, string_views(keys@)),
{
    let ghost start = step_models(out@);
    let ghost kv = string_views(keys@);
    let mut i: usize = 0;
    while i < entries.len()
        invariant
            i <= entries@.len(),
            kv == string_views(keys@),
            step_models(out@) == start + keyed_steps(t, entries@.take(i as int), kv),
        decreases entries@.len() - i,
    {
        let ghost tk = entries@.take(i + 1);
        assert(tk.drop_last() =~= entries@.take(i as int));
        assert(tk.last() == entries@[i as int]);
        let e = &entries[i];
        if is_selected(keys, &e.key) {
            let key = Some(e.key.clone());
            push_opt_step(out, t, &key, &e.path, true);
            assert(step_models(out@) =~= start + keyed_steps(t, tk, kv));
        }
        i = i + 1;
    }
    assert(entries@.take(entries@.len() as int) =~= entries@);
}

fn add_physics_steps(out: &mut Vec<SaveStep>, entries: &Vec<PhysicsPaths>, keys: &Vec<String>)
    ensures
        step_models(final(out)@) == step_models(old(out)@) + physics_steps(entries@, string_views(keys@)),
{
    let ghost start = step_models(out@);
    let ghost kv = string_views(keys@);
    let mut i: usize = 0;
    while i < entries.len()
        invariant
            i <= entries@.len(),
            kv == string_views(keys@),
            step_models(out@) == start + physics_steps(entries@.take(i as int), kv),
        decreases entries@.len() - i,
    {
        let ghost tk = entries@.take(i + 1);
        assert(tk.drop_last() =~= entries@.take(i as int));
        assert(tk.last() == entries@[i as int]);
        let e = &entries[i];
        if is_selected(keys, &e.key) {
            let key = Some(e.key.clone());
            push_opt_step(out, TableId::Physics, &key, &e.physics, true);
            push_opt_step(out, TableId::Physics, &key, &e.blueprint, true);
            push_opt_step(out, TableId::Physics, &key, &e.shape, true);
            assert(step_models(out@) =~= start + physics_steps(tk, kv));
        }
        i = i + 1;
    }
    assert(entries@.take(entries@.len() as int) =~= entries@);
}

fn add_raw_steps(out: &mut Vec<SaveStep>, t: TableId, paths: &Vec<String>, keys: &Vec<String>)
    ensures
        step_models(final(out)@) == step_models(old(out)@) + raw_steps(t, paths@, string_views(keys@)),
{
    let ghost start = step_models(out@);
    let ghost kv = string_views(keys@);
    let mut i: usize = 0;
    while i < paths.len()
        invariant
            i <= paths@.len(),
            kv == string_views(keys@),
            step_models(out@) == start + raw_steps(t, paths@.take(i as int), kv),
        decreases paths@.len() - i,
    {
        let ghost tk = paths@.take(i + 1);
        assert(tk.drop_last() =~= paths@.take(i as int));
        assert(tk.last() == paths@[i as int]);
        let p = &paths[i];
        if is_selected(keys, p) {
            push_step(out, SaveStep { table: t, key: Some(p.clone()), game_path: p.clone(), packed: false });
            assert(step_models(out@) =~= start + raw_steps(t, tk, kv));
        }
        i = i + 1;
    }
    assert(paths@.take(paths@.len() as int) =~= paths@);
}

fn add_table_steps(out: &mut Vec<SaveStep>, t: TableId, dirty: &DirtySet, inp: &SaveInputs)
    requires
        dirty@.wf(),
    ensures
        step_models(final(out)@) == step_models(old(out)@) + table_steps(t, dirty@, *inp),
{
    match t {
        TableId::GameData => {
            if inp.game_data_loaded {
                push_step(out, SaveStep { table: t, key: None, game_path: String::from_str("data\\gamedata.xml"), packed: true });
                assert(step_models(out@) =~= step_models(old(out)@) + table_steps(t, dirty@, *inp));
            } else {
                assert(step_models(out@) =~= step_models(old(out)@) + table_steps(t, dirty@, *inp));
            }
        },
        TableId::Scenario => push_opt_step(out, t, &None, &inp.scenario_path, true),
        TableId::Visuals => {
            let keys = dirty.dirty_keys(t);
            add_keyed_steps(out, t, &inp.visuals, &keys);
        },
        TableId::Tactics => {
            let keys = dirty.dirty_keys(t);
            add_keyed_steps(out, t, &inp.tactics, &keys);
        },
        TableId::Physics => {
            let keys = dirty.dirty_keys(t);
            add_physics_steps(out, &inp.physics, &keys);
        },
        TableId::TerrainData => push_opt_step(out, t, &None, &inp.terrain_data_path, false),
        TableId::TerrainTextures => push_opt_step(out, t, &None, &inp.terrain_textures_path, false),
        TableId::Strings => push_opt_step(out, t, &None, &inp.strings_path, true),
        TableId::Models => {
            let keys = dirty.dirty_keys(t);
            add_raw_steps(out, t, &inp.models, &keys);
        },
        TableId::Textures => {
            let keys = dirty.dirty_keys(t);
            add_raw_steps(out, t, &inp.textures, &keys);
        },
        TableId::Animations => {
            let keys = dirty.dirty_keys(t);
            add_raw_steps(out, t, &inp.animations, &keys);
        },
        _ => {
            let path = match t.game_path() {
                Some(p) => String::from_str(p),
                None => String::new(),
            };
            push_step(out, SaveStep { table: t, key: None, game_path: path, packed: true });
            assert(step_models(out@) =~= step_models(old(out)@) + table_steps(t, dirty@, *inp));
        },
    }
}

/// The files a save writes, in order: for each dirty table in table order,
/// the whole table at its game path (the game data only when loaded, the
/// scenario, terrain and string table only when loaded), or for a per-file
/// table each selected entry at its own path, where an entry is selected
/// when its key is recorded as dirty or no key is recorded at all.
pub fn save_plan(dirty: &DirtySet, inp: &SaveInputs) -> (r: Vec<SaveStep>)
    requires
        dirty@.wf(),
    ensures
        step_models(r@) == save_steps(dirty@, *inp),
{
    let tables = dirty.dirty_tables();
    let ghost ts = dirty@.dirty_tables();
    let mut out: Vec<SaveStep> = Vec::new();
    let mut i: usize = 0;
    assert(step_models(out@) =~= Seq::<SaveStepModel>::empty());
    while i < tables.len()
        invariant
            i <= tables@.len(),
            tables@ == ts,
            ts == dirty@.dirty_tables(),
            dirty@.wf(),
            step_models(out@) == steps_for(ts.take(i as int), dirty@, *inp),
        decreases tables@.len() - i,
    {
        let ghost tk = ts.take(i + 1);
        assert(tk.drop_last() =~= ts.take(i as int));
        assert(tk.last() == tables@[i as int]);
        add_table_steps(&mut out, tables[i], dirty, inp);
        i = i + 1;
    }
    assert(ts.take(ts.len() as int) =~= ts);
    out
}

/// Nothing is saved for a clean world: with no dirty table, a save writes
/// nothing.
pub proof fn law_clean_save_writes_nothing(inp: SaveInputs)
    ensures
        save_steps(DirtyModel::clean(), inp).len() == 0,
{
    let d = DirtyModel::clean();
    let f = d.dirty_tables();
    if f.len() > 0 {
        assert(d.flag(f[0]));
        crate::edit::lemma_table_in_all(f[0]);
    }
    assert(f.len() == 0);
}

/// Every step of the list belongs to table `t`.
pub open spec fn all_of_table(ss: Seq<SaveStepModel>, t: TableId) -> bool {
    forall|i: int| 0 <= i < ss.len() ==> (#[trigger] ss[i]).table == t
}

proof fn lemma_concat_of_table(a: Seq<SaveStepModel>, b: Seq<SaveStepModel>, t: TableId)
    requires
        all_of_table(a, t),
        all_of_table(b, t),
    ensures
        all_of_table(a + b, t),
{
    assert forall|i: int| 0 <= i < (a + b).len() implies (#[trigger] (a + b)[i]).table == t by {
        if i < a.len() {
            assert((a + b)[i] == a[i]);
        } else {
            assert((a + b)[i] == b[i - a.len()]);
        }
    }
}

proof fn lemma_keyed_of_table(t: TableId, entries: Seq<KeyedPath>, keys: Seq<Seq<char>>)
    ensures
        all_of_table(keyed_steps(t, entries, keys), t),
    decreases entries.len(),
{
    if entries.len() > 0 {
        lemma_keyed_of_table(t, entries.drop_last(), keys);
        let e = entries.last();
        lemma_concat_of_table(keyed_steps(t, entries.drop_last(), keys), opt_step(t, Some(e.key@), e.path, true), t);
    }
}

proof fn lemma_physics_of_table(entries: Seq<PhysicsPaths>, keys: Seq<Seq<char>>)
    ensures
        all_of_table(physics_steps(entries, keys), TableId::Physics),
    decreases entries.len(),
{
    if entries.len() > 0 {
        lemma_physics_of_table(entries.drop_last(), keys);
        let e = entries.last();
        let k = Some(e.key@);
        let p = TableId::Physics;
        let a = physics_steps(entries.drop_last(), keys);
        lemma_concat_of_table(a, opt_step(p, k, e.physics, true), p);
        lemma_concat_of_table(a + opt_step(p, k, e.physics, true), opt_step(p, k, e.blueprint, true), p);
        lemma_concat_of_table(
            a + opt_step(p, k, e.physics, true) + opt_step(p, k, e.blueprint, true),
            opt_step(p, k, e.shape, true),
            p,
        );
    }
}

proof fn lemma_raw_of_table(t: TableId, paths: Seq<String>, keys: Seq<Seq<char>>)
    ensures
        all_of_table(raw_steps(t, paths, keys), t),
    decreases paths.len(),
{
    if paths.len() > 0 {
        lemma_raw_of_table(t, paths.drop_last(), keys);
    }
}

proof fn lemma_table_steps_of_table(t: TableId, dirty: DirtyModel, inp: SaveInputs)
    ensures
        all_of_table(table_steps(t, dirty, inp), t),
{
    match t {
        TableId::Visuals => lemma_keyed_of_table(t, inp.visuals@, dirty.keys_of(t)),
        TableId::Tactics => lemma_keyed_of_table(t, inp.tactics@, dirty.keys_of(t)),
        TableId::Physics => lemma_physics_of_table(inp.physics@, dirty.keys_of(t)),
        TableId::Models => lemma_raw_of_table(t, inp.models@, dirty.keys_of(t)),
        TableId::Textures => lemma_raw_of_table(t, inp.textures@, dirty.keys_of(t)),
        TableId::Animations => lemma_raw_of_table(t, inp.animations@, dirty.keys_of(t)),
        _ => {},
    }
}

proof fn lemma_steps_for_tables(tables: Seq<TableId>, dirty: DirtyModel, inp: SaveInputs)
    ensures
        forall|i: int|
            0 <= i < steps_for(tables, dirty, inp).len() ==> tables.contains(
                (#[trigger] steps_for(tables, dirty, inp)[i]).table,
            ),
    decreases tables.len(),
{
    if tables.len() > 0 {
        let t = tables.drop_last();
        lemma_steps_for_tables(t, dirty, inp);
        lemma_table_steps_of_table(tables.last(), dirty, inp);
        let a = steps_for(t, dirty, inp);
        let b = table_steps(tables.last(), dirty, inp);
        assert forall|i: int| 0 <= i < (a + b).len() implies tables.contains((#[trigger] (a + b)[i]).table) by {
            if i < a.len() {
                assert((a + b)[i] == a[i]);
                let j = choose|j: int| 0 <= j < t.len() && t[j] == a[i].table;
                assert(tables[j] == t[j]);
            } else {
                assert((a + b)[i] == b[i - a.len()]);
                assert(tables[tables.len() - 1] == tables.last());
            }
        }
    }
}

/// A save writes only dirty tables: every step belongs to a table whose
/// dirty flag is set.
pub proof fn law_save_writes_only_dirty_tables(dirty: DirtyModel, inp: SaveInputs)
    ensures
        forall|i: int| 0 <= i < save_steps(dirty, inp).len() ==> dirty.flag(#[trigger] save_steps(dirty, inp)[i].table),
{
    lemma_steps_for_tables(dirty.dirty_tables(), dirty, inp);
    assert forall|i: int| 0 <= i < save_steps(dirty, inp).len() implies dirty.flag(
        #[trigger] save_steps(dirty, inp)[i].table,
    ) by {
        let tb = save_steps(dirty, inp)[i].table;
        let j = choose|j: int| 0 <= j < dirty.dirty_tables().len() && dirty.dirty_tables()[j] == tb;
    }
}

// ── Every dirty document is written ─────────────────────────────────────

proof fn lemma_in_concat(a: Seq<SaveStepModel>, b: Seq<SaveStepModel>, x: SaveStepModel)
    ensures
        a.contains(x) ==> (a + b).contains(x),
        b.contains(x) ==> (a + b).contains(x),
{
    if a.contains(x) {
        let w = choose|w: int| 0 <= w < a.len() && a[w] == x;
        assert((a + b)[w] == x);
    }
    if b.contains(x) {
        let w = choose|w: int| 0 <= w < b.len() && b[w] == x;
        assert((a + b)[a.len() + w] == x);
    }
}

proof fn lemma_keyed_contains(t: TableId, entries: Seq<KeyedPath>, keys: Seq<Seq<char>>, j: int)
    requires
        0 <= j < entries.len(),
        entries[j].path is Some,
        selected(keys, entries[j].key@),
    ensures
        keyed_steps(t, entries, keys).contains(step(t, Some(entries[j].key@), entries[j].path->0@, true)),
    decreases entries.len(),
{
    let x = step(t, Some(entries[j].key@), entries[j].path->0@, true);
    let e = entries.last();
    let prev = keyed_steps(t, entries.drop_last(), keys);
    if j == entries.len() - 1 {
        assert(e == entries[j]);
        assert(opt_step(t, Some(e.key@), e.path, true)[0] == x);
        lemma_in_concat(prev, opt_step(t, Some(e.key@), e.path, true), x);
    } else {
        assert(entries.drop_last()[j] == entries[j]);
        lemma_keyed_contains(t, entries.drop_last(), keys, j);
        lemma_in_concat(prev, opt_step(t, Some(e.key@), e.path, true), x);
    }
}

proof fn lemma_raw_contains(t: TableId, paths: Seq<String>, keys: Seq<Seq<char>>, j: int)
    requires
        0 <= j < paths.len(),
        selected(keys, paths[j]@),
    ensures
        raw_steps(t, paths, keys).contains(step(t, Some(paths[j]@), paths[j]@, false)),
    decreases paths.len(),
{
    let x = step(t, Some(paths[j]@), paths[j]@, false);
    let prev = raw_steps(t, paths.drop_last(), keys);
    if j == paths.len() - 1 {
        assert(paths.last() == paths[j]);
        assert(prev.push(x)[prev.len() as int] == x);
    } else {
        assert(paths.drop_last()[j] == paths[j]);
        lemma_raw_contains(t, paths.drop_last(), keys, j);
        if selected(keys, paths.last()@) {
            let w = choose|w: int| 0 <= w < prev.len() && prev[w] == x;
            assert(prev.push(step(t, Some(paths.last()@), paths.last()@, false))[w] == x);
        }
    }
}

/// The steps of one physics chain.
proof fn lemma_chain_steps(prev: Seq<SaveStepModel>, e: PhysicsPaths)
    ensures
        ({
            let k = Some(e.key@);
            let p = TableId::Physics;
            let all = prev + opt_step(p, k, e.physics, true) + opt_step(p, k, e.blueprint, true) + opt_step(
                p,
                k,
                e.shape,
                true,
            );
            &&& e.physics is Some ==> all.contains(step(p, k, e.physics->0@, true))
            &&& e.blueprint is Some ==> all.contains(step(p, k, e.blueprint->0@, true))
            &&& e.shape is Some ==> all.contains(step(p, k, e.shape->0@, true))
            &&& forall|x: SaveStepModel| prev.contains(x) ==> all.contains(x)
        }),
{
    let k = Some(e.key@);
    let p = TableId::Physics;
    let a = opt_step(p, k, e.physics, true);
    let b = opt_step(p, k, e.blueprint, true);
    let c = opt_step(p, k, e.shape, true);
    if e.physics is Some {
        assert(a[0] == step(p, k, e.physics->0@, true));
        lemma_in_concat(prev, a, step(p, k, e.physics->0@, true));
        lemma_in_concat(prev + a, b, step(p, k, e.physics->0@, true));
        lemma_in_concat(prev + a + b, c, step(p, k, e.physics->0@, true));
    }
    if e.blueprint is Some {
        assert(b[0] == step(p, k, e.blueprint->0@, true));
        lemma_in_concat(prev + a, b, step(p, k, e.blueprint->0@, true));
        lemma_in_concat(prev + a + b, c, step(p, k, e.blueprint->0@, true));
    }
    if e.shape is Some {
        assert(c[0] == step(p, k, e.shape->0@, true));
        lemma_in_concat(prev + a + b, c, step(p, k, e.shape->0@, true));
    }
    assert forall|x: SaveStepModel| prev.contains(x) implies (prev + a + b + c).contains(x) by {
        lemma_in_concat(prev, a, x);
        lemma_in_concat(prev + a, b, x);
        lemma_in_concat(prev + a + b, c, x);
    }
}

proof fn lemma_physics_contains(entries: Seq<PhysicsPaths>, keys: Seq<Seq<char>>, j: int)
    requires
        0 <= j < entries.len(),
        selected(keys, entries[j].key@),
    ensures
        ({
            let e = entries[j];
            let k = Some(e.key@);
            let p = TableId::Physics;
            let all = physics_steps(entries, keys);
            &&& e.physics is Some ==> all.contains(step(p, k, e.physics->0@, true))
            &&& e.blueprint is Some ==> all.contains(step(p, k, e.blueprint->0@, true))
            &&& e.shape is Some ==> all.contains(step(p, k, e.shape->0@, true))
        }),
    decreases entries.len(),
{
    let prev = physics_steps(entries.drop_last(), keys);
    lemma_chain_steps(prev, entries.last());
    if j == entries.len() - 1 {
        assert(entries.last() == entries[j]);
    } else {
        assert(entries.drop_last()[j] == entries[j]);
        lemma_physics_contains(entries.drop_last(), keys, j);
    }
}

proof fn lemma_steps_for_contains(tables: Seq<TableId>, dirty: DirtyModel, inp: SaveInputs, t: TableId, x: SaveStepModel)
    requires
        tables.contains(t),
        table_steps(t, dirty, inp).contains(x),
    ensures
        steps_for(tables, dirty, inp).contains(x),
    decreases tables.len(),
{
    let rest = tables.drop_last();
    let a = steps_for(rest, dirty, inp);
    let b = table_steps(tables.last(), dirty, inp);
    if tables.last() == t {
        lemma_in_concat(a, b, x);
    } else {
        let j = choose|j: int| 0 <= j < tables.len() && tables[j] == t;
        assert(j != tables.len() - 1);
        assert(rest[j] == t);
        lemma_steps_for_contains(rest, dirty, inp, t, x);
        lemma_in_concat(a, b, x);
    }
}

/// A dirty table is written with the steps of its table.
proof fn lemma_dirty_steps_saved(dirty: DirtyModel, inp: SaveInputs, t: TableId, x: SaveStepModel)
    requires
        dirty.flag(t),
        table_steps(t, dirty, inp).contains(x),
    ensures
        save_steps(dirty, inp).contains(x),
{
    crate::edit::lemma_table_in_all(t);
    let all = crate::edit::all_tables_spec();
    assert(all.filter(|u: TableId| dirty.flag(u)).contains(all[crate::edit::table_index(t)]));
    lemma_steps_for_contains(dirty.dirty_tables(), dirty, inp, t, x);
}

/// Saving writes every dirty document that the world holds: each dirty
/// database table packed at its well-known path (the game data when it is
/// loaded); the scene (packed), the terrain heightmap and textures (raw) and
/// the string table (packed) at their paths when loaded; for a dirty
/// visual, tactics or physics table, every loaded entry with a path whose
/// key was marked, or every such entry when the whole table was dirtied
/// (no key recorded), packed under its key; and likewise every cached
/// model, texture and animation, raw at its own path.
pub proof fn law_save_writes_every_dirty_document(dirty: DirtyModel, inp: SaveInputs)
    ensures
        forall|t: TableId|
            #![trigger table_game_path(t)]
            dirty.flag(t) && table_game_path(t) is Some && t != TableId::GameData ==> save_steps(dirty, inp).contains(
                (SaveStepModel { table: t, key: None, game_path: table_game_path(t)->0, packed: true }),
            ),
        dirty.flag(TableId::GameData) && inp.game_data_loaded ==> save_steps(dirty, inp).contains(
            (SaveStepModel { table: TableId::GameData, key: None, game_path: "data\\gamedata.xml"@, packed: true }),
        ),
        dirty.flag(TableId::Scenario) && inp.scenario_path is Some ==> save_steps(dirty, inp).contains(
            (SaveStepModel { table: TableId::Scenario, key: None, game_path: inp.scenario_path->0@, packed: true }),
        ),
        dirty.flag(TableId::TerrainData) && inp.terrain_data_path is Some ==> save_steps(dirty, inp).contains(
            (SaveStepModel {
                table: TableId::TerrainData,
                key: None,
                game_path: inp.terrain_data_path->0@,
                packed: false,
            }),
        ),
        dirty.flag(TableId::TerrainTextures) && inp.terrain_textures_path is Some ==> save_steps(dirty, inp).contains(
            (SaveStepModel {
                table: TableId::TerrainTextures,
                key: None,
                game_path: inp.terrain_textures_path->0@,
                packed: false,
            }),
        ),
        dirty.flag(TableId::Strings) && inp.strings_path is Some ==> save_steps(dirty, inp).contains(
            (SaveStepModel { table: TableId::Strings, key: None, game_path: inp.strings_path->0@, packed: true }),
        ),
        forall|j: int|
            dirty.flag(TableId::Visuals) && 0 <= j < inp.visuals@.len() && (#[trigger] inp.visuals@[j]).path is Some
                && (dirty.keys_of(TableId::Visuals).len() == 0 || dirty.keys_of(TableId::Visuals).contains(
                inp.visuals@[j].key@,
            )) ==> save_steps(dirty, inp).contains(
                (SaveStepModel {
                    table: TableId::Visuals,
                    key: Some(inp.visuals@[j].key@),
                    game_path: inp.visuals@[j].path->0@,
                    packed: true,
                }),
            ),
        forall|j: int|
            dirty.flag(TableId::Tactics) && 0 <= j < inp.tactics@.len() && (#[trigger] inp.tactics@[j]).path is Some
                && (dirty.keys_of(TableId::Tactics).len() == 0 || dirty.keys_of(TableId::Tactics).contains(
                inp.tactics@[j].key@,
            )) ==> save_steps(dirty, inp).contains(
                (SaveStepModel {
                    table: TableId::Tactics,
                    key: Some(inp.tactics@[j].key@),
                    game_path: inp.tactics@[j].path->0@,
                    packed: true,
                }),
            ),
        forall|j: int|
            dirty.flag(TableId::Physics) && 0 <= j < inp.physics@.len() && (#[trigger] inp.physics@[j]).physics is Some
                && (dirty.keys_of(TableId::Physics).len() == 0 || dirty.keys_of(TableId::Physics).contains(
                inp.physics@[j].key@,
            )) ==> save_steps(dirty, inp).contains(
                (SaveStepModel {
                    table: TableId::Physics,
                    key: Some(inp.physics@[j].key@),
                    game_path: inp.physics@[j].physics->0@,
                    packed: true,
                }),
            ),
        forall|j: int|
            dirty.flag(TableId::Models) && 0 <= j < inp.models@.len() && (dirty.keys_of(TableId::Models).len() == 0
                || dirty.keys_of(TableId::Models).contains((#[trigger] inp.models@[j])@)) ==> save_steps(
                dirty,
                inp,
            ).contains(
                (SaveStepModel {
                    table: TableId::Models,
                    key: Some(inp.models@[j]@),
                    game_path: inp.models@[j]@,
                    packed: false,
                }),
            ),
        forall|j: int|
            dirty.flag(TableId::Textures) && 0 <= j < inp.textures@.len() && (dirty.keys_of(TableId::Textures).len()
                == 0 || dirty.keys_of(TableId::Textures).contains((#[trigger] inp.textures@[j])@)) ==> save_steps(
                dirty,
                inp,
            ).contains(
                (SaveStepModel {
                    table: TableId::Textures,
                    key: Some(inp.textures@[j]@),
                    game_path: inp.textures@[j]@,
                    packed: false,
                }),
            ),
        forall|j: int|
            dirty.flag(TableId::Animations) && 0 <= j < inp.animations@.len() && (dirty.keys_of(
                TableId::Animations,
            ).len() == 0 || dirty.keys_of(TableId::Animations).contains((#[trigger] inp.animations@[j])@))
                ==> save_steps(dirty, inp).contains(
                (SaveStepModel {
                    table: TableId::Animations,
                    key: Some(inp.animations@[j]@),
                    game_path: inp.animations@[j]@,
                    packed: false,
                }),
            ),
{
    assert forall|t: TableId|
        #![trigger table_game_path(t)]
        dirty.flag(t) && table_game_path(t) is Some && t != TableId::GameData implies save_steps(dirty, inp).contains(
        (SaveStepModel { table: t, key: None, game_path: table_game_path(t)->0, packed: true }),
    ) by {
        let x = SaveStepModel { table: t, key: None, game_path: table_game_path(t)->0, packed: true };
        assert(table_steps(t, dirty, inp)[0] == x);
        lemma_dirty_steps_saved(dirty, inp, t, x);
    }
    if dirty.flag(TableId::GameData) && inp.game_data_loaded {
        let x = step(TableId::GameData, None, "data\\gamedata.xml"@, true);
        assert(table_steps(TableId::GameData, dirty, inp)[0] == x);
        lemma_dirty_steps_saved(dirty, inp, TableId::GameData, x);
    }
    if dirty.flag(TableId::Scenario) && inp.scenario_path is Some {
        let x = step(TableId::Scenario, None, inp.scenario_path->0@, true);
        assert(table_steps(TableId::Scenario, dirty, inp)[0] == x);
        lemma_dirty_steps_saved(dirty, inp, TableId::Scenario, x);
    }
    if dirty.flag(TableId::TerrainData) && inp.terrain_data_path is Some {
        let x = step(TableId::TerrainData, None, inp.terrain_data_path->0@, false);
        assert(table_steps(TableId::TerrainData, dirty, inp)[0] == x);
        lemma_dirty_steps_saved(dirty, inp, TableId::TerrainData, x);
    }
    if dirty.flag(TableId::TerrainTextures) && inp.terrain_textures_path is Some {
        let x = step(TableId::TerrainTextures, None, inp.terrain_textures_path->0@, false);
        assert(table_steps(TableId::TerrainTextures, dirty, inp)[0] == x);
        lemma_dirty_steps_saved(dirty, inp, TableId::TerrainTextures, x);
    }
    if dirty.flag(TableId::Strings) && inp.strings_path is Some {
        let x = step(TableId::Strings, None, inp.strings_path->0@, true);
        assert(table_steps(TableId::Strings, dirty, inp)[0] == x);
        lemma_dirty_steps_saved(dirty, inp, TableId::Strings, x);
    }
    assert forall|j: int|
        dirty.flag(TableId::Visuals) && 0 <= j < inp.visuals@.len() && (#[trigger] inp.visuals@[j]).path is Some
            && (dirty.keys_of(TableId::Visuals).len() == 0 || dirty.keys_of(TableId::Visuals).contains(
            inp.visuals@[j].key@,
        )) implies save_steps(dirty, inp).contains(
        step(TableId::Visuals, Some(inp.visuals@[j].key@), inp.visuals@[j].path->0@, true),
    ) by {
        let t = TableId::Visuals;
        lemma_keyed_contains(t, inp.visuals@, dirty.keys_of(t), j);
        lemma_dirty_steps_saved(dirty, inp, t, step(t, Some(inp.visuals@[j].key@), inp.visuals@[j].path->0@, true));
    }
    assert forall|j: int|
        dirty.flag(TableId::Tactics) && 0 <= j < inp.tactics@.len() && (#[trigger] inp.tactics@[j]).path is Some
            && (dirty.keys_of(TableId::Tactics).len() == 0 || dirty.keys_of(TableId::Tactics).contains(
            inp.tactics@[j].key@,
        )) implies save_steps(dirty, inp).contains(
        step(TableId::Tactics, Some(inp.tactics@[j].key@), inp.tactics@[j].path->0@, true),
    ) by {
        let t = TableId::Tactics;
        lemma_keyed_contains(t, inp.tactics@, dirty.keys_of(t), j);
        lemma_dirty_steps_saved(dirty, inp, t, step(t, Some(inp.tactics@[j].key@), inp.tactics@[j].path->0@, true));
    }
    assert forall|j: int|
        dirty.flag(TableId::Physics) && 0 <= j < inp.physics@.len() && (#[trigger] inp.physics@[j]).physics is Some
            && (dirty.keys_of(TableId::Physics).len() == 0 || dirty.keys_of(TableId::Physics).contains(
            inp.physics@[j].key@,
        )) implies save_steps(dirty, inp).contains(
        step(TableId::Physics, Some(inp.physics@[j].key@), inp.physics@[j].physics->0@, true),
    ) by {
        let t = TableId::Physics;
        lemma_physics_contains(inp.physics@, dirty.keys_of(t), j);
        lemma_dirty_steps_saved(dirty, inp, t, step(t, Some(inp.physics@[j].key@), inp.physics@[j].physics->0@, true));
    }
    assert forall|j: int|
        dirty.flag(TableId::Models) && 0 <= j < inp.models@.len() && (dirty.keys_of(TableId::Models).len() == 0
            || dirty.keys_of(TableId::Models).contains((#[trigger] inp.models@[j])@)) implies save_steps(
        dirty,
        inp,
    ).contains(step(TableId::Models, Some(inp.models@[j]@), inp.models@[j]@, false)) by {
        let t = TableId::Models;
        lemma_raw_contains(t, inp.models@, dirty.keys_of(t), j);
        lemma_dirty_steps_saved(dirty, inp, t, step(t, Some(inp.models@[j]@), inp.models@[j]@, false));
    }
    assert forall|j: int|
        dirty.flag(TableId::Textures) && 0 <= j < inp.textures@.len() && (dirty.keys_of(TableId::Textures).len() == 0
            || dirty.keys_of(TableId::Textures).contains((#[trigger] inp.textures@[j])@)) implies save_steps(
        dirty,
        inp,
    ).contains(step(TableId::Textures, Some(inp.textures@[j]@), inp.textures@[j]@, false)) by {
        let t = TableId::Textures;
        lemma_raw_contains(t, inp.textures@, dirty.keys_of(t), j);
        lemma_dirty_steps_saved(dirty, inp, t, step(t, Some(inp.textures@[j]@), inp.textures@[j]@, false));
    }
    assert forall|j: int|
        dirty.flag(TableId::Animations) && 0 <= j < inp.animations@.len() && (dirty.keys_of(TableId::Animations).len()
            == 0 || dirty.keys_of(TableId::Animations).contains((#[trigger] inp.animations@[j])@)) implies save_steps(
        dirty,
        inp,
    ).contains(step(TableId::Animations, Some(inp.animations@[j]@), inp.animations@[j]@, false)) by {
        let t = TableId::Animations;
        lemma_raw_contains(t, inp.animations@, dirty.keys_of(t), j);
        lemma_dirty_steps_saved(dirty, inp, t, step(t, Some(inp.animations@[j]@), inp.animations@[j]@, false));
    }
}

} // verus!

