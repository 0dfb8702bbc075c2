//! Semantic merge of several mods into one.
//!
//! A table row is a [`Record`]: the identity key of the row and its fields,
//! each field holding the canonical text of its value. Merging a table starts
//! from the base rows and applies each mod in load order: a field that a mod
//! changed from the base is applied; when an earlier mod already set that
//! field to something else it is a [`Conflict`] and the later mod wins. Rows
//! that the base lacks are taken whole and appended after the base rows.
use vstd::prelude::*;

use crate::assoc::{
    is_last_key, key_absent, lemma_pairs_map_absent, lemma_pairs_map_dom, lemma_pairs_map_last,
    lemma_pairs_map_push, lemma_pairs_map_update, pairs_map,
};
use crate::text::{copy_string, string_views};

verus! {

/// One field of a record: its name and the canonical text of its value.
#[derive(Debug, Clone, PartialEq, Eq)]
pub struct Field {
    pub name: String,
    pub value: String,
}

/// One row of a keyed table: its identity and its fields.
#[derive(Debug, Clone, PartialEq, Eq)]
pub struct Record {
    pub key: String,
    pub fields: Vec<Field>,
}

/// A mod to layer into the merge, in load order (later wins on conflict).
#[derive(Debug, Clone, PartialEq, Eq)]
pub struct ModOverlay {
    /// Display label (mod title or path) used in conflict reports.
    pub label: String,
    /// The mod's `ModData` directory.
    pub mod_data: String,
}

/// A field-level conflict: two mods changed the same entry field differently,
/// or two mods shipped the same loose file.
#[derive(Debug, Clone, PartialEq, Eq)]
pub struct Conflict {
    pub table: String,
    pub entry: String,
    pub field: String,
    pub previous_mod: String,
    pub winning_mod: String,
}

/// Options controlling how the merged `ModData` is written.
#[derive(Debug, Clone, Copy, PartialEq, Eq)]
pub struct MergeOptions {
    /// Only write loose files that differ from the base game, so the output
    /// contains just the delta. On by default.
    pub only_changed: bool,
}

impl Default for MergeOptions {
    fn default() -> (r: Self)
        ensures
            r.only_changed,
    {
        MergeOptions { only_changed: true }
    }
}

/// Summary of a merge run.
#[derive(Debug, Clone, PartialEq, Eq)]
pub struct MergeReport {
    pub files_written: Vec<String>,
    pub conflicts: Vec<Conflict>,
}

/// The mathematical content of a [`Conflict`].
pub struct ConflictModel {
    pub table: Seq<char>,
    pub entry: Seq<char>,
    pub field: Seq<char>,
    pub previous_mod: Seq<char>,
    pub winning_mod: Seq<char>,
}

impl View for Conflict {
    type V = ConflictModel;

    open spec fn view(&self) -> ConflictModel {
        ConflictModel {
            table: self.table@,
            entry: self.entry@,
            field: self.field@,
            previous_mod: self.previous_mod@,
            winning_mod: self.winning_mod@,
        }
    }
}

/// The fields of a record as `(name, value)` pairs.
pub open spec fn field_pairs(fs: Seq<Field>) -> Seq<(Seq<char>, Seq<char>)> {
    fs.map_values(|f: Field| (f.name@, f.value@))
}

/// The fields of a record as a map from name to value.
pub open spec fn fields_map(fs: Seq<Field>) -> Map<Seq<char>, Seq<char>> {
    pairs_map(field_pairs(fs))
}

/// The rows of a table as `(key, fields)` pairs.
pub open spec fn record_pairs(rs: Seq<Record>) -> Seq<(Seq<char>, Map<Seq<char>, Seq<char>>)> {
    rs.map_values(|r: Record| (r.key@, fields_map(r.fields@)))
}

/// A table as a map from key to fields, a later row replacing an earlier one
/// with the same key.
pub open spec fn table_map(rs: Seq<Record>) -> Map<Seq<char>, Map<Seq<char>, Seq<char>>> {
    pairs_map(record_pairs(rs))
}

/// The keys of the rows of a table, in order.
pub open spec fn record_keys(rs: Seq<Record>) -> Seq<Seq<char>> {
    rs.map_values(|r: Record| r.key@)
}

/// The conflicts of a list, as models.
pub open spec fn conflict_models(cs: Seq<Conflict>) -> Seq<ConflictModel> {
    cs.map_values(|c: Conflict| c@)
}

/// The last position of the field named `name`, if any.
fn find_field(fs: &Vec<Field>, name: &String) -> (r: Option<usize>)
    ensures
        match r {
            Some(i) => is_last_key(field_pairs(fs@), i as int) && field_pairs(fs@)[i as int].0 == name@,
            None => key_absent(field_pairs(fs@), name@),
        },
{
    let mut i: usize = fs.len();
    while i > 0
        invariant
            i <= fs.len(),
            forall|j: int| i <= j < fs.len() ==> #[trigger] field_pairs(fs@)[j].0 != name@,
        decreases i,
    {
        i = i - 1;
        if fs[i].name == *name {
            return Some(i);
        }
    }
    None
}

/// The value of the field named `name`, if the record has one.
fn field_value<'a>(fs: &'a Vec<Field>, name: &String) -> (r: Option<&'a String>)
    ensures
        match r {
            Some(v) => fields_map(fs@).contains_key(name@) && fields_map(fs@)[name@] == v@,
            None => !fields_map(fs@).contains_key(name@),
        },
{
    match find_field(fs, name) {
        Some(i) => {
            proof {
                lemma_pairs_map_last(field_pairs(fs@), i as int);
            }
            Some(&fs[i].value)
        },
        None => {
            proof {
                lemma_pairs_map_absent(field_pairs(fs@), name@);
            }
            None
        },
    }
}

/// Sets the field `name` to `value`, replacing its last occurrence or
/// appending it.
fn set_field(fs: &mut Vec<Field>, name: String, value: String)
    ensures
        fields_map(final(fs)@) == fields_map(old(fs)@).insert(name@, value@),
{
    match find_field(fs, &name) {
        Some(i) => {
            let ghost before = field_pairs(fs@);
            fs[i] = Field { name, value };
            proof {
                assert(field_pairs(fs@) =~= before.update(i as int, (before[i as int].0, value@)));
                lemma_pairs_map_update(before, i as int, value@);
            }
        },
        None => {
            let ghost before = field_pairs(fs@);
            let ghost p = (name@, value@);
            fs.push(Field { name, value });
            proof {
                assert(field_pairs(fs@) =~= before.push(p));
                lemma_pairs_map_push(before, p);
            }
        },
    }
}

/// Whether two field lists denote the same map.
fn same_fields(a: &Vec<Field>, b: &Vec<Field>) -> (r: bool)
    ensures
        r == (fields_map(a@) == fields_map(b@)),
{
    let mut i: usize = 0;
    while i < a.len()
        invariant
            i <= a.len(),
            forall|j: int|
                0 <= j < i ==> {
                    let k = #[trigger] field_pairs(a@)[j].0;
                    fields_map(b@).contains_key(k) && fields_map(b@)[k] == fields_map(a@)[k]
                },
        decreases a.len() - i,
    {
        let va = field_value(a, &a[i].name);
        let vb = field_value(b, &a[i].name);
        proof {
            assert(field_pairs(a@)[i as int].0 == a@[i as int].name@);
        }
        match (va, vb) {
            (Some(x), Some(y)) => {
                if *x != *y {
                    return false;
                }
            },
            _ => {
                proof {
                    lemma_pairs_map_dom(field_pairs(a@), a@[i as int].name@);
                }
                return false;
            },
        }
        i = i + 1;
    }
    let mut k: usize = 0;
    while k < b.len()
        invariant
            k <= b.len(),
            forall|j: int| 0 <= j < k ==> fields_map(a@).contains_key(#[trigger] field_pairs(b@)[j].0),
        decreases b.len() - k,
    {
        proof {
            assert(field_pairs(b@)[k as int].0 == b@[k as int].name@);
        }
        if field_value(a, &b[k].name).is_none() {
            proof {
                let key = b@[k as int].name@;
                lemma_pairs_map_dom(field_pairs(b@), key);
                assert(field_pairs(b@)[k as int].0 == key);
                assert(fields_map(b@).contains_key(key));
            }
            return false;
        }
        k = k + 1;
    }
    proof {
        assert forall|key: Seq<char>| #[trigger] fields_map(a@).dom().contains(key)
            == fields_map(b@).dom().contains(key) && (fields_map(a@).dom().contains(key)
            ==> fields_map(b@)[key] == fields_map(a@)[key]) by {
            lemma_pairs_map_dom(field_pairs(a@), key);
            lemma_pairs_map_dom(field_pairs(b@), key);
            if fields_map(a@).contains_key(key) {
                let j = choose|j: int| 0 <= j < field_pairs(a@).len() && #[trigger] field_pairs(a@)[j].0 == key;
                assert(0 <= j < a.len());
            }
            if fields_map(b@).contains_key(key) {
                let j = choose|j: int| 0 <= j < field_pairs(b@).len() && #[trigger] field_pairs(b@)[j].0 == key;
                assert(0 <= j < b.len());
            }
        }
        assert(fields_map(a@).dom() =~= fields_map(b@).dom());
        assert(fields_map(a@) =~= fields_map(b@));
    }
    true
}

/// A copy of a field list.
fn copy_fields(fs: &Vec<Field>) -> (r: Vec<Field>)
    ensures
        r@ == fs@,
{
    let mut out: Vec<Field> = Vec::new();
    let mut i: usize = 0;
    while i < fs.len()
        invariant
            i <= fs.len(),
            out@ =~= fs@.take(i as int),
        decreases fs.len() - i,
    {
        out.push(Field { name: fs[i].name.clone(), value: fs[i].value.clone() });
        i = i + 1;
    }
    assert(fs@.take(fs.len() as int) =~= fs@);
    out
}

/// A copy of a record.
fn copy_record(r: &Record) -> (c: Record)
    ensures
        c.key == r.key,
        c.fields@ == r.fields@,
{
    Record { key: r.key.clone(), fields: copy_fields(&r.fields) }
}

/// The last row of a table with key `key`, if any.
fn find_record(rs: &Vec<Record>, key: &String) -> (r: Option<usize>)
    ensures
        match r {
            Some(i) => is_last_key(record_pairs(rs@), i as int) && record_pairs(rs@)[i as int].0 == key@,
            None => key_absent(record_pairs(rs@), key@),
        },
{
    let mut i: usize = rs.len();
    while i > 0
        invariant
            i <= rs.len(),
            forall|j: int| i <= j < rs.len() ==> #[trigger] record_pairs(rs@)[j].0 != key@,
        decreases i,
    {
        i = i - 1;
        if rs[i].key == *key {
            return Some(i);
        }
    }
    None
}


/// The state of a table merge: the merged rows by key, the keys of the rows
/// that the base lacks (in the order they were first added), which mod last
/// set each `(entry, field)`, and the conflicts found so far.
pub struct MergeState {
    pub merged: Map<Seq<char>, Map<Seq<char>, Seq<char>>>,
    pub added: Seq<Seq<char>>,
    pub owner: Map<(Seq<char>, Seq<char>), Seq<char>>,
    pub conflicts: Seq<ConflictModel>,
}

/// The pseudo-field under which a whole new entry is owned and reported.
pub open spec fn entry_marker() -> Seq<char> {
    "<entry>"@
}

/// A mod sets field `f` of the base entry `key` to `v`.
pub open spec fn apply_field(
    table: Seq<char>,
    label: Seq<char>,
    key: Seq<char>,
    base_fields: Map<Seq<char>, Seq<char>>,
    s: MergeState,
    f: Seq<char>,
    v: Seq<char>,
) -> MergeState {
    if base_fields.contains_key(f) && base_fields[f] == v {
        s
    } else {
        let cur = s.merged[key];
        let conflicts = if s.owner.contains_key((key, f)) && !(cur.contains_key(f) && cur[f] == v) {
            s.conflicts.push(
                ConflictModel {
                    table,
                    entry: key,
                    field: f,
                    previous_mod: s.owner[(key, f)],
                    winning_mod: label,
                },
            )
        } else {
            s.conflicts
        };
        MergeState {
            merged: s.merged.insert(key, cur.insert(f, v)),
            added: s.added,
            owner: s.owner.insert((key, f), label),
            conflicts,
        }
    }
}

/// A mod's version of the base entry `key`, field by field in order.
pub open spec fn apply_fields(
    table: Seq<char>,
    label: Seq<char>,
    key: Seq<char>,
    base_fields: Map<Seq<char>, Seq<char>>,
    s: MergeState,
    fs: Seq<(Seq<char>, Seq<char>)>,
) -> MergeState
    decreases fs.len(),
{
    if fs.len() == 0 {
        s
    } else {
        let prev = apply_fields(table, label, key, base_fields, s, fs.drop_last());
        apply_field(table, label, key, base_fields, prev, fs.last().0, fs.last().1)
    }
}

/// One row of a mod: a field merge for a base entry, else the whole row.
pub open spec fn apply_item(
    table: Seq<char>,
    base: Map<Seq<char>, Map<Seq<char>, Seq<char>>>,
    label: Seq<char>,
    s: MergeState,
    key: Seq<char>,
    fs: Seq<(Seq<char>, Seq<char>)>,
) -> MergeState {
    if base.contains_key(key) {
        apply_fields(table, label, key, base[key], s, fs)
    } else {
        let m = pairs_map(fs);
        let ek = (key, entry_marker());
        MergeState {
            merged: s.merged.insert(key, m),
            added: if s.merged.contains_key(key) {
                s.added
            } else {
                s.added.push(key)
            },
            owner: s.owner.insert(ek, label),
            conflicts: if s.merged.contains_key(key) && s.merged[key] != m {
                s.conflicts.push(
                    ConflictModel {
                        table,
                        entry: key,
                        field: entry_marker(),
                        previous_mod: if s.owner.contains_key(ek) {
                            s.owner[ek]
                        } else {
                            Seq::empty()
                        },
                        winning_mod: label,
                    },
                )
            } else {
                s.conflicts
            },
        }
    }
}

/// The rows of one mod, in order.
pub open spec fn apply_items(
    table: Seq<char>,
    base: Map<Seq<char>, Map<Seq<char>, Seq<char>>>,
    label: Seq<char>,
    s: MergeState,
    rs: Seq<Record>,
) -> MergeState
    decreases rs.len(),
{
    if rs.len() == 0 {
        s
    } else {
        let prev = apply_items(table, base, label, s, rs.drop_last());
        apply_item(table, base, label, prev, rs.last().key@, field_pairs(rs.last().fields@))
    }
}

/// The mods, in load order.
pub open spec fn apply_mods(
    table: Seq<char>,
    base: Map<Seq<char>, Map<Seq<char>, Seq<char>>>,
    s: MergeState,
    mods: Seq<(String, Vec<Record>)>,
) -> MergeState
    decreases mods.len(),
{
    if mods.len() == 0 {
        s
    } else {
        let prev = apply_mods(table, base, s, mods.drop_last());
        apply_items(table, base, mods.last().0@, prev, mods.last().1@)
    }
}

/// The state before any mod: the base rows, nothing added or owned.
pub open spec fn initial_state(base: Seq<Record>) -> MergeState {
    MergeState { merged: table_map(base), added: Seq::empty(), owner: Map::empty(), conflicts: Seq::empty() }
}

/// The state after merging `mods` into `base`.
pub open spec fn merge_state(table: Seq<char>, base: Seq<Record>, mods: Seq<(String, Vec<Record>)>) -> MergeState {
    apply_mods(table, table_map(base), initial_state(base), mods)
}

/// The keys of the merged table in output order: the base rows, then the
/// added ones.
pub open spec fn merged_keys(base: Seq<Record>, st: MergeState) -> Seq<Seq<char>> {
    record_keys(base) + st.added
}

/// Who last set a field of an entry.
struct Owner {
    entry: String,
    field: String,
    label: String,
}

spec fn owner_pairs(os: Seq<Owner>) -> Seq<((Seq<char>, Seq<char>), Seq<char>)> {
    os.map_values(|o: Owner| ((o.entry@, o.field@), o.label@))
}

/// The last owner record of `(entry, field)`, if any.
fn find_owner(os: &Vec<Owner>, entry: &String, field: &String) -> (r: Option<usize>)
    ensures
        match r {
            Some(i) => is_last_key(owner_pairs(os@), i as int) && owner_pairs(os@)[i as int].0 == (entry@, field@),
            None => key_absent(owner_pairs(os@), (entry@, field@)),
        },
{
    let mut i: usize = os.len();
    while i > 0
        invariant
            i <= os.len(),
            forall|j: int| i <= j < os.len() ==> #[trigger] owner_pairs(os@)[j].0 != (entry@, field@),
        decreases i,
    {
        i = i - 1;
        if os[i].entry == *entry && os[i].field == *field {
            return Some(i);
        }
    }
    None
}

/// The mod that last set `(entry, field)`, if any.
fn owner_of<'a>(os: &'a Vec<Owner>, entry: &String, field: &String) -> (r: Option<&'a String>)
    ensures
        match r {
            Some(l) => pairs_map(owner_pairs(os@)).contains_key((entry@, field@)) && pairs_map(owner_pairs(os@))[(
            entry@,
            field@,
            )] == l@,
            None => !pairs_map(owner_pairs(os@)).contains_key((entry@, field@)),
        },
{
    match find_owner(os, entry, field) {
        Some(i) => {
            proof {
                lemma_pairs_map_last(owner_pairs(os@), i as int);
            }
            Some(&os[i].label)
        },
        None => {
            proof {
                lemma_pairs_map_absent(owner_pairs(os@), (entry@, field@));
            }
            None
        },
    }
}

/// Records that `label` set `(entry, field)`.
fn set_owner(os: &mut Vec<Owner>, entry: String, field: String, label: String)
    ensures
        pairs_map(owner_pairs(final(os)@)) == pairs_map(owner_pairs(old(os)@)).insert((entry@, field@), label@),
{
    match find_owner(os, &entry, &field) {
        Some(i) => {
            let ghost before = owner_pairs(os@);
            let ghost lv = label@;
            os[i] = Owner { entry, field, label };
            proof {
                assert(owner_pairs(os@) =~= before.update(i as int, (before[i as int].0, lv)));
                lemma_pairs_map_update(before, i as int, lv);
            }
        },
        None => {
            let ghost before = owner_pairs(os@);
            let ghost p = ((entry@, field@), label@);
            os.push(Owner { entry, field, label });
            proof {
                assert(owner_pairs(os@) =~= before.push(p));
                lemma_pairs_map_push(before, p);
            }
        },
    }
}

/// The working state of a table merge.
struct MergeWork {
    merged: Vec<Record>,
    added: Vec<String>,
    owners: Vec<Owner>,
    conflicts: Vec<Conflict>,
}

impl MergeWork {
    spec fn model(&self) -> MergeState {
        MergeState {
            merged: table_map(self.merged@),
            added: string_views(self.added@),
            owner: pairs_map(owner_pairs(self.owners@)),
            conflicts: conflict_models(self.conflicts@),
        }
    }
}

/// Applies one field of a mod's version of the base entry stored at `j`.
fn merge_field(
    work: &mut MergeWork,
    table: &str,
    label: &String,
    j: usize,
    base_fields: &Vec<Field>,
    f: &Field,
)
    requires
        is_last_key(record_pairs(old(work).merged@), j as int),
    ensures
        final(work).model() == apply_field(
            table@,
            label@,
            old(work).merged@[j as int].key@,
            fields_map(base_fields@),
            old(work).model(),
            f.name@,
            f.value@,
        ),
        record_keys(final(work).merged@) == record_keys(old(work).merged@),
{
    let ghost key = work.merged@[j as int].key@;
    let unchanged = match field_value(base_fields, &f.name) {
        Some(bv) => *bv == f.value,
        None => false,
    };
    if unchanged {
        return;
    }
    proof {
        lemma_pairs_map_last(record_pairs(work.merged@), j as int);
    }
    let ghost s = work.model();
    let key_s = work.merged[j].key.clone();
    let prev = owner_of(&work.owners, &key_s, &f.name);
    match prev {
        Some(p) => {
            let same = match field_value(&work.merged[j].fields, &f.name) {
                Some(mv) => *mv == f.value,
                None => false,
            };
            if !same {
                let c = Conflict {
                    table: copy_string(table),
                    entry: key_s.clone(),
                    field: f.name.clone(),
                    previous_mod: p.clone(),
                    winning_mod: label.clone(),
                };
                let ghost cs = work.conflicts@;
                work.conflicts.push(c);
                proof {
                    assert(conflict_models(work.conflicts@) =~= conflict_models(cs).push(c@));
                }
            }
        },
        None => {},
    }
    let ghost pairs_before = record_pairs(work.merged@);
    let ghost fields_before = fields_map(work.merged@[j as int].fields@);
    set_field(&mut work.merged[j].fields, f.name.clone(), f.value.clone());
    proof {
        let newm = fields_before.insert(f.name@, f.value@);
        assert(record_pairs(work.merged@) =~= pairs_before.update(j as int, (key, newm)));
        lemma_pairs_map_update(pairs_before, j as int, newm);
        assert(record_keys(work.merged@) =~= record_keys(old(work).merged@));
    }
    set_owner(&mut work.owners, key_s, f.name.clone(), label.clone());
    proof {
        assert(work.model().merged =~= s.merged.insert(key, s.merged[key].insert(f.name@, f.value@)));
        assert(work.model().conflicts =~= apply_field(table@, label@, key, fields_map(base_fields@), s, f.name@, f.value@).conflicts);
    }
}

/// Every base key, and every added key, has a merged row, and every merged
/// row is a base row or an added one.
pub open spec fn state_ok(base: Map<Seq<char>, Map<Seq<char>, Seq<char>>>, st: MergeState) -> bool {
    &&& forall|k: Seq<char>| #[trigger] base.contains_key(k) ==> st.merged.contains_key(k)
    &&& forall|i: int| 0 <= i < st.added.len() ==> st.merged.contains_key(#[trigger] st.added[i])
    &&& forall|k: Seq<char>| #[trigger] st.merged.contains_key(k) ==> base.contains_key(k) || st.added.contains(k)
}

proof fn lemma_last_key_same_keys(a: Seq<Record>, b: Seq<Record>, j: int)
    requires
        record_keys(a) == record_keys(b),
        is_last_key(record_pairs(a), j),
    ensures
        is_last_key(record_pairs(b), j),
        b[j].key@ == a[j].key@,
{
    assert(a.len() == record_keys(a).len());
    assert(b.len() == record_keys(b).len());
    assert forall|x: int| 0 <= x < b.len() implies #[trigger] record_pairs(b)[x].0 == record_pairs(a)[x].0 by {
        assert(record_keys(a)[x] == record_keys(b)[x]);
    }
    assert(record_keys(a)[j] == record_keys(b)[j]);
}

/// A field merge keeps the added keys and the keys of the merged rows.
pub proof fn lemma_apply_fields_keys(
    table: Seq<char>,
    label: Seq<char>,
    key: Seq<char>,
    base_fields: Map<Seq<char>, Seq<char>>,
    s: MergeState,
    fs: Seq<(Seq<char>, Seq<char>)>,
)
    requires
        s.merged.contains_key(key),
    ensures
        apply_fields(table, label, key, base_fields, s, fs).added == s.added,
        apply_fields(table, label, key, base_fields, s, fs).merged.dom() == s.merged.dom(),
    decreases fs.len(),
{
    if fs.len() > 0 {
        lemma_apply_fields_keys(table, label, key, base_fields, s, fs.drop_last());
        let prev = apply_fields(table, label, key, base_fields, s, fs.drop_last());
        assert(apply_field(table, label, key, base_fields, prev, fs.last().0, fs.last().1).merged.dom() =~= prev.merged.dom());
    }
}

/// A row keeps the merge state well formed.
pub proof fn lemma_apply_item_ok(
    table: Seq<char>,
    base: Map<Seq<char>, Map<Seq<char>, Seq<char>>>,
    label: Seq<char>,
    s: MergeState,
    key: Seq<char>,
    fs: Seq<(Seq<char>, Seq<char>)>,
)
    requires
        state_ok(base, s),
    ensures
        state_ok(base, apply_item(table, base, label, s, key, fs)),
{
    let t = apply_item(table, base, label, s, key, fs);
    if base.contains_key(key) {
        lemma_apply_fields_keys(table, label, key, base[key], s, fs);
        assert forall|k: Seq<char>| #[trigger] base.contains_key(k) implies t.merged.contains_key(k) by {
            assert(s.merged.dom().contains(k));
        }
        assert forall|i: int| 0 <= i < t.added.len() implies t.merged.contains_key(#[trigger] t.added[i]) by {
            assert(s.merged.dom().contains(s.added[i]));
        }
        assert forall|k: Seq<char>| #[trigger] t.merged.contains_key(k) implies base.contains_key(k)
            || t.added.contains(k) by {
            assert(t.merged.dom().contains(k));
        }
    } else {
        assert forall|i: int| 0 <= i < t.added.len() implies t.merged.contains_key(#[trigger] t.added[i]) by {
            if i < s.added.len() {
                assert(t.added[i] == s.added[i]);
            }
        }
        assert forall|k: Seq<char>| #[trigger] t.merged.contains_key(k) implies base.contains_key(k)
            || t.added.contains(k) by {
            if k == key {
                if !s.merged.contains_key(key) {
                    assert(t.added[s.added.len() as int] == key);
                }
            } else {
                assert(s.merged.contains_key(k));
                if s.added.contains(k) {
                    let i = choose|i: int| 0 <= i < s.added.len() && s.added[i] == k;
                    assert(t.added[i] == k);
                }
            }
        }
    }
}

/// Applies a mod's version of the base entry stored at `j`, field by field.
fn merge_fields(
    work: &mut MergeWork,
    table: &str,
    label: &String,
    j: usize,
    base_fields: &Vec<Field>,
    item_fields: &Vec<Field>,
)
    requires
        is_last_key(record_pairs(old(work).merged@), j as int),
    ensures
        final(work).model() == apply_fields(
            table@,
            label@,
            old(work).merged@[j as int].key@,
            fields_map(base_fields@),
            old(work).model(),
            field_pairs(item_fields@),
        ),
        record_keys(final(work).merged@) == record_keys(old(work).merged@),
{
    let ghost key = work.merged@[j as int].key@;
    let ghost s0 = work.model();
    let ghost keys0 = record_keys(work.merged@);
    let ghost fs = field_pairs(item_fields@);
    let mut i: usize = 0;
    while i < item_fields.len()
        invariant
            i <= item_fields.len(),
            fs == field_pairs(item_fields@),
            record_keys(work.merged@) == keys0,
            is_last_key(record_pairs(work.merged@), j as int),
            work.merged@[j as int].key@ == key,
            work.model() == apply_fields(table@, label@, key, fields_map(base_fields@), s0, fs.take(i as int)),
        decreases item_fields.len() - i,
    {
        let ghost before = work.merged@;
        merge_field(work, table, label, j, base_fields, &item_fields[i]);
        proof {
            lemma_last_key_same_keys(before, work.merged@, j as int);
            assert(fs.take(i + 1).drop_last() =~= fs.take(i as int));
        }
        i = i + 1;
    }
    assert(fs.take(item_fields.len() as int) =~= fs);
}

/// Applies one row of a mod.
fn merge_item(work: &mut MergeWork, table: &str, base: &Vec<Record>, label: &String, item: &Record)
    requires
        state_ok(table_map(base@), old(work).model()),
    ensures
        final(work).model() == apply_item(
            table@,
            table_map(base@),
            label@,
            old(work).model(),
            item.key@,
            field_pairs(item.fields@),
        ),
        state_ok(table_map(base@), final(work).model()),
{
    let ghost s = work.model();
    let ghost tb = table_map(base@);
    match find_record(base, &item.key) {
        Some(bi) => {
            proof {
                lemma_pairs_map_last(record_pairs(base@), bi as int);
                assert(tb.contains_key(item.key@));
            }
            match find_record(&work.merged, &item.key) {
                Some(j) => {
                    proof {
                        lemma_pairs_map_last(record_pairs(work.merged@), j as int);
                        lemma_apply_item_ok(table@, tb, label@, s, item.key@, field_pairs(item.fields@));
                    }
                    merge_fields(work, table, label, j, &base[bi].fields, &item.fields);
                },
                None => {
                    proof {
                        lemma_pairs_map_absent(record_pairs(work.merged@), item.key@);
                    }
                    assert(false);
                },
            }
        },
        None => {
            proof {
                lemma_pairs_map_absent(record_pairs(base@), item.key@);
            }
            let marker = copy_string("<entry>");
            let ghost m = fields_map(item.fields@);
            let ghost ek = (item.key@, entry_marker());
            match find_record(&work.merged, &item.key) {
                Some(j) => {
                    proof {
                        lemma_pairs_map_last(record_pairs(work.merged@), j as int);
                    }
                    if !same_fields(&work.merged[j].fields, &item.fields) {
                        let prev = match owner_of(&work.owners, &item.key, &marker) {
                            Some(p) => p.clone(),
                            None => String::new(),
                        };
                        let c = Conflict {
                            table: copy_string(table),
                            entry: item.key.clone(),
                            field: copy_string("<entry>"),
                            previous_mod: prev,
                            winning_mod: label.clone(),
                        };
                        let ghost cs = work.conflicts@;
                        work.conflicts.push(c);
                        proof {
                            assert(conflict_models(work.conflicts@) =~= conflict_models(cs).push(c@));
                        }
                    }
                    let ghost before = record_pairs(work.merged@);
                    work.merged[j] = copy_record(item);
                    proof {
                        assert(record_pairs(work.merged@) =~= before.update(j as int, (before[j as int].0, m)));
                        lemma_pairs_map_update(before, j as int, m);
                    }
                },
                None => {
                    proof {
                        lemma_pairs_map_absent(record_pairs(work.merged@), item.key@);
                    }
                    let ghost adds = work.added@;
                    work.added.push(item.key.clone());
                    let ghost before = record_pairs(work.merged@);
                    let r = copy_record(item);
                    work.merged.push(r);
                    proof {
                        assert(string_views(work.added@) =~= string_views(adds).push(item.key@));
                        assert(record_pairs(work.merged@) =~= before.push((item.key@, m)));
                        lemma_pairs_map_push(before, (item.key@, m));
                    }
                },
            }
            set_owner(&mut work.owners, item.key.clone(), marker, label.clone());
            proof {
                lemma_apply_item_ok(table@, tb, label@, s, item.key@, field_pairs(item.fields@));
                let t = apply_item(table@, tb, label@, s, item.key@, field_pairs(item.fields@));
                assert(work.model().merged =~= t.merged);
                assert(work.model().added =~= t.added);
                assert(work.model().owner =~= t.owner);
                assert(work.model().conflicts =~= t.conflicts);
            }
        },
    }
}

/// Applies the rows of one mod, in order.
fn merge_items(work: &mut MergeWork, table: &str, base: &Vec<Record>, label: &String, items: &Vec<Record>)
    requires
        state_ok(table_map(base@), old(work).model()),
    ensures
        final(work).model() == apply_items(table@, table_map(base@), label@, old(work).model(), items@),
        state_ok(table_map(base@), final(work).model()),
{
    let ghost s0 = work.model();
    let mut i: usize = 0;
    while i < items.len()
        invariant
            i <= items.len(),
            state_ok(table_map(base@), work.model()),
            work.model() == apply_items(table@, table_map(base@), label@, s0, items@.take(i as int)),
        decreases items.len() - i,
    {
        merge_item(work, table, base, label, &items[i]);
        proof {
            assert(items@.take(i + 1).drop_last() =~= items@.take(i as int));
        }
        i = i + 1;
    }
    assert(items@.take(items.len() as int) =~= items@);
}

/// A copy of a table.
fn copy_records(rs: &Vec<Record>) -> (r: Vec<Record>)
    ensures
        record_pairs(r@) == record_pairs(rs@),
        record_keys(r@) == record_keys(rs@),
{
    let mut out: Vec<Record> = Vec::new();
    let mut i: usize = 0;
    while i < rs.len()
        invariant
            i <= rs.len(),
            out@.len() == i,
            forall|x: int| 0 <= x < i ==> #[trigger] out@[x].key@ == rs@[x].key@ && out@[x].fields@ == rs@[x].fields@,
        decreases rs.len() - i,
    {
        out.push(copy_record(&rs[i]));
        i = i + 1;
    }
    assert(record_pairs(out@) =~= record_pairs(rs@));
    assert(record_keys(out@) =~= record_keys(rs@));
    out
}

/// The merged rows, in the order of `keys`, taken from the merged table.
pub open spec fn rows_match(
    out: Seq<Record>,
    keys: Seq<Seq<char>>,
    merged: Map<Seq<char>, Map<Seq<char>, Seq<char>>>,
) -> bool {
    &&& out.len() == keys.len()
    &&& forall|i: int|
        0 <= i < keys.len() ==> (#[trigger] out[i]).key@ == keys[i] && fields_map(out[i].fields@)
            == merged[keys[i]]
}

proof fn lemma_rows_match_push(
    before: Seq<Record>,
    after: Seq<Record>,
    keys: Seq<Seq<char>>,
    k: int,
    merged: Map<Seq<char>, Map<Seq<char>, Seq<char>>>,
)
    requires
        0 <= k < keys.len(),
        rows_match(before, keys.take(k), merged),
        after.len() == before.len() + 1,
        after.drop_last() == before,
        after.last().key@ == keys[k],
        fields_map(after.last().fields@) == merged[keys[k]],
    ensures
        rows_match(after, keys.take(k + 1), merged),
{
    assert forall|i: int| 0 <= i < k + 1 implies (#[trigger] after[i]).key@ == keys.take(k + 1)[i]
        && fields_map(after[i].fields@) == merged[keys.take(k + 1)[i]] by {
        if i < k {
            assert(after[i] == after.drop_last()[i]);
            assert(before[i] == after[i]);
            assert(keys.take(k)[i] == keys[i]);
        }
    }
}

/// Appends the merged row of `key` to `out`.
fn push_merged_row(out: &mut Vec<Record>, merged: &Vec<Record>, key: &String)
    requires
        table_map(merged@).contains_key(key@),
    ensures
        final(out)@.len() == old(out)@.len() + 1,
        final(out)@.drop_last() == old(out)@,
        final(out)@.last().key@ == key@,
        fields_map(final(out)@.last().fields@) == table_map(merged@)[key@],
{
    match find_record(merged, key) {
        Some(j) => {
            proof {
                lemma_pairs_map_last(record_pairs(merged@), j as int);
            }
            out.push(Record { key: key.clone(), fields: copy_fields(&merged[j].fields) });
            proof {
                assert(out@.drop_last() =~= old(out)@);
            }
        },
        None => {
            proof {
                lemma_pairs_map_absent(record_pairs(merged@), key@);
            }
        },
    }
}

/// Three-way merge of a keyed table: start from `base` and apply each mod in
/// load order. A field that a mod changed from the base is applied; if an
/// earlier mod already set that field to a different value, it is a conflict
/// and the later mod wins. Rows the base lacks are appended in the order they
/// first appear.
pub fn merge_table(table: &str, base: &Vec<Record>, mod_tables: &[(String, Vec<Record>)]) -> (r: (
    Vec<Record>,
    Vec<Conflict>,
))
    ensures
        rows_match(
            r.0@,
            merged_keys(base@, merge_state(table@, base@, mod_tables@)),
            merge_state(table@, base@, mod_tables@).merged,
        ),
        conflict_models(r.1@) == merge_state(table@, base@, mod_tables@).conflicts,
{
    let ghost tb = table_map(base@);
    let mut work = MergeWork {
        merged: copy_records(base),
        added: Vec::new(),
        owners: Vec::new(),
        conflicts: Vec::new(),
    };
    proof {
        assert(work.model().added =~= Seq::<Seq<char>>::empty());
        assert(work.model().owner =~= Map::<(Seq<char>, Seq<char>), Seq<char>>::empty());
        assert(work.model().conflicts =~= Seq::<ConflictModel>::empty());
        assert(work.model() == initial_state(base@));
    }
    let ghost s0 = work.model();
    let mut m: usize = 0;
    while m < mod_tables.len()
        invariant
            m <= mod_tables.len(),
            state_ok(tb, work.model()),
            tb == table_map(base@),
            work.model() == apply_mods(table@, tb, s0, mod_tables@.take(m as int)),
        decreases mod_tables.len() - m,
    {
        merge_items(&mut work, table, base, &mod_tables[m].0, &mod_tables[m].1);
        proof {
            assert(mod_tables@.take(m + 1).drop_last() =~= mod_tables@.take(m as int));
        }
        m = m + 1;
    }
    proof {
        assert(mod_tables@.take(mod_tables.len() as int) =~= mod_tables@);
    }
    let ghost st = work.model();
    let ghost keys = merged_keys(base@, st);
    let mut out: Vec<Record> = Vec::new();
    let mut i: usize = 0;
    while i < base.len()
        invariant
            i <= base.len(),
            st == work.model(),
            state_ok(tb, st),
            tb == table_map(base@),
            keys == merged_keys(base@, st),
            rows_match(out@, keys.take(i as int), st.merged),
        decreases base.len() - i,
    {
        proof {
            lemma_pairs_map_dom(record_pairs(base@), base@[i as int].key@);
            assert(record_pairs(base@)[i as int].0 == base@[i as int].key@);
            assert(keys[i as int] == base@[i as int].key@);
        }
        let ghost before = out@;
        push_merged_row(&mut out, &work.merged, &base[i].key);
        proof {
            lemma_rows_match_push(before, out@, keys, i as int, st.merged);
        }
        i = i + 1;
    }
    let mut a: usize = 0;
    while a < work.added.len()
        invariant
            a <= work.added.len(),
            st == work.model(),
            state_ok(tb, st),
            keys == merged_keys(base@, st),
            rows_match(out@, keys.take(base.len() + a), st.merged),
        decreases work.added.len() - a,
    {
        proof {
            assert(st.added[a as int] == work.added@[a as int]@);
            assert(keys[base.len() + a] == st.added[a as int]);
        }
        let ghost before = out@;
        push_merged_row(&mut out, &work.merged, &work.added[a]);
        proof {
            lemma_rows_match_push(before, out@, keys, base.len() + a, st.merged);
        }
        a = a + 1;
    }
    proof {
        assert(keys.take(base.len() + work.added.len()) =~= keys);
    }
    (out, work.conflicts)
}

/// The versions of a singleton document, in load order, each a field merge
/// against the base fields.
pub open spec fn apply_singletons(
    table: Seq<char>,
    base_fields: Map<Seq<char>, Seq<char>>,
    s: MergeState,
    mods: Seq<(String, Vec<Field>)>,
) -> MergeState
    decreases mods.len(),
{
    if mods.len() == 0 {
        s
    } else {
        let prev = apply_singletons(table, base_fields, s, mods.drop_last());
        apply_fields(table, mods.last().0@, table, base_fields, prev, field_pairs(mods.last().1@))
    }
}

/// The state after merging singleton versions into a base document.
pub open spec fn singleton_state(
    table: Seq<char>,
    base_fields: Map<Seq<char>, Seq<char>>,
    mods: Seq<(String, Vec<Field>)>,
) -> MergeState {
    apply_singletons(
        table,
        base_fields,
        MergeState {
            merged: Map::empty().insert(table, base_fields),
            added: Seq::empty(),
            owner: Map::empty(),
            conflicts: Seq::empty(),
        },
        mods,
    )
}

/// Field-level three-way merge for a singleton document. With a base
/// document each version is merged field by field against it, the entry of a
/// conflict being the table's name; without one the last version wins
/// outright and nothing conflicts.
pub fn merge_singleton(table: &str, base: Option<&Vec<Field>>, mods: Vec<(String, Vec<Field>)>) -> (r: (
    Option<Vec<Field>>,
    Vec<Conflict>,
))
    ensures
        match base {
            Some(b) => {
                let st = singleton_state(table@, fields_map(b@), mods@);
                &&& r.0 is Some
                &&& fields_map(r.0.unwrap()@) == st.merged[table@]
                &&& conflict_models(r.1@) == st.conflicts
            },
            None => {
                &&& r.1@.len() == 0
                &&& if mods@.len() == 0 {
                    r.0 is None
                } else {
                    r.0 is Some && r.0.unwrap()@ == mods@.last().1@
                }
            },
        },
{
    match base {
        Some(b) => {
            let key = copy_string(table);
            let mut merged: Vec<Record> = Vec::new();
            merged.push(Record { key, fields: copy_fields(b) });
            let mut work = MergeWork { merged, added: Vec::new(), owners: Vec::new(), conflicts: Vec::new() };
            let ghost s0 = MergeState {
                merged: Map::empty().insert(table@, fields_map(b@)),
                added: Seq::empty(),
                owner: Map::empty(),
                conflicts: Seq::empty(),
            };
            proof {
                let e = Seq::<(Seq<char>, Map<Seq<char>, Seq<char>>)>::empty();
                assert(record_pairs(work.merged@) =~= e.push((table@, fields_map(b@))));
                lemma_pairs_map_push(e, (table@, fields_map(b@)));
                assert(pairs_map(e) =~= Map::empty());
                assert(work.model().merged =~= s0.merged);
                assert(work.model().added =~= s0.added);
                assert(work.model().owner =~= s0.owner);
                assert(work.model().conflicts =~= s0.conflicts);
            }
            let mut i: usize = 0;
            while i < mods.len()
                invariant
                    i <= mods.len(),
                    work.merged@.len() == 1,
                    work.merged@[0].key@ == table@,
                    work.model() == apply_singletons(table@, fields_map(b@), s0, mods@.take(i as int)),
                decreases mods.len() - i,
            {
                let ghost before = work.merged@;
                merge_fields(&mut work, table, &mods[i].0, 0, b, &mods[i].1);
                proof {
                    assert(work.merged@.len() == record_keys(work.merged@).len());
                    assert(record_keys(work.merged@)[0] == record_keys(before)[0]);
                    assert(mods@.take(i + 1).drop_last() =~= mods@.take(i as int));
                }
                i = i + 1;
            }
            proof {
                assert(mods@.take(mods.len() as int) =~= mods@);
                lemma_pairs_map_last(record_pairs(work.merged@), 0);
            }
            let out = copy_fields(&work.merged[0].fields);
            (Some(out), work.conflicts)
        },
        None => {
            let n = mods.len();
            let mut mods = mods;
            if n == 0 {
                (None, Vec::new())
            } else {
                let last = mods.pop();
                match last {
                    Some(p) => (Some(p.1), Vec::new()),
                    None => (None, Vec::new()),
                }
            }
        },
    }
}

// ── Merging mods ────────────────────────────────────────────────────────

/// The keyed tables that a merge combines field by field, each with its
/// unpacked game path, in merge order.
pub open spec fn merged_tables() -> Seq<(Seq<char>, Seq<char>)> {
    seq![
        ("objects"@, "data\\objects.xml"@),
        ("squads"@, "data\\squads.xml"@),
        ("techs"@, "data\\techs.xml"@),
        ("abilities"@, "data\\abilities.xml"@),
        ("powers"@, "data\\powers.xml"@),
        ("civs"@, "data\\civs.xml"@),
        ("leaders"@, "data\\leaders.xml"@),
        ("weapon_types"@, "data\\weapontypes.xml"@),
        ("damage_types"@, "data\\damagetypes.xml"@),
    ]
}

/// The singleton document a merge combines field by field.
pub open spec fn merged_singleton() -> (Seq<char>, Seq<char>) {
    ("gamedata"@, "data\\gamedata.xml"@)
}

/// The keyed tables a merge combines, with their game paths.
pub fn merge_tables() -> (r: Vec<(&'static str, &'static str)>)
    ensures
        r@.map_values(|p: (&str, &str)| (p.0@, p.1@)) == merged_tables(),
{
    let r = vec![
        ("objects", "data\\objects.xml"),
        ("squads", "data\\squads.xml"),
        ("techs", "data\\techs.xml"),
        ("abilities", "data\\abilities.xml"),
        ("powers", "data\\powers.xml"),
        ("civs", "data\\civs.xml"),
        ("leaders", "data\\leaders.xml"),
        ("weapon_types", "data\\weapontypes.xml"),
        ("damage_types", "data\\damagetypes.xml"),
    ];
    assert(r@.map_values(|p: (&str, &str)| (p.0@, p.1@)) =~= merged_tables());
    r
}

/// The singleton document a merge combines, with its game path.
pub fn merge_singleton_table() -> (r: (&'static str, &'static str))
    ensures
        (r.0@, r.1@) == merged_singleton(),
{
    ("gamedata", "data\\gamedata.xml")
}

/// The paths a flatten skips because a table merge handles them: each
/// handled path normalised, in its packed form and as it is.
pub open spec fn skip_paths(handled: Seq<Seq<char>>) -> Seq<Seq<char>>
    decreases handled.len(),
{
    if handled.len() == 0 {
        Seq::empty()
    } else {
        let n = crate::source::normalised(handled.last());
        skip_paths(handled.drop_last()).push(n + ".xmb"@).push(n)
    }
}

/// The paths a flatten skips because a table merge handles them.
pub fn flatten_skip_set(handled: &Vec<String>) -> (r: Vec<String>)
    ensures
        string_views(r@) == skip_paths(string_views(handled@)),
{
    let ghost hv = string_views(handled@);
    let mut r: Vec<String> = Vec::new();
    let mut i: usize = 0;
    while i < handled.len()
        invariant
            i <= handled@.len(),
            hv == string_views(handled@),
            string_views(r@) == skip_paths(hv.take(i as int)),
        decreases handled@.len() - i,
    {
        let ghost t = hv.take(i + 1);
        assert(t.drop_last() =~= hv.take(i as int));
        assert(t.last() == handled@[i as int]@);
        let norm = crate::source::normalise_path(handled[i].as_str());
        let packed = crate::text::string_from_chars(
            crate::text::concat_str(crate::text::chars_of(norm.as_str()).as_slice(), ".xmb").as_slice(),
        );
        let ghost before = string_views(r@);
        let ghost pv = packed@;
        let ghost nv = norm@;
        r.push(packed);
        r.push(norm);
        assert(string_views(r@) =~= before.push(pv).push(nv));
        i = i + 1;
    }
    assert(hv.take(hv.len() as int) =~= hv);
    r
}

/// The conflicts that a flatten's overwrites make: table `files`, the path
/// as the entry and `<file>` as the field.
pub open spec fn overwrite_conflict(o: crate::source::Overwrite) -> ConflictModel {
    ConflictModel {
        table: "files"@,
        entry: o.game_path@,
        field: "<file>"@,
        previous_mod: o.previous@,
        winning_mod: o.winner@,
    }
}

/// The conflicts that a flatten's overwrites make, in order.
pub fn overwrite_conflicts(overwrites: Vec<crate::source::Overwrite>) -> (r: Vec<Conflict>)
    ensures
        conflict_models(r@) == overwrites@.map_values(|o: crate::source::Overwrite| overwrite_conflict(o)),
{
    let ghost all = overwrites@;
    let mut overwrites = overwrites;
    let mut rev: Vec<crate::source::Overwrite> = Vec::new();
    while overwrites.len() > 0
        invariant
            all == overwrites@ + rev@.reverse(),
        decreases overwrites@.len(),
    {
        let ghost before = overwrites@;
        let ghost rb = rev@;
        let o = overwrites.pop().unwrap();
        rev.push(o);
        assert(rev@.reverse() =~= seq![o] + rb.reverse());
        assert(before =~= overwrites@.push(o));
    }
    assert(all =~= rev@.reverse());
    let mut out: Vec<Conflict> = Vec::new();
    while rev.len() > 0
        invariant
            rev@.len() <= all.len(),
            all == all.take(all.len() - rev@.len()) + rev@.reverse(),
            conflict_models(out@) == all.take(all.len() - rev@.len()).map_values(
                |o: crate::source::Overwrite| overwrite_conflict(o),
            ),
        decreases rev@.len(),
    {
        let ghost k = all.len() - rev@.len();
        let ghost rb = rev@;
        let o = rev.pop().unwrap();
        proof {
            assert(rb =~= rev@.push(o));
            assert(rb.reverse() =~= seq![o] + rev@.reverse());
            assert(all[k] == o);
            assert(all.take(k + 1) =~= all.take(k).push(o));
            assert(all =~= all.take(k + 1) + rev@.reverse());
        }
        let c = Conflict {
            table: copy_string("files"),
            entry: o.game_path,
            field: copy_string("<file>"),
            previous_mod: o.previous,
            winning_mod: o.winner,
        };
        let ghost before = conflict_models(out@);
        out.push(c);
        assert(conflict_models(out@) =~= before.push(c@));
        assert(all.take(k + 1).map_values(|o: crate::source::Overwrite| overwrite_conflict(o)) =~= all.take(k).map_values(
            |o: crate::source::Overwrite| overwrite_conflict(o),
        ).push(overwrite_conflict(o)));
    }
    assert(all.take(all.len() as int) =~= all);
    out
}

/// Where a merged table is written in the output: its game path with
/// forward slashes and `.xmb` appended.
pub open spec fn packed_output_path(vpath: Seq<char>) -> Seq<char> {
    crate::text::replace_char(vpath, '\\', '/') + ".xmb"@
}

/// Where a merged table is written in the output.
pub fn packed_output(vpath: &str) -> (r: String)
    ensures
        r@ == packed_output_path(vpath@),
{
    let replaced = crate::text::replace_chars(crate::text::chars_of(vpath).as_slice(), '\\', '/');
    crate::text::string_from_chars(crate::text::concat_str(replaced.as_slice(), ".xmb").as_slice())
}

} // verus!
