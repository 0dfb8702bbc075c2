//! What a table merge guarantees: a base field that no mod changes keeps its
//! base value, the last change to a field wins, a new row survives with the
//! fields of its last version, merging no mods gives the base back, edits
//! that agree merge without conflict, and edits that disagree (two versions
//! of a new row, two values for a field of a row or of a singleton
//! document) are reported as conflicts naming both mods.
use vstd::prelude::*;

use crate::assoc::pairs_map;
use crate::merge::{
    apply_field, apply_fields, apply_item, apply_items, apply_mods, field_pairs, fields_map,
    initial_state, lemma_apply_fields_keys, lemma_apply_item_ok, merge_state, merged_keys, record_keys, state_ok,
    table_map, ConflictModel, Field, MergeState, Record, apply_singletons, singleton_state,
};

verus! {

/// Some occurrence of field `f` in `fs` sets a value other than the base's.
pub open spec fn changes_field(
    base_fields: Map<Seq<char>, Seq<char>>,
    fs: Seq<(Seq<char>, Seq<char>)>,
    f: Seq<char>,
) -> bool {
    exists|x: int|
        0 <= x < fs.len() && #[trigger] fs[x].0 == f && !(base_fields.contains_key(f) && base_fields[f]
            == fs[x].1)
}

/// Row `k` exists in both tables and holds the same field `f` (or lacks it in
/// both).
pub open spec fn keeps_at(
    a: Map<Seq<char>, Map<Seq<char>, Seq<char>>>,
    b: Map<Seq<char>, Map<Seq<char>, Seq<char>>>,
    k: Seq<char>,
    f: Seq<char>,
) -> bool {
    &&& a.contains_key(k)
    &&& b.contains_key(k)
    &&& b[k].contains_key(f) == a[k].contains_key(f)
    &&& a[k].contains_key(f) ==> b[k][f] == a[k][f]
}

/// Row `k`, where present, is the same in both tables, and the added keys
/// only grow.
pub open spec fn keeps_row(a: MergeState, b: MergeState, k: Seq<char>) -> bool {
    &&& a.merged.contains_key(k) ==> b.merged.contains_key(k) && b.merged[k] == a.merged[k]
    &&& a.added.contains(k) ==> b.added.contains(k)
}

/// No row of `rows` with key `k` changes field `f` from the base.
pub open spec fn rows_keep_field(
    base: Map<Seq<char>, Map<Seq<char>, Seq<char>>>,
    rows: Seq<Record>,
    k: Seq<char>,
    f: Seq<char>,
) -> bool {
    forall|r: int|
        0 <= r < rows.len() && #[trigger] rows[r].key@ == k ==> !changes_field(
            base[k],
            field_pairs(rows[r].fields@),
            f,
        )
}

/// No mod changes field `f` of row `k` from the base.
pub open spec fn mods_keep_field(
    base: Map<Seq<char>, Map<Seq<char>, Seq<char>>>,
    mods: Seq<(String, Vec<Record>)>,
    k: Seq<char>,
    f: Seq<char>,
) -> bool {
    forall|m: int| 0 <= m < mods.len() ==> rows_keep_field(base, #[trigger] mods[m].1@, k, f)
}

/// No row of `rows` has key `k`.
pub open spec fn rows_lack_key(rows: Seq<Record>, k: Seq<char>) -> bool {
    forall|r: int| 0 <= r < rows.len() ==> #[trigger] rows[r].key@ != k
}

/// A field merge of row `key` leaves every other row as it was.
proof fn lemma_fields_other_rows(
    table: Seq<char>,
    label: Seq<char>,
    key: Seq<char>,
    bf: Map<Seq<char>, Seq<char>>,
    s: MergeState,
    fs: Seq<(Seq<char>, Seq<char>)>,
    k: Seq<char>,
)
    requires
        s.merged.contains_key(key),
        key != k,
    ensures
        keeps_row(s, apply_fields(table, label, key, bf, s, fs), k),
    decreases fs.len(),
{
    if fs.len() > 0 {
        lemma_fields_other_rows(table, label, key, bf, s, fs.drop_last(), k);
        lemma_apply_fields_keys(table, label, key, bf, s, fs.drop_last());
    }
}

/// A field merge keeps field `f` of row `k` unless it changes exactly that.
proof fn lemma_fields_frame(
    table: Seq<char>,
    label: Seq<char>,
    key: Seq<char>,
    bf: Map<Seq<char>, Seq<char>>,
    s: MergeState,
    fs: Seq<(Seq<char>, Seq<char>)>,
    k: Seq<char>,
    f: Seq<char>,
)
    requires
        s.merged.contains_key(key),
        s.merged.contains_key(k),
        key != k || !changes_field(bf, fs, f),
    ensures
        keeps_at(s.merged, apply_fields(table, label, key, bf, s, fs).merged, k, f),
    decreases fs.len(),
{
    if fs.len() > 0 {
        let t = fs.drop_last();
        assert(key != k || !changes_field(bf, t, f)) by {
            if key == k && changes_field(bf, t, f) {
                let x = choose|x: int|
                    0 <= x < t.len() && #[trigger] t[x].0 == f && !(bf.contains_key(f) && bf[f] == t[x].1);
                assert(fs[x] == t[x]);
            }
        }
        lemma_fields_frame(table, label, key, bf, s, t, k, f);
        lemma_apply_fields_keys(table, label, key, bf, s, t);
        if key == k {
            assert(fs[fs.len() - 1].0 == f ==> bf.contains_key(f) && bf[f] == fs[fs.len() - 1].1);
        }
    }
}

/// The last change to field `f` within a field merge of row `k` sets it.
proof fn lemma_fields_winner(
    table: Seq<char>,
    label: Seq<char>,
    k: Seq<char>,
    bf: Map<Seq<char>, Seq<char>>,
    s: MergeState,
    fs: Seq<(Seq<char>, Seq<char>)>,
    x: int,
)
    requires
        s.merged.contains_key(k),
        0 <= x < fs.len(),
        !(bf.contains_key(fs[x].0) && bf[fs[x].0] == fs[x].1),
        forall|y: int| x < y < fs.len() && #[trigger] fs[y].0 == fs[x].0 ==> bf.contains_key(fs[x].0) && bf[fs[x].0] == fs[y].1,
    ensures
        apply_fields(table, label, k, bf, s, fs).merged.contains_key(k),
        apply_fields(table, label, k, bf, s, fs).merged[k].contains_key(fs[x].0),
        apply_fields(table, label, k, bf, s, fs).merged[k][fs[x].0] == fs[x].1,
    decreases fs.len(),
{
    let t = fs.drop_last();
    lemma_apply_fields_keys(table, label, k, bf, s, t);
    if x < fs.len() - 1 {
        assert forall|y: int| x < y < t.len() && #[trigger] t[y].0 == t[x].0 implies bf.contains_key(t[x].0)
            && bf[t[x].0] == t[y].1 by {
            assert(fs[y] == t[y]);
        }
        lemma_fields_winner(table, label, k, bf, s, t, x);
        assert(fs[fs.len() - 1].0 == fs[x].0 ==> bf.contains_key(fs[x].0) && bf[fs[x].0] == fs[fs.len() - 1].1);
    }
}

/// A row with another key leaves row `k` as it was.
proof fn lemma_item_other_row(
    table: Seq<char>,
    base: Map<Seq<char>, Map<Seq<char>, Seq<char>>>,
    label: Seq<char>,
    s: MergeState,
    key: Seq<char>,
    fs: Seq<(Seq<char>, Seq<char>)>,
    k: Seq<char>,
)
    requires
        state_ok(base, s),
        key != k,
    ensures
        keeps_row(s, apply_item(table, base, label, s, key, fs), k),
{
    if base.contains_key(key) {
        lemma_fields_other_rows(table, label, key, base[key], s, fs, k);
    } else {
        let t = apply_item(table, base, label, s, key, fs);
        if s.added.contains(k) {
            let i = choose|i: int| 0 <= i < s.added.len() && s.added[i] == k;
            if !s.merged.contains_key(key) {
                assert(t.added[i] == k);
            }
        }
    }
}

/// A row keeps field `f` of base row `k` unless it is row `k` and changes
/// that field.
proof fn lemma_item_frame(
    table: Seq<char>,
    base: Map<Seq<char>, Map<Seq<char>, Seq<char>>>,
    label: Seq<char>,
    s: MergeState,
    key: Seq<char>,
    fs: Seq<(Seq<char>, Seq<char>)>,
    k: Seq<char>,
    f: Seq<char>,
)
    requires
        state_ok(base, s),
        base.contains_key(k),
        key != k || !changes_field(base[k], fs, f),
    ensures
        keeps_at(s.merged, apply_item(table, base, label, s, key, fs).merged, k, f),
{
    if base.contains_key(key) {
        lemma_fields_frame(table, label, key, base[key], s, fs, k, f);
    }
}

/// Rows none of which changes field `f` of base row `k` keep it.
proof fn lemma_items_frame(
    table: Seq<char>,
    base: Map<Seq<char>, Map<Seq<char>, Seq<char>>>,
    label: Seq<char>,
    s: MergeState,
    rs: Seq<Record>,
    k: Seq<char>,
    f: Seq<char>,
)
    requires
        state_ok(base, s),
        base.contains_key(k),
        rows_keep_field(base, rs, k, f),
    ensures
        keeps_at(s.merged, apply_items(table, base, label, s, rs).merged, k, f),
        state_ok(base, apply_items(table, base, label, s, rs)),
    decreases rs.len(),
{
    if rs.len() > 0 {
        let t = rs.drop_last();
        assert(rows_keep_field(base, t, k, f)) by {
            assert forall|r: int| 0 <= r < t.len() && #[trigger] t[r].key@ == k implies !changes_field(
                base[k],
                field_pairs(t[r].fields@),
                f,
            ) by {
                assert(rs[r] == t[r]);
            }
        }
        lemma_items_frame(table, base, label, s, t, k, f);
        let prev = apply_items(table, base, label, s, t);
        let last = rs[rs.len() - 1];
        lemma_item_frame(table, base, label, prev, last.key@, field_pairs(last.fields@), k, f);
        lemma_apply_item_ok(table, base, label, prev, last.key@, field_pairs(last.fields@));
    }
}

/// Rows keep the merge state well formed.
proof fn lemma_items_ok(
    table: Seq<char>,
    base: Map<Seq<char>, Map<Seq<char>, Seq<char>>>,
    label: Seq<char>,
    s: MergeState,
    rs: Seq<Record>,
)
    requires
        state_ok(base, s),
    ensures
        state_ok(base, apply_items(table, base, label, s, rs)),
    decreases rs.len(),
{
    if rs.len() > 0 {
        lemma_items_ok(table, base, label, s, rs.drop_last());
        let last = rs[rs.len() - 1];
        lemma_apply_item_ok(table, base, label, apply_items(table, base, label, s, rs.drop_last()), last.key@, field_pairs(last.fields@));
    }
}

/// Rows without key `k` leave row `k` as it was.
proof fn lemma_items_other_rows(
    table: Seq<char>,
    base: Map<Seq<char>, Map<Seq<char>, Seq<char>>>,
    label: Seq<char>,
    s: MergeState,
    rs: Seq<Record>,
    k: Seq<char>,
)
    requires
        state_ok(base, s),
        rows_lack_key(rs, k),
    ensures
        keeps_row(s, apply_items(table, base, label, s, rs), k),
    decreases rs.len(),
{
    if rs.len() > 0 {
        let t = rs.drop_last();
        assert(rows_lack_key(t, k)) by {
            assert forall|r: int| 0 <= r < t.len() implies #[trigger] t[r].key@ != k by {
                assert(rs[r] == t[r]);
            }
        }
        lemma_items_other_rows(table, base, label, s, t, k);
        lemma_items_ok(table, base, label, s, t);
        let last = rs[rs.len() - 1];
        lemma_item_other_row(table, base, label, apply_items(table, base, label, s, t), last.key@, field_pairs(last.fields@), k);
    }
}

/// Mods none of which changes field `f` of base row `k` keep it.
proof fn lemma_mods_frame(
    table: Seq<char>,
    base: Map<Seq<char>, Map<Seq<char>, Seq<char>>>,
    s: MergeState,
    mods: Seq<(String, Vec<Record>)>,
    k: Seq<char>,
    f: Seq<char>,
)
    requires
        state_ok(base, s),
        base.contains_key(k),
        mods_keep_field(base, mods, k, f),
    ensures
        keeps_at(s.merged, apply_mods(table, base, s, mods).merged, k, f),
        state_ok(base, apply_mods(table, base, s, mods)),
    decreases mods.len(),
{
    if mods.len() > 0 {
        let t = mods.drop_last();
        assert(mods_keep_field(base, t, k, f)) by {
            assert forall|m: int| 0 <= m < t.len() implies rows_keep_field(base, #[trigger] t[m].1@, k, f) by {
                assert(mods[m] == t[m]);
            }
        }
        lemma_mods_frame(table, base, s, t, k, f);
        let last = mods[mods.len() - 1];
        assert(rows_keep_field(base, mods[mods.len() - 1].1@, k, f));
        lemma_items_frame(table, base, last.0@, apply_mods(table, base, s, t), last.1@, k, f);
    }
}

/// Mods keep the merge state well formed.
proof fn lemma_mods_ok(
    table: Seq<char>,
    base: Map<Seq<char>, Map<Seq<char>, Seq<char>>>,
    s: MergeState,
    mods: Seq<(String, Vec<Record>)>,
)
    requires
        state_ok(base, s),
    ensures
        state_ok(base, apply_mods(table, base, s, mods)),
    decreases mods.len(),
{
    if mods.len() > 0 {
        lemma_mods_ok(table, base, s, mods.drop_last());
        let last = mods[mods.len() - 1];
        lemma_items_ok(table, base, last.0@, apply_mods(table, base, s, mods.drop_last()), last.1@);
    }
}

proof fn lemma_initial_ok(base: Seq<Record>)
    ensures
        state_ok(table_map(base), initial_state(base)),
{
}

/// Occurrence `x` of the fields `fs` changes its field from the base, and no
/// later occurrence of that field changes it.
pub open spec fn last_change_at(
    base_fields: Map<Seq<char>, Seq<char>>,
    fs: Seq<(Seq<char>, Seq<char>)>,
    x: int,
) -> bool {
    &&& 0 <= x < fs.len()
    &&& !(base_fields.contains_key(fs[x].0) && base_fields[fs[x].0] == fs[x].1)
    &&& forall|y: int|
        x < y < fs.len() && #[trigger] fs[y].0 == fs[x].0 ==> base_fields.contains_key(fs[x].0)
            && base_fields[fs[x].0] == fs[y].1
}

/// Rows after position `r` with key `k` do not change field `f`.
pub open spec fn later_rows_keep_field(
    base: Map<Seq<char>, Map<Seq<char>, Seq<char>>>,
    rows: Seq<Record>,
    r: int,
    k: Seq<char>,
    f: Seq<char>,
) -> bool {
    forall|q: int|
        r < q < rows.len() && #[trigger] rows[q].key@ == k ==> !changes_field(
            base[k],
            field_pairs(rows[q].fields@),
            f,
        )
}

proof fn lemma_items_winner(
    table: Seq<char>,
    base: Map<Seq<char>, Map<Seq<char>, Seq<char>>>,
    label: Seq<char>,
    s: MergeState,
    rs: Seq<Record>,
    r: int,
    x: int,
)
    requires
        state_ok(base, s),
        0 <= r < rs.len(),
        base.contains_key(rs[r].key@),
        last_change_at(base[rs[r].key@], field_pairs(rs[r].fields@), x),
        later_rows_keep_field(base, rs, r, rs[r].key@, field_pairs(rs[r].fields@)[x].0),
    ensures
        ({
            let t = apply_items(table, base, label, s, rs);
            let k = rs[r].key@;
            let p = field_pairs(rs[r].fields@)[x];
            t.merged.contains_key(k) && t.merged[k].contains_key(p.0) && t.merged[k][p.0] == p.1
        }),
    decreases rs.len(),
{
    let t = rs.drop_last();
    let k = rs[r].key@;
    let p = field_pairs(rs[r].fields@)[x];
    lemma_items_ok(table, base, label, s, t);
    let prev = apply_items(table, base, label, s, t);
    if r == rs.len() - 1 {
        lemma_fields_winner(table, label, k, base[k], prev, field_pairs(rs[r].fields@), x);
    } else {
        assert(later_rows_keep_field(base, t, r, k, p.0)) by {
            assert forall|q: int| r < q < t.len() && #[trigger] t[q].key@ == k implies !changes_field(
                base[k],
                field_pairs(t[q].fields@),
                p.0,
            ) by {
                assert(rs[q] == t[q]);
            }
        }
        assert(t[r] == rs[r]);
        lemma_items_winner(table, base, label, s, t, r, x);
        let last = rs[rs.len() - 1];
        lemma_item_frame(table, base, label, prev, last.key@, field_pairs(last.fields@), k, p.0);
    }
}

proof fn lemma_mods_winner(
    table: Seq<char>,
    base: Map<Seq<char>, Map<Seq<char>, Seq<char>>>,
    s: MergeState,
    mods: Seq<(String, Vec<Record>)>,
    m: int,
    r: int,
    x: int,
)
    requires
        state_ok(base, s),
        0 <= m < mods.len(),
        0 <= r < mods[m].1@.len(),
        base.contains_key(mods[m].1@[r].key@),
        last_change_at(base[mods[m].1@[r].key@], field_pairs(mods[m].1@[r].fields@), x),
        later_rows_keep_field(
            base,
            mods[m].1@,
            r,
            mods[m].1@[r].key@,
            field_pairs(mods[m].1@[r].fields@)[x].0,
        ),
        forall|q: int|
            m < q < mods.len() ==> rows_keep_field(
                base,
                #[trigger] mods[q].1@,
                mods[m].1@[r].key@,
                field_pairs(mods[m].1@[r].fields@)[x].0,
            ),
    ensures
        ({
            let t = apply_mods(table, base, s, mods);
            let k = mods[m].1@[r].key@;
            let p = field_pairs(mods[m].1@[r].fields@)[x];
            t.merged.contains_key(k) && t.merged[k].contains_key(p.0) && t.merged[k][p.0] == p.1
        }),
    decreases mods.len(),
{
    let t = mods.drop_last();
    let k = mods[m].1@[r].key@;
    let p = field_pairs(mods[m].1@[r].fields@)[x];
    lemma_mods_ok(table, base, s, t);
    let prev = apply_mods(table, base, s, t);
    let last = mods[mods.len() - 1];
    if m == mods.len() - 1 {
        lemma_items_winner(table, base, last.0@, prev, last.1@, r, x);
    } else {
        assert(t[m] == mods[m]);
        assert forall|q: int| m < q < t.len() implies rows_keep_field(base, #[trigger] t[q].1@, k, p.0) by {
            assert(t[q] == mods[q]);
        }
        lemma_mods_winner(table, base, s, t, m, r, x);
        assert(rows_keep_field(base, mods[mods.len() - 1].1@, k, p.0));
        lemma_items_frame(table, base, last.0@, prev, last.1@, k, p.0);
    }
}

proof fn lemma_items_new_row(
    table: Seq<char>,
    base: Map<Seq<char>, Map<Seq<char>, Seq<char>>>,
    label: Seq<char>,
    s: MergeState,
    rs: Seq<Record>,
    r: int,
)
    requires
        state_ok(base, s),
        0 <= r < rs.len(),
        !base.contains_key(rs[r].key@),
        forall|q: int| r < q < rs.len() ==> #[trigger] rs[q].key@ != rs[r].key@,
    ensures
        ({
            let t = apply_items(table, base, label, s, rs);
            let k = rs[r].key@;
            t.merged.contains_key(k) && t.merged[k] == fields_map(rs[r].fields@) && t.added.contains(k)
        }),
    decreases rs.len(),
{
    let t = rs.drop_last();
    let k = rs[r].key@;
    lemma_items_ok(table, base, label, s, t);
    let prev = apply_items(table, base, label, s, t);
    if r == rs.len() - 1 {
        let after = apply_item(table, base, label, prev, k, field_pairs(rs[r].fields@));
        if !prev.merged.contains_key(k) {
            assert(after.added[prev.added.len() as int] == k);
        }
    } else {
        assert(t[r] == rs[r]);
        assert forall|q: int| r < q < t.len() implies #[trigger] t[q].key@ != t[r].key@ by {
            assert(t[q] == rs[q]);
        }
        lemma_items_new_row(table, base, label, s, t, r);
        let last = rs[rs.len() - 1];
        lemma_item_other_row(table, base, label, prev, last.key@, field_pairs(last.fields@), k);
    }
}

proof fn lemma_mods_new_row(
    table: Seq<char>,
    base: Map<Seq<char>, Map<Seq<char>, Seq<char>>>,
    s: MergeState,
    mods: Seq<(String, Vec<Record>)>,
    m: int,
    r: int,
)
    requires
        state_ok(base, s),
        0 <= m < mods.len(),
        0 <= r < mods[m].1@.len(),
        !base.contains_key(mods[m].1@[r].key@),
        forall|q: int| r < q < mods[m].1@.len() ==> #[trigger] mods[m].1@[q].key@ != mods[m].1@[r].key@,
        forall|q: int| m < q < mods.len() ==> rows_lack_key(#[trigger] mods[q].1@, mods[m].1@[r].key@),
    ensures
        ({
            let t = apply_mods(table, base, s, mods);
            let k = mods[m].1@[r].key@;
            t.merged.contains_key(k) && t.merged[k] == fields_map(mods[m].1@[r].fields@) && t.added.contains(k)
        }),
    decreases mods.len(),
{
    let t = mods.drop_last();
    let k = mods[m].1@[r].key@;
    lemma_mods_ok(table, base, s, t);
    let prev = apply_mods(table, base, s, t);
    let last = mods[mods.len() - 1];
    if m == mods.len() - 1 {
        lemma_items_new_row(table, base, last.0@, prev, last.1@, r);
    } else {
        assert(t[m] == mods[m]);
        assert forall|q: int| m < q < t.len() implies rows_lack_key(#[trigger] t[q].1@, k) by {
            assert(t[q] == mods[q]);
        }
        lemma_mods_new_row(table, base, s, t, m, r);
        assert(rows_lack_key(mods[mods.len() - 1].1@, k));
        lemma_items_other_rows(table, base, last.0@, prev, last.1@, k);
    }
}

/// Merging no mods gives the base back: the same rows in the same order and
/// no conflict.
pub proof fn law_merge_without_mods(table: Seq<char>, base: Seq<Record>)
    ensures
        merge_state(table, base, Seq::empty()).merged == table_map(base),
        merged_keys(base, merge_state(table, base, Seq::empty())) == record_keys(base),
        merge_state(table, base, Seq::empty()).conflicts.len() == 0,
{
    assert(record_keys(base) + Seq::<Seq<char>>::empty() =~= record_keys(base));
}

/// A field of a base row that no mod changes keeps its base value (or stays
/// absent): edits that do not touch it leave it alone.
pub proof fn law_merge_keeps_unchanged_fields(
    table: Seq<char>,
    base: Seq<Record>,
    mods: Seq<(String, Vec<Record>)>,
    k: Seq<char>,
    f: Seq<char>,
)
    requires
        table_map(base).contains_key(k),
        mods_keep_field(table_map(base), mods, k, f),
    ensures
        keeps_at(table_map(base), merge_state(table, base, mods).merged, k, f),
{
    lemma_initial_ok(base);
    lemma_mods_frame(table, table_map(base), initial_state(base), mods, k, f);
}

/// The last change to a field of a base row wins: when occurrence `x` of row
/// `r` of mod `m` changes the field from the base, and nothing after it (in
/// that row, in later rows of that mod with the same key, or in later mods)
/// changes the field again, the merged row holds that occurrence's value.
pub proof fn law_merge_last_change_wins(
    table: Seq<char>,
    base: Seq<Record>,
    mods: Seq<(String, Vec<Record>)>,
    m: int,
    r: int,
    x: int,
)
    requires
        0 <= m < mods.len(),
        0 <= r < mods[m].1@.len(),
        table_map(base).contains_key(mods[m].1@[r].key@),
        last_change_at(table_map(base)[mods[m].1@[r].key@], field_pairs(mods[m].1@[r].fields@), x),
        later_rows_keep_field(
            table_map(base),
            mods[m].1@,
            r,
            mods[m].1@[r].key@,
            field_pairs(mods[m].1@[r].fields@)[x].0,
        ),
        forall|q: int|
            m < q < mods.len() ==> rows_keep_field(
                table_map(base),
                #[trigger] mods[q].1@,
                mods[m].1@[r].key@,
                field_pairs(mods[m].1@[r].fields@)[x].0,
            ),
    ensures
        ({
            let st = merge_state(table, base, mods);
            let k = mods[m].1@[r].key@;
            let p = field_pairs(mods[m].1@[r].fields@)[x];
            st.merged.contains_key(k) && st.merged[k].contains_key(p.0) && st.merged[k][p.0] == p.1
        }),
{
    lemma_initial_ok(base);
    lemma_mods_winner(table, table_map(base), initial_state(base), mods, m, r, x);
}

/// A row that the base lacks survives the merge: its key is among the merged
/// keys and its fields are those of its last version.
pub proof fn law_merge_new_row_survives(
    table: Seq<char>,
    base: Seq<Record>,
    mods: Seq<(String, Vec<Record>)>,
    m: int,
    r: int,
)
    requires
        0 <= m < mods.len(),
        0 <= r < mods[m].1@.len(),
        !table_map(base).contains_key(mods[m].1@[r].key@),
        forall|q: int| r < q < mods[m].1@.len() ==> #[trigger] mods[m].1@[q].key@ != mods[m].1@[r].key@,
        forall|q: int| m < q < mods.len() ==> rows_lack_key(#[trigger] mods[q].1@, mods[m].1@[r].key@),
    ensures
        ({
            let st = merge_state(table, base, mods);
            let k = mods[m].1@[r].key@;
            &&& st.merged.contains_key(k)
            &&& st.merged[k] == fields_map(mods[m].1@[r].fields@)
            &&& merged_keys(base, st).contains(k)
        }),
{
    lemma_initial_ok(base);
    lemma_mods_new_row(table, table_map(base), initial_state(base), mods, m, r);
    let st = merge_state(table, base, mods);
    let k = mods[m].1@[r].key@;
    let i = choose|i: int| 0 <= i < st.added.len() && st.added[i] == k;
    assert(merged_keys(base, st)[record_keys(base).len() + i] == k);
}


// ── Agreeing edits merge without conflict ───────────────────────────────

/// The fields of row `r` of mod `m` as pairs.
pub open spec fn row_fields(mods: Seq<(String, Vec<Record>)>, m: int, r: int) -> Seq<(Seq<char>, Seq<char>)> {
    field_pairs(mods[m].1@[r].fields@)
}

/// Occurrence `x` of row `r` of mod `m` edits a base row and sets its field
/// to a value other than the base's.
pub open spec fn change_at(
    base: Map<Seq<char>, Map<Seq<char>, Seq<char>>>,
    mods: Seq<(String, Vec<Record>)>,
    m: int,
    r: int,
    x: int,
) -> bool {
    &&& 0 <= m < mods.len()
    &&& 0 <= r < mods[m].1@.len()
    &&& base.contains_key(mods[m].1@[r].key@)
    &&& 0 <= x < row_fields(mods, m, r).len()
    &&& !(base[mods[m].1@[r].key@].contains_key(row_fields(mods, m, r)[x].0)
        && base[mods[m].1@[r].key@][row_fields(mods, m, r)[x].0] == row_fields(mods, m, r)[x].1)
}

/// Every change that a mod makes to field `f` of base row `k` sets `v`.
pub open spec fn changes_set(
    base: Map<Seq<char>, Map<Seq<char>, Seq<char>>>,
    mods: Seq<(String, Vec<Record>)>,
    k: Seq<char>,
    f: Seq<char>,
    v: Seq<char>,
) -> bool {
    forall|m: int, r: int, x: int|
        #[trigger] change_at(base, mods, m, r, x) && mods[m].1@[r].key@ == k && row_fields(mods, m, r)[x].0 == f
            ==> row_fields(mods, m, r)[x].1 == v
}

/// Any two changes the mods make to the same field of the same base row
/// set the same value.
pub open spec fn edits_agree(base: Map<Seq<char>, Map<Seq<char>, Seq<char>>>, mods: Seq<(String, Vec<Record>)>) -> bool {
    forall|m: int, r: int, x: int|
        #[trigger] change_at(base, mods, m, r, x) ==> changes_set(
            base,
            mods,
            mods[m].1@[r].key@,
            row_fields(mods, m, r)[x].0,
            row_fields(mods, m, r)[x].1,
        )
}

/// Every row of every mod with key `k` has the fields `row`.
pub open spec fn rows_are(mods: Seq<(String, Vec<Record>)>, k: Seq<char>, row: Map<Seq<char>, Seq<char>>) -> bool {
    forall|m: int, r: int|
        0 <= m < mods.len() && 0 <= r < mods[m].1@.len() && (#[trigger] mods[m].1@[r]).key@ == k ==> fields_map(
            mods[m].1@[r].fields@,
        ) == row
}

/// All the rows the mods add under a key the base lacks have the same
/// fields.
pub open spec fn new_rows_agree(base: Map<Seq<char>, Map<Seq<char>, Seq<char>>>, mods: Seq<(String, Vec<Record>)>) -> bool {
    forall|m: int, r: int|
        0 <= m < mods.len() && 0 <= r < mods[m].1@.len() && !base.contains_key((#[trigger] mods[m].1@[r]).key@)
            ==> rows_are(mods, mods[m].1@[r].key@, fields_map(mods[m].1@[r].fields@))
}

/// No conflict yet; every owned field of a base row holds the value all
/// changes to it set; every added row holds the fields all rows with its key
/// have.
spec fn agreeing(base: Map<Seq<char>, Map<Seq<char>, Seq<char>>>, mods: Seq<(String, Vec<Record>)>, s: MergeState) -> bool {
    &&& s.conflicts.len() == 0
    &&& forall|k: Seq<char>, f: Seq<char>|
        #[trigger] s.owner.contains_key((k, f)) && base.contains_key(k) ==> s.merged.contains_key(k)
            && s.merged[k].contains_key(f) && changes_set(base, mods, k, f, s.merged[k][f])
    &&& forall|k: Seq<char>|
        #[trigger] s.merged.contains_key(k) && !base.contains_key(k) ==> rows_are(mods, k, s.merged[k])
}

/// Applying the first `n` fields of a row that edits a base row keeps the
/// merge agreeing.
proof fn lemma_agree_fields(
    table: Seq<char>,
    label: Seq<char>,
    base: Map<Seq<char>, Map<Seq<char>, Seq<char>>>,
    mods: Seq<(String, Vec<Record>)>,
    m: int,
    r: int,
    n: int,
    s: MergeState,
)
    requires
        edits_agree(base, mods),
        agreeing(base, mods, s),
        0 <= m < mods.len(),
        0 <= r < mods[m].1@.len(),
        base.contains_key(mods[m].1@[r].key@),
        s.merged.contains_key(mods[m].1@[r].key@),
        0 <= n <= row_fields(mods, m, r).len(),
    ensures
        agreeing(
            base,
            mods,
            apply_fields(table, label, mods[m].1@[r].key@, base[mods[m].1@[r].key@], s, row_fields(mods, m, r).take(n)),
        ),
    decreases n,
{
    if n > 0 {
        let key = mods[m].1@[r].key@;
        let bf = base[key];
        let fp = row_fields(mods, m, r);
        let fs = fp.take(n);
        assert(fs.drop_last() =~= fp.take(n - 1));
        lemma_agree_fields(table, label, base, mods, m, r, n - 1, s);
        lemma_apply_fields_keys(table, label, key, bf, s, fp.take(n - 1));
        let prev = apply_fields(table, label, key, bf, s, fp.take(n - 1));
        assert(prev.merged.dom().contains(key));
        let f = fp[n - 1].0;
        let v = fp[n - 1].1;
        assert(fs.last() == fp[n - 1]);
        if !(bf.contains_key(f) && bf[f] == v) {
            assert(change_at(base, mods, m, r, n - 1));
            assert(changes_set(base, mods, key, f, v));
            if prev.owner.contains_key((key, f)) {
                assert(changes_set(base, mods, key, f, prev.merged[key][f]));
                assert(prev.merged[key][f] == v);
            }
            let next = apply_field(table, label, key, bf, prev, f, v);
            assert forall|k: Seq<char>, g: Seq<char>|
                #[trigger] next.owner.contains_key((k, g)) && base.contains_key(k) implies next.merged.contains_key(k)
                && next.merged[k].contains_key(g) && changes_set(base, mods, k, g, next.merged[k][g]) by {
                if (k, g) != (key, f) {
                    assert(prev.owner.contains_key((k, g)));
                }
            }
            assert forall|k: Seq<char>| #[trigger] next.merged.contains_key(k) && !base.contains_key(k) implies rows_are(
                mods,
                k,
                next.merged[k],
            ) by {
                assert(prev.merged.contains_key(k));
            }
        }
    }
}

/// Applying one row of mod `m` keeps the merge agreeing.
proof fn lemma_agree_item(
    table: Seq<char>,
    base: Map<Seq<char>, Map<Seq<char>, Seq<char>>>,
    mods: Seq<(String, Vec<Record>)>,
    m: int,
    r: int,
    s: MergeState,
)
    requires
        edits_agree(base, mods),
        new_rows_agree(base, mods),
        state_ok(base, s),
        agreeing(base, mods, s),
        0 <= m < mods.len(),
        0 <= r < mods[m].1@.len(),
    ensures
        state_ok(base, apply_item(table, base, mods[m].0@, s, mods[m].1@[r].key@, row_fields(mods, m, r))),
        agreeing(base, mods, apply_item(table, base, mods[m].0@, s, mods[m].1@[r].key@, row_fields(mods, m, r))),
{
    let key = mods[m].1@[r].key@;
    let label = mods[m].0@;
    let fp = row_fields(mods, m, r);
    lemma_apply_item_ok(table, base, label, s, key, fp);
    if base.contains_key(key) {
        lemma_agree_fields(table, label, base, mods, m, r, fp.len() as int, s);
        assert(fp.take(fp.len() as int) =~= fp);
    } else {
        let row = pairs_map(fp);
        assert(rows_are(mods, key, fields_map(mods[m].1@[r].fields@)));
        if s.merged.contains_key(key) {
            assert(rows_are(mods, key, s.merged[key]));
            assert(fields_map(mods[m].1@[r].fields@) == s.merged[key]);
        }
        let next = apply_item(table, base, label, s, key, fp);
        assert forall|k: Seq<char>, g: Seq<char>|
            #[trigger] next.owner.contains_key((k, g)) && base.contains_key(k) implies next.merged.contains_key(k)
            && next.merged[k].contains_key(g) && changes_set(base, mods, k, g, next.merged[k][g]) by {
            assert(k != key);
            assert(s.owner.contains_key((k, g)));
        }
        assert forall|k: Seq<char>| #[trigger] next.merged.contains_key(k) && !base.contains_key(k) implies rows_are(
            mods,
            k,
            next.merged[k],
        ) by {
            if k != key {
                assert(s.merged.contains_key(k));
            }
        }
    }
}

/// Applying the first `n` rows of mod `m` keeps the merge agreeing.
proof fn lemma_agree_items(
    table: Seq<char>,
    base: Map<Seq<char>, Map<Seq<char>, Seq<char>>>,
    mods: Seq<(String, Vec<Record>)>,
    m: int,
    n: int,
    s: MergeState,
)
    requires
        edits_agree(base, mods),
        new_rows_agree(base, mods),
        state_ok(base, s),
        agreeing(base, mods, s),
        0 <= m < mods.len(),
        0 <= n <= mods[m].1@.len(),
    ensures
        state_ok(base, apply_items(table, base, mods[m].0@, s, mods[m].1@.take(n))),
        agreeing(base, mods, apply_items(table, base, mods[m].0@, s, mods[m].1@.take(n))),
    decreases n,
{
    if n > 0 {
        let rs = mods[m].1@.take(n);
        assert(rs.drop_last() =~= mods[m].1@.take(n - 1));
        lemma_agree_items(table, base, mods, m, n - 1, s);
        let prev = apply_items(table, base, mods[m].0@, s, mods[m].1@.take(n - 1));
        assert(rs.last() == mods[m].1@[n - 1]);
        lemma_agree_item(table, base, mods, m, n - 1, prev);
    }
}

/// Applying the first `n` mods keeps the merge agreeing.
proof fn lemma_agree_mods(
    table: Seq<char>,
    base: Map<Seq<char>, Map<Seq<char>, Seq<char>>>,
    mods: Seq<(String, Vec<Record>)>,
    n: int,
    s: MergeState,
)
    requires
        edits_agree(base, mods),
        new_rows_agree(base, mods),
        state_ok(base, s),
        agreeing(base, mods, s),
        0 <= n <= mods.len(),
    ensures
        state_ok(base, apply_mods(table, base, s, mods.take(n))),
        agreeing(base, mods, apply_mods(table, base, s, mods.take(n))),
    decreases n,
{
    if n > 0 {
        let ms = mods.take(n);
        assert(ms.drop_last() =~= mods.take(n - 1));
        lemma_agree_mods(table, base, mods, n - 1, s);
        let prev = apply_mods(table, base, s, mods.take(n - 1));
        assert(ms.last() == mods[n - 1]);
        lemma_agree_items(table, base, mods, n - 1, mods[n - 1].1@.len() as int, prev);
        assert(mods[n - 1].1@.take(mods[n - 1].1@.len() as int) =~= mods[n - 1].1@);
    }
}

/// Edits that agree merge without conflict: when any two changes the mods
/// make to the same field of the same base row set the same value (in
/// particular when no two mods touch the same field), and all rows added
/// under a key the base lacks have the same fields, the merge reports no
/// conflict.
pub proof fn law_agreeing_edits_merge_without_conflict(
    table: Seq<char>,
    base: Seq<Record>,
    mods: Seq<(String, Vec<Record>)>,
)
    requires
        edits_agree(table_map(base), mods),
        new_rows_agree(table_map(base), mods),
    ensures
        merge_state(table, base, mods).conflicts.len() == 0,
{
    lemma_initial_ok(base);
    let s0 = initial_state(base);
    assert(agreeing(table_map(base), mods, s0));
    lemma_agree_mods(table, table_map(base), mods, mods.len() as int, s0);
    assert(mods.take(mods.len() as int) =~= mods);
}

/// Two mods that add a row under the same new key disagree: when a mod's
/// last row adds key `k` (which the base lacks) and the next mod adds `k`
/// again with different fields, the later row's fields win and the merge
/// reports exactly one more conflict, on entry `k` under the pseudo-field
/// `<entry>`, naming the earlier mod as the previous owner and the later
/// mod as the winner.
pub proof fn law_diverging_new_rows_conflict(
    table: Seq<char>,
    base: Seq<Record>,
    mods: Seq<(String, Vec<Record>)>,
    a: (String, Vec<Record>),
    b: (String, Vec<Record>),
)
    requires
        a.1@.len() > 0,
        b.1@.len() == 1,
        a.1@.last().key@ == b.1@[0].key@,
        !table_map(base).contains_key(b.1@[0].key@),
        fields_map(a.1@.last().fields@) != fields_map(b.1@[0].fields@),
    ensures
        merge_state(table, base, mods.push(a).push(b)).conflicts == merge_state(table, base, mods.push(a)).conflicts.push(
            (ConflictModel {
                table,
                entry: b.1@[0].key@,
                field: "<entry>"@,
                previous_mod: a.0@,
                winning_mod: b.0@,
            }),
        ),
        merge_state(table, base, mods.push(a).push(b)).merged[b.1@[0].key@] == fields_map(b.1@[0].fields@),
{
    let tb = table_map(base);
    let s0 = initial_state(base);
    let k = b.1@[0].key@;
    let ma = mods.push(a);
    let mb = ma.push(b);
    assert(ma.drop_last() =~= mods);
    assert(mb.drop_last() =~= ma);
    let s_mods = apply_mods(table, tb, s0, mods);
    let rows_a = a.1@;
    let before_last = apply_items(table, tb, a.0@, s_mods, rows_a.drop_last());
    let s_a = apply_items(table, tb, a.0@, s_mods, rows_a);
    assert(s_a == apply_item(table, tb, a.0@, before_last, k, field_pairs(rows_a.last().fields@)));
    assert(s_a.merged.contains_key(k));
    assert(s_a.merged[k] == fields_map(rows_a.last().fields@));
    assert(s_a.owner.contains_key((k, "<entry>"@)));
    assert(s_a.owner[(k, "<entry>"@)] == a.0@);
    let rows_b = b.1@;
    assert(rows_b.drop_last() =~= Seq::<Record>::empty());
    assert(apply_items(table, tb, b.0@, s_a, rows_b.drop_last()) == s_a);
    assert(apply_items(table, tb, b.0@, s_a, rows_b) == apply_item(
        table,
        tb,
        b.0@,
        s_a,
        k,
        field_pairs(rows_b[0].fields@),
    ));
}

/// Two mods that change the same base field disagree: when a mod's only row
/// sets field `f` of base entry `k` to `v1` (not its base value) and the
/// next mod's only row sets it to another value `v2` (not the base value
/// either), the later value wins and the merge reports exactly one more
/// conflict, on entry `k` and field `f`, naming the earlier mod as the
/// previous owner and the later mod as the winner.
pub proof fn law_diverging_field_edits_conflict(
    table: Seq<char>,
    base: Seq<Record>,
    mods: Seq<(String, Vec<Record>)>,
    a: (String, Vec<Record>),
    b: (String, Vec<Record>),
)
    requires
        a.1@.len() == 1,
        b.1@.len() == 1,
        a.1@[0].key@ == b.1@[0].key@,
        table_map(base).contains_key(a.1@[0].key@),
        a.1@[0].fields@.len() == 1,
        b.1@[0].fields@.len() == 1,
        a.1@[0].fields@[0].name@ == b.1@[0].fields@[0].name@,
        a.1@[0].fields@[0].value@ != b.1@[0].fields@[0].value@,
        !(table_map(base)[a.1@[0].key@].contains_key(a.1@[0].fields@[0].name@)
            && table_map(base)[a.1@[0].key@][a.1@[0].fields@[0].name@] == a.1@[0].fields@[0].value@),
        !(table_map(base)[a.1@[0].key@].contains_key(a.1@[0].fields@[0].name@)
            && table_map(base)[a.1@[0].key@][a.1@[0].fields@[0].name@] == b.1@[0].fields@[0].value@),
    ensures
        merge_state(table, base, mods.push(a).push(b)).conflicts == merge_state(table, base, mods.push(a)).conflicts.push(
            (ConflictModel {
                table,
                entry: a.1@[0].key@,
                field: a.1@[0].fields@[0].name@,
                previous_mod: a.0@,
                winning_mod: b.0@,
            }),
        ),
        merge_state(table, base, mods.push(a).push(b)).merged[a.1@[0].key@][a.1@[0].fields@[0].name@]
            == b.1@[0].fields@[0].value@,
{
    let tb = table_map(base);
    let s0 = initial_state(base);
    let k = a.1@[0].key@;
    let f = a.1@[0].fields@[0].name@;
    let ma = mods.push(a);
    let mb = ma.push(b);
    assert(ma.drop_last() =~= mods);
    assert(mb.drop_last() =~= ma);
    let s_mods = apply_mods(table, tb, s0, mods);
    let fa = field_pairs(a.1@[0].fields@);
    let fb = field_pairs(b.1@[0].fields@);
    assert(fa.drop_last() =~= Seq::<(Seq<char>, Seq<char>)>::empty());
    assert(fb.drop_last() =~= Seq::<(Seq<char>, Seq<char>)>::empty());
    assert(a.1@.drop_last() =~= Seq::<Record>::empty());
    assert(b.1@.drop_last() =~= Seq::<Record>::empty());
    assert(apply_items(table, tb, a.0@, s_mods, a.1@.drop_last()) == s_mods);
    assert(apply_fields(table, a.0@, k, tb[k], s_mods, fa.drop_last()) == s_mods);
    let s_a = apply_items(table, tb, a.0@, s_mods, a.1@);
    assert(s_a == apply_field(table, a.0@, k, tb[k], s_mods, f, fa[0].1));
    assert(s_a.owner.contains_key((k, f)) && s_a.owner[(k, f)] == a.0@);
    assert(s_a.merged[k].contains_key(f) && s_a.merged[k][f] == a.1@[0].fields@[0].value@);
    assert(apply_items(table, tb, b.0@, s_a, b.1@.drop_last()) == s_a);
    assert(apply_fields(table, b.0@, k, tb[k], s_a, fb.drop_last()) == s_a);
    assert(apply_items(table, tb, b.0@, s_a, b.1@) == apply_field(table, b.0@, k, tb[k], s_a, f, fb[0].1));
}

/// Two versions of a singleton document that change the same field
/// disagree: when a version changes field `f` to `v1` (not its base value)
/// and the next version changes it to another value `v2` (not the base value
/// either), the later value wins and the merge reports exactly one more
/// conflict, on the document (named by the table) and field `f`, naming the
/// earlier version as the previous owner and the later as the winner.
pub proof fn law_diverging_singleton_edits_conflict(
    table: Seq<char>,
    base_fields: Map<Seq<char>, Seq<char>>,
    mods: Seq<(String, Vec<Field>)>,
    a: (String, Vec<Field>),
    b: (String, Vec<Field>),
)
    requires
        a.1@.len() == 1,
        b.1@.len() == 1,
        a.1@[0].name@ == b.1@[0].name@,
        a.1@[0].value@ != b.1@[0].value@,
        !(base_fields.contains_key(a.1@[0].name@) && base_fields[a.1@[0].name@] == a.1@[0].value@),
        !(base_fields.contains_key(a.1@[0].name@) && base_fields[a.1@[0].name@] == b.1@[0].value@),
    ensures
        singleton_state(table, base_fields, mods.push(a).push(b)).conflicts == singleton_state(
            table,
            base_fields,
            mods.push(a),
        ).conflicts.push(
            (ConflictModel {
                table,
                entry: table,
                field: a.1@[0].name@,
                previous_mod: a.0@,
                winning_mod: b.0@,
            }),
        ),
        singleton_state(table, base_fields, mods.push(a).push(b)).merged[table][a.1@[0].name@] == b.1@[0].value@,
{
    let s0 = MergeState {
        merged: Map::empty().insert(table, base_fields),
        added: Seq::empty(),
        owner: Map::empty(),
        conflicts: Seq::empty(),
    };
    let f = a.1@[0].name@;
    let ma = mods.push(a);
    let mb = ma.push(b);
    assert(ma.drop_last() =~= mods);
    assert(mb.drop_last() =~= ma);
    let s_mods = apply_singletons(table, base_fields, s0, mods);
    let fa = field_pairs(a.1@);
    let fb = field_pairs(b.1@);
    assert(fa.drop_last() =~= Seq::<(Seq<char>, Seq<char>)>::empty());
    assert(fb.drop_last() =~= Seq::<(Seq<char>, Seq<char>)>::empty());
    assert(apply_fields(table, a.0@, table, base_fields, s_mods, fa.drop_last()) == s_mods);
    let s_a = apply_singletons(table, base_fields, s0, ma);
    assert(s_a == apply_field(table, a.0@, table, base_fields, s_mods, f, fa[0].1));
    assert(s_a.owner.contains_key((table, f)) && s_a.owner[(table, f)] == a.0@);
    assert(s_a.merged[table].contains_key(f) && s_a.merged[table][f] == a.1@[0].value@);
    assert(apply_fields(table, b.0@, table, base_fields, s_a, fb.drop_last()) == s_a);
    assert(apply_singletons(table, base_fields, s0, mb) == apply_field(table, b.0@, table, base_fields, s_a, f, fb[0].1));
}

} // verus!



