//! Mapping changed files in the override directory back to assets.
//!
//! The override directory is laid out as `{override_dir}/{era_label}/{game
//! path}`. A changed file is mapped to its game path by dropping the
//! override directory and the archive label, then to the [`AssetKind`] (or
//! [`TableId`]) it belongs to. Paths are read with Unix conventions:
//! components separated by `/`.
use vstd::prelude::*;

use crate::diagnostics::DiagnosticReport;
use crate::edit::{asset_kind_for_game_path, table_for_game_path, AssetKind, AssetKindModel, TableId};
use crate::text::{copy_string, split_on, split_string, string_from_chars, string_views};

verus! {

/// Events emitted when the override directory changes.
#[derive(Debug)]
pub enum WorldEvent {
    /// An asset was successfully reloaded from disk.
    AssetReloaded(AssetKind),
    /// A database table was reloaded.
    TableReloaded(TableId),
    /// Cross-reference diagnostics were re-computed after a reload.
    DiagnosticsUpdated(DiagnosticReport),
    /// A file changed but could not be mapped to a known asset type.
    UnknownFile(String),
    /// An error occurred during reload or validation.
    Error(String),
}

/// The normal components of a path after its first part: the non-empty
/// parts other than `.`.
pub open spec fn normal_parts(parts: Seq<Seq<char>>) -> Seq<Seq<char>> {
    parts.filter(|p: Seq<char>| p.len() > 0 && p != "."@)
}

/// The components of a Unix path, as `Path::components` gives them: `/`
/// for the root when the path is absolute, `.` when a relative path starts
/// with it, then every part between separators that is neither empty nor
/// `.`.
pub open spec fn unix_components(p: Seq<char>) -> Seq<Seq<char>> {
    let parts = split_on(p, '/');
    if p.len() > 0 && p[0] == '/' {
        seq!["/"@] + normal_parts(parts)
    } else if parts[0] == "."@ {
        seq!["."@] + normal_parts(parts.drop_first())
    } else {
        normal_parts(parts)
    }
}

/// `parts` joined with backslashes.
pub open spec fn join_backslash(parts: Seq<Seq<char>>) -> Seq<char>
    decreases parts.len(),
{
    if parts.len() == 0 {
        Seq::empty()
    } else if parts.len() == 1 {
        parts[0]
    } else {
        join_backslash(parts.drop_last()) + "\\"@ + parts.last()
    }
}

/// The game path of a file in the override directory: the components after
/// the directory's and after the archive label, joined with backslashes;
/// none when the file is outside the directory or nothing is left.
pub open spec fn override_game_path(dir: Seq<char>, path: Seq<char>) -> Option<Seq<char>> {
    let dc = unix_components(dir);
    let pc = unix_components(path);
    if dc.len() <= pc.len() && pc.take(dc.len() as int) == dc && pc.len() > dc.len() {
        let gp = join_backslash(pc.skip(dc.len() as int + 1));
        if gp.len() > 0 {
            Some(gp)
        } else {
            None
        }
    } else {
        None
    }
}

proof fn lemma_split_first(s: Seq<char>, sep: char)
    ensures
        split_on(s, sep).len() > 0,
{
    crate::text::lemma_split_nonempty(s, sep);
}

/// The components of a Unix path.
fn components_of(p: &str) -> (r: Vec<String>)
    ensures
        string_views(r@) == unix_components(p@),
{
    let parts = split_string(p, '/');
    let ghost ps = split_on(p@, '/');
    proof {
        lemma_split_first(p@, '/');
        reveal_strlit(".");
        reveal_strlit("/");
    }
    let mut r: Vec<String> = Vec::new();
    let chars = crate::text::chars_of(p);
    let absolute = chars.len() > 0 && chars[0] == '/';
    let mut start: usize = 0;
    if absolute {
        r.push(String::from_str("/"));
    } else if parts[0] == String::from_str(".") {
        r.push(String::from_str("."));
        start = 1;
    }
    let ghost rest = ps.skip(start as int);
    let ghost base = string_views(r@);
    assert(rest.take(0) =~= Seq::<Seq<char>>::empty());
    let mut i: usize = start;
    while i < parts.len()
        invariant
            start <= i <= parts@.len(),
            string_views(parts@) == ps,
            rest == ps.skip(start as int),
            string_views(r@) == base + normal_parts(rest.take(i - start)),
        decreases parts@.len() - i,
    {
        proof {
            let t = rest.take(i - start + 1);
            assert(t.drop_last() =~= rest.take(i - start));
            assert(t.last() == parts@[i as int]@);
            reveal(Seq::filter);
        }
        let part = &parts[i];
        if part.as_str().unicode_len() > 0 && *part != String::from_str(".") {
            let ghost before = string_views(r@);
            r.push(part.clone());
            assert(string_views(r@) =~= before.push(part@));
        }
        i = i + 1;
    }
    proof {
        assert(rest.take(parts@.len() - start) =~= rest);
        if start == 0 {
            assert(rest =~= ps);
        } else {
            assert(rest =~= ps.drop_first());
        }
        if absolute {
            assert(p@[0] == '/');
        } else if start == 0 {
            assert(base =~= Seq::<Seq<char>>::empty());
            assert(string_views(r@) =~= normal_parts(rest));
        }
    }
    r
}

/// The game path of a file in the override directory.
pub fn game_path_from_override(override_dir: &str, fs_path: &str) -> (r: Option<String>)
    ensures
        match r {
            Some(g) => override_game_path(override_dir@, fs_path@) == Some(g@),
            None => override_game_path(override_dir@, fs_path@) is None,
        },
{
    let dc = components_of(override_dir);
    let pc = components_of(fs_path);
    let ghost dv = string_views(dc@);
    let ghost pv = string_views(pc@);
    if dc.len() >= pc.len() {
        return None;
    }
    let mut i: usize = 0;
    while i < dc.len()
        invariant
            i <= dc@.len(),
            dc@.len() < pc@.len(),
            dv == string_views(dc@),
            pv == string_views(pc@),
            dv == unix_components(override_dir@),
            pv == unix_components(fs_path@),
            forall|j: int| 0 <= j < i ==> dv[j] == pv[j],
        decreases dc@.len() - i,
    {
        if dc[i] != pc[i] {
            proof {
                assert(dv[i as int] != pv[i as int]);
                assert(pv.take(dv.len() as int)[i as int] == pv[i as int]);
                assert(pv.take(dv.len() as int) != dv);
            }
            return None;
        }
        i = i + 1;
    }
    assert(pv.take(dv.len() as int) =~= dv);
    let mut out: Vec<char> = Vec::new();
    let first = dc.len() + 1;
    let ghost rest = pv.skip(first as int);
    let mut k: usize = first;
    assert(rest.take(0) =~= Seq::<Seq<char>>::empty());
    while k < pc.len()
        invariant
            first <= k <= pc@.len(),
            first == dc@.len() + 1,
            pv == string_views(pc@),
            rest == pv.skip(first as int),
            out@ == join_backslash(rest.take(k - first)),
            pv == unix_components(fs_path@),
            string_views(dc@) == unix_components(override_dir@),
            pv.take(dc@.len() as int) == string_views(dc@),
        decreases pc@.len() - k,
    {
        let part = crate::text::chars_of(pc[k].as_str());
        let ghost t = rest.take(k - first + 1);
        assert(t.drop_last() =~= rest.take(k - first));
        assert(t.last() == pc@[k as int]@);
        let ghost before = out@;
        if k > first {
            out.push('\\');
        }
        let mut j: usize = 0;
        while j < part.len()
            invariant
                j <= part@.len(),
                out@ == before + (if k > first { seq!['\\'] } else { Seq::<char>::empty() }) + part@.take(j as int),
            decreases part@.len() - j,
        {
            out.push(part[j]);
            assert(part@.take(j + 1) =~= part@.take(j as int).push(part@[j as int]));
            j = j + 1;
        }
        proof {
            assert(part@.take(part@.len() as int) =~= part@);
            reveal_strlit("\\");
            assert("\\"@ =~= seq!['\\']);
            if k > first {
                assert(out@ =~= join_backslash(t.drop_last()) + "\\"@ + t.last());
            } else {
                assert(t.len() == 1);
                assert(out@ =~= t[0]);
            }
        }
        k = k + 1;
    }
    assert(rest.take(pc@.len() - first) =~= rest);
    if out.len() == 0 {
        None
    } else {
        Some(string_from_chars(out.as_slice()))
    }
}

/// The asset a file in the override directory belongs to.
pub fn asset_for_override_path(override_dir: &str, fs_path: &str) -> (r: Option<AssetKind>)
    ensures
        match override_game_path(override_dir@, fs_path@) {
            Some(g) => match r {
                Some(k) => asset_kind_for_game_path(g) == Some(k@),
                None => asset_kind_for_game_path(g) is None,
            },
            None => r is None,
        },
{
    match game_path_from_override(override_dir, fs_path) {
        Some(gp) => AssetKind::from_game_path(gp.as_str()),
        None => None,
    }
}

/// The database table a file in the override directory belongs to.
pub fn table_for_override_path(override_dir: &str, fs_path: &str) -> (r: Option<TableId>)
    ensures
        match override_game_path(override_dir@, fs_path@) {
            Some(g) => r == table_for_game_path(g),
            None => r is None,
        },
{
    match game_path_from_override(override_dir, fs_path) {
        Some(gp) => TableId::from_game_path(gp.as_str()),
        None => None,
    }
}


// ── Batches of changes ──────────────────────────────────────────────────

/// The asset a file in the override directory maps to, if any.
pub open spec fn change_kind(dir: Seq<char>, path: Seq<char>) -> Option<AssetKindModel> {
    match override_game_path(dir, path) {
        Some(g) => asset_kind_for_game_path(g),
        None => None,
    }
}

/// The changed files that map to no asset, in order.
pub open spec fn unknown_changes(dir: Seq<char>, paths: Seq<Seq<char>>) -> Seq<Seq<char>> {
    paths.filter(|p: Seq<char>| change_kind(dir, p) is None)
}

/// A batch of changed files sorted out: each asset to reload once, and the
/// files that map to no asset.
#[derive(Debug)]
pub struct ChangeBatch {
    pub assets: Vec<AssetKind>,
    pub unknown: Vec<String>,
}

/// Whether two asset kinds are the same.
fn same_kind(a: &AssetKind, b: &AssetKind) -> (r: bool)
    ensures
        r == (a@ == b@),
{
    match (a, b) {
        (AssetKind::DatabaseTable(x), AssetKind::DatabaseTable(y)) => *x == *y,
        (AssetKind::Visual(x), AssetKind::Visual(y)) => *x == *y,
        (AssetKind::Tactics(x), AssetKind::Tactics(y)) => *x == *y,
        (AssetKind::Physics(x), AssetKind::Physics(y)) => *x == *y,
        (AssetKind::Blueprint(x), AssetKind::Blueprint(y)) => *x == *y,
        (AssetKind::Shape(x), AssetKind::Shape(y)) => *x == *y,
        (AssetKind::Model(x), AssetKind::Model(y)) => *x == *y,
        (AssetKind::Animation(x), AssetKind::Animation(y)) => *x == *y,
        (AssetKind::Texture(x), AssetKind::Texture(y)) => *x == *y,
        (AssetKind::Scenario(x), AssetKind::Scenario(y)) => *x == *y,
        (AssetKind::TerrainData(x), AssetKind::TerrainData(y)) => *x == *y,
        (AssetKind::TerrainTextures(x), AssetKind::TerrainTextures(y)) => *x == *y,
        _ => false,
    }
}

/// The models of asset kinds.
pub open spec fn kind_views(ks: Seq<AssetKind>) -> Seq<AssetKindModel> {
    ks.map_values(|k: AssetKind| k@)
}

/// The distinct assets the changed files map to, in the order first seen.
pub open spec fn changed_assets(dir: Seq<char>, paths: Seq<Seq<char>>) -> Seq<AssetKindModel>
    decreases paths.len(),
{
    if paths.len() == 0 {
        Seq::empty()
    } else {
        let prev = changed_assets(dir, paths.drop_last());
        match change_kind(dir, paths.last()) {
            Some(k) => if prev.contains(k) {
                prev
            } else {
                prev.push(k)
            },
            None => prev,
        }
    }
}

/// Whether `kinds` holds `k`.
fn holds_kind(kinds: &Vec<AssetKind>, k: &AssetKind) -> (r: bool)
    ensures
        r == kind_views(kinds@).contains(k@),
{
    let mut a: usize = 0;
    while a < kinds.len()
        invariant
            a <= kinds@.len(),
            forall|b: int| 0 <= b < a ==> (#[trigger] kinds@[b])@ != k@,
        decreases kinds@.len() - a,
    {
        if same_kind(&kinds[a], k) {
            assert(kind_views(kinds@)[a as int] == k@);
            return true;
        }
        a = a + 1;
    }
    proof {
        if kind_views(kinds@).contains(k@) {
            let b = choose|b: int| 0 <= b < kind_views(kinds@).len() && kind_views(kinds@)[b] == k@;
            assert(kinds@[b]@ == k@);
        }
    }
    false
}

/// Sorts a batch of changed files (as the file watcher reports them) into
/// the distinct assets to reload, in the order first seen, and the files
/// that map to no asset, in order.
pub fn classify_changes(override_dir: &str, paths: &Vec<String>) -> (r: ChangeBatch)
    ensures
        kind_views(r.assets@) == changed_assets(override_dir@, string_views(paths@)),
        string_views(r.unknown@) == unknown_changes(override_dir@, string_views(paths@)),
{
    let ghost pv = string_views(paths@);
    let ghost dir = override_dir@;
    let mut assets: Vec<AssetKind> = Vec::new();
    let mut unknown: Vec<String> = Vec::new();
    let mut i: usize = 0;
    while i < paths.len()
        invariant
            i <= paths@.len(),
            pv == string_views(paths@),
            dir == override_dir@,
            kind_views(assets@) == changed_assets(dir, pv.take(i as int)),
            string_views(unknown@) == unknown_changes(dir, pv.take(i as int)),
        decreases paths@.len() - i,
    {
        let kind = asset_for_override_path(override_dir, paths[i].as_str());
        proof {
            let t = pv.take(i + 1);
            assert(t.drop_last() =~= pv.take(i as int));
            assert(t.last() == paths@[i as int]@);
            reveal(Seq::filter);
        }
        match kind {
            Some(k) => {
                if !holds_kind(&assets, &k) {
                    let ghost before = kind_views(assets@);
                    assets.push(k);
                    assert(kind_views(assets@) =~= before.push(k@));
                }
            },
            None => {
                let ghost before = string_views(unknown@);
                unknown.push(paths[i].clone());
                assert(string_views(unknown@) =~= before.push(paths@[i as int]@));
            },
        }
        i = i + 1;
    }
    proof {
        assert(pv.take(pv.len() as int) =~= pv);
    }
    ChangeBatch { assets, unknown }
}

/// Each changed asset is reloaded once: the assets of a batch are distinct,
/// and an asset is in the batch exactly when some changed file maps to it.
pub proof fn law_batch_reloads_each_asset_once(dir: Seq<char>, paths: Seq<Seq<char>>)
    ensures
        forall|a: int, b: int|
            0 <= a < b < changed_assets(dir, paths).len() ==> changed_assets(dir, paths)[a] != changed_assets(
                dir,
                paths,
            )[b],
        forall|k: AssetKindModel|
            changed_assets(dir, paths).contains(k) <==> exists|i: int|
                0 <= i < paths.len() && change_kind(dir, #[trigger] paths[i]) == Some(k),
    decreases paths.len(),
{
    if paths.len() > 0 {
        let t = paths.drop_last();
        law_batch_reloads_each_asset_once(dir, t);
        let prev = changed_assets(dir, t);
        let cur = changed_assets(dir, paths);
        assert forall|k: AssetKindModel|
            cur.contains(k) <==> exists|i: int| 0 <= i < paths.len() && change_kind(dir, #[trigger] paths[i]) == Some(k) by {
            if cur.contains(k) {
                if prev.contains(k) {
                    let i = choose|i: int| 0 <= i < t.len() && change_kind(dir, #[trigger] t[i]) == Some(k);
                    assert(paths[i] == t[i]);
                } else {
                    let j = choose|j: int| 0 <= j < cur.len() && cur[j] == k;
                    assert(change_kind(dir, paths[paths.len() - 1]) == Some(k));
                }
            }
            if exists|i: int| 0 <= i < paths.len() && change_kind(dir, #[trigger] paths[i]) == Some(k) {
                let i = choose|i: int| 0 <= i < paths.len() && change_kind(dir, #[trigger] paths[i]) == Some(k);
                if i < paths.len() - 1 {
                    assert(t[i] == paths[i]);
                    assert(prev.contains(k));
                    let j = choose|j: int| 0 <= j < prev.len() && prev[j] == k;
                    assert(cur[j] == k);
                } else {
                    if prev.contains(k) {
                        let j = choose|j: int| 0 <= j < prev.len() && prev[j] == k;
                        assert(cur[j] == k);
                    } else {
                        assert(cur[prev.len() as int] == k);
                    }
                }
            }
        }
    }
}

// ── What a batch reports ────────────────────────────────────────────────

/// How reloading one changed asset went.
#[derive(Debug, Clone, PartialEq, Eq)]
pub enum ReloadOutcome {
    /// The asset was reloaded.
    Reloaded,
    /// The asset's source was not found after the change.
    SourceMissing,
    /// Reloading failed, for the given reason.
    Failed(String),
}

/// The abstract value of a [`ReloadOutcome`].
pub enum ReloadOutcomeModel {
    Reloaded,
    SourceMissing,
    Failed(Seq<char>),
}

impl View for ReloadOutcome {
    type V = ReloadOutcomeModel;

    open spec fn view(&self) -> ReloadOutcomeModel {
        match self {
            ReloadOutcome::Reloaded => ReloadOutcomeModel::Reloaded,
            ReloadOutcome::SourceMissing => ReloadOutcomeModel::SourceMissing,
            ReloadOutcome::Failed(m) => ReloadOutcomeModel::Failed(m@),
        }
    }
}

/// One thing to report after a batch of reloads.
#[derive(Debug, Clone, PartialEq, Eq)]
pub enum BatchAction {
    /// Report the asset as reloaded.
    Reloaded(AssetKind),
    /// Report that the asset's source was not found after the change.
    SourceMissing(AssetKind),
    /// Report that reloading the asset failed, with the reason.
    Failed(AssetKind, String),
    /// Re-validate the world and report the diagnostics.
    Revalidate,
    /// Report a changed file that maps to no asset.
    Unknown(String),
}

/// The abstract value of a [`BatchAction`].
pub enum BatchActionModel {
    Reloaded(AssetKindModel),
    SourceMissing(AssetKindModel),
    Failed(AssetKindModel, Seq<char>),
    Revalidate,
    Unknown(Seq<char>),
}

impl View for BatchAction {
    type V = BatchActionModel;

    open spec fn view(&self) -> BatchActionModel {
        match self {
            BatchAction::Reloaded(k) => BatchActionModel::Reloaded(k@),
            BatchAction::SourceMissing(k) => BatchActionModel::SourceMissing(k@),
            BatchAction::Failed(k, m) => BatchActionModel::Failed(k@, m@),
            BatchAction::Revalidate => BatchActionModel::Revalidate,
            BatchAction::Unknown(p) => BatchActionModel::Unknown(p@),
        }
    }
}

pub open spec fn outcome_views(os: Seq<ReloadOutcome>) -> Seq<ReloadOutcomeModel> {
    os.map_values(|o: ReloadOutcome| o@)
}

pub open spec fn action_views(acts: Seq<BatchAction>) -> Seq<BatchActionModel> {
    acts.map_values(|a: BatchAction| a@)
}

/// What one asset's reload reports.
pub open spec fn reload_action(k: AssetKindModel, o: ReloadOutcomeModel) -> BatchActionModel {
    match o {
        ReloadOutcomeModel::Reloaded => BatchActionModel::Reloaded(k),
        ReloadOutcomeModel::SourceMissing => BatchActionModel::SourceMissing(k),
        ReloadOutcomeModel::Failed(m) => BatchActionModel::Failed(k, m),
    }
}

/// Whether some reload of the batch succeeded.
pub open spec fn any_reloaded(os: Seq<ReloadOutcomeModel>) -> bool {
    exists|i: int| 0 <= i < os.len() && os[i] is Reloaded
}

/// The reports of a batch, in order: one per asset for how its reload
/// went, then one re-validation when at least one reload succeeded, then
/// one per file that maps to no asset.
pub open spec fn batch_report(kinds: Seq<AssetKindModel>, os: Seq<ReloadOutcomeModel>, unknown: Seq<Seq<char>>) -> Seq<
    BatchActionModel,
> {
    Seq::new(kinds.len(), |i: int| reload_action(kinds[i], os[i])) + (if any_reloaded(os) {
        seq![BatchActionModel::Revalidate]
    } else {
        Seq::empty()
    }) + unknown.map_values(|p: Seq<char>| BatchActionModel::Unknown(p))
}

/// A copy of an asset kind.
fn copy_kind(k: &AssetKind) -> (r: AssetKind)
    ensures
        r@ == k@,
{
    match k {
        AssetKind::DatabaseTable(t) => AssetKind::DatabaseTable(*t),
        AssetKind::Visual(p) => AssetKind::Visual(copy_string(p.as_str())),
        AssetKind::Tactics(p) => AssetKind::Tactics(copy_string(p.as_str())),
        AssetKind::Physics(p) => AssetKind::Physics(copy_string(p.as_str())),
        AssetKind::Blueprint(p) => AssetKind::Blueprint(copy_string(p.as_str())),
        AssetKind::Shape(p) => AssetKind::Shape(copy_string(p.as_str())),
        AssetKind::Model(p) => AssetKind::Model(copy_string(p.as_str())),
        AssetKind::Animation(p) => AssetKind::Animation(copy_string(p.as_str())),
        AssetKind::Texture(p) => AssetKind::Texture(copy_string(p.as_str())),
        AssetKind::Scenario(p) => AssetKind::Scenario(copy_string(p.as_str())),
        AssetKind::TerrainData(p) => AssetKind::TerrainData(copy_string(p.as_str())),
        AssetKind::TerrainTextures(p) => AssetKind::TerrainTextures(copy_string(p.as_str())),
    }
}

/// What to report after reloading the assets of a batch, given how each
/// reload went (`outcomes[i]` for `batch.assets[i]`): each asset's outcome
/// in batch order, then one re-validation if any reload succeeded, then
/// each file that maps to no asset.
pub fn batch_actions(batch: &ChangeBatch, outcomes: &Vec<ReloadOutcome>) -> (r: Vec<BatchAction>)
    requires
        outcomes@.len() == batch.assets@.len(),
    ensures
        action_views(r@) == batch_report(
            kind_views(batch.assets@),
            outcome_views(outcomes@),
            string_views(batch.unknown@),
        ),
{
    let ghost kinds = kind_views(batch.assets@);
    let ghost os = outcome_views(outcomes@);
    let ghost per = Seq::new(kinds.len(), |i: int| reload_action(kinds[i], os[i]));
    let mut r: Vec<BatchAction> = Vec::new();
    let mut any = false;
    let mut i: usize = 0;
    while i < batch.assets.len()
        invariant
            i <= batch.assets@.len(),
            outcomes@.len() == batch.assets@.len(),
            kinds == kind_views(batch.assets@),
            os == outcome_views(outcomes@),
            per == Seq::new(kinds.len(), |i: int| reload_action(kinds[i], os[i])),
            action_views(r@) == per.take(i as int),
            any == exists|j: int| 0 <= j < i && os[j] is Reloaded,
        decreases batch.assets@.len() - i,
    {
        let ghost before = r@;
        let k = copy_kind(&batch.assets[i]);
        let act = match &outcomes[i] {
            ReloadOutcome::Reloaded => {
                any = true;
                BatchAction::Reloaded(k)
            },
            ReloadOutcome::SourceMissing => BatchAction::SourceMissing(k),
            ReloadOutcome::Failed(m) => BatchAction::Failed(k, copy_string(m.as_str())),
        };
        r.push(act);
        proof {
            assert(act@ == per[i as int]);
            assert(action_views(r@) =~= action_views(before).push(act@));
            assert(per.take(i + 1) =~= per.take(i as int).push(per[i as int]));
            if os[i as int] is Reloaded {
                assert(exists|j: int| 0 <= j < i + 1 && os[j] is Reloaded);
            }
        }
        i = i + 1;
    }
    proof {
        assert(per.take(kinds.len() as int) =~= per);
    }
    let ghost with_reloads = action_views(r@);
    if any {
        r.push(BatchAction::Revalidate);
    }
    let ghost with_check = action_views(r@);
    proof {
        assert(with_check =~= with_reloads + (if any_reloaded(os) {
            seq![BatchActionModel::Revalidate]
        } else {
            Seq::empty()
        }));
    }
    let ghost unk = string_views(batch.unknown@).map_values(|p: Seq<char>| BatchActionModel::Unknown(p));
    let mut u: usize = 0;
    while u < batch.unknown.len()
        invariant
            u <= batch.unknown@.len(),
            unk == string_views(batch.unknown@).map_values(|p: Seq<char>| BatchActionModel::Unknown(p)),
            action_views(r@) == with_check + unk.take(u as int),
        decreases batch.unknown@.len() - u,
    {
        let ghost before = r@;
        let act = BatchAction::Unknown(copy_string(batch.unknown[u].as_str()));
        r.push(act);
        proof {
            assert(act@ == unk[u as int]);
            assert(action_views(r@) =~= action_views(before).push(act@));
            assert(unk.take(u + 1) =~= unk.take(u as int).push(unk[u as int]));
        }
        u = u + 1;
    }
    proof {
        assert(unk.take(batch.unknown@.len() as int) =~= unk);
    }
    r
}

/// How many times the world is re-validated after a batch.
pub open spec fn revalidations(acts: Seq<BatchActionModel>) -> nat
    decreases acts.len(),
{
    if acts.len() == 0 {
        0
    } else {
        revalidations(acts.drop_last()) + if acts.last() is Revalidate {
            1nat
        } else {
            0nat
        }
    }
}

proof fn lemma_revalidations_concat(a: Seq<BatchActionModel>, b: Seq<BatchActionModel>)
    ensures
        revalidations(a + b) == revalidations(a) + revalidations(b),
    decreases b.len(),
{
    if b.len() == 0 {
        assert(a + b =~= a);
    } else {
        lemma_revalidations_concat(a, b.drop_last());
        assert((a + b).drop_last() =~= a + b.drop_last());
    }
}

proof fn lemma_no_revalidations(acts: Seq<BatchActionModel>)
    requires
        forall|i: int| 0 <= i < acts.len() ==> !(#[trigger] acts[i] is Revalidate),
    ensures
        revalidations(acts) == 0,
    decreases acts.len(),
{
    if acts.len() > 0 {
        lemma_no_revalidations(acts.drop_last());
        assert(acts.last() == acts[acts.len() - 1]);
    }
}

/// A batch re-validates the world once when at least one asset was reloaded
/// and not at all otherwise, and reports every asset and every unknown file
/// exactly once.
pub proof fn law_batch_revalidates_once(kinds: Seq<AssetKindModel>, os: Seq<ReloadOutcomeModel>, unknown: Seq<Seq<char>>)
    requires
        os.len() == kinds.len(),
    ensures
        revalidations(batch_report(kinds, os, unknown)) == (if any_reloaded(os) {
            1nat
        } else {
            0nat
        }),
        batch_report(kinds, os, unknown).len() == kinds.len() + unknown.len() + (if any_reloaded(os) {
            1nat
        } else {
            0nat
        }),
{
    let per = Seq::new(kinds.len(), |i: int| reload_action(kinds[i], os[i]));
    let mid: Seq<BatchActionModel> = if any_reloaded(os) {
        seq![BatchActionModel::Revalidate]
    } else {
        Seq::empty()
    };
    let unk = unknown.map_values(|p: Seq<char>| BatchActionModel::Unknown(p));
    assert forall|i: int| 0 <= i < per.len() implies !(#[trigger] per[i] is Revalidate) by {}
    assert forall|i: int| 0 <= i < unk.len() implies !(#[trigger] unk[i] is Revalidate) by {}
    lemma_no_revalidations(per);
    lemma_no_revalidations(unk);
    lemma_revalidations_concat(per, mid);
    lemma_revalidations_concat(per + mid, unk);
    assert(batch_report(kinds, os, unknown) == per + mid + unk);
    if any_reloaded(os) {
        assert(mid.drop_last() =~= Seq::<BatchActionModel>::empty());
        assert(revalidations(mid.drop_last()) == 0);
        assert(mid.last() is Revalidate);
        assert(revalidations(mid) == 1);
    } else {
        assert(revalidations(mid) == 0);
    }
}

} // verus!

