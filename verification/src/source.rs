//! Layered asset resolution: the rules by which ERA archives, loose folder
//! layers and an override directory combine.
//!
//! Archives follow the engine's priority rule: the last loaded archive wins.
//! Folder layers (an unpacked archive, such as a mod's `ModData`) sit above
//! every archive, a later folder winning over an earlier one. An override
//! directory sits above everything. [`LayerStack`] holds the indexes of the
//! archives and folders and answers which layer a game path comes from;
//! reading bytes from an archive or from disk is left to its owner.
use vstd::prelude::*;

use crate::strset::{set_insert, strictly_sorted, SortedMap};
use crate::text::{
    split_on, split_string,
    chars_of, concat_str, copy_string, contains_string, ends_with_str, has_suffix, replace_char, replace_chars,
    string_from_chars, string_views, strip_suffix_or_self, strip_suffix_str,
};

verus! {

/// What `str::to_lowercase` makes of a whole string: its Unicode lowercase
/// form. The mapping can depend on a character's neighbours (a final sigma
/// lowers differently), so it is named for the string, not per character.
pub uninterp spec fn unicode_lowercase(s: Seq<char>) -> Seq<char>;

/// `str::to_lowercase`. The result is named, not stated: it is the Unicode
/// lowercase form of the whole argument, which depends on the string alone
/// (no locale); the Unicode tables that define it are not written out here.
#[verifier::external_body]
pub(crate) fn to_lowercase(s: &str) -> (r: String)
    ensures
        r@ == unicode_lowercase(s@),
{
    s.to_lowercase()
}

/// A game path in normal form: lowercase, with backslash separators.
pub open spec fn normalised(p: Seq<char>) -> Seq<char> {
    replace_char(unicode_lowercase(p), '/', '\\')
}

/// Normalises a game path to lowercase with backslash separators.
pub fn normalise_path(path: &str) -> (r: String)
    ensures
        r@ == normalised(path@),
{
    let lower = to_lowercase(path);
    let chars = chars_of(lower.as_str());
    let replaced = replace_chars(chars.as_slice(), '/', '\\');
    string_from_chars(replaced.as_slice())
}

/// A normalised path holds no `/`: every separator is a backslash.
pub proof fn law_normalised_has_no_slash(p: Seq<char>)
    ensures
        !normalised(p).contains('/'),
{
    let r = normalised(p);
    if r.contains('/') {
        let i = choose|i: int| 0 <= i < r.len() && r[i] == '/';
        assert(r[i] != '/');
    }
}

/// Which archive a file was resolved from.
#[derive(Debug, Clone, PartialEq, Eq)]
pub struct Provenance {
    /// Archive label, such as `root.era`, or `<override>`.
    pub era_label: String,
    /// Normalised game path.
    pub game_path: String,
}

/// How a folder layer combines with the layers below it when the stack is
/// flattened.
#[derive(Debug, Clone, Copy, PartialEq, Eq, Structural)]
pub enum LoadRule {
    /// Last writer wins: this layer's version of a path overrides lower
    /// layers'. The default.
    Replace,
    /// Only contribute paths that no lower layer already provides.
    Additive,
}

impl Default for LoadRule {
    fn default() -> (r: Self)
        ensures
            r == LoadRule::Replace,
    {
        LoadRule::Replace
    }
}

/// One path written by more than one folder layer during a flatten: the
/// later layer's version won.
#[derive(Debug, Clone, PartialEq, Eq)]
pub struct Overwrite {
    /// Normalised game path that several layers provided.
    pub game_path: String,
    /// Label of the layer whose version was overridden.
    pub previous: String,
    /// Label of the layer whose version was written.
    pub winner: String,
}

/// Outcome of flattening the folder layers to a directory.
#[derive(Debug, Clone, PartialEq, Eq)]
pub struct FlattenReport {
    /// Files written to the output directory.
    pub files_written: Vec<String>,
    /// Paths that more than one layer provided (later wins).
    pub overwrites: Vec<Overwrite>,
    /// Files skipped because they were byte-identical to the base game.
    pub skipped_vanilla: usize,
}

impl Default for FlattenReport {
    fn default() -> (r: Self)
        ensures
            r.files_written@.len() == 0,
            r.overwrites@.len() == 0,
            r.skipped_vanilla == 0,
    {
        FlattenReport { files_written: Vec::new(), overwrites: Vec::new(), skipped_vanilla: 0 }
    }
}

/// The index of a loaded archive: normalised game path to entry number.
pub struct ArchiveIndex {
    /// Archive label, such as `root.era`.
    pub label: String,
    pub index: SortedMap<usize>,
}

/// The index of a loose folder layer: normalised game path to the file on
/// disk, and how the layer composes.
pub struct FolderIndex {
    /// Layer label (the folder's name).
    pub label: String,
    pub index: SortedMap<String>,
    pub rule: LoadRule,
}

/// The entries of an archive as an index: entry `i` with a file name is
/// found under the normalised name, a later entry replacing an earlier one.
pub open spec fn archive_map(names: Seq<Option<String>>) -> Map<Seq<char>, usize>
    decreases names.len(),
{
    if names.len() == 0 {
        Map::empty()
    } else {
        let prev = archive_map(names.drop_last());
        match names.last() {
            Some(n) => prev.insert(normalised(n@), (names.len() - 1) as usize),
            None => prev,
        }
    }
}

/// The files of a folder as an index: each relative path, normalised, to
/// its file on disk, a later file replacing an earlier one.
pub open spec fn folder_map(files: Seq<(String, String)>) -> Map<Seq<char>, String>
    decreases files.len(),
{
    if files.len() == 0 {
        Map::empty()
    } else {
        folder_map(files.drop_last()).insert(normalised(files.last().0@), files.last().1)
    }
}

impl ArchiveIndex {
    /// Indexes an archive from the file names of its entries, in entry order.
    pub fn new(label: String, names: &Vec<Option<String>>) -> (r: Self)
        requires
            names@.len() <= usize::MAX,
        ensures
            r.label == label,
            r.index.wf(),
            r.index.map() == archive_map(names@),
    {
        let mut index: SortedMap<usize> = SortedMap::new();
        let mut i: usize = 0;
        while i < names.len()
            invariant
                i <= names.len(),
                index.wf(),
                index.map() == archive_map(names@.take(i as int)),
            decreases names.len() - i,
        {
            proof {
                assert(names@.take(i + 1).drop_last() =~= names@.take(i as int));
            }
            match &names[i] {
                Some(n) => {
                    let key = normalise_path(n.as_str());
                    index.insert(key, i);
                },
                None => {},
            }
            i = i + 1;
        }
        proof {
            assert(names@.take(names.len() as int) =~= names@);
        }
        ArchiveIndex { label, index }
    }
}

impl FolderIndex {
    /// Indexes a folder from its files, each a path relative to the folder
    /// and the file on disk.
    pub fn new(label: String, rule: LoadRule, files: &Vec<(String, String)>) -> (r: Self)
        ensures
            r.label == label,
            r.rule == rule,
            r.index.wf(),
            r.index.map() == folder_map(files@),
    {
        let mut index: SortedMap<String> = SortedMap::new();
        let mut i: usize = 0;
        while i < files.len()
            invariant
                i <= files.len(),
                index.wf(),
                index.map() == folder_map(files@.take(i as int)),
            decreases files.len() - i,
        {
            proof {
                assert(files@.take(i + 1).drop_last() =~= files@.take(i as int));
            }
            let key = normalise_path(files[i].0.as_str());
            let path = files[i].1.clone();
            index.insert(key, path);
            i = i + 1;
        }
        proof {
            assert(files@.take(files.len() as int) =~= files@);
        }
        FolderIndex { label, index, rule }
    }
}

/// The archives and folder layers of an asset source, in load order.
pub struct LayerStack {
    pub archives: Vec<ArchiveIndex>,
    pub folders: Vec<FolderIndex>,
}

/// The last archive (highest priority) whose index holds `key`.
pub open spec fn last_archive_with(archives: Seq<ArchiveIndex>, key: Seq<char>) -> Option<int>
    decreases archives.len(),
{
    if archives.len() == 0 {
        None
    } else if archives.last().index.map().contains_key(key) {
        Some(archives.len() - 1)
    } else {
        last_archive_with(archives.drop_last(), key)
    }
}

/// The last folder (highest priority) whose index holds `key`.
pub open spec fn last_folder_with(folders: Seq<FolderIndex>, key: Seq<char>) -> Option<int>
    decreases folders.len(),
{
    if folders.len() == 0 {
        None
    } else if folders.last().index.map().contains_key(key) {
        Some(folders.len() - 1)
    } else {
        last_folder_with(folders.drop_last(), key)
    }
}

/// The archive label and normalised path that `path` resolves to in the
/// archives alone.
pub open spec fn era_provenance(archives: Seq<ArchiveIndex>, path: Seq<char>) -> Option<(Seq<char>, Seq<char>)> {
    match last_archive_with(archives, normalised(path)) {
        Some(i) => Some((archives[i].label@, normalised(path))),
        None => None,
    }
}

/// One read that resolving a path may try.
#[derive(Debug, Clone, PartialEq, Eq)]
pub enum ReadStep {
    /// The file in the override directory under this normalised game path.
    Override(String),
    /// A folder layer's file on disk.
    Folder(String),
    /// An entry of a loaded archive: the archive's position and the entry.
    Archive(usize, usize),
}

/// The abstract value of a [`ReadStep`].
pub enum ReadStepModel {
    Override(Seq<char>),
    Folder(Seq<char>),
    Archive(int, int),
}

impl View for ReadStep {
    type V = ReadStepModel;

    open spec fn view(&self) -> ReadStepModel {
        match self {
            ReadStep::Override(k) => ReadStepModel::Override(k@),
            ReadStep::Folder(p) => ReadStepModel::Folder(p@),
            ReadStep::Archive(a, e) => ReadStepModel::Archive(*a as int, *e as int),
        }
    }
}

pub open spec fn read_step_views(steps: Seq<ReadStep>) -> Seq<ReadStepModel> {
    steps.map_values(|st: ReadStep| st@)
}

/// The normalised keys a path is looked up under, in order: the path
/// itself, then the path with each fallback suffix appended.
pub open spec fn fallback_keys(path: Seq<char>, suffixes: Seq<Seq<char>>) -> Seq<Seq<char>> {
    seq![normalised(path)] + suffixes.map_values(|sfx: Seq<char>| normalised(path + sfx))
}

/// For each key that some folder holds, in key order, the file of the
/// folder added last that holds it.
pub open spec fn folder_steps(folders: Seq<FolderIndex>, keys: Seq<Seq<char>>) -> Seq<ReadStepModel>
    decreases keys.len(),
{
    if keys.len() == 0 {
        Seq::empty()
    } else {
        let prev = folder_steps(folders, keys.drop_last());
        let k = keys.last();
        match last_folder_with(folders, k) {
            Some(i) => prev.push(ReadStepModel::Folder(folders[i].index.map()[k]@)),
            None => prev,
        }
    }
}

/// For each key that some archive holds, in key order, the entry of the
/// archive loaded last that holds it.
pub open spec fn archive_steps(archives: Seq<ArchiveIndex>, keys: Seq<Seq<char>>) -> Seq<ReadStepModel>
    decreases keys.len(),
{
    if keys.len() == 0 {
        Seq::empty()
    } else {
        let prev = archive_steps(archives, keys.drop_last());
        let k = keys.last();
        match last_archive_with(archives, k) {
            Some(i) => prev.push(ReadStepModel::Archive(i, archives[i].index.map()[k] as int)),
            None => prev,
        }
    }
}

/// The reads that resolving under `keys` tries, first success wins: every
/// key in the override directory, then every key in the folder layers
/// (later added wins), then every key in the archives (later loaded wins).
pub open spec fn read_plan_for(archives: Seq<ArchiveIndex>, folders: Seq<FolderIndex>, keys: Seq<Seq<char>>) -> Seq<
    ReadStepModel,
> {
    keys.map_values(|k: Seq<char>| ReadStepModel::Override(k)) + folder_steps(folders, keys) + archive_steps(
        archives,
        keys,
    )
}

/// The last folder found for a key holds it.
proof fn lemma_last_folder_holds(folders: Seq<FolderIndex>, key: Seq<char>)
    ensures
        match last_folder_with(folders, key) {
            Some(i) => 0 <= i < folders.len() && folders[i].index.map().contains_key(key),
            None => true,
        },
    decreases folders.len(),
{
    if folders.len() > 0 && !folders.last().index.map().contains_key(key) {
        lemma_last_folder_holds(folders.drop_last(), key);
    }
}

/// The last archive found for a key holds it.
proof fn lemma_last_archive_holds(archives: Seq<ArchiveIndex>, key: Seq<char>)
    ensures
        match last_archive_with(archives, key) {
            Some(i) => 0 <= i < archives.len() && archives[i].index.map().contains_key(key),
            None => true,
        },
    decreases archives.len(),
{
    if archives.len() > 0 && !archives.last().index.map().contains_key(key) {
        lemma_last_archive_holds(archives.drop_last(), key);
    }
}

/// The normalised lookup keys of a path and its suffixed variants.
fn fallback_key_list(path: &str, suffixes: &Vec<String>) -> (r: Vec<String>)
    ensures
        string_views(r@) == fallback_keys(path@, string_views(suffixes@)),
{
    let mut r: Vec<String> = Vec::new();
    r.push(normalise_path(path));
    let base = chars_of(path);
    let ghost sv = string_views(suffixes@);
    let ghost tail = sv.map_values(|sfx: Seq<char>| normalised(path@ + sfx));
    let mut i: usize = 0;
    while i < suffixes.len()
        invariant
            i <= suffixes.len(),
            base@ == path@,
            sv == string_views(suffixes@),
            tail == sv.map_values(|sfx: Seq<char>| normalised(path@ + sfx)),
            string_views(r@) == seq![normalised(path@)] + tail.take(i as int),
        decreases suffixes.len() - i,
    {
        let ghost before = r@;
        let joined = concat_str(base.as_slice(), suffixes[i].as_str());
        let joined_s = string_from_chars(joined.as_slice());
        let key = normalise_path(joined_s.as_str());
        r.push(key);
        proof {
            assert(string_views(r@) =~= string_views(before).push(key@));
            assert(tail[i as int] == normalised(path@ + sv[i as int]));
            assert(tail.take(i + 1) =~= tail.take(i as int).push(tail[i as int]));
            assert(string_views(r@) =~= seq![normalised(path@)] + tail.take(i + 1));
        }
        i = i + 1;
    }
    proof {
        assert(tail.take(suffixes.len() as int) =~= tail);
    }
    r
}

/// The paths tried for a data file, in order: the path itself, the packed
/// form with `.xmb` appended, and, for a `.xml` path, `.xml` replaced by
/// `.xmb`.
pub open spec fn data_candidates(path: Seq<char>) -> Seq<Seq<char>> {
    if has_suffix(path, ".xml"@) {
        seq![path, path + ".xmb"@, strip_suffix_or_self(path, ".xml"@) + ".xmb"@]
    } else {
        seq![path, path + ".xmb"@]
    }
}

/// The first candidate that resolves in the archives.
pub open spec fn first_era_provenance(archives: Seq<ArchiveIndex>, cands: Seq<Seq<char>>) -> Option<
    (Seq<char>, Seq<char>),
>
    decreases cands.len(),
{
    if cands.len() == 0 {
        None
    } else {
        match era_provenance(archives, cands[0]) {
            Some(p) => Some(p),
            None => first_era_provenance(archives, cands.drop_first()),
        }
    }
}

/// The label under which a written file is stored: the archive the path
/// resolves from, or `_new` for a file no archive has.
pub open spec fn write_label(archives: Seq<ArchiveIndex>, game_path: Seq<char>) -> Seq<char> {
    match first_era_provenance(archives, data_candidates(normalised(game_path))) {
        Some(p) => p.0,
        None => "_new"@,
    }
}

impl LayerStack {
    /// Every index is well formed.
    pub open spec fn wf(&self) -> bool {
        &&& forall|i: int| 0 <= i < self.archives@.len() ==> (#[trigger] self.archives@[i]).index.wf()
        &&& forall|i: int| 0 <= i < self.folders@.len() ==> (#[trigger] self.folders@[i]).index.wf()
    }

    /// An empty stack.
    pub fn new() -> (r: Self)
        ensures
            r.wf(),
            r.archives@.len() == 0,
            r.folders@.len() == 0,
    {
        LayerStack { archives: Vec::new(), folders: Vec::new() }
    }

    /// Number of archives currently loaded.
    pub fn era_count(&self) -> (r: usize)
        ensures
            r == self.archives@.len(),
    {
        self.archives.len()
    }

    /// Each archive's label and the number of files it indexes, in load
    /// order.
    pub fn summary(&self) -> (r: Vec<(String, usize)>)
        requires
            self.wf(),
        ensures
            r@.len() == self.archives@.len(),
            forall|i: int|
                0 <= i < r@.len() ==> (#[trigger] r@[i]).0@ == self.archives@[i].label@ && r@[i].1
                    == self.archives@[i].index.key_seq().len(),
    {
        let mut r: Vec<(String, usize)> = Vec::new();
        let mut i: usize = 0;
        while i < self.archives.len()
            invariant
                i <= self.archives@.len(),
                self.wf(),
                r@.len() == i,
                forall|j: int|
                    0 <= j < i ==> (#[trigger] r@[j]).0@ == self.archives@[j].label@ && r@[j].1
                        == self.archives@[j].index.key_seq().len(),
            decreases self.archives@.len() - i,
        {
            let a = &self.archives[i];
            r.push((copy_string(a.label.as_str()), a.index.len()));
            i = i + 1;
        }
        r
    }

    /// Each archive's label and the normalised paths of its files, sorted,
    /// in load order.
    pub fn files_per_archive(&self) -> (r: Vec<(String, Vec<String>)>)
        ensures
            r@.len() == self.archives@.len(),
            forall|i: int|
                0 <= i < r@.len() ==> (#[trigger] r@[i]).0@ == self.archives@[i].label@ && string_views(r@[i].1@)
                    == self.archives@[i].index.key_seq(),
    {
        let mut r: Vec<(String, Vec<String>)> = Vec::new();
        let mut i: usize = 0;
        while i < self.archives.len()
            invariant
                i <= self.archives@.len(),
                r@.len() == i,
                forall|j: int|
                    0 <= j < i ==> (#[trigger] r@[j]).0@ == self.archives@[j].label@ && string_views(r@[j].1@)
                        == self.archives@[j].index.key_seq(),
            decreases self.archives@.len() - i,
        {
            let a = &self.archives[i];
            let keys = a.index.keys();
            let mut files: Vec<String> = Vec::new();
            let mut k: usize = 0;
            while k < keys.len()
                invariant
                    k <= keys@.len(),
                    string_views(keys@) == a.index.key_seq(),
                    string_views(files@) == string_views(keys@).take(k as int),
                decreases keys@.len() - k,
            {
                let ghost prev = string_views(files@);
                files.push(copy_string(keys[k].as_str()));
                proof {
                    assert(string_views(files@) =~= prev.push(keys@[k as int]@));
                    assert(string_views(keys@).take(k + 1) =~= string_views(keys@).take(k as int).push(
                        keys@[k as int]@,
                    ));
                }
                k = k + 1;
            }
            proof {
                assert(string_views(keys@).take(keys@.len() as int) =~= string_views(keys@));
            }
            r.push((copy_string(a.label.as_str()), files));
            i = i + 1;
        }
        r
    }

    /// Number of folder layers currently loaded.
    pub fn folder_count(&self) -> (r: usize)
        ensures
            r == self.folders@.len(),
    {
        self.folders.len()
    }

    /// The archive holding `key` that was loaded last, if any.
    pub fn archive_for(&self, key: &String) -> (r: Option<usize>)
        requires
            self.wf(),
        ensures
            match r {
                Some(i) => i < self.archives@.len() && last_archive_with(self.archives@, key@) == Some(i as int),
                None => last_archive_with(self.archives@, key@) is None,
            },
    {
        let mut i: usize = self.archives.len();
        assert(self.archives@.take(self.archives@.len() as int) =~= self.archives@);
        while i > 0
            invariant
                i <= self.archives@.len(),
                self.wf(),
                last_archive_with(self.archives@, key@) == last_archive_with(self.archives@.take(i as int), key@),
            decreases i,
        {
            let ghost t = self.archives@.take(i as int);
            assert(t.drop_last() =~= self.archives@.take(i - 1));
            assert(t.last() == self.archives@[i - 1]);
            if self.archives[i - 1].index.contains_key(key) {
                return Some(i - 1);
            }
            i = i - 1;
        }
        None
    }

    /// Adds an archive on top of the stack (highest priority).
    pub fn push_archive(&mut self, archive: ArchiveIndex)
        requires
            old(self).wf(),
            archive.index.wf(),
        ensures
            final(self).wf(),
            final(self).archives@ == old(self).archives@.push(archive),
            final(self).folders@ == old(self).folders@,
    {
        self.archives.push(archive);
    }

    /// Removes the archive on top of the stack, giving its label; an empty
    /// stack is left as it is.
    pub fn pop_archive(&mut self) -> (r: Option<String>)
        requires
            old(self).wf(),
        ensures
            final(self).wf(),
            final(self).folders@ == old(self).folders@,
            old(self).archives@.len() > 0 ==> r == Some(old(self).archives@.last().label) && final(self).archives@
                == old(self).archives@.drop_last(),
            old(self).archives@.len() == 0 ==> r is None && final(self).archives@ == old(self).archives@,
    {
        match self.archives.pop() {
            Some(a) => Some(a.label),
            None => None,
        }
    }

    /// Adds a folder layer on top of the others (highest priority).
    pub fn push_folder(&mut self, folder: FolderIndex)
        requires
            old(self).wf(),
            folder.index.wf(),
        ensures
            final(self).wf(),
            final(self).folders@ == old(self).folders@.push(folder),
            final(self).archives@ == old(self).archives@,
    {
        self.folders.push(folder);
    }

    /// The archive loaded last that holds `path` (normalised), with the
    /// entry it holds it under.
    pub fn archive_entry(&self, path: &str) -> (r: Option<(usize, usize)>)
        requires
            self.wf(),
        ensures
            match last_archive_with(self.archives@, normalised(path@)) {
                Some(i) => r == Some((i as usize, self.archives@[i].index.map()[normalised(path@)])),
                None => r is None,
            },
    {
        let key = normalise_path(path);
        match self.archive_for(&key) {
            Some(a) => {
                proof {
                    lemma_last_archive_holds(self.archives@, key@);
                }
                let entry = *self.archives[a].index.get(&key).unwrap();
                Some((a, entry))
            },
            None => None,
        }
    }

    /// The reads that resolving `path` tries, in order, with `suffixes` as
    /// fallback endings: the path and each suffixed variant in the override
    /// directory, then in the folder layers, then in the archives. The first
    /// read that succeeds gives the file.
    pub fn read_plan(&self, path: &str, suffixes: &Vec<String>) -> (r: Vec<ReadStep>)
        requires
            self.wf(),
        ensures
            read_step_views(r@) == read_plan_for(
                self.archives@,
                self.folders@,
                fallback_keys(path@, string_views(suffixes@)),
            ),
    {
        let keys = fallback_key_list(path, suffixes);
        let ghost kv = string_views(keys@);
        let mut r: Vec<ReadStep> = Vec::new();
        let mut i: usize = 0;
        while i < keys.len()
            invariant
                i <= keys.len(),
                kv == string_views(keys@),
                read_step_views(r@) == kv.take(i as int).map_values(|k: Seq<char>| ReadStepModel::Override(k)),
            decreases keys.len() - i,
        {
            let ghost before = r@;
            let step = ReadStep::Override(keys[i].clone());
            r.push(step);
            proof {
                assert(read_step_views(r@) =~= read_step_views(before).push(step@));
                assert(kv.take(i + 1).map_values(|k: Seq<char>| ReadStepModel::Override(k)) =~= kv.take(
                    i as int,
                ).map_values(|k: Seq<char>| ReadStepModel::Override(k)).push(ReadStepModel::Override(kv[i as int])));
            }
            i = i + 1;
        }
        let ghost overrides = read_step_views(r@);
        i = 0;
        while i < keys.len()
            invariant
                i <= keys.len(),
                self.wf(),
                kv == string_views(keys@),
                read_step_views(r@) == overrides + folder_steps(self.folders@, kv.take(i as int)),
            decreases keys.len() - i,
        {
            proof {
                assert(kv.take(i + 1).drop_last() =~= kv.take(i as int));
            }
            let ghost before = r@;
            match self.folder_for(&keys[i]) {
                Some(f) => {
                    proof {
                        lemma_last_folder_holds(self.folders@, kv[i as int]);
                    }
                    let file = self.folders[f].index.get(&keys[i]).unwrap();
                    let step = ReadStep::Folder(file.clone());
                    r.push(step);
                    proof {
                        assert(read_step_views(r@) =~= read_step_views(before).push(step@));
                    }
                },
                None => {},
            }
            proof {
                assert(read_step_views(r@) =~= overrides + folder_steps(self.folders@, kv.take(i + 1)));
            }
            i = i + 1;
        }
        let ghost with_folders = read_step_views(r@);
        i = 0;
        while i < keys.len()
            invariant
                i <= keys.len(),
                self.wf(),
                kv == string_views(keys@),
                read_step_views(r@) == with_folders + archive_steps(self.archives@, kv.take(i as int)),
            decreases keys.len() - i,
        {
            proof {
                assert(kv.take(i + 1).drop_last() =~= kv.take(i as int));
            }
            let ghost before = r@;
            match self.archive_for(&keys[i]) {
                Some(a) => {
                    proof {
                        lemma_last_archive_holds(self.archives@, kv[i as int]);
                    }
                    let entry = *self.archives[a].index.get(&keys[i]).unwrap();
                    let step = ReadStep::Archive(a, entry);
                    r.push(step);
                    proof {
                        assert(read_step_views(r@) =~= read_step_views(before).push(step@));
                    }
                },
                None => {},
            }
            proof {
                assert(read_step_views(r@) =~= with_folders + archive_steps(self.archives@, kv.take(i + 1)));
            }
            i = i + 1;
        }
        proof {
            assert(kv.take(keys.len() as int) =~= kv);
        }
        r
    }

    /// The folder holding `key` that was added last, if any.
    pub fn folder_for(&self, key: &String) -> (r: Option<usize>)
        requires
            self.wf(),
        ensures
            match r {
                Some(i) => i < self.folders@.len() && last_folder_with(self.folders@, key@) == Some(i as int),
                None => last_folder_with(self.folders@, key@) is None,
            },
    {
        let mut i: usize = self.folders.len();
        assert(self.folders@.take(self.folders@.len() as int) =~= self.folders@);
        while i > 0
            invariant
                i <= self.folders@.len(),
                self.wf(),
                last_folder_with(self.folders@, key@) == last_folder_with(self.folders@.take(i as int), key@),
            decreases i,
        {
            let ghost t = self.folders@.take(i as int);
            assert(t.drop_last() =~= self.folders@.take(i - 1));
            assert(t.last() == self.folders@[i - 1]);
            if self.folders[i - 1].index.contains_key(key) {
                return Some(i - 1);
            }
            i = i - 1;
        }
        None
    }

    /// Which archive `path` resolves from, ignoring overrides and folders.
    pub fn provenance_era_only(&self, path: &str) -> (r: Option<Provenance>)
        requires
            self.wf(),
        ensures
            match r {
                Some(p) => era_provenance(self.archives@, path@) == Some((p.era_label@, p.game_path@)),
                None => era_provenance(self.archives@, path@) is None,
            },
    {
        let key = normalise_path(path);
        match self.archive_for(&key) {
            Some(i) => Some(Provenance { era_label: self.archives[i].label.clone(), game_path: key }),
            None => None,
        }
    }

    /// Which archive `path` resolves from: the override directory when it
    /// holds the file (label `<override>`), else the last archive that has it.
    pub fn provenance(&self, path: &str, overridden: bool) -> (r: Option<Provenance>)
        requires
            self.wf(),
        ensures
            overridden ==> r is Some && r.unwrap().era_label@ == "<override>"@ && r.unwrap().game_path@
                == normalised(path@),
            !overridden ==> match r {
                Some(p) => era_provenance(self.archives@, path@) == Some((p.era_label@, p.game_path@)),
                None => era_provenance(self.archives@, path@) is None,
            },
    {
        if overridden {
            Some(Provenance { era_label: String::from_str("<override>"), game_path: normalise_path(path) })
        } else {
            self.provenance_era_only(path)
        }
    }

    /// Which archive a data file resolves from, trying the packed forms as
    /// fallbacks, ignoring overrides and folders.
    pub fn provenance_data_era_only(&self, path: &str) -> (r: Option<Provenance>)
        requires
            self.wf(),
        ensures
            match r {
                Some(p) => first_era_provenance(self.archives@, data_candidates(path@)) == Some(
                    (p.era_label@, p.game_path@),
                ),
                None => first_era_provenance(self.archives@, data_candidates(path@)) is None,
            },
    {
        let cands = data_candidate_paths(path);
        let ghost cs = data_candidates(path@);
        proof {
            assert(cs.subrange(0, cs.len() as int) =~= cs);
        }
        let mut i: usize = 0;
        while i < cands.len()
            invariant
                i <= cands.len(),
                self.wf(),
                string_views(cands@) == cs,
                cs == data_candidates(path@),
                first_era_provenance(self.archives@, cs) == first_era_provenance(
                    self.archives@,
                    cs.subrange(i as int, cs.len() as int),
                ),
            decreases cands.len() - i,
        {
            let ghost rest = cs.subrange(i as int, cs.len() as int);
            assert(rest[0] == cands@[i as int]@);
            assert(rest.drop_first() =~= cs.subrange(i + 1, cs.len() as int));
            let cand = cands[i].as_str();
            assert(cand@ == cands@[i as int]@);
            let p = self.provenance_era_only(cand);
            if p.is_some() {
                proof {
                    assert(rest.len() > 0);
                    assert(era_provenance(self.archives@, rest[0]) is Some);
                    assert(first_era_provenance(self.archives@, rest) == era_provenance(self.archives@, rest[0]));
                    assert(first_era_provenance(self.archives@, cs) == Some((p.unwrap().era_label@, p.unwrap().game_path@)));
                }
                return p;
            }
            i = i + 1;
        }
        None
    }

    /// The label under which a file written at `game_path` is stored.
    pub fn write_label(&self, game_path: &str) -> (r: String)
        requires
            self.wf(),
        ensures
            r@ == write_label(self.archives@, game_path@),
    {
        let key = normalise_path(game_path);
        match self.provenance_data_era_only(key.as_str()) {
            Some(p) => p.era_label,
            None => String::from_str("_new"),
        }
    }

    /// Whether any layer (the override directory when `overridden`, a
    /// folder or an archive) holds the exact path.
    pub fn holds_path(&self, path: &str, overridden: bool) -> (r: bool)
        requires
            self.wf(),
        ensures
            r == (overridden || last_folder_with(self.folders@, normalised(path@)) is Some || last_archive_with(
                self.archives@,
                normalised(path@),
            ) is Some),
    {
        if overridden {
            return true;
        }
        let key = normalise_path(path);
        self.folder_for(&key).is_some() || self.archive_for(&key).is_some()
    }
}

/// The paths tried for a data file, in order.
pub fn data_candidate_paths(path: &str) -> (r: Vec<String>)
    ensures
        string_views(r@) == data_candidates(path@),
{
    let chars = chars_of(path);
    let mut r: Vec<String> = Vec::new();
    r.push(string_from_chars(chars.as_slice()));
    r.push(string_from_chars(concat_str(chars.as_slice(), ".xmb").as_slice()));
    if ends_with_str(chars.as_slice(), ".xml") {
        let base = strip_suffix_str(chars.as_slice(), ".xml");
        r.push(string_from_chars(concat_str(base.as_slice(), ".xmb").as_slice()));
    }
    proof {
        assert(string_views(r@) =~= data_candidates(path@));
    }
    r
}

// ── Flattening the folder layers ────────────────────────────────────────

/// The folders that contribute `key`, in order: a folder holding it
/// contributes unless it is additive and a lower folder already did.
pub open spec fn providers(folders: Seq<FolderIndex>, key: Seq<char>) -> Seq<int>
    decreases folders.len(),
{
    if folders.len() == 0 {
        Seq::empty()
    } else {
        let prev = providers(folders.drop_last(), key);
        let f = folders.last();
        if f.index.map().contains_key(key) && !(f.rule == LoadRule::Additive && prev.len() > 0) {
            prev.push(folders.len() - 1)
        } else {
            prev
        }
    }
}

/// Some folder holds `key`, and it is not skipped.
pub open spec fn plan_key(folders: Seq<FolderIndex>, skip: Seq<Seq<char>>, key: Seq<char>) -> bool {
    &&& exists|i: int| 0 <= i < folders.len() && (#[trigger] folders[i]).index.map().contains_key(key)
    &&& !skip.contains(key)
}

/// One file of a flatten: its game path, the file to copy, and the labels of
/// the winning layer and of the layer it overrode, if any.
#[derive(Debug, Clone, PartialEq, Eq)]
pub struct FlattenItem {
    pub key: String,
    pub src: String,
    pub previous: Option<String>,
    pub winner: String,
}

/// The item is what the folders make of its key: the last contributor wins
/// and the one before it, if any, is overridden.
pub open spec fn item_matches(folders: Seq<FolderIndex>, item: FlattenItem) -> bool {
    let ps = providers(folders, item.key@);
    let w = ps.last();
    &&& ps.len() > 0
    &&& item.winner@ == folders[w].label@
    &&& folders[w].index.map().contains_key(item.key@)
    &&& item.src == folders[w].index.map()[item.key@]
    &&& if ps.len() > 1 {
        item.previous is Some && item.previous.unwrap()@ == folders[ps[ps.len() - 2]].label@
    } else {
        item.previous is None
    }
}

/// The keys of the items of a plan.
pub open spec fn item_keys(items: Seq<FlattenItem>) -> Seq<Seq<char>> {
    items.map_values(|it: FlattenItem| it.key@)
}

proof fn lemma_providers_range(folders: Seq<FolderIndex>, key: Seq<char>)
    ensures
        forall|j: int| 0 <= j < providers(folders, key).len() ==> 0 <= #[trigger] providers(folders, key)[j] < folders.len(),
        forall|j: int| 0 <= j < providers(folders, key).len() ==> folders[#[trigger] providers(folders, key)[j]].index.map().contains_key(key),
    decreases folders.len(),
{
    if folders.len() > 0 {
        lemma_providers_range(folders.drop_last(), key);
        let prev = providers(folders.drop_last(), key);
        assert forall|j: int| 0 <= j < prev.len() implies folders[#[trigger] prev[j]] == folders.drop_last()[prev[j]] by {}
    }
}

proof fn lemma_providers_nonempty(folders: Seq<FolderIndex>, key: Seq<char>, i: int)
    requires
        0 <= i < folders.len(),
        folders[i].index.map().contains_key(key),
    ensures
        providers(folders, key).len() > 0,
    decreases folders.len(),
{
    if i < folders.len() - 1 {
        assert(folders.drop_last()[i] == folders[i]);
        lemma_providers_nonempty(folders.drop_last(), key, i);
    }
}

impl LayerStack {
    /// The folders that contribute `key`, in order.
    fn providers_of(&self, key: &String) -> (r: Vec<usize>)
        requires
            self.wf(),
        ensures
            r@.len() == providers(self.folders@, key@).len(),
            forall|j: int| 0 <= j < r@.len() ==> r@[j] as int == #[trigger] providers(self.folders@, key@)[j],
    {
        let mut r: Vec<usize> = Vec::new();
        let mut i: usize = 0;
        while i < self.folders.len()
            invariant
                i <= self.folders@.len(),
                self.wf(),
                r@.len() == providers(self.folders@.take(i as int), key@).len(),
                forall|j: int| 0 <= j < r@.len() ==> r@[j] as int == #[trigger] providers(self.folders@.take(i as int), key@)[j],
            decreases self.folders@.len() - i,
        {
            let ghost t = self.folders@.take(i + 1);
            assert(t.drop_last() =~= self.folders@.take(i as int));
            assert(t.last() == self.folders@[i as int]);
            let f = &self.folders[i];
            if f.index.contains_key(key) && !(f.rule == LoadRule::Additive && r.len() > 0) {
                r.push(i);
            }
            i = i + 1;
        }
        assert(self.folders@.take(self.folders@.len() as int) =~= self.folders@);
        r
    }

    /// Plans a flatten of the folder layers: every path that a folder holds
    /// and `skip` does not, in order, with the layer whose file wins and the
    /// layer it overrides.
    pub fn plan_flatten(&self, skip: &Vec<String>) -> (r: Vec<FlattenItem>)
        requires
            self.wf(),
        ensures
            strictly_sorted(item_keys(r@)),
            forall|k: Seq<char>| #[trigger] item_keys(r@).contains(k) <==> plan_key(self.folders@, string_views(skip@), k),
            forall|i: int| 0 <= i < r@.len() ==> item_matches(self.folders@, #[trigger] r@[i]),
    {
        let ghost sk = string_views(skip@);
        // 1. The keys, sorted and unique.
        let mut all: Vec<String> = Vec::new();
        let mut f: usize = 0;
        while f < self.folders.len()
            invariant
                f <= self.folders@.len(),
                self.wf(),
                sk == string_views(skip@),
                strictly_sorted(string_views(all@)),
                forall|k: Seq<char>|
                    #[trigger] string_views(all@).contains(k) <==> (!sk.contains(k) && exists|i: int|
                        0 <= i < f && (#[trigger] self.folders@[i]).index.map().contains_key(k)),
            decreases self.folders@.len() - f,
        {
            let keys = self.folders[f].index.keys();
            proof {
                self.folders@[f as int].index.lemma_keys();
            }
            let mut j: usize = 0;
            while j < keys.len()
                invariant
                    j <= keys@.len(),
                    f < self.folders@.len(),
                    self.wf(),
                    sk == string_views(skip@),
                    string_views(keys@) == self.folders@[f as int].index.key_seq(),
                    forall|k: Seq<char>|
                        self.folders@[f as int].index.map().contains_key(k) <==> self.folders@[f as int].index.key_seq().contains(k),
                    strictly_sorted(string_views(all@)),
                    forall|k: Seq<char>|
                        #[trigger] string_views(all@).contains(k) <==> (!sk.contains(k) && ((exists|i: int|
                            0 <= i < f && (#[trigger] self.folders@[i]).index.map().contains_key(k)) || string_views(
                            keys@,
                        ).take(j as int).contains(k))),
                decreases keys@.len() - j,
            {
                let ghost before = string_views(all@);
                let ghost kj = keys@[j as int]@;
                assert(string_views(keys@)[j as int] == kj);
                let skipped = contains_string(skip, &keys[j]);
                if !skipped {
                    set_insert(&mut all, keys[j].clone());
                }
                proof {
                    let tk = string_views(keys@).take(j as int);
                    let tk1 = string_views(keys@).take(j + 1);
                    assert(tk1 =~= tk.push(kj));
                    assert forall|k: Seq<char>| tk1.contains(k) <==> (tk.contains(k) || k == kj) by {
                        if tk1.contains(k) {
                            let x = choose|x: int| 0 <= x < tk1.len() && #[trigger] tk1[x] == k;
                            if x < j {
                                assert(tk[x] == k);
                            }
                        }
                        if tk.contains(k) {
                            let x = choose|x: int| 0 <= x < tk.len() && #[trigger] tk[x] == k;
                            assert(tk1[x] == k);
                        }
                        if k == kj {
                            assert(tk1[j as int] == k);
                        }
                    }
                    assert forall|k: Seq<char>| #[trigger] string_views(all@).contains(k) == (before.contains(k) || (!skipped && k == kj)) by {
                        assert(string_views(all@).contains(k) == string_views(all@).to_set().contains(k));
                        assert(before.contains(k) == before.to_set().contains(k));
                    }
                }
                j = j + 1;
            }
            proof {
                assert(string_views(keys@).take(keys@.len() as int) =~= string_views(keys@));
                assert forall|k: Seq<char>| #[trigger] string_views(all@).contains(k) <==> (!sk.contains(k) && exists|i: int|
                    0 <= i < f + 1 && (#[trigger] self.folders@[i]).index.map().contains_key(k)) by {
                    if exists|i: int| 0 <= i < f + 1 && (#[trigger] self.folders@[i]).index.map().contains_key(k) {
                        let i = choose|i: int| 0 <= i < f + 1 && (#[trigger] self.folders@[i]).index.map().contains_key(k);
                        if i == f {
                            assert(self.folders@[f as int].index.key_seq().contains(k));
                        }
                    }
                    if string_views(keys@).contains(k) {
                        assert(self.folders@[f as int].index.map().contains_key(k));
                    }
                }
            }
            f = f + 1;
        }
        // 2. One item per key.
        let mut out: Vec<FlattenItem> = Vec::new();
        let mut i: usize = 0;
        while i < all.len()
            invariant
                i <= all@.len(),
                self.wf(),
                out@.len() == i,
                forall|x: int| 0 <= x < i ==> (#[trigger] out@[x]).key@ == all@[x]@,
                forall|x: int| 0 <= x < i ==> item_matches(self.folders@, #[trigger] out@[x]),
                forall|k: Seq<char>|
                    #[trigger] string_views(all@).contains(k) <==> (!sk.contains(k) && exists|i: int|
                        0 <= i < self.folders@.len() && (#[trigger] self.folders@[i]).index.map().contains_key(k)),
            decreases all@.len() - i,
        {
            let key = &all[i];
            let ghost kv = key@;
            assert(string_views(all@)[i as int] == kv);
            assert(string_views(all@).contains(kv));
            let ps = self.providers_of(key);
            proof {
                lemma_providers_range(self.folders@, kv);
                let x = choose|x: int| 0 <= x < self.folders@.len() && (#[trigger] self.folders@[x]).index.map().contains_key(kv);
                lemma_providers_nonempty(self.folders@, kv, x);
            }
            let n = ps.len();
            let w = ps[n - 1];
            let ghost wi = providers(self.folders@, kv)[n - 1];
            assert(w as int == wi);
            let src = match self.folders[w].index.get(key) {
                Some(p) => p.clone(),
                None => {
                    assert(false);
                    String::new()
                },
            };
            let previous = if n > 1 {
                let pi = ps[n - 2];
                assert(pi as int == providers(self.folders@, kv)[n - 2]);
                Some(self.folders[pi].label.clone())
            } else {
                None
            };
            let item = FlattenItem { key: key.clone(), src, previous, winner: self.folders[w].label.clone() };
            proof {
                assert(item.key@ == kv);
            }
            out.push(item);
            i = i + 1;
        }
        proof {
            assert(item_keys(out@) =~= string_views(all@));
        }
        out
    }

    /// The files that the folder layers hold for `path`, in load order: each
    /// layer's file for the path, or else for its packed `.xmb` form.
    pub fn folder_sources(&self, path: &str) -> (r: Vec<(String, String)>)
        requires
            self.wf(),
        ensures
            r@ == folder_files(self.folders@, normalised(path@)),
    {
        let key = normalise_path(path);
        let key_xmb = string_from_chars(concat_str(chars_of(key.as_str()).as_slice(), ".xmb").as_slice());
        let mut r: Vec<(String, String)> = Vec::new();
        let mut i: usize = 0;
        while i < self.folders.len()
            invariant
                i <= self.folders@.len(),
                self.wf(),
                key@ == normalised(path@),
                key_xmb@ == normalised(path@) + ".xmb"@,
                r@ == folder_files(self.folders@.take(i as int), normalised(path@)),
            decreases self.folders@.len() - i,
        {
            let ghost t = self.folders@.take(i + 1);
            assert(t.drop_last() =~= self.folders@.take(i as int));
            assert(t.last() == self.folders@[i as int]);
            let layer = &self.folders[i];
            match layer.index.get(&key) {
                Some(p) => {
                    r.push((layer.label.clone(), p.clone()));
                },
                None => match layer.index.get(&key_xmb) {
                    Some(p) => {
                        r.push((layer.label.clone(), p.clone()));
                    },
                    None => {},
                },
            }
            i = i + 1;
        }
        assert(self.folders@.take(self.folders@.len() as int) =~= self.folders@);
        r
    }
}

/// Each folder's file for `key` (or else for its packed form), with the
/// folder's label, in load order.
pub open spec fn folder_files(folders: Seq<FolderIndex>, key: Seq<char>) -> Seq<(String, String)>
    decreases folders.len(),
{
    if folders.len() == 0 {
        Seq::empty()
    } else {
        let prev = folder_files(folders.drop_last(), key);
        let f = folders.last();
        if f.index.map().contains_key(key) {
            prev.push((f.label, f.index.map()[key]))
        } else if f.index.map().contains_key(key + ".xmb"@) {
            prev.push((f.label, f.index.map()[key + ".xmb"@]))
        } else {
            prev
        }
    }
}

/// A folder layer offers a path when it holds the path itself or its packed
/// `.xmb` form.
pub open spec fn offers(f: FolderIndex, key: Seq<char>) -> bool {
    f.index.map().contains_key(key) || f.index.map().contains_key(key + ".xmb"@)
}

/// The file a folder offers for a path: the unpacked one when it holds
/// both.
pub open spec fn offered_file(f: FolderIndex, key: Seq<char>) -> String {
    if f.index.map().contains_key(key) {
        f.index.map()[key]
    } else {
        f.index.map()[key + ".xmb"@]
    }
}

/// What the folder layers hold for a path: every layer that holds the path
/// or its packed `.xmb` form, in load order and none left out, each with
/// its label and its file (the unpacked one when it holds both).
pub proof fn law_folder_sources_list_every_offering_layer(folders: Seq<FolderIndex>, key: Seq<char>)
    ensures
        folder_files(folders, key) == folders.filter(|f: FolderIndex| offers(f, key)).map_values(
            |f: FolderIndex| (f.label, offered_file(f, key)),
        ),
    decreases folders.len(),
{
    reveal(Seq::filter);
    if folders.len() > 0 {
        law_folder_sources_list_every_offering_layer(folders.drop_last(), key);
        let pred = |f: FolderIndex| offers(f, key);
        let g = |f: FolderIndex| (f.label, offered_file(f, key));
        let prev = folders.drop_last().filter(pred);
        if pred(folders.last()) {
            assert(folders.filter(pred) == prev.push(folders.last()));
            assert(prev.push(folders.last()).map_values(g) =~= prev.map_values(g).push(g(folders.last())));
        } else {
            assert(folders.filter(pred) == prev);
        }
    }
}

impl FlattenReport {
    /// Records a file that was byte-identical to the base game and skipped.
    pub fn record_skipped(&mut self)
        requires
            old(self).skipped_vanilla < usize::MAX,
        ensures
            final(self).skipped_vanilla == old(self).skipped_vanilla + 1,
            final(self).files_written@ == old(self).files_written@,
            final(self).overwrites@ == old(self).overwrites@,
    {
        self.skipped_vanilla = self.skipped_vanilla + 1;
    }

    /// Records the file of `item` written at `dest`, and the overwrite when
    /// the item overrode a lower layer.
    pub fn record_written(&mut self, item: FlattenItem, dest: String)
        ensures
            final(self).files_written@ == old(self).files_written@.push(dest),
            final(self).skipped_vanilla == old(self).skipped_vanilla,
            match item.previous {
                Some(p) => final(self).overwrites@ == old(self).overwrites@.push(
                    Overwrite { game_path: item.key, previous: p, winner: item.winner },
                ),
                None => final(self).overwrites@ == old(self).overwrites@,
            },
    {
        self.files_written.push(dest);
        match item.previous {
            Some(p) => {
                self.overwrites.push(Overwrite { game_path: item.key, previous: p, winner: item.winner });
            },
            None => {},
        }
    }
}

// ── Written paths ───────────────────────────────────────────────────────

/// The path under which a document is written packed: the normalised path,
/// with `.xmb` appended unless it already ends so.
pub open spec fn xmb_write_path(game_path: Seq<char>) -> Seq<char> {
    let key = normalised(game_path);
    if has_suffix(key, ".xmb"@) {
        key
    } else {
        key + ".xmb"@
    }
}

/// `s` with every trailing `suf` removed.
pub open spec fn trim_end_all(s: Seq<char>, suf: Seq<char>) -> Seq<char>
    decreases s.len(),
{
    if suf.len() > 0 && has_suffix(s, suf) {
        trim_end_all(s.subrange(0, s.len() - suf.len()), suf)
    } else {
        s
    }
}

/// The path under which a document is written as XML: the normalised path
/// without any trailing `.xmb`, with `.xml` appended unless it already ends
/// so.
pub open spec fn xml_write_path(game_path: Seq<char>) -> Seq<char> {
    let key = normalised(game_path);
    let base = if has_suffix(key, ".xmb"@) {
        trim_end_all(key, ".xmb"@)
    } else {
        key
    };
    if has_suffix(base, ".xml"@) {
        base
    } else {
        base + ".xml"@
    }
}

/// The path under which a document is written packed.
pub fn xmb_path_for(game_path: &str) -> (r: String)
    ensures
        r@ == xmb_write_path(game_path@),
{
    let key = chars_of(normalise_path(game_path).as_str());
    if ends_with_str(key.as_slice(), ".xmb") {
        string_from_chars(key.as_slice())
    } else {
        string_from_chars(concat_str(key.as_slice(), ".xmb").as_slice())
    }
}

/// `v` with every trailing `.xmb` removed.
fn trim_xmb(v: Vec<char>) -> (r: Vec<char>)
    ensures
        r@ == trim_end_all(v@, ".xmb"@),
    decreases v@.len(),
{
    if ends_with_str(v.as_slice(), ".xmb") {
        proof {
            reveal_strlit(".xmb");
        }
        let shorter = strip_suffix_str(v.as_slice(), ".xmb");
        trim_xmb(shorter)
    } else {
        proof {
            reveal_strlit(".xmb");
        }
        v
    }
}

/// The path under which a document is written as XML.
pub fn xml_path_for(game_path: &str) -> (r: String)
    ensures
        r@ == xml_write_path(game_path@),
{
    let key = chars_of(normalise_path(game_path).as_str());
    let base = if ends_with_str(key.as_slice(), ".xmb") {
        trim_xmb(key)
    } else {
        key
    };
    if ends_with_str(base.as_slice(), ".xml") {
        string_from_chars(base.as_slice())
    } else {
        string_from_chars(concat_str(base.as_slice(), ".xml").as_slice())
    }
}

/// The components of a game path, split at its backslashes: the parts of a
/// path on disk.
pub fn game_path_components(game_path: &str) -> (r: Vec<String>)
    ensures
        string_views(r@) == split_on(game_path@, '\\'),
{
    split_string(game_path, '\\')
}

// ── Laws of the layering ────────────────────────────────────────────────

/// The last loaded archive wins: an archive pushed on top of the stack that
/// holds a key is where the key resolves; one that lacks it changes nothing.
pub proof fn law_last_loaded_archive_wins(archives: Seq<ArchiveIndex>, a: ArchiveIndex, key: Seq<char>)
    ensures
        a.index.map().contains_key(key) ==> last_archive_with(archives.push(a), key) == Some(archives.len() as int),
        !a.index.map().contains_key(key) ==> last_archive_with(archives.push(a), key) == last_archive_with(
            archives,
            key,
        ),
{
    assert(archives.push(a).drop_last() =~= archives);
}

/// A later folder wins: a folder added on top that holds a key is where the
/// key resolves; one that lacks it changes nothing.
pub proof fn law_last_added_folder_wins(folders: Seq<FolderIndex>, f: FolderIndex, key: Seq<char>)
    ensures
        f.index.map().contains_key(key) ==> last_folder_with(folders.push(f), key) == Some(folders.len() as int),
        !f.index.map().contains_key(key) ==> last_folder_with(folders.push(f), key) == last_folder_with(folders, key),
{
    assert(folders.push(f).drop_last() =~= folders);
}

/// An additive layer never overrides: when a lower folder already
/// contributes a key, an additive folder is not among its contributors.
pub proof fn law_additive_layer_never_overrides(folders: Seq<FolderIndex>, key: Seq<char>, i: int, j: int)
    requires
        0 <= j < i < folders.len(),
        folders[i].rule == LoadRule::Additive,
        folders[j].index.map().contains_key(key),
    ensures
        !providers(folders, key).contains(i),
    decreases folders.len(),
{
    lemma_providers_range(folders, key);
    if i < folders.len() - 1 {
        assert(folders.drop_last()[i] == folders[i]);
        assert(folders.drop_last()[j] == folders[j]);
        law_additive_layer_never_overrides(folders.drop_last(), key, i, j);
        let prev = providers(folders.drop_last(), key);
        if providers(folders, key).contains(i) {
            let x = choose|x: int| 0 <= x < providers(folders, key).len() && providers(folders, key)[x] == i;
            if x < prev.len() {
                assert(prev[x] == i);
            }
        }
    } else {
        assert(folders.drop_last()[j] == folders[j]);
        lemma_providers_nonempty(folders.drop_last(), key, j);
        let prev = providers(folders.drop_last(), key);
        lemma_providers_range(folders.drop_last(), key);
        if providers(folders, key).contains(i) {
            let x = choose|x: int| 0 <= x < providers(folders, key).len() && providers(folders, key)[x] == i;
            assert(prev[x] == i);
        }
    }
}

/// A replacing layer that holds a key wins it: the top folder, when it
/// replaces and holds the key, is its last contributor.
pub proof fn law_replace_layer_wins(folders: Seq<FolderIndex>, key: Seq<char>)
    requires
        folders.len() > 0,
        folders.last().rule == LoadRule::Replace,
        folders.last().index.map().contains_key(key),
    ensures
        providers(folders, key).last() == folders.len() - 1,
{
}

} // verus!
