//! Scenario descriptors and the paths derived from them.
//!
//! Scenarios are described in `scenariodescriptions.xml.xmb`, which lists all
//! available maps. Each descriptor names its `.scn` file; the engine derives
//! the scene path and the terrain paths (`.xtd`, `.xtt`) from it.
use vstd::prelude::*;

use crate::strset::{str_lt, SortedMap};
use crate::text::{
    lemma_seq_lt_irreflexive, lemma_seq_lt_total, lemma_seq_lt_transitive, seq_lt,
    chars_of, concat_chars, concat_str, ends_with_str, has_suffix, replace_char, replace_chars,
    string_from_chars, strip_suffix_or_self, strip_suffix_str,
};

verus! {

/// A single scenario descriptor from `scenariodescriptions.xml`.
#[derive(Debug, Clone, Default, PartialEq, Eq)]
pub struct ScenarioDescriptor {
    /// Map file path, such as `CampaignUNSC\design\x\x.scn`.
    pub file: String,
    /// Scenario type: `Skirmish`, `Campaign`, `Multiplayer`.
    pub scenario_type: String,
    /// Maximum number of players.
    pub max_players: u32,
    /// Display name string ID.
    pub name_string_id: Option<u32>,
    /// Info/rollover string ID.
    pub info_string_id: Option<u32>,
    /// Map image path.
    pub map_name: Option<String>,
    /// Loading screen identifier.
    pub loading_screen: Option<String>,
}

/// The part of `s` after its last `\` or `/` (all of it when it has none).
pub open spec fn last_component(s: Seq<char>) -> Seq<char>
    decreases s.len(),
{
    if s.len() == 0 {
        s
    } else if s.last() == '\\' || s.last() == '/' {
        Seq::empty()
    } else {
        last_component(s.drop_last()).push(s.last())
    }
}

/// The short name of a scenario file: its last component without `.scn`,
/// or the whole file path when the last component does not end in `.scn`.
pub open spec fn scenario_name(file: Seq<char>) -> Seq<char> {
    let last = last_component(file);
    if has_suffix(last, ".scn"@) {
        strip_suffix_or_self(last, ".scn"@)
    } else {
        file
    }
}

/// The scene path of a scenario file: separators turned to backslashes,
/// under `scenario\`.
pub open spec fn scn_path_of(file: Seq<char>) -> Seq<char> {
    "scenario\\"@ + replace_char(file, '/', '\\')
}

/// The base of the terrain paths: the file without `.scn`, separators turned
/// to backslashes, under `scenario\`; none when the file does not end in
/// `.scn`.
pub open spec fn terrain_base_of(file: Seq<char>) -> Option<Seq<char>> {
    if has_suffix(file, ".scn"@) {
        Some("scenario\\"@ + replace_char(strip_suffix_or_self(file, ".scn"@), '/', '\\'))
    } else {
        None
    }
}

/// The start of the last component of `s`.
fn last_component_start(s: &Vec<char>) -> (r: usize)
    ensures
        r <= s@.len(),
        s@.subrange(r as int, s@.len() as int) == last_component(s@),
{
    let mut i: usize = s.len();
    assert(s@.subrange(s@.len() as int, s@.len() as int) =~= Seq::<char>::empty());
    assert(s@.subrange(0, s@.len() as int) =~= s@);
    assert(last_component(s@) + Seq::<char>::empty() =~= last_component(s@));
    while i > 0 && s[i - 1] != '\\' && s[i - 1] != '/'
        invariant
            i <= s@.len(),
            last_component(s@) == last_component(s@.subrange(0, i as int)) + s@.subrange(i as int, s@.len() as int),
        decreases i,
    {
        let ghost pre = s@.subrange(0, i as int);
        assert(pre.drop_last() =~= s@.subrange(0, i - 1));
        assert(pre.last() == s@[i - 1]);
        assert(s@.subrange(i - 1, s@.len() as int) =~= seq![s@[i - 1]] + s@.subrange(i as int, s@.len() as int));
        assert(last_component(pre) == last_component(pre.drop_last()).push(pre.last()));
        assert(last_component(pre.drop_last()).push(pre.last()) + s@.subrange(i as int, s@.len() as int)
            =~= last_component(pre.drop_last()) + s@.subrange(i - 1, s@.len() as int));
        i = i - 1;
    }
    proof {
        if i > 0 {
            let pre = s@.subrange(0, i as int);
            assert(pre.last() == s@[i - 1]);
            assert(last_component(pre) == Seq::<char>::empty());
        } else {
            assert(s@.subrange(0, 0) =~= Seq::<char>::empty());
        }
        assert(Seq::<char>::empty() + s@.subrange(i as int, s@.len() as int) =~= s@.subrange(i as int, s@.len() as int));
    }
    i
}

impl ScenarioDescriptor {
    /// A short name from the file path: the last component without its
    /// `.scn` extension.
    pub fn name(&self) -> (r: &str)
        ensures
            r@ == scenario_name(self.file@),
    {
        let chars = chars_of(self.file.as_str());
        let start = last_component_start(&chars);
        let n = chars.len();
        let last = crate::text::sub_chars(chars.as_slice(), start, n);
        if ends_with_str(last.as_slice(), ".scn") {
            proof {
                reveal_strlit(".scn");
            }
            self.file.as_str().substring_char(start, n - 4)
        } else {
            self.file.as_str()
        }
    }

    /// Path to this scenario's `.scn` file inside the asset source.
    pub fn scn_path(&self) -> (r: String)
        ensures
            r@ == scn_path_of(self.file@),
    {
        let replaced = replace_chars(chars_of(self.file.as_str()).as_slice(), '/', '\\');
        string_from_chars(concat_chars(chars_of("scenario\\").as_slice(), replaced.as_slice()).as_slice())
    }

    /// The base path of this scenario's terrain files.
    fn terrain_base(&self) -> (r: Option<Vec<char>>)
        ensures
            match r {
                Some(b) => terrain_base_of(self.file@) == Some(b@),
                None => terrain_base_of(self.file@) is None,
            },
    {
        let chars = chars_of(self.file.as_str());
        if !ends_with_str(chars.as_slice(), ".scn") {
            return None;
        }
        let base = strip_suffix_str(chars.as_slice(), ".scn");
        let replaced = replace_chars(base.as_slice(), '/', '\\');
        Some(concat_chars(chars_of("scenario\\").as_slice(), replaced.as_slice()))
    }

    /// Path to this scenario's terrain heightmap (`.xtd`) file.
    pub fn xtd_path(&self) -> (r: Option<String>)
        ensures
            match terrain_base_of(self.file@) {
                Some(b) => r is Some && r.unwrap()@ == b + ".xtd"@,
                None => r is None,
            },
    {
        match self.terrain_base() {
            Some(b) => Some(string_from_chars(concat_str(b.as_slice(), ".xtd").as_slice())),
            None => None,
        }
    }

    /// Path to this scenario's terrain textures (`.xtt`) file.
    pub fn xtt_path(&self) -> (r: Option<String>)
        ensures
            match terrain_base_of(self.file@) {
                Some(b) => r is Some && r.unwrap()@ == b + ".xtt"@,
                None => r is None,
            },
    {
        match self.terrain_base() {
            Some(b) => Some(string_from_chars(concat_str(b.as_slice(), ".xtt").as_slice())),
            None => None,
        }
    }
}

/// All scenario descriptors, keyed by their derived name.
pub struct ScenarioList {
    pub scenarios: SortedMap<ScenarioDescriptor>,
}

/// The descriptors as a list keeps them: each under its name, a later
/// descriptor replacing an earlier one of the same name, and those with an
/// empty name left out.
pub open spec fn descriptor_map(descs: Seq<ScenarioDescriptor>) -> Map<Seq<char>, ScenarioDescriptor>
    decreases descs.len(),
{
    if descs.len() == 0 {
        Map::empty()
    } else {
        let prev = descriptor_map(descs.drop_last());
        let n = scenario_name(descs.last().file@);
        if n.len() > 0 {
            prev.insert(n, descs.last())
        } else {
            prev
        }
    }
}

/// The descriptors are in order of their file paths (equal paths in any
/// order).
pub open spec fn sorted_by_file(ds: Seq<&ScenarioDescriptor>) -> bool {
    forall|a: int, b: int| 0 <= a < b < ds.len() ==> !seq_lt(#[trigger] ds[b].file@, #[trigger] ds[a].file@)
}

/// `p` lists each of `0..n` once.
pub open spec fn is_permutation(p: Seq<int>, n: int) -> bool {
    &&& p.len() == n
    &&& forall|a: int| 0 <= a < p.len() ==> 0 <= #[trigger] p[a] < n
    &&& forall|a: int, b: int| 0 <= a < b < p.len() ==> #[trigger] p[a] != #[trigger] p[b]
}

/// Inserting `x` after the descriptors whose file does not come after its
/// own keeps a list in order of file path.
proof fn lemma_insert_sorted(s: Seq<&ScenarioDescriptor>, x: &ScenarioDescriptor, pos: int)
    requires
        sorted_by_file(s),
        0 <= pos <= s.len(),
        forall|q: int| 0 <= q < pos ==> !seq_lt(x.file@, #[trigger] s[q].file@),
        pos < s.len() ==> seq_lt(x.file@, s[pos].file@),
    ensures
        sorted_by_file(s.insert(pos, x)),
{
    let t = s.insert(pos, x);
    s.insert_ensures(pos, x);
    assert forall|q: int| pos <= q < s.len() implies !seq_lt(#[trigger] s[q].file@, x.file@) by {
        if seq_lt(s[q].file@, x.file@) {
            lemma_seq_lt_transitive(s[q].file@, x.file@, s[pos].file@);
            if q == pos {
                lemma_seq_lt_irreflexive(s[q].file@);
            }
        }
    }
    assert forall|a: int, b: int| 0 <= a < b < t.len() implies !seq_lt(#[trigger] t[b].file@, #[trigger] t[a].file@) by {
        if b < pos {
            assert(t[a] == s[a] && t[b] == s[b]);
        }
        if a < pos && b > pos {
            assert(t[a] == s[a] && t[b] == s[b - 1]);
            if seq_lt(s[b - 1].file@, s[a].file@) {
                lemma_seq_lt_total(s[b - 1].file@, x.file@);
                if seq_lt(x.file@, s[b - 1].file@) {
                    lemma_seq_lt_transitive(x.file@, s[b - 1].file@, s[a].file@);
                }
            }
        }
        if a == pos && b > pos {
            assert(t[b] == s[b - 1]);
        }
        if a > pos {
            assert(t[a] == s[a - 1] && t[b] == s[b - 1]);
        }
    }
}

/// Inserting a new index `i` into a list of distinct indices below `i`
/// keeps them distinct and below `i + 1`.
proof fn lemma_insert_index(p: Seq<int>, pos: int, i: int)
    requires
        0 <= pos <= p.len(),
        0 <= i,
        forall|a: int| 0 <= a < p.len() ==> 0 <= #[trigger] p[a] < i,
        forall|a: int, b: int| 0 <= a < b < p.len() ==> #[trigger] p[a] != #[trigger] p[b],
    ensures
        forall|a: int| 0 <= a < p.len() + 1 ==> 0 <= #[trigger] p.insert(pos, i)[a] < i + 1,
        forall|a: int, b: int|
            0 <= a < b < p.len() + 1 ==> #[trigger] p.insert(pos, i)[a] != #[trigger] p.insert(pos, i)[b],
{
    let t = p.insert(pos, i);
    p.insert_ensures(pos, i);
    assert forall|a: int| 0 <= a < t.len() implies 0 <= #[trigger] t[a] < i + 1 by {
        if a == pos {
            assert(t[a] == i);
        }
        if a < pos {
            assert(t[a] == p[a]);
            assert(0 <= p[a] < i);
        }
        if a > pos {
            let a0 = a - 1;
            assert(t[a0 + 1] == p[a0]);
            assert(0 <= p[a0] < i);
        }
    }
    assert forall|a: int, b: int| 0 <= a < b < t.len() implies #[trigger] t[a] != #[trigger] t[b] by {
        let a0 = if a < pos { a } else { a - 1 };
        let b0 = if b < pos { b } else { b - 1 };
        if a != pos && b != pos {
            assert(t[a] == p[a0] && t[b] == p[b0]);
        }
        if a == pos {
            assert(t[b] == p[b - 1]);
        }
        if b == pos {
            assert(t[a] == p[a]);
        }
    }
}

impl ScenarioList {
    /// Every descriptor of the list, in order of file path: the order in
    /// which a loaded scenario is looked for.
    pub fn candidates_by_file(&self) -> (r: Vec<&ScenarioDescriptor>)
        requires
            self.scenarios.wf(),
        ensures
            sorted_by_file(r@),
            exists|p: Seq<int>|
                is_permutation(p, self.scenarios.key_seq().len() as int) && forall|a: int|
                    0 <= a < r@.len() ==> *#[trigger] r@[a] == self.scenarios.map()[self.scenarios.key_seq()[p[a]]],
    {
        let vals = self.scenarios.values();
        let ghost ks = self.scenarios.key_seq();
        let ghost m = self.scenarios.map();
        let mut out: Vec<&ScenarioDescriptor> = Vec::new();
        let ghost mut perm: Seq<int> = Seq::empty();
        let mut i: usize = 0;
        while i < vals.len()
            invariant
                i <= vals@.len(),
                vals@.len() == ks.len(),
                forall|j: int| 0 <= j < vals@.len() ==> m[ks[j]] == vals@[j],
                out@.len() == i,
                perm.len() == i,
                forall|a: int| 0 <= a < perm.len() ==> 0 <= #[trigger] perm[a] < i,
                forall|a: int, b: int| 0 <= a < b < perm.len() ==> #[trigger] perm[a] != #[trigger] perm[b],
                forall|a: int| 0 <= a < out@.len() ==> *#[trigger] out@[a] == vals@[perm[a]],
                sorted_by_file(out@),
            decreases vals@.len() - i,
        {
            let x = &vals[i];
            let mut pos: usize = 0;
            while pos < out.len() && !str_lt(x.file.as_str(), out[pos].file.as_str())
                invariant
                    pos <= out@.len(),
                    forall|q: int| 0 <= q < pos ==> !seq_lt(x.file@, #[trigger] out@[q].file@),
                decreases out@.len() - pos,
            {
                pos = pos + 1;
            }
            let ghost old_out = out@;
            let ghost old_perm = perm;
            proof {
                old_out.insert_ensures(pos as int, x);
                old_perm.insert_ensures(pos as int, i as int);
                lemma_insert_sorted(old_out, x, pos as int);
                lemma_insert_index(old_perm, pos as int, i as int);
            }
            out.insert(pos, x);
            proof {
                perm = old_perm.insert(pos as int, i as int);
                assert(out@ =~= old_out.insert(pos as int, x));
                assert forall|a: int| 0 <= a < out@.len() implies *#[trigger] out@[a] == vals@[perm[a]] by {
                    if a < pos {
                        assert(out@[a] == old_out[a] && perm[a] == old_perm[a]);
                    }
                    if a > pos {
                        assert(out@[a] == old_out[a - 1] && perm[a] == old_perm[a - 1]);
                    }
                }
            }
            i = i + 1;
        }
        proof {
            assert forall|a: int| 0 <= a < out@.len() implies *#[trigger] out@[a] == m[ks[perm[a]]] by {
                assert(0 <= perm[a] < vals@.len());
            }
            assert(is_permutation(perm, ks.len() as int));
        }
        out
    }
}

impl ScenarioList {
    /// An empty list.
    pub fn new() -> (r: Self)
        ensures
            r.scenarios.wf(),
            r.scenarios.map() == Map::<Seq<char>, ScenarioDescriptor>::empty(),
    {
        ScenarioList { scenarios: SortedMap::new() }
    }

    /// The list of the parsed descriptors, in document order.
    pub fn from_descriptors(descs: Vec<ScenarioDescriptor>) -> (r: Self)
        ensures
            r.scenarios.wf(),
            r.scenarios.map() == descriptor_map(descs@),
    {
        let ghost all = descs@;
        let mut descs = descs;
        let mut rev: Vec<ScenarioDescriptor> = Vec::new();
        while descs.len() > 0
            invariant
                all == descs@ + rev@.reverse(),
            decreases descs@.len(),
        {
            let ghost before = descs@;
            let ghost rb = rev@;
            let d = descs.pop().unwrap();
            rev.push(d);
            assert(rev@.reverse() =~= seq![d] + rb.reverse());
            assert(before =~= descs@.push(d));
        }
        assert(all =~= rev@.reverse());
        let mut list = ScenarioList::new();
        while rev.len() > 0
            invariant
                list.scenarios.wf(),
                rev@.len() <= all.len(),
                all == all.take(all.len() - rev@.len()) + rev@.reverse(),
                list.scenarios.map() == descriptor_map(all.take(all.len() - rev@.len())),
            decreases rev@.len(),
        {
            let ghost k = all.len() - rev@.len();
            let ghost rb = rev@;
            let d = rev.pop().unwrap();
            proof {
                assert(rb =~= rev@.push(d));
                assert(rb.reverse() =~= seq![d] + rev@.reverse());
                assert(all[k] == d);
                assert(all.take(k + 1).drop_last() =~= all.take(k));
                assert(all.take(k + 1).last() == d);
                assert(all =~= all.take(k + 1) + rev@.reverse());
            }
            let name = String::from_str(d.name());
            if name.as_str().unicode_len() > 0 {
                list.scenarios.insert(name, d);
            }
        }
        assert(all.take(all.len() as int) =~= all);
        list
    }
}

} // verus!
