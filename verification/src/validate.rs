//! Validation of the database files: which files are checked, and the
//! tally of a run.
use vstd::prelude::*;

verus! {

/// One database file to validate: its packed game path, its label, and for
/// a table the names of its root and row elements and the noun its rows are
/// counted by.
#[derive(Debug, Clone, PartialEq, Eq)]
pub struct DbFileSpec {
    pub path: &'static str,
    pub label: &'static str,
    /// Root and row element names, and the noun of the rows; none for the
    /// game data document, which is one record.
    pub table: Option<(&'static str, &'static str, &'static str)>,
}

/// The files a validation run checks, in order.
pub open spec fn db_file_list() -> Seq<(Seq<char>, Seq<char>, Option<(Seq<char>, Seq<char>, Seq<char>)>)> {
    seq![
        ("data\\objects.xml.xmb"@, "objects"@, Some(("Objects"@, "Object"@, "proto objects"@))),
        ("data\\squads.xml.xmb"@, "squads"@, Some(("Squads"@, "Squad"@, "squads"@))),
        ("data\\techs.xml.xmb"@, "techs"@, Some(("TechTree"@, "Tech"@, "techs"@))),
        ("data\\abilities.xml.xmb"@, "abilities"@, Some(("Abilities"@, "Ability"@, "abilities"@))),
        ("data\\powers.xml.xmb"@, "powers"@, Some(("Powers"@, "Power"@, "powers"@))),
        ("data\\civs.xml.xmb"@, "civs"@, Some(("Civs"@, "Civ"@, "civs"@))),
        ("data\\leaders.xml.xmb"@, "leaders"@, Some(("Leaders"@, "Leader"@, "leaders"@))),
        ("data\\weapontypes.xml.xmb"@, "weapontypes"@, Some(("WeaponTypes"@, "WeaponType"@, "weapon types"@))),
        ("data\\damagetypes.xml.xmb"@, "damagetypes"@, Some(("DamageTypes"@, "DamageType"@, "damage types"@))),
        ("data\\gamedata.xml.xmb"@, "gamedata"@, None),
    ]
}

/// The view of a file entry.
pub open spec fn db_file_view(f: DbFileSpec) -> (Seq<char>, Seq<char>, Option<(Seq<char>, Seq<char>, Seq<char>)>) {
    (
        f.path@,
        f.label@,
        match f.table {
            Some(t) => Some((t.0@, t.1@, t.2@)),
            None => None,
        },
    )
}

fn table(path: &'static str, label: &'static str, root: &'static str, child: &'static str, noun: &'static str) -> (r:
    DbFileSpec)
    ensures
        db_file_view(r) == (path@, label@, Some((root@, child@, noun@))),
{
    DbFileSpec { path, label, table: Some((root, child, noun)) }
}

/// The files a validation run checks, in order.
pub fn db_files() -> (r: Vec<DbFileSpec>)
    ensures
        r@.map_values(|f: DbFileSpec| db_file_view(f)) == db_file_list(),
{
    let r = vec![
        table("data\\objects.xml.xmb", "objects", "Objects", "Object", "proto objects"),
        table("data\\squads.xml.xmb", "squads", "Squads", "Squad", "squads"),
        table("data\\techs.xml.xmb", "techs", "TechTree", "Tech", "techs"),
        table("data\\abilities.xml.xmb", "abilities", "Abilities", "Ability", "abilities"),
        table("data\\powers.xml.xmb", "powers", "Powers", "Power", "powers"),
        table("data\\civs.xml.xmb", "civs", "Civs", "Civ", "civs"),
        table("data\\leaders.xml.xmb", "leaders", "Leaders", "Leader", "leaders"),
        table("data\\weapontypes.xml.xmb", "weapontypes", "WeaponTypes", "WeaponType", "weapon types"),
        table("data\\damagetypes.xml.xmb", "damagetypes", "DamageTypes", "DamageType", "damage types"),
        DbFileSpec { path: "data\\gamedata.xml.xmb", label: "gamedata", table: None },
    ];
    assert(r@.map_values(|f: DbFileSpec| db_file_view(f)) =~= db_file_list());
    r
}

/// Outcome for a single database file.
#[derive(Debug, Clone, PartialEq, Eq)]
pub enum FileOutcome {
    /// Parsed successfully, with a summary and the parser's warnings.
    Passed { summary: String, warnings: Vec<String> },
    /// Parse or type error.
    Failed(String),
    /// File not found in the asset source.
    Missing,
}

/// Result of validating a single database file.
#[derive(Debug, Clone, PartialEq, Eq)]
pub struct FileResult {
    pub label: String,
    pub outcome: FileOutcome,
}

/// Aggregate result of a validation run.
#[derive(Debug)]
pub struct ValidateReport {
    pub files: Vec<FileResult>,
    pub elapsed: std::time::Duration,
}

/// The number of files whose outcome satisfies `p`.
pub open spec fn count_outcomes(files: Seq<FileResult>, k: int) -> nat
    decreases files.len(),
{
    if files.len() == 0 {
        0
    } else {
        count_outcomes(files.drop_last(), k) + if outcome_kind(files.last().outcome) == k {
            1nat
        } else {
            0nat
        }
    }
}

/// 0 for a pass, 1 for a failure, 2 for a missing file.
pub open spec fn outcome_kind(o: FileOutcome) -> int {
    match o {
        FileOutcome::Passed { .. } => 0,
        FileOutcome::Failed(_) => 1,
        FileOutcome::Missing => 2,
    }
}

/// The warnings of all passed files.
pub open spec fn warning_count(files: Seq<FileResult>) -> nat
    decreases files.len(),
{
    if files.len() == 0 {
        0
    } else {
        warning_count(files.drop_last()) + match files.last().outcome {
            FileOutcome::Passed { warnings, .. } => warnings@.len(),
            _ => 0,
        }
    }
}

fn count_kind(files: &Vec<FileResult>, k: u8) -> (r: usize)
    requires
        k <= 2,
    ensures
        r == count_outcomes(files@, k as int),
{
    let mut n: usize = 0;
    let mut i: usize = 0;
    while i < files.len()
        invariant
            i <= files@.len(),
            k <= 2,
            n == count_outcomes(files@.take(i as int), k as int),
            n <= i,
        decreases files@.len() - i,
    {
        let ghost t = files@.take(i + 1);
        assert(t.drop_last() =~= files@.take(i as int));
        assert(t.last() == files@[i as int]);
        let kind: u8 = match &files[i].outcome {
            FileOutcome::Passed { .. } => 0,
            FileOutcome::Failed(_) => 1,
            FileOutcome::Missing => 2,
        };
        if kind == k {
            n = n + 1;
        }
        i = i + 1;
    }
    assert(files@.take(files@.len() as int) =~= files@);
    n
}

impl ValidateReport {
    /// The number of files that parsed.
    pub fn passed(&self) -> (r: usize)
        ensures
            r == count_outcomes(self.files@, 0),
    {
        count_kind(&self.files, 0)
    }

    /// The number of files that failed to parse.
    pub fn failed(&self) -> (r: usize)
        ensures
            r == count_outcomes(self.files@, 1),
    {
        count_kind(&self.files, 1)
    }

    /// The number of files that were not found.
    pub fn missing(&self) -> (r: usize)
        ensures
            r == count_outcomes(self.files@, 2),
    {
        count_kind(&self.files, 2)
    }

    /// The warnings of all passed files.
    pub fn total_warnings(&self) -> (r: usize)
        requires
            warning_count(self.files@) <= usize::MAX,
        ensures
            r == warning_count(self.files@),
    {
        let mut n: usize = 0;
        let mut i: usize = 0;
        while i < self.files.len()
            invariant
                i <= self.files@.len(),
                warning_count(self.files@) <= usize::MAX,
                n == warning_count(self.files@.take(i as int)),
            decreases self.files@.len() - i,
        {
            let ghost t = self.files@.take(i + 1);
            assert(t.drop_last() =~= self.files@.take(i as int));
            assert(t.last() == self.files@[i as int]);
            proof {
                lemma_warning_count_prefix(self.files@, i + 1);
            }
            match &self.files[i].outcome {
                FileOutcome::Passed { warnings, .. } => {
                    n = n + warnings.len();
                },
                _ => {},
            }
            i = i + 1;
        }
        assert(self.files@.take(self.files@.len() as int) =~= self.files@);
        n
    }
}

proof fn lemma_warning_count_prefix(files: Seq<FileResult>, k: int)
    requires
        0 <= k <= files.len(),
    ensures
        warning_count(files.take(k)) <= warning_count(files),
    decreases files.len(),
{
    if k < files.len() {
        assert(files.drop_last().take(k) =~= files.take(k));
        lemma_warning_count_prefix(files.drop_last(), k);
    } else {
        assert(files.take(k) =~= files);
    }
}

/// Every file of a run passes, fails or is missing: the three counts add up
/// to the number of files.
pub proof fn law_outcome_counts_add_up(files: Seq<FileResult>)
    ensures
        count_outcomes(files, 0) + count_outcomes(files, 1) + count_outcomes(files, 2) == files.len(),
    decreases files.len(),
{
    if files.len() > 0 {
        law_outcome_counts_add_up(files.drop_last());
    }
}

} // verus!
