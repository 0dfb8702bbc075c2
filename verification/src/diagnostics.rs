//! Structured diagnostics for asset validation.
//!
//! Every diagnostic carries a game path, a location within that file, a
//! severity, a machine-readable code and a human-readable message.
//! [`validate_world`] checks the cross-references of a loaded world: that
//! every visual, tactics and physics reference of an object was loaded, that
//! every unit of a squad names an existing object, and that object and squad
//! names are unique.
use vstd::prelude::*;

use crate::database::{UnitEntry, UnitsWrapper};
use crate::edit::{table_name, TableId};
use crate::text::{contains_run, contains_string, string_views};

verus! {

/// Severity level for a diagnostic.
#[derive(Debug, Clone, Copy, PartialEq, Eq, Hash, Structural)]
pub enum Severity {
    /// Prevents the game from loading or causes crashes.
    Error,
    /// Likely a bug but the game can still load.
    Warning,
    /// Informational: style or schema notes.
    Info,
}

/// The lower-case name of a severity.
pub open spec fn severity_text(s: Severity) -> Seq<char> {
    match s {
        Severity::Error => "error"@,
        Severity::Warning => "warning"@,
        Severity::Info => "info"@,
    }
}

impl Severity {
    /// The severity as it is displayed: `error`, `warning` or `info`.
    pub fn display_string(self) -> (r: String)
        ensures
            r@ == severity_text(self),
    {
        match self {
            Severity::Error => String::from_str("error"),
            Severity::Warning => String::from_str("warning"),
            Severity::Info => String::from_str("info"),
        }
    }
}

/// Machine-readable diagnostic category.
#[derive(Debug, Clone, Copy, PartialEq, Eq, Hash, Structural)]
pub enum DiagnosticCode {
    /// XMB/XML parse failure.
    ParseError,
    /// A field in the data that the struct does not declare.
    UnknownField,
    /// A value whose type didn't match expectations.
    TypeMismatch,
    /// A cross-reference to something that doesn't exist.
    MissingReference,
    /// Two entries share the same unique key.
    DuplicateName,
    /// A binary asset (`.ugx`, `.uax`, `.ddx`) is referenced but not found.
    MissingAsset,
    /// A database file expected in the ERAs was not found at all.
    MissingFile,
}

/// The kebab-case name of a diagnostic code.
pub open spec fn code_text(c: DiagnosticCode) -> Seq<char> {
    match c {
        DiagnosticCode::ParseError => "parse-error"@,
        DiagnosticCode::UnknownField => "unknown-field"@,
        DiagnosticCode::TypeMismatch => "type-mismatch"@,
        DiagnosticCode::MissingReference => "missing-reference"@,
        DiagnosticCode::DuplicateName => "duplicate-name"@,
        DiagnosticCode::MissingAsset => "missing-asset"@,
        DiagnosticCode::MissingFile => "missing-file"@,
    }
}

impl DiagnosticCode {
    /// The code as it is displayed, such as `missing-reference`.
    pub fn display_string(self) -> (r: String)
        ensures
            r@ == code_text(self),
    {
        match self {
            DiagnosticCode::ParseError => String::from_str("parse-error"),
            DiagnosticCode::UnknownField => String::from_str("unknown-field"),
            DiagnosticCode::TypeMismatch => String::from_str("type-mismatch"),
            DiagnosticCode::MissingReference => String::from_str("missing-reference"),
            DiagnosticCode::DuplicateName => String::from_str("duplicate-name"),
            DiagnosticCode::MissingAsset => String::from_str("missing-asset"),
            DiagnosticCode::MissingFile => String::from_str("missing-file"),
        }
    }
}

/// Where inside a file or table the issue was found.
#[derive(Debug, Clone, PartialEq, Eq)]
pub enum Location {
    /// The whole file or table.
    Table(TableId),
    /// A specific named entry within a table.
    Entry { table: TableId, name: String },
    /// A specific field on a named entry.
    Field { table: TableId, name: String, field: String },
}

/// The mathematical content of a [`Location`].
pub enum LocationModel {
    Table(TableId),
    Entry { table: TableId, name: Seq<char> },
    Field { table: TableId, name: Seq<char>, field: Seq<char> },
}

impl View for Location {
    type V = LocationModel;

    open spec fn view(&self) -> LocationModel {
        match self {
            Location::Table(t) => LocationModel::Table(*t),
            Location::Entry { table, name } => LocationModel::Entry { table: *table, name: name@ },
            Location::Field { table, name, field } => LocationModel::Field {
                table: *table,
                name: name@,
                field: field@,
            },
        }
    }
}

/// A location as it is displayed: `Table`, `Table::name` or
/// `Table::name.field`.
pub open spec fn location_text(l: LocationModel) -> Seq<char> {
    match l {
        LocationModel::Table(t) => table_name(t),
        LocationModel::Entry { table, name } => table_name(table) + "::"@ + name,
        LocationModel::Field { table, name, field } => table_name(table) + "::"@ + name + "."@ + field,
    }
}

/// Appends `t` to `s`.
fn append(s: &mut String, t: &str)
    ensures
        final(s)@ == old(s)@ + t@,
{
    s.append(t);
}

impl Location {
    /// The location as it is displayed.
    pub fn display_string(&self) -> (r: String)
        ensures
            r@ == location_text(self@),
    {
        match self {
            Location::Table(t) => String::from_str(t.name()),
            Location::Entry { table, name } => {
                let mut s = String::from_str(table.name());
                append(&mut s, "::");
                append(&mut s, name.as_str());
                s
            },
            Location::Field { table, name, field } => {
                let mut s = String::from_str(table.name());
                append(&mut s, "::");
                append(&mut s, name.as_str());
                append(&mut s, ".");
                append(&mut s, field.as_str());
                s
            },
        }
    }
}

/// A single structured diagnostic.
#[derive(Debug, Clone)]
pub struct Diagnostic {
    /// Game path, such as `data\objects.xml`.
    pub path: String,
    /// Where in the file the issue was found.
    pub location: Location,
    /// Severity level.
    pub severity: Severity,
    /// Machine-readable category.
    pub code: DiagnosticCode,
    /// Human-readable description.
    pub message: String,
}

/// The mathematical content of a [`Diagnostic`].
pub struct DiagnosticModel {
    pub path: Seq<char>,
    pub location: LocationModel,
    pub severity: Severity,
    pub code: DiagnosticCode,
    pub message: Seq<char>,
}

impl View for Diagnostic {
    type V = DiagnosticModel;

    open spec fn view(&self) -> DiagnosticModel {
        DiagnosticModel {
            path: self.path@,
            location: self.location@,
            severity: self.severity,
            code: self.code,
            message: self.message@,
        }
    }
}

/// A diagnostic as it is displayed: `[severity] path (location): code — message`.
pub open spec fn diagnostic_text(d: DiagnosticModel) -> Seq<char> {
    "["@ + severity_text(d.severity) + "] "@ + d.path + " ("@ + location_text(d.location) + "): "@
        + code_text(d.code) + " — "@ + d.message
}

impl Diagnostic {
    /// The diagnostic as it is displayed.
    pub fn display_string(&self) -> (r: String)
        ensures
            r@ == diagnostic_text(self@),
    {
        let mut s = String::from_str("[");
        let sev = self.severity.display_string();
        append(&mut s, sev.as_str());
        append(&mut s, "] ");
        append(&mut s, self.path.as_str());
        append(&mut s, " (");
        let loc = self.location.display_string();
        append(&mut s, loc.as_str());
        append(&mut s, "): ");
        let code = self.code.display_string();
        append(&mut s, code.as_str());
        append(&mut s, " — ");
        append(&mut s, self.message.as_str());
        s
    }
}

/// Counts the diagnostics of a given severity.
pub open spec fn count_severity(ds: Seq<DiagnosticModel>, s: Severity) -> nat
    decreases ds.len(),
{
    if ds.len() == 0 {
        0
    } else {
        count_severity(ds.drop_last(), s) + if ds.last().severity == s {
            1nat
        } else {
            0nat
        }
    }
}

/// The models of a list of diagnostics.
pub open spec fn diagnostic_models(ds: Seq<Diagnostic>) -> Seq<DiagnosticModel> {
    ds.map_values(|d: Diagnostic| d@)
}

/// Aggregate diagnostics from a validation pass.
#[derive(Debug)]
pub struct DiagnosticReport {
    pub diagnostics: Vec<Diagnostic>,
    pub elapsed: std::time::Duration,
}

/// `Duration::ZERO`, for a report that took no time. Nothing is stated of it.
#[verifier::external_body]
fn zero_duration() -> std::time::Duration {
    std::time::Duration::ZERO
}

/// `std::time::Instant`, the start of a timed pass.
#[verifier::external_type_specification]
#[verifier::external_body]
pub struct ExInstant(std::time::Instant);

/// `Instant::now`: the current time. Nothing is stated of it.
#[verifier::external_body]
fn now() -> std::time::Instant {
    std::time::Instant::now()
}

/// `Instant::elapsed`: the time since `start`. Nothing is stated of it.
#[verifier::external_body]
fn elapsed_since(start: &std::time::Instant) -> std::time::Duration {
    start.elapsed()
}

impl Default for DiagnosticReport {
    fn default() -> (r: Self)
        ensures
            r.diagnostics@.len() == 0,
    {
        DiagnosticReport { diagnostics: Vec::new(), elapsed: zero_duration() }
    }
}

fn count_of(ds: &Vec<Diagnostic>, s: Severity) -> (r: usize)
    ensures
        r == count_severity(diagnostic_models(ds@), s),
{
    let ghost models = diagnostic_models(ds@);
    let mut n: usize = 0;
    let mut i: usize = 0;
    while i < ds.len()
        invariant
            i <= ds.len(),
            models == diagnostic_models(ds@),
            n == count_severity(models.take(i as int), s),
            n <= i,
        decreases ds.len() - i,
    {
        proof {
            assert(models.take(i + 1).drop_last() =~= models.take(i as int));
        }
        if ds[i].severity == s {
            n = n + 1;
        }
        i = i + 1;
    }
    proof {
        assert(models.take(ds.len() as int) =~= models);
    }
    n
}

impl DiagnosticReport {
    /// The number of error diagnostics.
    pub fn errors(&self) -> (r: usize)
        ensures
            r == count_severity(diagnostic_models(self.diagnostics@), Severity::Error),
    {
        count_of(&self.diagnostics, Severity::Error)
    }

    /// The number of warning diagnostics.
    pub fn warnings(&self) -> (r: usize)
        ensures
            r == count_severity(diagnostic_models(self.diagnostics@), Severity::Warning),
    {
        count_of(&self.diagnostics, Severity::Warning)
    }

    /// The number of informational diagnostics.
    pub fn infos(&self) -> (r: usize)
        ensures
            r == count_severity(diagnostic_models(self.diagnostics@), Severity::Info),
    {
        count_of(&self.diagnostics, Severity::Info)
    }
}

/// Every diagnostic is an error, a warning or an informational note, so the
/// three counts of a report add up to its length.
pub proof fn law_severity_counts_add_up(ds: Seq<DiagnosticModel>)
    ensures
        count_severity(ds, Severity::Error) + count_severity(ds, Severity::Warning) + count_severity(
            ds,
            Severity::Info,
        ) == ds.len(),
    decreases ds.len(),
{
    if ds.len() > 0 {
        law_severity_counts_add_up(ds.drop_last());
    }
}

// ── Cross-reference validation ──────────────────────────────────────────

/// What validation reads of an object.
#[derive(Debug, Clone, PartialEq, Eq)]
pub struct ObjectRefs {
    pub name: String,
    pub visual: Option<String>,
    pub tactics: Option<String>,
    pub physics_info: Option<String>,
}

/// What validation reads of a squad: its name and the units it holds.
#[derive(Debug, Clone, PartialEq, Eq)]
pub struct SquadRefs {
    pub name: String,
    pub units: Option<UnitsWrapper>,
}

/// What validation reads of a leader: its name and the civ it belongs to.
#[derive(Debug, Clone, PartialEq, Eq)]
pub struct LeaderRefs {
    pub name: String,
    pub civ: Option<String>,
}

/// What validation reads of a weapon of a tactics file: its name and the
/// weapon type it uses.
#[derive(Debug, Clone, PartialEq, Eq)]
pub struct WeaponRefs {
    pub name: String,
    pub weapon_type: Option<String>,
}

/// What validation reads of a loaded tactics entry: the key it was loaded
/// under, the game path of its file and its weapons.
#[derive(Debug, Clone, PartialEq, Eq)]
pub struct TacticsRefs {
    pub name: String,
    pub path: String,
    pub weapons: Vec<WeaponRefs>,
}

/// What validation reads of a loaded world: its objects, squads and leaders,
/// the names of its civs and weapon types, the keys under which visuals and
/// physics were loaded, and the loaded tactics entries.
#[derive(Debug, Clone, PartialEq, Eq)]
pub struct WorldRefs {
    pub objects: Vec<ObjectRefs>,
    pub squads: Vec<SquadRefs>,
    pub leaders: Vec<LeaderRefs>,
    pub civs: Vec<String>,
    pub weapon_types: Vec<String>,
    pub visuals: Vec<String>,
    pub tactics: Vec<TacticsRefs>,
    pub physics: Vec<String>,
}

/// The reference of an object that a check follows.
#[derive(Debug, Clone, Copy, PartialEq, Eq, Structural)]
pub enum ReferenceKind {
    Visual,
    Tactics,
    Physics,
}

/// The object's reference of the given kind.
pub open spec fn object_reference(o: ObjectRefs, kind: ReferenceKind) -> Option<String> {
    match kind {
        ReferenceKind::Visual => o.visual,
        ReferenceKind::Tactics => o.tactics,
        ReferenceKind::Physics => o.physics_info,
    }
}

/// The field name under which a reference is reported.
pub open spec fn reference_field(kind: ReferenceKind) -> Seq<char> {
    match kind {
        ReferenceKind::Visual => "Visual"@,
        ReferenceKind::Tactics => "Tactics"@,
        ReferenceKind::Physics => "PhysicsInfo"@,
    }
}

/// The word for the referenced thing in a message.
pub open spec fn reference_word(kind: ReferenceKind) -> Seq<char> {
    match kind {
        ReferenceKind::Visual => "visual"@,
        ReferenceKind::Tactics => "tactics"@,
        ReferenceKind::Physics => "physics"@,
    }
}

/// A missing physics entry is informational; the others are warnings.
pub open spec fn reference_severity(kind: ReferenceKind) -> Severity {
    match kind {
        ReferenceKind::Physics => Severity::Info,
        _ => Severity::Warning,
    }
}

pub open spec fn objects_path() -> Seq<char> {
    "data\\objects.xml"@
}

pub open spec fn squads_path() -> Seq<char> {
    "data\\squads.xml"@
}

/// The names of objects, in order.
pub open spec fn object_names(os: Seq<ObjectRefs>) -> Seq<Seq<char>> {
    os.map_values(|o: ObjectRefs| o.name@)
}

/// The names of squads, in order.
pub open spec fn squad_names(ss: Seq<SquadRefs>) -> Seq<Seq<char>> {
    ss.map_values(|s: SquadRefs| s.name@)
}

/// A name that an earlier entry of the same table already has.
pub open spec fn duplicate_diag(path: Seq<char>, table: TableId, kind: Seq<char>, name: Seq<char>) -> DiagnosticModel {
    DiagnosticModel {
        path,
        location: LocationModel::Entry { table, name },
        severity: Severity::Warning,
        code: DiagnosticCode::DuplicateName,
        message: "duplicate "@ + kind + " name '"@ + name + "'"@,
    }
}

/// One diagnostic for each non-empty name that repeats an earlier one.
pub open spec fn duplicate_diags(path: Seq<char>, table: TableId, kind: Seq<char>, names: Seq<Seq<char>>) -> Seq<
    DiagnosticModel,
>
    decreases names.len(),
{
    if names.len() == 0 {
        Seq::empty()
    } else {
        let prev = duplicate_diags(path, table, kind, names.drop_last());
        let n = names.last();
        if n.len() > 0 && names.drop_last().contains(n) {
            prev.push(duplicate_diag(path, table, kind, n))
        } else {
            prev
        }
    }
}

/// An object's reference to something that was not loaded.
pub open spec fn missing_reference_diag(kind: ReferenceKind, object: Seq<char>, target: Seq<char>) -> DiagnosticModel {
    DiagnosticModel {
        path: objects_path(),
        location: LocationModel::Field { table: TableId::Objects, name: object, field: reference_field(kind) },
        severity: reference_severity(kind),
        code: DiagnosticCode::MissingReference,
        message: "object '"@ + object + "' references "@ + reference_word(kind) + " '"@ + target
            + "' which was not loaded"@,
    }
}

/// One diagnostic for each object whose non-empty reference of the given
/// kind is not among the loaded keys.
pub open spec fn reference_diags(objs: Seq<ObjectRefs>, loaded: Seq<Seq<char>>, kind: ReferenceKind) -> Seq<
    DiagnosticModel,
>
    decreases objs.len(),
{
    if objs.len() == 0 {
        Seq::empty()
    } else {
        let prev = reference_diags(objs.drop_last(), loaded, kind);
        let o = objs.last();
        match object_reference(o, kind) {
            Some(v) => if v@.len() > 0 && !loaded.contains(v@) {
                prev.push(missing_reference_diag(kind, o.name@, v@))
            } else {
                prev
            },
            None => prev,
        }
    }
}

/// A squad's unit that names no object.
pub open spec fn missing_unit_diag(squad: Seq<char>, unit: Seq<char>) -> DiagnosticModel {
    DiagnosticModel {
        path: squads_path(),
        location: LocationModel::Field { table: TableId::Squads, name: squad, field: "Units"@ },
        severity: Severity::Warning,
        code: DiagnosticCode::MissingReference,
        message: "squad '"@ + squad + "' references object '"@ + unit + "' which does not exist"@,
    }
}

/// One diagnostic for each unit with a non-empty object name that no object
/// has.
pub open spec fn unit_diags(squad: Seq<char>, units: Seq<UnitEntry>, objects: Seq<Seq<char>>) -> Seq<DiagnosticModel>
    decreases units.len(),
{
    if units.len() == 0 {
        Seq::empty()
    } else {
        let prev = unit_diags(squad, units.drop_last(), objects);
        let u = units.last().proto_object@;
        if u.len() > 0 && !objects.contains(u) {
            prev.push(missing_unit_diag(squad, u))
        } else {
            prev
        }
    }
}

/// The unit diagnostics of every squad, in order.
pub open spec fn squad_diags(squads: Seq<SquadRefs>, objects: Seq<Seq<char>>) -> Seq<DiagnosticModel>
    decreases squads.len(),
{
    if squads.len() == 0 {
        Seq::empty()
    } else {
        let prev = squad_diags(squads.drop_last(), objects);
        let s = squads.last();
        match s.units {
            Some(us) => prev + unit_diags(s.name@, us.entries@, objects),
            None => prev,
        }
    }
}

pub open spec fn leaders_path() -> Seq<char> {
    "data\\leaders.xml"@
}

/// A leader whose civ does not exist.
pub open spec fn missing_civ_diag(leader: Seq<char>, civ: Seq<char>) -> DiagnosticModel {
    DiagnosticModel {
        path: leaders_path(),
        location: LocationModel::Field { table: TableId::Leaders, name: leader, field: "Civ"@ },
        severity: Severity::Warning,
        code: DiagnosticCode::MissingReference,
        message: "leader '"@ + leader + "' references civ '"@ + civ + "' which does not exist"@,
    }
}

/// One diagnostic for each leader whose non-empty civ no civ has.
pub open spec fn leader_diags(leaders: Seq<LeaderRefs>, civs: Seq<Seq<char>>) -> Seq<DiagnosticModel>
    decreases leaders.len(),
{
    if leaders.len() == 0 {
        Seq::empty()
    } else {
        let prev = leader_diags(leaders.drop_last(), civs);
        let l = leaders.last();
        match l.civ {
            Some(c) => if c@.len() > 0 && !civs.contains(c@) {
                prev.push(missing_civ_diag(l.name@, c@))
            } else {
                prev
            },
            None => prev,
        }
    }
}

/// The keys of the loaded tactics entries, in order.
pub open spec fn tactics_names(ts: Seq<TacticsRefs>) -> Seq<Seq<char>> {
    ts.map_values(|t: TacticsRefs| t.name@)
}

/// A weapon of a tactics entry whose weapon type does not exist.
pub open spec fn missing_weapon_type_diag(path: Seq<char>, tactics: Seq<char>, weapon: Seq<char>, wt: Seq<char>) -> DiagnosticModel {
    DiagnosticModel {
        path,
        location: LocationModel::Field { table: TableId::Tactics, name: tactics, field: "WeaponType"@ },
        severity: Severity::Warning,
        code: DiagnosticCode::MissingReference,
        message: "tactics '"@ + tactics + "' weapon '"@ + weapon + "' references weapon type '"@ + wt
            + "' which does not exist"@,
    }
}

/// One diagnostic for each weapon whose non-empty weapon type no weapon
/// type has.
pub open spec fn weapon_diags(path: Seq<char>, tactics: Seq<char>, weapons: Seq<WeaponRefs>, wts: Seq<Seq<char>>) -> Seq<
    DiagnosticModel,
>
    decreases weapons.len(),
{
    if weapons.len() == 0 {
        Seq::empty()
    } else {
        let prev = weapon_diags(path, tactics, weapons.drop_last(), wts);
        let w = weapons.last();
        match w.weapon_type {
            Some(x) => if x@.len() > 0 && !wts.contains(x@) {
                prev.push(missing_weapon_type_diag(path, tactics, w.name@, x@))
            } else {
                prev
            },
            None => prev,
        }
    }
}

/// The weapon diagnostics of every tactics entry, in order.
pub open spec fn tactics_diags(ts: Seq<TacticsRefs>, wts: Seq<Seq<char>>) -> Seq<DiagnosticModel>
    decreases ts.len(),
{
    if ts.len() == 0 {
        Seq::empty()
    } else {
        let t = ts.last();
        tactics_diags(ts.drop_last(), wts) + weapon_diags(t.path@, t.name@, t.weapons@, wts)
    }
}

/// All diagnostics of a validation pass, in the order the checks run:
/// duplicate objects, duplicate squads, visuals, tactics, physics, squad
/// units, leader civs, tactics weapon types.
pub open spec fn validation_diagnostics(w: WorldRefs) -> Seq<DiagnosticModel> {
    duplicate_diags(objects_path(), TableId::Objects, "object"@, object_names(w.objects@))
        + duplicate_diags(squads_path(), TableId::Squads, "squad"@, squad_names(w.squads@))
        + reference_diags(w.objects@, string_views(w.visuals@), ReferenceKind::Visual)
        + reference_diags(w.objects@, tactics_names(w.tactics@), ReferenceKind::Tactics)
        + reference_diags(w.objects@, string_views(w.physics@), ReferenceKind::Physics)
        + squad_diags(w.squads@, object_names(w.objects@))
        + leader_diags(w.leaders@, string_views(w.civs@))
        + tactics_diags(w.tactics@, string_views(w.weapon_types@))
}

/// `a + x + b + y + c` as a new string.
fn message5(a: &str, x: &str, b: &str, y: &str, c: &str) -> (r: String)
    ensures
        r@ == a@ + x@ + b@ + y@ + c@,
{
    let mut s = String::from_str(a);
    append(&mut s, x);
    append(&mut s, b);
    append(&mut s, y);
    append(&mut s, c);
    s
}

/// Pushes `d` and keeps the models in step.
fn push_diag(out: &mut Vec<Diagnostic>, d: Diagnostic)
    ensures
        diagnostic_models(final(out)@) == diagnostic_models(old(out)@).push(d@),
{
    out.push(d);
    proof {
        assert(diagnostic_models(out@) =~= diagnostic_models(old(out)@).push(d@));
    }
}

/// Whether `name` is the name of one of the first `n` entries.
fn name_among(names: &Vec<String>, n: usize, name: &String) -> (r: bool)
    requires
        n <= names.len(),
    ensures
        r == string_views(names@).take(n as int).contains(name@),
{
    let ghost v = string_views(names@).take(n as int);
    let mut i: usize = 0;
    while i < n
        invariant
            i <= n,
            n <= names.len(),
            v == string_views(names@).take(n as int),
            forall|j: int| 0 <= j < i ==> v[j] != name@,
        decreases n - i,
    {
        if names[i] == *name {
            assert(v[i as int] == name@);
            return true;
        }
        i = i + 1;
    }
    false
}

/// Appends a diagnostic for each non-empty name that repeats an earlier one.
fn check_duplicates(out: &mut Vec<Diagnostic>, path: &str, table: TableId, kind: &str, names: &Vec<String>)
    ensures
        diagnostic_models(final(out)@) == diagnostic_models(old(out)@) + duplicate_diags(
            path@,
            table,
            kind@,
            string_views(names@),
        ),
{
    let ghost start = diagnostic_models(out@);
    let ghost all = string_views(names@);
    let mut i: usize = 0;
    while i < names.len()
        invariant
            i <= names.len(),
            all == string_views(names@),
            diagnostic_models(out@) == start + duplicate_diags(path@, table, kind@, all.take(i as int)),
        decreases names.len() - i,
    {
        proof {
            assert(all.take(i + 1).drop_last() =~= all.take(i as int));
            assert(all.take(i + 1).last() == names@[i as int]@);
        }
        if names[i].as_str().unicode_len() > 0 && name_among(names, i, &names[i]) {
            let d = Diagnostic {
                path: String::from_str(path),
                location: Location::Entry { table, name: names[i].clone() },
                severity: Severity::Warning,
                code: DiagnosticCode::DuplicateName,
                message: message5("duplicate ", kind, " name '", names[i].as_str(), "'"),
            };
            push_diag(out, d);
            proof {
                assert(d@ == duplicate_diag(path@, table, kind@, names@[i as int]@));
            }
        }
        proof {
            assert(diagnostic_models(out@) =~= start + duplicate_diags(path@, table, kind@, all.take(i + 1)));
        }
        i = i + 1;
    }
    proof {
        assert(all.take(names.len() as int) =~= all);
    }
}

/// The reference of the given kind of an object.
fn reference_of(o: &ObjectRefs, kind: ReferenceKind) -> (r: &Option<String>)
    ensures
        *r == object_reference(*o, kind),
{
    match kind {
        ReferenceKind::Visual => &o.visual,
        ReferenceKind::Tactics => &o.tactics,
        ReferenceKind::Physics => &o.physics_info,
    }
}

/// The diagnostic for a reference that was not loaded.
fn missing_reference(kind: ReferenceKind, object: &String, target: &String) -> (d: Diagnostic)
    ensures
        d@ == missing_reference_diag(kind, object@, target@),
{
    let (field, word, severity) = match kind {
        ReferenceKind::Visual => ("Visual", "visual", Severity::Warning),
        ReferenceKind::Tactics => ("Tactics", "tactics", Severity::Warning),
        ReferenceKind::Physics => ("PhysicsInfo", "physics", Severity::Info),
    };
    let mut message = String::from_str("object '");
    append(&mut message, object.as_str());
    append(&mut message, "' references ");
    append(&mut message, word);
    append(&mut message, " '");
    append(&mut message, target.as_str());
    append(&mut message, "' which was not loaded");
    Diagnostic {
        path: String::from_str("data\\objects.xml"),
        location: Location::Field { table: TableId::Objects, name: object.clone(), field: String::from_str(field) },
        severity,
        code: DiagnosticCode::MissingReference,
        message,
    }
}

/// Appends a diagnostic for each object whose non-empty reference of the
/// given kind is not among the loaded keys.
fn check_references(out: &mut Vec<Diagnostic>, objects: &Vec<ObjectRefs>, loaded: &Vec<String>, kind: ReferenceKind)
    ensures
        diagnostic_models(final(out)@) == diagnostic_models(old(out)@) + reference_diags(
            objects@,
            string_views(loaded@),
            kind,
        ),
{
    let ghost start = diagnostic_models(out@);
    let ghost lv = string_views(loaded@);
    let mut i: usize = 0;
    while i < objects.len()
        invariant
            i <= objects.len(),
            lv == string_views(loaded@),
            diagnostic_models(out@) == start + reference_diags(objects@.take(i as int), lv, kind),
        decreases objects.len() - i,
    {
        proof {
            assert(objects@.take(i + 1).drop_last() =~= objects@.take(i as int));
        }
        match reference_of(&objects[i], kind) {
            Some(target) => {
                if target.as_str().unicode_len() > 0 && !contains_string(loaded, target) {
                    let d = missing_reference(kind, &objects[i].name, target);
                    push_diag(out, d);
                }
            },
            None => {},
        }
        proof {
            assert(diagnostic_models(out@) =~= start + reference_diags(objects@.take(i + 1), lv, kind));
        }
        i = i + 1;
    }
    proof {
        assert(objects@.take(objects.len() as int) =~= objects@);
    }
}

/// Appends a diagnostic for each unit of a squad whose non-empty object name
/// no object has.
fn check_units(out: &mut Vec<Diagnostic>, squad: &String, units: &Vec<UnitEntry>, objects: &Vec<String>)
    ensures
        diagnostic_models(final(out)@) == diagnostic_models(old(out)@) + unit_diags(
            squad@,
            units@,
            string_views(objects@),
        ),
{
    let ghost start = diagnostic_models(out@);
    let ghost ov = string_views(objects@);
    let mut i: usize = 0;
    while i < units.len()
        invariant
            i <= units.len(),
            ov == string_views(objects@),
            diagnostic_models(out@) == start + unit_diags(squad@, units@.take(i as int), ov),
        decreases units.len() - i,
    {
        proof {
            assert(units@.take(i + 1).drop_last() =~= units@.take(i as int));
        }
        let unit = &units[i].proto_object;
        if unit.as_str().unicode_len() > 0 && !contains_string(objects, unit) {
            let mut message = String::from_str("squad '");
            append(&mut message, squad.as_str());
            append(&mut message, "' references object '");
            append(&mut message, unit.as_str());
            append(&mut message, "' which does not exist");
            let d = Diagnostic {
                path: String::from_str("data\\squads.xml"),
                location: Location::Field {
                    table: TableId::Squads,
                    name: squad.clone(),
                    field: String::from_str("Units"),
                },
                severity: Severity::Warning,
                code: DiagnosticCode::MissingReference,
                message,
            };
            push_diag(out, d);
        }
        proof {
            assert(diagnostic_models(out@) =~= start + unit_diags(squad@, units@.take(i + 1), ov));
        }
        i = i + 1;
    }
    proof {
        assert(units@.take(units.len() as int) =~= units@);
    }
}

/// Appends the unit diagnostics of every squad.
fn check_squads(out: &mut Vec<Diagnostic>, squads: &Vec<SquadRefs>, objects: &Vec<String>)
    ensures
        diagnostic_models(final(out)@) == diagnostic_models(old(out)@) + squad_diags(
            squads@,
            string_views(objects@),
        ),
{
    let ghost start = diagnostic_models(out@);
    let ghost ov = string_views(objects@);
    let mut i: usize = 0;
    while i < squads.len()
        invariant
            i <= squads.len(),
            ov == string_views(objects@),
            diagnostic_models(out@) == start + squad_diags(squads@.take(i as int), ov),
        decreases squads.len() - i,
    {
        proof {
            assert(squads@.take(i + 1).drop_last() =~= squads@.take(i as int));
        }
        let ghost before = diagnostic_models(out@);
        match &squads[i].units {
            Some(units) => {
                check_units(out, &squads[i].name, &units.entries, objects);
            },
            None => {},
        }
        proof {
            assert(diagnostic_models(out@) =~= start + squad_diags(squads@.take(i + 1), ov));
        }
        i = i + 1;
    }
    proof {
        assert(squads@.take(squads.len() as int) =~= squads@);
    }
}

/// The names of the objects, in order.
fn names_of_objects(objects: &Vec<ObjectRefs>) -> (r: Vec<String>)
    ensures
        string_views(r@) == object_names(objects@),
{
    let mut r: Vec<String> = Vec::new();
    let mut i: usize = 0;
    while i < objects.len()
        invariant
            i <= objects.len(),
            r@.len() == i,
            string_views(r@) == object_names(objects@).take(i as int),
        decreases objects.len() - i,
    {
        let ghost before = r@;
        let name = objects[i].name.clone();
        r.push(name);
        proof {
            assert(r@ == before.push(name));
            assert forall|j: int| 0 <= j < i + 1 implies #[trigger] string_views(r@)[j] == object_names(objects@).take(i + 1)[j] by {
                if j < i {
                    assert(r@[j] == before[j]);
                    assert(string_views(before)[j] == object_names(objects@).take(i as int)[j]);
                }
            }
            assert(string_views(r@) =~= object_names(objects@).take(i + 1));
        }
        i = i + 1;
    }
    proof {
        assert(object_names(objects@).take(objects.len() as int) =~= object_names(objects@));
    }
    r
}

/// The names of the squads, in order.
fn names_of_squads(squads: &Vec<SquadRefs>) -> (r: Vec<String>)
    ensures
        string_views(r@) == squad_names(squads@),
{
    let mut r: Vec<String> = Vec::new();
    let mut i: usize = 0;
    while i < squads.len()
        invariant
            i <= squads.len(),
            r@.len() == i,
            string_views(r@) == squad_names(squads@).take(i as int),
        decreases squads.len() - i,
    {
        let ghost before = r@;
        let name = squads[i].name.clone();
        r.push(name);
        proof {
            assert(r@ == before.push(name));
            assert forall|j: int| 0 <= j < i + 1 implies #[trigger] string_views(r@)[j] == squad_names(squads@).take(i + 1)[j] by {
                if j < i {
                    assert(r@[j] == before[j]);
                    assert(string_views(before)[j] == squad_names(squads@).take(i as int)[j]);
                }
            }
            assert(string_views(r@) =~= squad_names(squads@).take(i + 1));
        }
        i = i + 1;
    }
    proof {
        assert(squad_names(squads@).take(squads.len() as int) =~= squad_names(squads@));
    }
    r
}

/// Appends a diagnostic for each leader whose non-empty civ no civ has.
fn check_leaders(out: &mut Vec<Diagnostic>, leaders: &Vec<LeaderRefs>, civs: &Vec<String>)
    ensures
        diagnostic_models(final(out)@) == diagnostic_models(old(out)@) + leader_diags(leaders@, string_views(civs@)),
{
    let ghost start = diagnostic_models(out@);
    let ghost cv = string_views(civs@);
    let mut i: usize = 0;
    while i < leaders.len()
        invariant
            i <= leaders.len(),
            cv == string_views(civs@),
            diagnostic_models(out@) == start + leader_diags(leaders@.take(i as int), cv),
        decreases leaders.len() - i,
    {
        proof {
            assert(leaders@.take(i + 1).drop_last() =~= leaders@.take(i as int));
        }
        match &leaders[i].civ {
            Some(civ) => {
                if civ.as_str().unicode_len() > 0 && !contains_string(civs, civ) {
                    let leader = &leaders[i].name;
                    let mut message = String::from_str("leader '");
                    append(&mut message, leader.as_str());
                    append(&mut message, "' references civ '");
                    append(&mut message, civ.as_str());
                    append(&mut message, "' which does not exist");
                    let d = Diagnostic {
                        path: String::from_str("data\\leaders.xml"),
                        location: Location::Field {
                            table: TableId::Leaders,
                            name: leader.clone(),
                            field: String::from_str("Civ"),
                        },
                        severity: Severity::Warning,
                        code: DiagnosticCode::MissingReference,
                        message,
                    };
                    push_diag(out, d);
                }
            },
            None => {},
        }
        proof {
            assert(diagnostic_models(out@) =~= start + leader_diags(leaders@.take(i + 1), cv));
        }
        i = i + 1;
    }
    proof {
        assert(leaders@.take(leaders.len() as int) =~= leaders@);
    }
}

/// Appends a diagnostic for each weapon of a tactics entry whose non-empty
/// weapon type no weapon type has.
fn check_weapons(out: &mut Vec<Diagnostic>, tactics: &TacticsRefs, wts: &Vec<String>)
    ensures
        diagnostic_models(final(out)@) == diagnostic_models(old(out)@) + weapon_diags(
            tactics.path@,
            tactics.name@,
            tactics.weapons@,
            string_views(wts@),
        ),
{
    let ghost start = diagnostic_models(out@);
    let ghost wv = string_views(wts@);
    let weapons = &tactics.weapons;
    let mut i: usize = 0;
    while i < weapons.len()
        invariant
            i <= weapons.len(),
            weapons == &tactics.weapons,
            wv == string_views(wts@),
            diagnostic_models(out@) == start + weapon_diags(tactics.path@, tactics.name@, weapons@.take(i as int), wv),
        decreases weapons.len() - i,
    {
        proof {
            assert(weapons@.take(i + 1).drop_last() =~= weapons@.take(i as int));
        }
        match &weapons[i].weapon_type {
            Some(wt) => {
                if wt.as_str().unicode_len() > 0 && !contains_string(wts, wt) {
                    let mut message = String::from_str("tactics '");
                    append(&mut message, tactics.name.as_str());
                    append(&mut message, "' weapon '");
                    append(&mut message, weapons[i].name.as_str());
                    append(&mut message, "' references weapon type '");
                    append(&mut message, wt.as_str());
                    append(&mut message, "' which does not exist");
                    let d = Diagnostic {
                        path: tactics.path.clone(),
                        location: Location::Field {
                            table: TableId::Tactics,
                            name: tactics.name.clone(),
                            field: String::from_str("WeaponType"),
                        },
                        severity: Severity::Warning,
                        code: DiagnosticCode::MissingReference,
                        message,
                    };
                    push_diag(out, d);
                }
            },
            None => {},
        }
        proof {
            assert(diagnostic_models(out@) =~= start + weapon_diags(
                tactics.path@,
                tactics.name@,
                weapons@.take(i + 1),
                wv,
            ));
        }
        i = i + 1;
    }
    proof {
        assert(weapons@.take(weapons.len() as int) =~= weapons@);
    }
}

/// Appends the weapon diagnostics of every tactics entry.
fn check_tactics(out: &mut Vec<Diagnostic>, ts: &Vec<TacticsRefs>, wts: &Vec<String>)
    ensures
        diagnostic_models(final(out)@) == diagnostic_models(old(out)@) + tactics_diags(ts@, string_views(wts@)),
{
    let ghost start = diagnostic_models(out@);
    let ghost wv = string_views(wts@);
    let mut i: usize = 0;
    while i < ts.len()
        invariant
            i <= ts.len(),
            wv == string_views(wts@),
            diagnostic_models(out@) == start + tactics_diags(ts@.take(i as int), wv),
        decreases ts.len() - i,
    {
        proof {
            assert(ts@.take(i + 1).drop_last() =~= ts@.take(i as int));
            assert(ts@.take(i + 1).last() == ts@[i as int]);
        }
        check_weapons(out, &ts[i], wts);
        proof {
            assert(diagnostic_models(out@) =~= start + tactics_diags(ts@.take(i + 1), wv));
        }
        i = i + 1;
    }
    proof {
        assert(ts@.take(ts.len() as int) =~= ts@);
    }
}

/// The keys of the loaded tactics entries, in order.
fn names_of_tactics(ts: &Vec<TacticsRefs>) -> (r: Vec<String>)
    ensures
        string_views(r@) == tactics_names(ts@),
{
    let mut r: Vec<String> = Vec::new();
    let mut i: usize = 0;
    while i < ts.len()
        invariant
            i <= ts.len(),
            r@.len() == i,
            string_views(r@) == tactics_names(ts@).take(i as int),
        decreases ts.len() - i,
    {
        let ghost before = r@;
        let name = ts[i].name.clone();
        r.push(name);
        proof {
            assert(r@ == before.push(name));
            assert forall|j: int| 0 <= j < i + 1 implies #[trigger] string_views(r@)[j] == tactics_names(ts@).take(i + 1)[j] by {
                if j < i {
                    assert(r@[j] == before[j]);
                    assert(string_views(before)[j] == tactics_names(ts@).take(i as int)[j]);
                }
            }
            assert(string_views(r@) =~= tactics_names(ts@).take(i + 1));
        }
        i = i + 1;
    }
    proof {
        assert(tactics_names(ts@).take(ts.len() as int) =~= tactics_names(ts@));
    }
    r
}

/// Runs cross-reference validation on a loaded world.
///
/// Checks, in this order: no duplicate object names, no duplicate squad
/// names, each object's visual, tactics and physics reference names a loaded
/// entry, each squad's units name existing objects, each leader's civ
/// exists, and each weapon of a loaded tactics entry names an existing
/// weapon type.
pub fn validate_world(world: &WorldRefs) -> (r: DiagnosticReport)
    ensures
        diagnostic_models(r.diagnostics@) == validation_diagnostics(*world),
{
    let start = now();
    let mut diagnostics: Vec<Diagnostic> = Vec::new();
    let object_names = names_of_objects(&world.objects);
    let squad_names = names_of_squads(&world.squads);
    check_duplicates(&mut diagnostics, "data\\objects.xml", TableId::Objects, "object", &object_names);
    check_duplicates(&mut diagnostics, "data\\squads.xml", TableId::Squads, "squad", &squad_names);
    check_references(&mut diagnostics, &world.objects, &world.visuals, ReferenceKind::Visual);
    let tactics_names = names_of_tactics(&world.tactics);
    check_references(&mut diagnostics, &world.objects, &tactics_names, ReferenceKind::Tactics);
    check_references(&mut diagnostics, &world.objects, &world.physics, ReferenceKind::Physics);
    check_squads(&mut diagnostics, &world.squads, &object_names);
    check_leaders(&mut diagnostics, &world.leaders, &world.civs);
    check_tactics(&mut diagnostics, &world.tactics, &world.weapon_types);
    proof {
        assert(diagnostic_models(diagnostics@) =~= validation_diagnostics(*world));
    }
    DiagnosticReport { diagnostics, elapsed: elapsed_since(&start) }
}

/// No diagnostic of the list is an error.
pub open spec fn free_of_errors(ds: Seq<DiagnosticModel>) -> bool {
    forall|i: int| 0 <= i < ds.len() ==> (#[trigger] ds[i]).severity != Severity::Error
}

proof fn lemma_no_error_count(ds: Seq<DiagnosticModel>)
    requires
        free_of_errors(ds),
    ensures
        count_severity(ds, Severity::Error) == 0,
    decreases ds.len(),
{
    if ds.len() > 0 {
        assert(free_of_errors(ds.drop_last())) by {
            assert forall|i: int| 0 <= i < ds.drop_last().len() implies (#[trigger] ds.drop_last()[i]).severity
                != Severity::Error by {
                assert(ds.drop_last()[i] == ds[i]);
            }
        }
        lemma_no_error_count(ds.drop_last());
        assert(ds.last() == ds[ds.len() - 1]);
    }
}

proof fn lemma_free_push(ds: Seq<DiagnosticModel>, d: DiagnosticModel)
    requires
        free_of_errors(ds),
        d.severity != Severity::Error,
    ensures
        free_of_errors(ds.push(d)),
{
    assert forall|i: int| 0 <= i < ds.push(d).len() implies (#[trigger] ds.push(d)[i]).severity != Severity::Error by {
        if i < ds.len() {
            assert(ds.push(d)[i] == ds[i]);
        }
    }
}

proof fn lemma_free_concat(a: Seq<DiagnosticModel>, b: Seq<DiagnosticModel>)
    requires
        free_of_errors(a),
        free_of_errors(b),
    ensures
        free_of_errors(a + b),
{
    assert forall|i: int| 0 <= i < (a + b).len() implies (#[trigger] (a + b)[i]).severity != Severity::Error by {
        if i < a.len() {
            assert((a + b)[i] == a[i]);
        } else {
            assert((a + b)[i] == b[i - a.len()]);
        }
    }
}

proof fn lemma_duplicates_free(path: Seq<char>, table: TableId, kind: Seq<char>, names: Seq<Seq<char>>)
    ensures
        free_of_errors(duplicate_diags(path, table, kind, names)),
    decreases names.len(),
{
    if names.len() > 0 {
        lemma_duplicates_free(path, table, kind, names.drop_last());
        let prev = duplicate_diags(path, table, kind, names.drop_last());
        lemma_free_push(prev, duplicate_diag(path, table, kind, names.last()));
    }
}

proof fn lemma_references_free(objs: Seq<ObjectRefs>, loaded: Seq<Seq<char>>, kind: ReferenceKind)
    ensures
        free_of_errors(reference_diags(objs, loaded, kind)),
    decreases objs.len(),
{
    if objs.len() > 0 {
        lemma_references_free(objs.drop_last(), loaded, kind);
        let prev = reference_diags(objs.drop_last(), loaded, kind);
        let o = objs.last();
        if let Some(v) = object_reference(o, kind) {
            lemma_free_push(prev, missing_reference_diag(kind, o.name@, v@));
        }
    }
}

proof fn lemma_units_free(squad: Seq<char>, units: Seq<UnitEntry>, objects: Seq<Seq<char>>)
    ensures
        free_of_errors(unit_diags(squad, units, objects)),
    decreases units.len(),
{
    if units.len() > 0 {
        lemma_units_free(squad, units.drop_last(), objects);
        lemma_free_push(unit_diags(squad, units.drop_last(), objects), missing_unit_diag(squad, units.last().proto_object@));
    }
}

proof fn lemma_squads_free(squads: Seq<SquadRefs>, objects: Seq<Seq<char>>)
    ensures
        free_of_errors(squad_diags(squads, objects)),
    decreases squads.len(),
{
    if squads.len() > 0 {
        lemma_squads_free(squads.drop_last(), objects);
        let s = squads.last();
        if let Some(us) = s.units {
            lemma_units_free(s.name@, us.entries@, objects);
            lemma_free_concat(squad_diags(squads.drop_last(), objects), unit_diags(s.name@, us.entries@, objects));
        }
    }
}

proof fn lemma_leaders_free(leaders: Seq<LeaderRefs>, civs: Seq<Seq<char>>)
    ensures
        free_of_errors(leader_diags(leaders, civs)),
    decreases leaders.len(),
{
    if leaders.len() > 0 {
        lemma_leaders_free(leaders.drop_last(), civs);
        let l = leaders.last();
        if let Some(c) = l.civ {
            lemma_free_push(leader_diags(leaders.drop_last(), civs), missing_civ_diag(l.name@, c@));
        }
    }
}

proof fn lemma_weapons_free(path: Seq<char>, tactics: Seq<char>, weapons: Seq<WeaponRefs>, wts: Seq<Seq<char>>)
    ensures
        free_of_errors(weapon_diags(path, tactics, weapons, wts)),
    decreases weapons.len(),
{
    if weapons.len() > 0 {
        lemma_weapons_free(path, tactics, weapons.drop_last(), wts);
        let w = weapons.last();
        if let Some(x) = w.weapon_type {
            lemma_free_push(
                weapon_diags(path, tactics, weapons.drop_last(), wts),
                missing_weapon_type_diag(path, tactics, w.name@, x@),
            );
        }
    }
}

proof fn lemma_tactics_free(ts: Seq<TacticsRefs>, wts: Seq<Seq<char>>)
    ensures
        free_of_errors(tactics_diags(ts, wts)),
    decreases ts.len(),
{
    if ts.len() > 0 {
        let t = ts.last();
        lemma_tactics_free(ts.drop_last(), wts);
        lemma_weapons_free(t.path@, t.name@, t.weapons@, wts);
        lemma_free_concat(tactics_diags(ts.drop_last(), wts), weapon_diags(t.path@, t.name@, t.weapons@, wts));
    }
}

/// Cross-reference validation never reports an error: a dangling reference
/// or a repeated name is a warning or a note, and the world still loads.
pub proof fn law_validation_reports_no_errors(w: WorldRefs)
    ensures
        free_of_errors(validation_diagnostics(w)),
        count_severity(validation_diagnostics(w), Severity::Error) == 0,
{
    let a = duplicate_diags(objects_path(), TableId::Objects, "object"@, object_names(w.objects@));
    let b = duplicate_diags(squads_path(), TableId::Squads, "squad"@, squad_names(w.squads@));
    let c = reference_diags(w.objects@, string_views(w.visuals@), ReferenceKind::Visual);
    let d = reference_diags(w.objects@, tactics_names(w.tactics@), ReferenceKind::Tactics);
    let e = reference_diags(w.objects@, string_views(w.physics@), ReferenceKind::Physics);
    let f = squad_diags(w.squads@, object_names(w.objects@));
    let g = leader_diags(w.leaders@, string_views(w.civs@));
    let h = tactics_diags(w.tactics@, string_views(w.weapon_types@));
    lemma_duplicates_free(objects_path(), TableId::Objects, "object"@, object_names(w.objects@));
    lemma_duplicates_free(squads_path(), TableId::Squads, "squad"@, squad_names(w.squads@));
    lemma_references_free(w.objects@, string_views(w.visuals@), ReferenceKind::Visual);
    lemma_references_free(w.objects@, tactics_names(w.tactics@), ReferenceKind::Tactics);
    lemma_references_free(w.objects@, string_views(w.physics@), ReferenceKind::Physics);
    lemma_squads_free(w.squads@, object_names(w.objects@));
    lemma_leaders_free(w.leaders@, string_views(w.civs@));
    lemma_tactics_free(w.tactics@, string_views(w.weapon_types@));
    lemma_free_concat(a, b);
    lemma_free_concat(a + b, c);
    lemma_free_concat(a + b + c, d);
    lemma_free_concat(a + b + c + d, e);
    lemma_free_concat(a + b + c + d + e, f);
    lemma_free_concat(a + b + c + d + e + f, g);
    lemma_free_concat(a + b + c + d + e + f + g, h);
    lemma_no_error_count(validation_diagnostics(w));
}

/// No non-empty name of the list repeats an earlier one.
pub open spec fn names_unique(names: Seq<Seq<char>>) -> bool {
    forall|i: int, j: int| 0 <= i < j < names.len() && names[j].len() > 0 ==> names[i] != names[j]
}

/// Every non-empty reference of the given kind is among the loaded keys.
pub open spec fn references_resolve(objs: Seq<ObjectRefs>, loaded: Seq<Seq<char>>, kind: ReferenceKind) -> bool {
    forall|i: int|
        0 <= i < objs.len() ==> match object_reference(#[trigger] objs[i], kind) {
            Some(v) => v@.len() > 0 ==> loaded.contains(v@),
            None => true,
        }
}

/// Every non-empty unit object name of every squad is an object's name.
pub open spec fn units_resolve(squads: Seq<SquadRefs>, objects: Seq<Seq<char>>) -> bool {
    forall|i: int, j: int|
        0 <= i < squads.len() && (#[trigger] squads[i]).units is Some && 0 <= j < squads[i].units.unwrap().entries@.len()
            ==> {
            let u = (#[trigger] squads[i].units.unwrap().entries@[j]).proto_object@;
            u.len() > 0 ==> objects.contains(u)
        }
}

/// Every non-empty civ of a leader is a civ's name.
pub open spec fn civs_resolve(leaders: Seq<LeaderRefs>, civs: Seq<Seq<char>>) -> bool {
    forall|i: int|
        0 <= i < leaders.len() ==> match (#[trigger] leaders[i]).civ {
            Some(c) => c@.len() > 0 ==> civs.contains(c@),
            None => true,
        }
}

/// Every non-empty weapon type of a weapon is a weapon type's name.
pub open spec fn weapons_resolve(weapons: Seq<WeaponRefs>, wts: Seq<Seq<char>>) -> bool {
    forall|j: int|
        0 <= j < weapons.len() ==> match (#[trigger] weapons[j]).weapon_type {
            Some(x) => x@.len() > 0 ==> wts.contains(x@),
            None => true,
        }
}

/// Every weapon of every loaded tactics entry names an existing weapon type.
pub open spec fn weapon_types_resolve(ts: Seq<TacticsRefs>, wts: Seq<Seq<char>>) -> bool {
    forall|i: int| 0 <= i < ts.len() ==> weapons_resolve((#[trigger] ts[i]).weapons@, wts)
}

/// A world whose names are unique and whose references all resolve.
pub open spec fn world_is_consistent(w: WorldRefs) -> bool {
    &&& names_unique(object_names(w.objects@))
    &&& names_unique(squad_names(w.squads@))
    &&& references_resolve(w.objects@, string_views(w.visuals@), ReferenceKind::Visual)
    &&& references_resolve(w.objects@, tactics_names(w.tactics@), ReferenceKind::Tactics)
    &&& references_resolve(w.objects@, string_views(w.physics@), ReferenceKind::Physics)
    &&& units_resolve(w.squads@, object_names(w.objects@))
    &&& civs_resolve(w.leaders@, string_views(w.civs@))
    &&& weapon_types_resolve(w.tactics@, string_views(w.weapon_types@))
}

proof fn lemma_unique_no_duplicates(path: Seq<char>, table: TableId, kind: Seq<char>, names: Seq<Seq<char>>)
    requires
        names_unique(names),
    ensures
        duplicate_diags(path, table, kind, names).len() == 0,
    decreases names.len(),
{
    if names.len() > 0 {
        let t = names.drop_last();
        assert(names_unique(t)) by {
            assert forall|i: int, j: int| 0 <= i < j < t.len() && t[j].len() > 0 implies t[i] != t[j] by {
                assert(t[i] == names[i] && t[j] == names[j]);
            }
        }
        lemma_unique_no_duplicates(path, table, kind, t);
        let n = names.last();
        if n.len() > 0 && t.contains(n) {
            let i = choose|i: int| 0 <= i < t.len() && t[i] == n;
            assert(names[i] == names[names.len() - 1]);
        }
    }
}

proof fn lemma_resolved_no_references(objs: Seq<ObjectRefs>, loaded: Seq<Seq<char>>, kind: ReferenceKind)
    requires
        references_resolve(objs, loaded, kind),
    ensures
        reference_diags(objs, loaded, kind).len() == 0,
    decreases objs.len(),
{
    if objs.len() > 0 {
        let t = objs.drop_last();
        assert(references_resolve(t, loaded, kind)) by {
            assert forall|i: int| 0 <= i < t.len() implies match object_reference(#[trigger] t[i], kind) {
                Some(v) => v@.len() > 0 ==> loaded.contains(v@),
                None => true,
            } by {
                assert(t[i] == objs[i]);
            }
        }
        lemma_resolved_no_references(t, loaded, kind);
        assert(objs.last() == objs[objs.len() - 1]);
    }
}

proof fn lemma_resolved_no_units(squad: Seq<char>, units: Seq<UnitEntry>, objects: Seq<Seq<char>>)
    requires
        forall|j: int|
            0 <= j < units.len() ==> (#[trigger] units[j]).proto_object@.len() > 0 ==> objects.contains(
                units[j].proto_object@,
            ),
    ensures
        unit_diags(squad, units, objects).len() == 0,
    decreases units.len(),
{
    if units.len() > 0 {
        let t = units.drop_last();
        assert forall|j: int| 0 <= j < t.len() && (#[trigger] t[j]).proto_object@.len() > 0 implies objects.contains(
            t[j].proto_object@,
        ) by {
            assert(t[j] == units[j]);
        }
        lemma_resolved_no_units(squad, t, objects);
        assert(units.last() == units[units.len() - 1]);
    }
}

proof fn lemma_resolved_no_squads(squads: Seq<SquadRefs>, objects: Seq<Seq<char>>)
    requires
        units_resolve(squads, objects),
    ensures
        squad_diags(squads, objects).len() == 0,
    decreases squads.len(),
{
    if squads.len() > 0 {
        let t = squads.drop_last();
        assert(units_resolve(t, objects)) by {
            assert forall|i: int, j: int|
                0 <= i < t.len() && (#[trigger] t[i]).units is Some && 0 <= j < t[i].units.unwrap().entries@.len() implies {
                let u = (#[trigger] t[i].units.unwrap().entries@[j]).proto_object@;
                u.len() > 0 ==> objects.contains(u)
            } by {
                assert(t[i] == squads[i]);
            }
        }
        lemma_resolved_no_squads(t, objects);
        let k = squads.len() - 1;
        let s = squads[k];
        if let Some(us) = s.units {
            assert forall|j: int| 0 <= j < us.entries@.len() && (#[trigger] us.entries@[j]).proto_object@.len() > 0
                implies objects.contains(us.entries@[j].proto_object@) by {
                assert(squads[k].units.unwrap().entries@[j] == us.entries@[j]);
            }
            lemma_resolved_no_units(s.name@, us.entries@, objects);
        }
    }
}

proof fn lemma_resolved_no_leaders(leaders: Seq<LeaderRefs>, civs: Seq<Seq<char>>)
    requires
        civs_resolve(leaders, civs),
    ensures
        leader_diags(leaders, civs).len() == 0,
    decreases leaders.len(),
{
    if leaders.len() > 0 {
        let t = leaders.drop_last();
        assert(civs_resolve(t, civs)) by {
            assert forall|i: int| 0 <= i < t.len() implies match (#[trigger] t[i]).civ {
                Some(c) => c@.len() > 0 ==> civs.contains(c@),
                None => true,
            } by {
                assert(t[i] == leaders[i]);
            }
        }
        lemma_resolved_no_leaders(t, civs);
        assert(leaders.last() == leaders[leaders.len() - 1]);
    }
}

proof fn lemma_resolved_no_weapons(path: Seq<char>, tactics: Seq<char>, weapons: Seq<WeaponRefs>, wts: Seq<Seq<char>>)
    requires
        weapons_resolve(weapons, wts),
    ensures
        weapon_diags(path, tactics, weapons, wts).len() == 0,
    decreases weapons.len(),
{
    if weapons.len() > 0 {
        let t = weapons.drop_last();
        assert(weapons_resolve(t, wts)) by {
            assert forall|j: int| 0 <= j < t.len() implies match (#[trigger] t[j]).weapon_type {
                Some(x) => x@.len() > 0 ==> wts.contains(x@),
                None => true,
            } by {
                assert(t[j] == weapons[j]);
            }
        }
        lemma_resolved_no_weapons(path, tactics, t, wts);
        assert(weapons.last() == weapons[weapons.len() - 1]);
    }
}

proof fn lemma_resolved_no_tactics(ts: Seq<TacticsRefs>, wts: Seq<Seq<char>>)
    requires
        weapon_types_resolve(ts, wts),
    ensures
        tactics_diags(ts, wts).len() == 0,
    decreases ts.len(),
{
    if ts.len() > 0 {
        let t = ts.drop_last();
        assert(weapon_types_resolve(t, wts)) by {
            assert forall|i: int| 0 <= i < t.len() implies weapons_resolve((#[trigger] t[i]).weapons@, wts) by {
                assert(t[i] == ts[i]);
            }
        }
        lemma_resolved_no_tactics(t, wts);
        let k = ts.len() - 1;
        assert(weapons_resolve(ts[k].weapons@, wts));
        lemma_resolved_no_weapons(ts[k].path@, ts[k].name@, ts[k].weapons@, wts);
    }
}

/// A consistent world (unique names, every reference resolving) validates
/// without a single diagnostic.
pub proof fn law_consistent_world_is_clean(w: WorldRefs)
    requires
        world_is_consistent(w),
    ensures
        validation_diagnostics(w).len() == 0,
{
    lemma_unique_no_duplicates(objects_path(), TableId::Objects, "object"@, object_names(w.objects@));
    lemma_unique_no_duplicates(squads_path(), TableId::Squads, "squad"@, squad_names(w.squads@));
    lemma_resolved_no_references(w.objects@, string_views(w.visuals@), ReferenceKind::Visual);
    lemma_resolved_no_references(w.objects@, tactics_names(w.tactics@), ReferenceKind::Tactics);
    lemma_resolved_no_references(w.objects@, string_views(w.physics@), ReferenceKind::Physics);
    lemma_resolved_no_squads(w.squads@, object_names(w.objects@));
    lemma_resolved_no_leaders(w.leaders@, string_views(w.civs@));
    lemma_resolved_no_tactics(w.tactics@, string_views(w.weapon_types@));
}


// ── Dangling references are reported ────────────────────────────────────

proof fn lemma_text_in_middle(a: Seq<char>, t: Seq<char>, b: Seq<char>)
    ensures
        contains_run(a + t + b, t),
{
    let s = a + t + b;
    assert(s.subrange(a.len() as int, (a.len() + t.len()) as int) =~= t);
}

proof fn lemma_in_left(a: Seq<DiagnosticModel>, b: Seq<DiagnosticModel>, x: DiagnosticModel)
    requires
        a.contains(x),
    ensures
        (a + b).contains(x),
{
    let k = choose|k: int| 0 <= k < a.len() && a[k] == x;
    assert((a + b)[k] == x);
}

proof fn lemma_in_right(a: Seq<DiagnosticModel>, b: Seq<DiagnosticModel>, x: DiagnosticModel)
    requires
        b.contains(x),
    ensures
        (a + b).contains(x),
{
    let k = choose|k: int| 0 <= k < b.len() && b[k] == x;
    assert((a + b)[a.len() + k] == x);
}

proof fn lemma_in_push(a: Seq<DiagnosticModel>, y: DiagnosticModel, x: DiagnosticModel)
    requires
        a.contains(x),
    ensures
        a.push(y).contains(x),
{
    let k = choose|k: int| 0 <= k < a.len() && a[k] == x;
    assert(a.push(y)[k] == x);
}

/// The keys that an object reference of the given kind is looked up in.
pub open spec fn loaded_keys(w: WorldRefs, kind: ReferenceKind) -> Seq<Seq<char>> {
    match kind {
        ReferenceKind::Visual => string_views(w.visuals@),
        ReferenceKind::Tactics => tactics_names(w.tactics@),
        ReferenceKind::Physics => string_views(w.physics@),
    }
}

proof fn lemma_reference_reported(objs: Seq<ObjectRefs>, loaded: Seq<Seq<char>>, kind: ReferenceKind, i: int)
    requires
        0 <= i < objs.len(),
        object_reference(objs[i], kind) is Some,
        object_reference(objs[i], kind).unwrap()@.len() > 0,
        !loaded.contains(object_reference(objs[i], kind).unwrap()@),
    ensures
        reference_diags(objs, loaded, kind).contains(
            missing_reference_diag(kind, objs[i].name@, object_reference(objs[i], kind).unwrap()@),
        ),
    decreases objs.len(),
{
    let d = missing_reference_diag(kind, objs[i].name@, object_reference(objs[i], kind).unwrap()@);
    let prev = reference_diags(objs.drop_last(), loaded, kind);
    if i == objs.len() - 1 {
        assert(objs.last() == objs[i]);
        assert(reference_diags(objs, loaded, kind) == prev.push(d));
        assert(prev.push(d)[prev.len() as int] == d);
    } else {
        assert(objs.drop_last()[i] == objs[i]);
        lemma_reference_reported(objs.drop_last(), loaded, kind, i);
        let o = objs.last();
        match object_reference(o, kind) {
            Some(v) => if v@.len() > 0 && !loaded.contains(v@) {
                lemma_in_push(prev, missing_reference_diag(kind, o.name@, v@), d);
            },
            None => {},
        }
    }
}

/// An object whose non-empty visual, tactics or physics reference names
/// nothing that was loaded gets a missing-reference diagnostic on that field
/// of that object, and its message names the reference.
pub proof fn law_missing_reference_is_reported(w: WorldRefs, i: int, kind: ReferenceKind)
    requires
        0 <= i < w.objects@.len(),
        object_reference(w.objects@[i], kind) is Some,
        object_reference(w.objects@[i], kind).unwrap()@.len() > 0,
        !loaded_keys(w, kind).contains(object_reference(w.objects@[i], kind).unwrap()@),
    ensures
        ({
            let target = object_reference(w.objects@[i], kind).unwrap()@;
            let d = missing_reference_diag(kind, w.objects@[i].name@, target);
            &&& validation_diagnostics(w).contains(d)
            &&& d.code == DiagnosticCode::MissingReference
            &&& d.location == LocationModel::Field { table: TableId::Objects, name: w.objects@[i].name@, field: reference_field(kind) }
            &&& contains_run(d.message, target)
        }),
{
    let target = object_reference(w.objects@[i], kind).unwrap()@;
    let d = missing_reference_diag(kind, w.objects@[i].name@, target);
    let a = duplicate_diags(objects_path(), TableId::Objects, "object"@, object_names(w.objects@));
    let b = duplicate_diags(squads_path(), TableId::Squads, "squad"@, squad_names(w.squads@));
    let c = reference_diags(w.objects@, string_views(w.visuals@), ReferenceKind::Visual);
    let dd = reference_diags(w.objects@, tactics_names(w.tactics@), ReferenceKind::Tactics);
    let e = reference_diags(w.objects@, string_views(w.physics@), ReferenceKind::Physics);
    let f = squad_diags(w.squads@, object_names(w.objects@));
    let g = leader_diags(w.leaders@, string_views(w.civs@));
    let h = tactics_diags(w.tactics@, string_views(w.weapon_types@));
    lemma_reference_reported(w.objects@, loaded_keys(w, kind), kind, i);
    match kind {
        ReferenceKind::Visual => {
            lemma_in_right(a + b, c, d);
            lemma_in_left(a + b + c, dd, d);
            lemma_in_left(a + b + c + dd, e, d);
        },
        ReferenceKind::Tactics => {
            lemma_in_right(a + b + c, dd, d);
            lemma_in_left(a + b + c + dd, e, d);
        },
        ReferenceKind::Physics => {
            lemma_in_right(a + b + c + dd, e, d);
        },
    }
    lemma_in_left(a + b + c + dd + e, f, d);
    lemma_in_left(a + b + c + dd + e + f, g, d);
    lemma_in_left(a + b + c + dd + e + f + g, h, d);
    lemma_text_in_middle(
        "object '"@ + w.objects@[i].name@ + "' references "@ + reference_word(kind) + " '"@,
        target,
        "' which was not loaded"@,
    );
}

proof fn lemma_unit_reported(squad: Seq<char>, units: Seq<UnitEntry>, objects: Seq<Seq<char>>, j: int)
    requires
        0 <= j < units.len(),
        units[j].proto_object@.len() > 0,
        !objects.contains(units[j].proto_object@),
    ensures
        unit_diags(squad, units, objects).contains(missing_unit_diag(squad, units[j].proto_object@)),
    decreases units.len(),
{
    let d = missing_unit_diag(squad, units[j].proto_object@);
    let prev = unit_diags(squad, units.drop_last(), objects);
    if j == units.len() - 1 {
        assert(units.last() == units[j]);
        assert(prev.push(d)[prev.len() as int] == d);
    } else {
        assert(units.drop_last()[j] == units[j]);
        lemma_unit_reported(squad, units.drop_last(), objects, j);
        let u = units.last().proto_object@;
        if u.len() > 0 && !objects.contains(u) {
            lemma_in_push(prev, missing_unit_diag(squad, u), d);
        }
    }
}

proof fn lemma_squad_unit_reported(squads: Seq<SquadRefs>, objects: Seq<Seq<char>>, i: int, j: int)
    requires
        0 <= i < squads.len(),
        squads[i].units is Some,
        0 <= j < squads[i].units.unwrap().entries@.len(),
        squads[i].units.unwrap().entries@[j].proto_object@.len() > 0,
        !objects.contains(squads[i].units.unwrap().entries@[j].proto_object@),
    ensures
        squad_diags(squads, objects).contains(
            missing_unit_diag(squads[i].name@, squads[i].units.unwrap().entries@[j].proto_object@),
        ),
    decreases squads.len(),
{
    let d = missing_unit_diag(squads[i].name@, squads[i].units.unwrap().entries@[j].proto_object@);
    let prev = squad_diags(squads.drop_last(), objects);
    let s = squads.last();
    if i == squads.len() - 1 {
        assert(s == squads[i]);
        let us = s.units.unwrap();
        lemma_unit_reported(s.name@, us.entries@, objects, j);
        lemma_in_right(prev, unit_diags(s.name@, us.entries@, objects), d);
    } else {
        assert(squads.drop_last()[i] == squads[i]);
        lemma_squad_unit_reported(squads.drop_last(), objects, i, j);
        if let Some(us) = s.units {
            lemma_in_left(prev, unit_diags(s.name@, us.entries@, objects), d);
        }
    }
}

/// A squad unit whose non-empty object name no object has gets a
/// missing-reference diagnostic on the squad's units, and its message names
/// the missing object.
pub proof fn law_missing_squad_unit_is_reported(w: WorldRefs, i: int, j: int)
    requires
        0 <= i < w.squads@.len(),
        w.squads@[i].units is Some,
        0 <= j < w.squads@[i].units.unwrap().entries@.len(),
        w.squads@[i].units.unwrap().entries@[j].proto_object@.len() > 0,
        !object_names(w.objects@).contains(w.squads@[i].units.unwrap().entries@[j].proto_object@),
    ensures
        ({
            let unit = w.squads@[i].units.unwrap().entries@[j].proto_object@;
            let d = missing_unit_diag(w.squads@[i].name@, unit);
            &&& validation_diagnostics(w).contains(d)
            &&& d.code == DiagnosticCode::MissingReference
            &&& d.location == LocationModel::Field { table: TableId::Squads, name: w.squads@[i].name@, field: "Units"@ }
            &&& contains_run(d.message, unit)
        }),
{
    let unit = w.squads@[i].units.unwrap().entries@[j].proto_object@;
    let d = missing_unit_diag(w.squads@[i].name@, unit);
    let a = duplicate_diags(objects_path(), TableId::Objects, "object"@, object_names(w.objects@));
    let b = duplicate_diags(squads_path(), TableId::Squads, "squad"@, squad_names(w.squads@));
    let c = reference_diags(w.objects@, string_views(w.visuals@), ReferenceKind::Visual);
    let dd = reference_diags(w.objects@, tactics_names(w.tactics@), ReferenceKind::Tactics);
    let e = reference_diags(w.objects@, string_views(w.physics@), ReferenceKind::Physics);
    let f = squad_diags(w.squads@, object_names(w.objects@));
    let g = leader_diags(w.leaders@, string_views(w.civs@));
    let h = tactics_diags(w.tactics@, string_views(w.weapon_types@));
    lemma_squad_unit_reported(w.squads@, object_names(w.objects@), i, j);
    lemma_in_right(a + b + c + dd + e, f, d);
    lemma_in_left(a + b + c + dd + e + f, g, d);
    lemma_in_left(a + b + c + dd + e + f + g, h, d);
    lemma_text_in_middle("squad '"@ + w.squads@[i].name@ + "' references object '"@, unit, "' which does not exist"@);
}

proof fn lemma_leader_reported(leaders: Seq<LeaderRefs>, civs: Seq<Seq<char>>, i: int)
    requires
        0 <= i < leaders.len(),
        leaders[i].civ is Some,
        leaders[i].civ.unwrap()@.len() > 0,
        !civs.contains(leaders[i].civ.unwrap()@),
    ensures
        leader_diags(leaders, civs).contains(missing_civ_diag(leaders[i].name@, leaders[i].civ.unwrap()@)),
    decreases leaders.len(),
{
    let d = missing_civ_diag(leaders[i].name@, leaders[i].civ.unwrap()@);
    let prev = leader_diags(leaders.drop_last(), civs);
    if i == leaders.len() - 1 {
        assert(leaders.last() == leaders[i]);
        assert(prev.push(d)[prev.len() as int] == d);
    } else {
        assert(leaders.drop_last()[i] == leaders[i]);
        lemma_leader_reported(leaders.drop_last(), civs, i);
        let l = leaders.last();
        if let Some(c) = l.civ {
            if c@.len() > 0 && !civs.contains(c@) {
                lemma_in_push(prev, missing_civ_diag(l.name@, c@), d);
            }
        }
    }
}

/// A leader whose non-empty civ names no civ gets a missing-reference
/// diagnostic on its civ, and its message names the civ.
pub proof fn law_missing_leader_civ_is_reported(w: WorldRefs, i: int)
    requires
        0 <= i < w.leaders@.len(),
        w.leaders@[i].civ is Some,
        w.leaders@[i].civ.unwrap()@.len() > 0,
        !string_views(w.civs@).contains(w.leaders@[i].civ.unwrap()@),
    ensures
        ({
            let civ = w.leaders@[i].civ.unwrap()@;
            let d = missing_civ_diag(w.leaders@[i].name@, civ);
            &&& validation_diagnostics(w).contains(d)
            &&& d.code == DiagnosticCode::MissingReference
            &&& d.location == LocationModel::Field { table: TableId::Leaders, name: w.leaders@[i].name@, field: "Civ"@ }
            &&& contains_run(d.message, civ)
        }),
{
    let civ = w.leaders@[i].civ.unwrap()@;
    let d = missing_civ_diag(w.leaders@[i].name@, civ);
    let a = duplicate_diags(objects_path(), TableId::Objects, "object"@, object_names(w.objects@));
    let b = duplicate_diags(squads_path(), TableId::Squads, "squad"@, squad_names(w.squads@));
    let c = reference_diags(w.objects@, string_views(w.visuals@), ReferenceKind::Visual);
    let dd = reference_diags(w.objects@, tactics_names(w.tactics@), ReferenceKind::Tactics);
    let e = reference_diags(w.objects@, string_views(w.physics@), ReferenceKind::Physics);
    let f = squad_diags(w.squads@, object_names(w.objects@));
    let g = leader_diags(w.leaders@, string_views(w.civs@));
    let h = tactics_diags(w.tactics@, string_views(w.weapon_types@));
    lemma_leader_reported(w.leaders@, string_views(w.civs@), i);
    lemma_in_right(a + b + c + dd + e + f, g, d);
    lemma_in_left(a + b + c + dd + e + f + g, h, d);
    lemma_text_in_middle("leader '"@ + w.leaders@[i].name@ + "' references civ '"@, civ, "' which does not exist"@);
}

proof fn lemma_weapon_reported(path: Seq<char>, tactics: Seq<char>, weapons: Seq<WeaponRefs>, wts: Seq<Seq<char>>, j: int)
    requires
        0 <= j < weapons.len(),
        weapons[j].weapon_type is Some,
        weapons[j].weapon_type.unwrap()@.len() > 0,
        !wts.contains(weapons[j].weapon_type.unwrap()@),
    ensures
        weapon_diags(path, tactics, weapons, wts).contains(
            missing_weapon_type_diag(path, tactics, weapons[j].name@, weapons[j].weapon_type.unwrap()@),
        ),
    decreases weapons.len(),
{
    let d = missing_weapon_type_diag(path, tactics, weapons[j].name@, weapons[j].weapon_type.unwrap()@);
    let prev = weapon_diags(path, tactics, weapons.drop_last(), wts);
    if j == weapons.len() - 1 {
        assert(weapons.last() == weapons[j]);
        assert(prev.push(d)[prev.len() as int] == d);
    } else {
        assert(weapons.drop_last()[j] == weapons[j]);
        lemma_weapon_reported(path, tactics, weapons.drop_last(), wts, j);
        let w = weapons.last();
        if let Some(x) = w.weapon_type {
            if x@.len() > 0 && !wts.contains(x@) {
                lemma_in_push(prev, missing_weapon_type_diag(path, tactics, w.name@, x@), d);
            }
        }
    }
}

proof fn lemma_tactics_weapon_reported(ts: Seq<TacticsRefs>, wts: Seq<Seq<char>>, i: int, j: int)
    requires
        0 <= i < ts.len(),
        0 <= j < ts[i].weapons@.len(),
        ts[i].weapons@[j].weapon_type is Some,
        ts[i].weapons@[j].weapon_type.unwrap()@.len() > 0,
        !wts.contains(ts[i].weapons@[j].weapon_type.unwrap()@),
    ensures
        tactics_diags(ts, wts).contains(
            missing_weapon_type_diag(
                ts[i].path@,
                ts[i].name@,
                ts[i].weapons@[j].name@,
                ts[i].weapons@[j].weapon_type.unwrap()@,
            ),
        ),
    decreases ts.len(),
{
    let d = missing_weapon_type_diag(
        ts[i].path@,
        ts[i].name@,
        ts[i].weapons@[j].name@,
        ts[i].weapons@[j].weapon_type.unwrap()@,
    );
    let prev = tactics_diags(ts.drop_last(), wts);
    let t = ts.last();
    if i == ts.len() - 1 {
        assert(t == ts[i]);
        lemma_weapon_reported(t.path@, t.name@, t.weapons@, wts, j);
        lemma_in_right(prev, weapon_diags(t.path@, t.name@, t.weapons@, wts), d);
    } else {
        assert(ts.drop_last()[i] == ts[i]);
        lemma_tactics_weapon_reported(ts.drop_last(), wts, i, j);
        lemma_in_left(prev, weapon_diags(t.path@, t.name@, t.weapons@, wts), d);
    }
}

/// A weapon of a loaded tactics entry whose non-empty weapon type names no
/// weapon type gets a missing-reference diagnostic on that tactics entry,
/// and its message names the weapon type.
pub proof fn law_missing_weapon_type_is_reported(w: WorldRefs, i: int, j: int)
    requires
        0 <= i < w.tactics@.len(),
        0 <= j < w.tactics@[i].weapons@.len(),
        w.tactics@[i].weapons@[j].weapon_type is Some,
        w.tactics@[i].weapons@[j].weapon_type.unwrap()@.len() > 0,
        !string_views(w.weapon_types@).contains(w.tactics@[i].weapons@[j].weapon_type.unwrap()@),
    ensures
        ({
            let t = w.tactics@[i];
            let wt = t.weapons@[j].weapon_type.unwrap()@;
            let d = missing_weapon_type_diag(t.path@, t.name@, t.weapons@[j].name@, wt);
            &&& validation_diagnostics(w).contains(d)
            &&& d.code == DiagnosticCode::MissingReference
            &&& d.location == LocationModel::Field { table: TableId::Tactics, name: t.name@, field: "WeaponType"@ }
            &&& contains_run(d.message, wt)
        }),
{
    let t = w.tactics@[i];
    let wt = t.weapons@[j].weapon_type.unwrap()@;
    let d = missing_weapon_type_diag(t.path@, t.name@, t.weapons@[j].name@, wt);
    let a = duplicate_diags(objects_path(), TableId::Objects, "object"@, object_names(w.objects@));
    let b = duplicate_diags(squads_path(), TableId::Squads, "squad"@, squad_names(w.squads@));
    let c = reference_diags(w.objects@, string_views(w.visuals@), ReferenceKind::Visual);
    let dd = reference_diags(w.objects@, tactics_names(w.tactics@), ReferenceKind::Tactics);
    let e = reference_diags(w.objects@, string_views(w.physics@), ReferenceKind::Physics);
    let f = squad_diags(w.squads@, object_names(w.objects@));
    let g = leader_diags(w.leaders@, string_views(w.civs@));
    let h = tactics_diags(w.tactics@, string_views(w.weapon_types@));
    lemma_tactics_weapon_reported(w.tactics@, string_views(w.weapon_types@), i, j);
    lemma_in_right(a + b + c + dd + e + f + g, h, d);
    lemma_text_in_middle(
        "tactics '"@ + t.name@ + "' weapon '"@ + t.weapons@[j].name@ + "' references weapon type '"@,
        wt,
        "' which does not exist"@,
    );
}

// ── Duplicate names are counted ─────────────────────────────────────────

/// How many times `x` occurs in `s`.
pub open spec fn occurrences<A>(s: Seq<A>, x: A) -> nat {
    s.to_multiset().count(x)
}

/// How many duplicate-name diagnostics a non-empty name gets: one for each
/// occurrence after the first; an empty name gets none.
pub open spec fn repeats_after_first(names: Seq<Seq<char>>, n: Seq<char>) -> nat {
    if n.len() > 0 && occurrences(names, n) > 0 {
        (occurrences(names, n) - 1) as nat
    } else {
        0nat
    }
}

/// Every diagnostic of the list is a missing reference.
pub open spec fn all_missing_references(ds: Seq<DiagnosticModel>) -> bool {
    forall|i: int| 0 <= i < ds.len() ==> (#[trigger] ds[i]).code == DiagnosticCode::MissingReference
}

proof fn lemma_missing_push(ds: Seq<DiagnosticModel>, d: DiagnosticModel)
    requires
        all_missing_references(ds),
        d.code == DiagnosticCode::MissingReference,
    ensures
        all_missing_references(ds.push(d)),
{
    assert forall|i: int| 0 <= i < ds.push(d).len() implies (#[trigger] ds.push(d)[i]).code
        == DiagnosticCode::MissingReference by {
        if i < ds.len() {
            assert(ds.push(d)[i] == ds[i]);
        }
    }
}

proof fn lemma_missing_concat(a: Seq<DiagnosticModel>, b: Seq<DiagnosticModel>)
    requires
        all_missing_references(a),
        all_missing_references(b),
    ensures
        all_missing_references(a + b),
{
    assert forall|i: int| 0 <= i < (a + b).len() implies (#[trigger] (a + b)[i]).code
        == DiagnosticCode::MissingReference by {
        if i < a.len() {
            assert((a + b)[i] == a[i]);
        } else {
            assert((a + b)[i] == b[i - a.len()]);
        }
    }
}

proof fn lemma_references_missing(objs: Seq<ObjectRefs>, loaded: Seq<Seq<char>>, kind: ReferenceKind)
    ensures
        all_missing_references(reference_diags(objs, loaded, kind)),
    decreases objs.len(),
{
    if objs.len() > 0 {
        lemma_references_missing(objs.drop_last(), loaded, kind);
        let o = objs.last();
        if let Some(v) = object_reference(o, kind) {
            lemma_missing_push(reference_diags(objs.drop_last(), loaded, kind), missing_reference_diag(kind, o.name@, v@));
        }
    }
}

proof fn lemma_squads_missing(squads: Seq<SquadRefs>, objects: Seq<Seq<char>>)
    ensures
        all_missing_references(squad_diags(squads, objects)),
    decreases squads.len(),
{
    if squads.len() > 0 {
        lemma_squads_missing(squads.drop_last(), objects);
        let s = squads.last();
        if let Some(us) = s.units {
            lemma_units_missing(s.name@, us.entries@, objects);
            lemma_missing_concat(squad_diags(squads.drop_last(), objects), unit_diags(s.name@, us.entries@, objects));
        }
    }
}

proof fn lemma_units_missing(squad: Seq<char>, units: Seq<UnitEntry>, objects: Seq<Seq<char>>)
    ensures
        all_missing_references(unit_diags(squad, units, objects)),
    decreases units.len(),
{
    if units.len() > 0 {
        lemma_units_missing(squad, units.drop_last(), objects);
        lemma_missing_push(unit_diags(squad, units.drop_last(), objects), missing_unit_diag(squad, units.last().proto_object@));
    }
}

proof fn lemma_leaders_missing(leaders: Seq<LeaderRefs>, civs: Seq<Seq<char>>)
    ensures
        all_missing_references(leader_diags(leaders, civs)),
    decreases leaders.len(),
{
    if leaders.len() > 0 {
        lemma_leaders_missing(leaders.drop_last(), civs);
        let l = leaders.last();
        if let Some(c) = l.civ {
            lemma_missing_push(leader_diags(leaders.drop_last(), civs), missing_civ_diag(l.name@, c@));
        }
    }
}

proof fn lemma_weapons_missing(path: Seq<char>, tactics: Seq<char>, weapons: Seq<WeaponRefs>, wts: Seq<Seq<char>>)
    ensures
        all_missing_references(weapon_diags(path, tactics, weapons, wts)),
    decreases weapons.len(),
{
    if weapons.len() > 0 {
        lemma_weapons_missing(path, tactics, weapons.drop_last(), wts);
        let w = weapons.last();
        if let Some(x) = w.weapon_type {
            lemma_missing_push(
                weapon_diags(path, tactics, weapons.drop_last(), wts),
                missing_weapon_type_diag(path, tactics, w.name@, x@),
            );
        }
    }
}

proof fn lemma_tactics_missing(ts: Seq<TacticsRefs>, wts: Seq<Seq<char>>)
    ensures
        all_missing_references(tactics_diags(ts, wts)),
    decreases ts.len(),
{
    if ts.len() > 0 {
        let t = ts.last();
        lemma_tactics_missing(ts.drop_last(), wts);
        lemma_weapons_missing(t.path@, t.name@, t.weapons@, wts);
        lemma_missing_concat(tactics_diags(ts.drop_last(), wts), weapon_diags(t.path@, t.name@, t.weapons@, wts));
    }
}

/// A duplicate-name diagnostic never occurs among missing references.
proof fn lemma_missing_lacks(ds: Seq<DiagnosticModel>, x: DiagnosticModel)
    requires
        all_missing_references(ds),
        x.code == DiagnosticCode::DuplicateName,
    ensures
        occurrences(ds, x) == 0,
{
    ds.to_multiset_ensures();
    if ds.contains(x) {
        let i = choose|i: int| 0 <= i < ds.len() && ds[i] == x;
        assert(ds[i].code == DiagnosticCode::MissingReference);
    }
}

/// Every diagnostic of `duplicate_diags` carries the given path.
proof fn lemma_duplicates_lack(path: Seq<char>, table: TableId, kind: Seq<char>, names: Seq<Seq<char>>, x: DiagnosticModel)
    requires
        x.path != path,
    ensures
        occurrences(duplicate_diags(path, table, kind, names), x) == 0,
    decreases names.len(),
{
    let all = duplicate_diags(path, table, kind, names);
    all.to_multiset_ensures();
    if names.len() == 0 {
        assert(!all.contains(x));
    } else {
        lemma_duplicates_lack(path, table, kind, names.drop_last(), x);
        let prev = duplicate_diags(path, table, kind, names.drop_last());
        prev.to_multiset_ensures();
        let n = names.last();
        if n.len() > 0 && names.drop_last().contains(n) {
            assert(prev.push(duplicate_diag(path, table, kind, n)).to_multiset() =~= prev.to_multiset().insert(
                duplicate_diag(path, table, kind, n),
            ));
        }
    }
}

/// The duplicate diagnostics of a table name `n` once for each occurrence
/// of a non-empty `n` after its first.
proof fn lemma_duplicate_count(path: Seq<char>, table: TableId, kind: Seq<char>, names: Seq<Seq<char>>, n: Seq<char>)
    ensures
        occurrences(duplicate_diags(path, table, kind, names), duplicate_diag(path, table, kind, n))
            == repeats_after_first(names, n),
    decreases names.len(),
{
    names.to_multiset_ensures();
    let all = duplicate_diags(path, table, kind, names);
    all.to_multiset_ensures();
    if names.len() == 0 {
        assert(!names.contains(n));
        assert(!all.contains(duplicate_diag(path, table, kind, n)));
    } else {
        let t = names.drop_last();
        let m = names.last();
        lemma_duplicate_count(path, table, kind, t, n);
        assert(t.push(m) =~= names);
        let prev = duplicate_diags(path, table, kind, t);
        let x = duplicate_diag(path, table, kind, n);
        t.to_multiset_ensures();
        prev.to_multiset_ensures();
        if m.len() > 0 && t.contains(m) {
            let y = duplicate_diag(path, table, kind, m);
            assert(prev.push(y).to_multiset() =~= prev.to_multiset().insert(y));
            if m != n {
                assert(y.location != x.location);
            }
        }
    }
}

/// Duplicate names are counted as they repeat: for every non-empty name,
/// validation reports one duplicate-name warning on that entry of the object
/// table for each object with that name after the first, and likewise for
/// squads; an empty name is never reported.
pub proof fn law_duplicate_names_counted(w: WorldRefs, n: Seq<char>)
    ensures
        occurrences(validation_diagnostics(w), duplicate_diag(objects_path(), TableId::Objects, "object"@, n))
            == repeats_after_first(object_names(w.objects@), n),
        occurrences(validation_diagnostics(w), duplicate_diag(squads_path(), TableId::Squads, "squad"@, n))
            == repeats_after_first(squad_names(w.squads@), n),
        duplicate_diag(objects_path(), TableId::Objects, "object"@, n).severity == Severity::Warning,
        duplicate_diag(squads_path(), TableId::Squads, "squad"@, n).severity == Severity::Warning,
        duplicate_diag(objects_path(), TableId::Objects, "object"@, n).location == (LocationModel::Entry {
            table: TableId::Objects,
            name: n,
        }),
        duplicate_diag(squads_path(), TableId::Squads, "squad"@, n).location == (LocationModel::Entry {
            table: TableId::Squads,
            name: n,
        }),
{
    reveal_strlit("data\\objects.xml");
    reveal_strlit("data\\squads.xml");
    let a = duplicate_diags(objects_path(), TableId::Objects, "object"@, object_names(w.objects@));
    let b = duplicate_diags(squads_path(), TableId::Squads, "squad"@, squad_names(w.squads@));
    let c = reference_diags(w.objects@, string_views(w.visuals@), ReferenceKind::Visual);
    let d = reference_diags(w.objects@, tactics_names(w.tactics@), ReferenceKind::Tactics);
    let e = reference_diags(w.objects@, string_views(w.physics@), ReferenceKind::Physics);
    let f = squad_diags(w.squads@, object_names(w.objects@));
    let g = leader_diags(w.leaders@, string_views(w.civs@));
    let h = tactics_diags(w.tactics@, string_views(w.weapon_types@));
    lemma_references_missing(w.objects@, string_views(w.visuals@), ReferenceKind::Visual);
    lemma_references_missing(w.objects@, tactics_names(w.tactics@), ReferenceKind::Tactics);
    lemma_references_missing(w.objects@, string_views(w.physics@), ReferenceKind::Physics);
    lemma_squads_missing(w.squads@, object_names(w.objects@));
    lemma_leaders_missing(w.leaders@, string_views(w.civs@));
    lemma_tactics_missing(w.tactics@, string_views(w.weapon_types@));
    lemma_missing_concat(c, d);
    lemma_missing_concat(c + d, e);
    lemma_missing_concat(c + d + e, f);
    lemma_missing_concat(c + d + e + f, g);
    lemma_missing_concat(c + d + e + f + g, h);
    let rest = c + d + e + f + g + h;
    assert(validation_diagnostics(w) =~= a + b + rest);
    assert(objects_path()[5] != squads_path()[5]);
    let xo = duplicate_diag(objects_path(), TableId::Objects, "object"@, n);
    let xs = duplicate_diag(squads_path(), TableId::Squads, "squad"@, n);
    lemma_duplicate_count(objects_path(), TableId::Objects, "object"@, object_names(w.objects@), n);
    lemma_duplicate_count(squads_path(), TableId::Squads, "squad"@, squad_names(w.squads@), n);
    lemma_duplicates_lack(squads_path(), TableId::Squads, "squad"@, squad_names(w.squads@), xo);
    lemma_duplicates_lack(objects_path(), TableId::Objects, "object"@, object_names(w.objects@), xs);
    lemma_missing_lacks(rest, xo);
    lemma_missing_lacks(rest, xs);
    vstd::seq_lib::lemma_multiset_commutative(a + b, rest);
    vstd::seq_lib::lemma_multiset_commutative(a, b);
}

} // verus!


