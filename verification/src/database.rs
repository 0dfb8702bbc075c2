//! HW1 database record types that carry no floating-point data.
//!
//! These are the typed forms of the game's XML/XMB documents: damage types,
//! visual definitions, physics data, squad unit lists, leader starting
//! units, power data levels, tech prerequisites and the game-data lists.
//! Decoding them from the binary documents is done outside the library;
//! the library works on the decoded values.
use vstd::prelude::*;

verus! {

/// A single damage type definition from `damagetypes.xml`.
#[derive(Debug, Clone, Default, PartialEq, Eq)]
pub struct DamageType {
    /// Damage type name, e.g. `"Light"`, `"Heavy"`, `"Building"`.
    pub name: String,
    /// Whether this type has an attack rating.
    pub attack_rating: Option<bool>,
    /// Whether this is a base type.
    pub base_type: Option<bool>,
    /// Whether this is a shielded type.
    pub shielded: Option<bool>,
}

// ── Visuals (`*.vis`) ───────────────────────────────────────────────────

/// A complete visual definition from a `.vis` file.
#[derive(Debug, Clone, Default, PartialEq, Eq)]
pub struct Visual {
    /// Default model name.
    pub default_model: Option<String>,
    /// Named models (e.g. `"Default"`, `"Turret"`, `"Wheel"`).
    pub models: Vec<Model>,
}

/// A named model within a visual.
#[derive(Debug, Clone, Default, PartialEq, Eq)]
pub struct Model {
    /// Model name (e.g. `"Default"`, `"Turret"`).
    pub name: String,
    /// Component (contains asset refs and attachments).
    pub component: Option<Component>,
    /// Animations.
    pub anims: Vec<Anim>,
}

/// Component data: model files and attachment points.
#[derive(Debug, Clone, Default, PartialEq, Eq)]
pub struct Component {
    /// Direct asset references in the component.
    pub assets: Vec<Asset>,
    /// Attachment points (model refs, particle effects, etc.).
    pub attachments: Vec<Attachment>,
    /// Impact/board/launch points.
    pub points: Vec<Point>,
    /// Logic-switched asset variants (tech upgrades).
    pub logic: Option<Logic>,
}

/// An asset reference (model or animation file).
#[derive(Debug, Clone, Default, PartialEq, Eq)]
pub struct Asset {
    /// Asset type: `"Model"` or `"Anim"`.
    pub asset_type: String,
    /// File path (relative, no `art\` prefix, no extension).
    pub file: Option<String>,
    /// Damage model file path.
    pub damage_file: Option<String>,
    /// Weight for random selection.
    pub weight: Option<i32>,
}

/// An attachment point.
#[derive(Debug, Clone, Default, PartialEq, Eq)]
pub struct Attachment {
    /// Attachment type: `"ModelRef"`, `"ParticleFile"`, `"TerrainEffect"`.
    pub attach_type: String,
    /// Attachment name / reference.
    pub name: String,
    /// Target bone.
    pub to_bone: Option<String>,
    /// Source bone.
    pub from_bone: Option<String>,
    /// Whether to sync animations.
    pub sync_anims: Option<bool>,
}

/// A point on a component (impact, board, launch, pickup).
#[derive(Debug, Clone, Default, PartialEq, Eq)]
pub struct Point {
    /// Point type: `"Impact"`, `"Board"`, `"Launch"`, `"Pickup"`.
    pub point_type: String,
    /// Bone name.
    pub bone: Option<String>,
    /// Point data (material type, e.g. `"Metal"`).
    pub point_data: Option<String>,
}

/// Logic switch for tech-based model variants.
#[derive(Debug, Clone, Default, PartialEq, Eq)]
pub struct Logic {
    /// Logic type: `"Tech"`.
    pub logic_type: String,
    /// Logic data entries (one per tech level).
    pub entries: Vec<LogicEntry>,
}

/// A single logic entry (maps a tech value to an asset).
#[derive(Debug, Clone, Default, PartialEq, Eq)]
pub struct LogicEntry {
    /// Tech value that activates this variant (empty = default).
    pub value: String,
    /// Model reference name.
    pub model_ref: Option<String>,
    /// Weight.
    pub weight: Option<i32>,
    /// The asset selected for this variant.
    pub asset: Option<Asset>,
}

/// An animation definition.
#[derive(Debug, Clone, Default, PartialEq, Eq)]
pub struct Anim {
    /// Animation type: `"Idle"`, `"Walk"`, `"Death"`, etc.
    pub anim_type: String,
    /// Exit action: `"Loop"`, `"Freeze"`, `"Transition"`.
    pub exit_action: Option<String>,
    /// Tween time.
    pub tween_time: Option<i32>,
    /// Tween-to animation name.
    pub tween_to_animation: Option<String>,
    /// Asset references (animation files).
    pub assets: Vec<Asset>,
    /// Attachments active during this animation.
    pub attachments: Vec<Attachment>,
}

// ── Physics (`*.physics`, `*.shp`) ──────────────────────────────────────

/// Physics configuration from a `.physics` file.
#[derive(Debug, Clone, Default, PartialEq, Eq)]
pub struct Physics {
    /// Blueprint name reference.
    pub blueprint: Option<String>,
    /// Whether this object can be thrown by projectiles.
    pub thrown_by_projectiles: Option<bool>,
    /// Vehicle type name.
    pub vehicle: Option<String>,
    /// Center of mass offset (comma-separated numbers).
    pub center_offset: Option<String>,
    /// Terrain effects path.
    pub terrain_effects: Option<String>,
}

/// A Havok collision shape from a `.shp` file.
#[derive(Debug, Clone, Default, PartialEq, Eq)]
pub struct Shape {
    /// Havok version string (e.g. `"V_20200_B_20031014"`).
    pub hke_version: Option<String>,
    /// Shape objects.
    pub objects: Vec<HavokObject>,
}

/// A single Havok object (shape primitive).
#[derive(Debug, Clone, Default, PartialEq, Eq)]
pub struct HavokObject {
    /// Object name (e.g. `"body"`).
    pub name: String,
    /// Object type (e.g. `"hkBoxShape"`).
    pub object_type: String,
    /// Parameters as key-value pairs.
    pub params: Vec<HavokParam>,
}

/// A Havok parameter.
#[derive(Debug, Clone, Default, PartialEq, Eq)]
pub struct HavokParam {
    /// Parameter name (e.g. `"halfExtents"`, `"radius"`).
    pub name: String,
    /// Parameter type (e.g. `"hkTypeVector4"`, `"hkTypeReal"`).
    pub param_type: String,
    /// Raw value as string.
    pub value: String,
}

// ── Squads, leaders, powers, techs ──────────────────────────────────────

/// Wrapper for the `<Units>` element containing `<Unit>` children.
#[derive(Debug, Clone, Default, PartialEq, Eq)]
pub struct UnitsWrapper {
    pub entries: Vec<UnitEntry>,
}

/// A unit entry within a squad.
#[derive(Debug, Clone, Default, PartialEq, Eq)]
pub struct UnitEntry {
    /// Proto-object name this unit references.
    pub proto_object: String,
    /// Number of this unit in the squad.
    pub count: i32,
    /// Role: `"normal"`, etc.
    pub role: Option<String>,
}

/// A starting unit definition of a leader.
#[derive(Debug, Clone, Default, PartialEq, Eq)]
pub struct StartingUnit {
    pub proto_object: String,
    pub offset: Option<String>,
    pub build_other: Option<String>,
    pub dopple_on_start: Option<bool>,
}

/// A starting squad definition of a leader.
#[derive(Debug, Clone, Default, PartialEq, Eq)]
pub struct StartingSquad {
    pub proto_squad: String,
    pub fly_in: Option<bool>,
    pub offset: Option<String>,
}

/// A data level entry (level-specific power parameters).
#[derive(Debug, Clone, Default, PartialEq, Eq)]
pub struct DataLevel {
    /// Level index (0-based). Absent for the base data level.
    pub level: Option<i32>,
    /// Key-value data entries.
    pub entries: Vec<DataEntry>,
}

/// A single data entry within a data level.
#[derive(Debug, Clone, Default, PartialEq, Eq)]
pub struct DataEntry {
    /// Data type: `"float"`, `"int"`, `"sound"`, `"protoobject"`, etc.
    pub data_type: String,
    /// Data name key.
    pub name: String,
    /// Data value (text content).
    pub value: String,
}

/// Target element within a tech effect.
#[derive(Debug, Clone, Default, PartialEq, Eq)]
pub struct EffectTarget {
    pub target_type: Option<String>,
    pub value: Option<String>,
}

/// Prerequisites wrapper containing tech status entries.
#[derive(Debug, Clone, Default, PartialEq, Eq)]
pub struct PrereqsWrapper {
    pub entries: Vec<TechStatusEntry>,
}

/// A prerequisite tech status entry.
#[derive(Debug, Clone, Default, PartialEq, Eq)]
pub struct TechStatusEntry {
    pub tech: String,
    pub status: String,
    /// Text content of the element.
    pub text: Option<String>,
}

// ── Game data lists ─────────────────────────────────────────────────────

/// Wrapper for `<BurningEffectLimits>`.
#[derive(Debug, Clone, Default, PartialEq, Eq)]
pub struct BurningEffectLimitsWrapper {
    pub default_limit: Option<i32>,
    pub entries: Vec<BurningEffectLimitEntry>,
}

/// A burning effect limit entry.
#[derive(Debug, Clone, Default, PartialEq, Eq)]
pub struct BurningEffectLimitEntry {
    pub limit: Option<i32>,
    pub value: String,
}

/// Wrapper for `<Resources>` containing `<Resource>` children.
#[derive(Debug, Clone, Default, PartialEq, Eq)]
pub struct ResourcesWrapper {
    pub entries: Vec<ResourceDef>,
}

/// A resource definition.
#[derive(Debug, Clone, Default, PartialEq, Eq)]
pub struct ResourceDef {
    pub name: String,
    pub deductable: Option<bool>,
}

/// Wrapper for `<Rates>` containing `<Rate>` children.
#[derive(Debug, Clone, Default, PartialEq, Eq)]
pub struct RatesWrapper {
    pub entries: Vec<String>,
}

/// Wrapper for `<Pops>` containing `<Pop>` children.
#[derive(Debug, Clone, Default, PartialEq, Eq)]
pub struct PopsWrapper {
    pub entries: Vec<String>,
}

/// Wrapper for `<RefCounts>` containing `<RefCount>` children.
#[derive(Debug, Clone, Default, PartialEq, Eq)]
pub struct RefCountsWrapper {
    pub entries: Vec<String>,
}

/// Wrapper for `<HUDItems>` containing `<HUDItem>` children.
#[derive(Debug, Clone, Default, PartialEq, Eq)]
pub struct HUDItemsWrapper {
    pub entries: Vec<String>,
}

/// Wrapper for `<FlashableItems>` containing `<Item>` children.
#[derive(Debug, Clone, Default, PartialEq, Eq)]
pub struct FlashableItemsWrapper {
    pub entries: Vec<String>,
}

/// Wrapper for `<UnitFlags>` containing `<UnitFlag>` children.
#[derive(Debug, Clone, Default, PartialEq, Eq)]
pub struct UnitFlagsWrapper {
    pub entries: Vec<String>,
}

/// Wrapper for `<SquadFlags>` containing `<SquadFlag>` children.
#[derive(Debug, Clone, Default, PartialEq, Eq)]
pub struct SquadFlagsWrapper {
    pub entries: Vec<String>,
}

/// Wrapper for `<PlayerStates>` containing `<PlayerState>` children.
#[derive(Debug, Clone, Default, PartialEq, Eq)]
pub struct PlayerStatesWrapper {
    pub entries: Vec<String>,
}

/// Wrapper for `<CodeProtoObjects>`.
#[derive(Debug, Clone, Default, PartialEq, Eq)]
pub struct CodeProtoObjectsWrapper {
    pub entries: Vec<CodeProtoObject>,
}

/// A code proto-object mapping.
#[derive(Debug, Clone, Default, PartialEq, Eq)]
pub struct CodeProtoObject {
    pub object_type: String,
    pub proto_name: String,
}

/// Wrapper for `<CodeObjectTypes>`.
#[derive(Debug, Clone, Default, PartialEq, Eq)]
pub struct CodeObjectTypesWrapper {
    pub entries: Vec<CodeObjectType>,
}

/// A code object type mapping.
#[derive(Debug, Clone, Default, PartialEq, Eq)]
pub struct CodeObjectType {
    pub object_type: String,
    pub value: String,
}

} // verus!
