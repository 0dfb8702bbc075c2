//! The asset manifest: every binary asset path referenced by the visual
//! chains, the scenario and the preload lists of a loaded world.
//!
//! The manifest is a passive inventory. Model, animation, damage-model and
//! texture paths are kept as ordered sets; the preload and scenario lists
//! keep the order in which they were found.
use vstd::prelude::*;

use crate::assets::AssetResolver;
use crate::database::{Anim, Asset, LogicEntry, Model, Visual};
use crate::resolve::ObjectAssets;
use crate::scenario::{terrain_base_of, ScenarioDescriptor};
use crate::strset::{set_insert, strictly_sorted};
use crate::text::{
    chars_of, concat_chars, concat_str, ends_with_str, has_suffix, lines_of, lines_spec, replace_char, replace_chars, string_from_chars,
    string_views, trim_chars, trim_start_chars, trim_start_set, trim_ws,
};

verus! {

/// Manifest of all binary asset references discovered during resolution.
#[derive(Debug, Clone, PartialEq, Eq)]
pub struct AssetManifest {
    /// Unique model file paths (.ugx) referenced by visuals, in order.
    pub model_refs: Vec<String>,
    /// Unique animation file paths (.uax) referenced by visuals, in order.
    pub anim_refs: Vec<String>,
    /// Unique damage model file paths (.ugx) referenced by visuals, in order.
    pub damage_model_refs: Vec<String>,
    /// Unique texture file paths (.ddx), in order.
    pub texture_refs: Vec<String>,
    /// Visual files listed in `visFileList.txt`.
    pub preload_vis_refs: Vec<String>,
    /// Effect files listed in `tfxFileList.txt`.
    pub preload_tfx_refs: Vec<String>,
    /// Particle effect files listed in `pfxFileList.txt`.
    pub preload_pfx_refs: Vec<String>,
    /// Lightset file paths from the scenario.
    pub lightset_refs: Vec<String>,
    /// Cinematic file paths from the scenario.
    pub cinematic_refs: Vec<String>,
    /// Talking head asset names from the scenario.
    pub talking_head_refs: Vec<String>,
    /// Terrain file paths (.xtd/.xtt) for the loaded scenario.
    pub terrain_refs: Vec<String>,
    /// Sky dome reference from the scenario.
    pub sky_ref: Option<String>,
    /// Terrain environment texture reference from the scenario.
    pub terrain_env_ref: Option<String>,
    /// Minimap texture path from the scenario.
    pub minimap_ref: Option<String>,
    /// Sound bank names from the scenario.
    pub sound_bank_refs: Vec<String>,
}

impl AssetManifest {
    /// The path sets are strictly sorted, so each holds a path once.
    pub open spec fn wf(&self) -> bool {
        &&& strictly_sorted(string_views(self.model_refs@))
        &&& strictly_sorted(string_views(self.anim_refs@))
        &&& strictly_sorted(string_views(self.damage_model_refs@))
        &&& strictly_sorted(string_views(self.texture_refs@))
    }

    /// The model paths as a set.
    pub open spec fn models(&self) -> Set<Seq<char>> {
        string_views(self.model_refs@).to_set()
    }

    /// The animation paths as a set.
    pub open spec fn anims(&self) -> Set<Seq<char>> {
        string_views(self.anim_refs@).to_set()
    }

    /// The damage model paths as a set.
    pub open spec fn damage_models(&self) -> Set<Seq<char>> {
        string_views(self.damage_model_refs@).to_set()
    }

    /// The texture paths as a set.
    pub open spec fn textures(&self) -> Set<Seq<char>> {
        string_views(self.texture_refs@).to_set()
    }

    /// Everything but the model, animation and damage model sets is as in
    /// `other`.
    pub open spec fn same_besides_visual_refs(&self, other: &AssetManifest) -> bool {
        &&& self.texture_refs == other.texture_refs
        &&& self.preload_vis_refs == other.preload_vis_refs
        &&& self.preload_tfx_refs == other.preload_tfx_refs
        &&& self.preload_pfx_refs == other.preload_pfx_refs
        &&& self.lightset_refs == other.lightset_refs
        &&& self.cinematic_refs == other.cinematic_refs
        &&& self.talking_head_refs == other.talking_head_refs
        &&& self.terrain_refs == other.terrain_refs
        &&& self.sky_ref == other.sky_ref
        &&& self.terrain_env_ref == other.terrain_env_ref
        &&& self.minimap_ref == other.minimap_ref
        &&& self.sound_bank_refs == other.sound_bank_refs
    }
}

impl Default for AssetManifest {
    fn default() -> (r: Self)
        ensures
            r.wf(),
            r.model_refs@.len() == 0,
            r.anim_refs@.len() == 0,
            r.damage_model_refs@.len() == 0,
            r.texture_refs@.len() == 0,
            r.preload_vis_refs@.len() == 0,
            r.preload_tfx_refs@.len() == 0,
            r.preload_pfx_refs@.len() == 0,
            r.lightset_refs@.len() == 0,
            r.cinematic_refs@.len() == 0,
            r.talking_head_refs@.len() == 0,
            r.terrain_refs@.len() == 0,
            r.sky_ref is None,
            r.terrain_env_ref is None,
            r.minimap_ref is None,
            r.sound_bank_refs@.len() == 0,
    {
        AssetManifest {
            model_refs: Vec::new(),
            anim_refs: Vec::new(),
            damage_model_refs: Vec::new(),
            texture_refs: Vec::new(),
            preload_vis_refs: Vec::new(),
            preload_tfx_refs: Vec::new(),
            preload_pfx_refs: Vec::new(),
            lightset_refs: Vec::new(),
            cinematic_refs: Vec::new(),
            talking_head_refs: Vec::new(),
            terrain_refs: Vec::new(),
            sky_ref: None,
            terrain_env_ref: None,
            minimap_ref: None,
            sound_bank_refs: Vec::new(),
        }
    }
}

// ── References of visual assets ─────────────────────────────────────────

/// The three kinds of path an asset of a visual can reference.
#[derive(Debug, Clone, Copy, PartialEq, Eq, Structural)]
pub enum AssetRefKind {
    Model,
    Anim,
    DamageModel,
}

/// A path under `art\`: separators turned to backslashes, the extension
/// appended.
pub open spec fn art_path(name: Seq<char>, ext: Seq<char>) -> Seq<char> {
    "art\\"@ + replace_char(name, '/', '\\') + ext
}

/// The path of the given kind that an asset references, if any: a `Model`
/// asset's file as `.ugx`, an `Anim` asset's file as `.uax`, and any
/// asset's damage file as `.ugx`.
pub open spec fn asset_ref(a: Asset, k: AssetRefKind) -> Option<Seq<char>> {
    match k {
        AssetRefKind::Model => if a.file is Some && a.asset_type@ == "Model"@ {
            Some(art_path(a.file.unwrap()@, ".ugx"@))
        } else {
            None
        },
        AssetRefKind::Anim => if a.file is Some && a.asset_type@ == "Anim"@ {
            Some(art_path(a.file.unwrap()@, ".uax"@))
        } else {
            None
        },
        AssetRefKind::DamageModel => match a.damage_file {
            Some(d) => Some(art_path(d@, ".ugx"@)),
            None => None,
        },
    }
}

/// The paths of the given kind that the assets reference, in order.
pub open spec fn ref_paths(assets: Seq<Asset>, k: AssetRefKind) -> Seq<Seq<char>>
    decreases assets.len(),
{
    if assets.len() == 0 {
        Seq::empty()
    } else {
        let prev = ref_paths(assets.drop_last(), k);
        match asset_ref(assets.last(), k) {
            Some(p) => prev.push(p),
            None => prev,
        }
    }
}

/// The assets of a logic block's entries, in order.
pub open spec fn entry_assets(es: Seq<LogicEntry>) -> Seq<Asset>
    decreases es.len(),
{
    if es.len() == 0 {
        Seq::empty()
    } else {
        let prev = entry_assets(es.drop_last());
        match es.last().asset {
            Some(a) => prev.push(a),
            None => prev,
        }
    }
}

/// The assets of the animations, in order.
pub open spec fn anim_assets(anims: Seq<Anim>) -> Seq<Asset>
    decreases anims.len(),
{
    if anims.len() == 0 {
        Seq::empty()
    } else {
        anim_assets(anims.drop_last()) + anims.last().assets@
    }
}

/// The assets of a model's component: its own assets, then its logic
/// entries' assets.
pub open spec fn component_assets(m: Model) -> Seq<Asset> {
    match m.component {
        Some(c) => c.assets@ + match c.logic {
            Some(l) => entry_assets(l.entries@),
            None => Seq::empty(),
        },
        None => Seq::empty(),
    }
}

/// The assets of a model in the order they are visited: its component's
/// assets, its logic entries' assets, then its animations' assets.
pub open spec fn model_assets(m: Model) -> Seq<Asset> {
    component_assets(m) + anim_assets(m.anims@)
}

/// The assets of a visual's models, in order.
pub open spec fn visual_assets(models: Seq<Model>) -> Seq<Asset>
    decreases models.len(),
{
    if models.len() == 0 {
        Seq::empty()
    } else {
        visual_assets(models.drop_last()) + model_assets(models.last())
    }
}

pub proof fn lemma_ref_paths_concat(a: Seq<Asset>, b: Seq<Asset>, k: AssetRefKind)
    ensures
        ref_paths(a + b, k) == ref_paths(a, k) + ref_paths(b, k),
    decreases b.len(),
{
    if b.len() == 0 {
        assert(a + b =~= a);
        assert(ref_paths(a, k) + ref_paths(b, k) =~= ref_paths(a, k));
    } else {
        lemma_ref_paths_concat(a, b.drop_last(), k);
        assert((a + b).drop_last() =~= a + b.drop_last());
        assert((a + b).last() == b.last());
        match asset_ref(b.last(), k) {
            Some(p) => {
                assert(ref_paths(a, k) + ref_paths(b.drop_last(), k).push(p) =~= (ref_paths(a, k) + ref_paths(
                    b.drop_last(),
                    k,
                )).push(p));
            },
            None => {},
        }
    }
}

proof fn lemma_ref_paths_one(a: Asset, k: AssetRefKind)
    ensures
        ref_paths(seq![a], k).to_set() == match asset_ref(a, k) {
            Some(p) => Set::empty().insert(p),
            None => Set::<Seq<char>>::empty(),
        },
{
    let one = seq![a];
    assert(one.drop_last() =~= Seq::<Asset>::empty());
    assert(one.last() == a);
    assert(ref_paths(Seq::<Asset>::empty(), k) == Seq::<Seq<char>>::empty());
    assert(ref_paths(one.drop_last(), k) == Seq::<Seq<char>>::empty());
    match asset_ref(a, k) {
        Some(p) => {
            assert(ref_paths(one, k) =~= seq![p]);
            assert(seq![p].to_set() =~= Set::empty().insert(p)) by {
                assert forall|x: Seq<char>| seq![p].to_set().contains(x) <==> x == p by {
                    if x == p {
                        assert(seq![p][0] == p);
                    }
                }
            }
        },
        None => {
            assert(ref_paths(one, k) =~= Seq::<Seq<char>>::empty());
            assert(Seq::<Seq<char>>::empty().to_set() =~= Set::empty());
        },
    }
}

/// The art path of a name, with the extension appended.
fn art_path_of(name: &String, ext: &str) -> (r: String)
    ensures
        r@ == art_path(name@, ext@),
{
    let replaced = replace_chars(chars_of(name.as_str()).as_slice(), '/', '\\');
    let joined = concat_chars(chars_of("art\\").as_slice(), replaced.as_slice());
    string_from_chars(concat_str(joined.as_slice(), ext).as_slice())
}

/// The path of the given kind that an asset references, if any.
fn asset_ref_of(a: &Asset, k: AssetRefKind) -> (r: Option<String>)
    ensures
        match r {
            Some(p) => asset_ref(*a, k) == Some(p@),
            None => asset_ref(*a, k) is None,
        },
{
    match k {
        AssetRefKind::Model => match &a.file {
            Some(f) => {
                if a.asset_type == String::from_str("Model") {
                    Some(art_path_of(f, ".ugx"))
                } else {
                    None
                }
            },
            None => None,
        },
        AssetRefKind::Anim => match &a.file {
            Some(f) => {
                if a.asset_type == String::from_str("Anim") {
                    Some(art_path_of(f, ".uax"))
                } else {
                    None
                }
            },
            None => None,
        },
        AssetRefKind::DamageModel => match &a.damage_file {
            Some(d) => Some(art_path_of(d, ".ugx")),
            None => None,
        },
    }
}

/// Registers one asset reference in the manifest: its model or animation
/// file and its damage file.
pub fn register_asset(asset: &Asset, manifest: &mut AssetManifest)
    requires
        old(manifest).wf(),
    ensures
        final(manifest).wf(),
        final(manifest).same_besides_visual_refs(&*old(manifest)),
        final(manifest).models() == old(manifest).models() + ref_paths(seq![*asset], AssetRefKind::Model).to_set(),
        final(manifest).anims() == old(manifest).anims() + ref_paths(seq![*asset], AssetRefKind::Anim).to_set(),
        final(manifest).damage_models() == old(manifest).damage_models() + ref_paths(
            seq![*asset],
            AssetRefKind::DamageModel,
        ).to_set(),
{
    let ghost one = seq![*asset];
    proof {
        lemma_ref_paths_one(*asset, AssetRefKind::Model);
        lemma_ref_paths_one(*asset, AssetRefKind::Anim);
        lemma_ref_paths_one(*asset, AssetRefKind::DamageModel);
    }
    match asset_ref_of(asset, AssetRefKind::Model) {
        Some(p) => {
            set_insert(&mut manifest.model_refs, p);
        },
        None => {},
    }
    match asset_ref_of(asset, AssetRefKind::Anim) {
        Some(p) => {
            set_insert(&mut manifest.anim_refs, p);
        },
        None => {},
    }
    match asset_ref_of(asset, AssetRefKind::DamageModel) {
        Some(p) => {
            set_insert(&mut manifest.damage_model_refs, p);
        },
        None => {},
    }
    proof {
        assert(manifest.models() =~= old(manifest).models() + ref_paths(one, AssetRefKind::Model).to_set());
        assert(manifest.anims() =~= old(manifest).anims() + ref_paths(one, AssetRefKind::Anim).to_set());
        assert(manifest.damage_models() =~= old(manifest).damage_models() + ref_paths(
            one,
            AssetRefKind::DamageModel,
        ).to_set());
    }
}

/// The manifest after registering assets: each set gains the paths of its
/// kind.
pub open spec fn registered(before: AssetManifest, after: AssetManifest, assets: Seq<Asset>) -> bool {
    &&& after.wf()
    &&& after.same_besides_visual_refs(&before)
    &&& after.models() == before.models() + ref_paths(assets, AssetRefKind::Model).to_set()
    &&& after.anims() == before.anims() + ref_paths(assets, AssetRefKind::Anim).to_set()
    &&& after.damage_models() == before.damage_models() + ref_paths(assets, AssetRefKind::DamageModel).to_set()
}

proof fn lemma_registered_chain(a: AssetManifest, b: AssetManifest, c: AssetManifest, x: Seq<Asset>, y: Seq<Asset>)
    requires
        registered(a, b, x),
        registered(b, c, y),
    ensures
        registered(a, c, x + y),
{
    lemma_ref_paths_concat(x, y, AssetRefKind::Model);
    lemma_ref_paths_concat(x, y, AssetRefKind::Anim);
    lemma_ref_paths_concat(x, y, AssetRefKind::DamageModel);
    assert((ref_paths(x, AssetRefKind::Model) + ref_paths(y, AssetRefKind::Model)).to_set() =~= ref_paths(
        x,
        AssetRefKind::Model,
    ).to_set() + ref_paths(y, AssetRefKind::Model).to_set()) by {
        vstd::seq_lib::seq_to_set_distributes_over_add(ref_paths(x, AssetRefKind::Model), ref_paths(y, AssetRefKind::Model));
    }
    assert((ref_paths(x, AssetRefKind::Anim) + ref_paths(y, AssetRefKind::Anim)).to_set() =~= ref_paths(
        x,
        AssetRefKind::Anim,
    ).to_set() + ref_paths(y, AssetRefKind::Anim).to_set()) by {
        vstd::seq_lib::seq_to_set_distributes_over_add(ref_paths(x, AssetRefKind::Anim), ref_paths(y, AssetRefKind::Anim));
    }
    assert((ref_paths(x, AssetRefKind::DamageModel) + ref_paths(y, AssetRefKind::DamageModel)).to_set() =~= ref_paths(
        x,
        AssetRefKind::DamageModel,
    ).to_set() + ref_paths(y, AssetRefKind::DamageModel).to_set()) by {
        vstd::seq_lib::seq_to_set_distributes_over_add(
            ref_paths(x, AssetRefKind::DamageModel),
            ref_paths(y, AssetRefKind::DamageModel),
        );
    }
    assert(c.models() =~= a.models() + ref_paths(x + y, AssetRefKind::Model).to_set());
    assert(c.anims() =~= a.anims() + ref_paths(x + y, AssetRefKind::Anim).to_set());
    assert(c.damage_models() =~= a.damage_models() + ref_paths(x + y, AssetRefKind::DamageModel).to_set());
}

proof fn lemma_registered_none(a: AssetManifest)
    requires
        a.wf(),
    ensures
        registered(a, a, Seq::empty()),
{
    assert(a.models() =~= a.models() + ref_paths(Seq::<Asset>::empty(), AssetRefKind::Model).to_set());
    assert(a.anims() =~= a.anims() + ref_paths(Seq::<Asset>::empty(), AssetRefKind::Anim).to_set());
    assert(a.damage_models() =~= a.damage_models() + ref_paths(Seq::<Asset>::empty(), AssetRefKind::DamageModel).to_set());
}

/// Registers each asset of a list, in order.
fn register_assets(assets: &Vec<Asset>, manifest: &mut AssetManifest)
    requires
        old(manifest).wf(),
    ensures
        registered(*old(manifest), *final(manifest), assets@),
{
    proof {
        lemma_registered_none(*manifest);
    }
    let mut i: usize = 0;
    while i < assets.len()
        invariant
            i <= assets@.len(),
            registered(*old(manifest), *manifest, assets@.take(i as int)),
        decreases assets@.len() - i,
    {
        let ghost before = *manifest;
        register_asset(&assets[i], manifest);
        proof {
            lemma_registered_chain(*old(manifest), before, *manifest, assets@.take(i as int), seq![assets@[i as int]]);
            assert(assets@.take(i as int) + seq![assets@[i as int]] =~= assets@.take(i + 1));
        }
        i = i + 1;
    }
    assert(assets@.take(assets@.len() as int) =~= assets@);
}

/// Collects all model, animation and damage model references of a parsed
/// visual.
pub fn collect_visual_assets(vis: &Visual, manifest: &mut AssetManifest)
    requires
        old(manifest).wf(),
    ensures
        registered(*old(manifest), *final(manifest), visual_assets(vis.models@)),
{
    proof {
        lemma_registered_none(*manifest);
    }
    let mut i: usize = 0;
    while i < vis.models.len()
        invariant
            i <= vis.models@.len(),
            registered(*old(manifest), *manifest, visual_assets(vis.models@.take(i as int))),
        decreases vis.models@.len() - i,
    {
        let model = &vis.models[i];
        let ghost start = *manifest;
        proof {
            lemma_registered_none(*manifest);
        }
        // The component's own assets, then its logic entries' assets.
        let ghost comp_assets = component_assets(*model);
        match &model.component {
            Some(comp) => {
                register_assets(&comp.assets, manifest);
                let ghost mid = *manifest;
                match &comp.logic {
                    Some(logic) => {
                        proof {
                            lemma_registered_none(*manifest);
                        }
                        let mut e: usize = 0;
                        while e < logic.entries.len()
                            invariant
                                e <= logic.entries@.len(),
                                registered(mid, *manifest, entry_assets(logic.entries@.take(e as int))),
                            decreases logic.entries@.len() - e,
                        {
                            let ghost t = logic.entries@.take(e + 1);
                            assert(t.drop_last() =~= logic.entries@.take(e as int));
                            assert(t.last() == logic.entries@[e as int]);
                            let ghost before = *manifest;
                            match &logic.entries[e].asset {
                                Some(a) => {
                                    register_asset(a, manifest);
                                    proof {
                                        lemma_registered_chain(
                                            mid,
                                            before,
                                            *manifest,
                                            entry_assets(logic.entries@.take(e as int)),
                                            seq![*a],
                                        );
                                        assert(entry_assets(t) =~= entry_assets(logic.entries@.take(e as int)) + seq![*a]);
                                    }
                                },
                                None => {},
                            }
                            e = e + 1;
                        }
                        assert(logic.entries@.take(logic.entries@.len() as int) =~= logic.entries@);
                        proof {
                            lemma_registered_chain(start, mid, *manifest, comp.assets@, entry_assets(logic.entries@));
                        }
                    },
                    None => {
                        proof {
                            assert(comp.assets@ + Seq::<Asset>::empty() =~= comp.assets@);
                        }
                    },
                }
            },
            None => {},
        }
        assert(registered(start, *manifest, comp_assets));
        // The animations' assets.
        let ghost mid2 = *manifest;
        proof {
            lemma_registered_none(*manifest);
        }
        let mut a: usize = 0;
        while a < model.anims.len()
            invariant
                a <= model.anims@.len(),
                registered(mid2, *manifest, anim_assets(model.anims@.take(a as int))),
            decreases model.anims@.len() - a,
        {
            let ghost t = model.anims@.take(a + 1);
            assert(t.drop_last() =~= model.anims@.take(a as int));
            assert(t.last() == model.anims@[a as int]);
            let ghost before = *manifest;
            register_assets(&model.anims[a].assets, manifest);
            proof {
                lemma_registered_chain(
                    mid2,
                    before,
                    *manifest,
                    anim_assets(model.anims@.take(a as int)),
                    model.anims@[a as int].assets@,
                );
            }
            a = a + 1;
        }
        assert(model.anims@.take(model.anims@.len() as int) =~= model.anims@);
        proof {
            lemma_registered_chain(start, mid2, *manifest, comp_assets, anim_assets(model.anims@));
            assert(model_assets(*model) == comp_assets + anim_assets(model.anims@));
            lemma_registered_chain(
                *old(manifest),
                start,
                *manifest,
                visual_assets(vis.models@.take(i as int)),
                model_assets(*model),
            );
            let t = vis.models@.take(i + 1);
            assert(t.drop_last() =~= vis.models@.take(i as int));
            assert(t.last() == vis.models@[i as int]);
        }
        i = i + 1;
    }
    assert(vis.models@.take(vis.models@.len() as int) =~= vis.models@);
}

// ── Per-object bundles ──────────────────────────────────────────────────

/// The bundle after registering assets: its model, animation and damage
/// model lists gain the paths of their kind, in order.
pub open spec fn bundled(before: ObjectAssets, after: ObjectAssets, assets: Seq<Asset>) -> bool {
    &&& string_views(after.models@) == string_views(before.models@) + ref_paths(assets, AssetRefKind::Model)
    &&& string_views(after.anims@) == string_views(before.anims@) + ref_paths(assets, AssetRefKind::Anim)
    &&& string_views(after.damage_models@) == string_views(before.damage_models@) + ref_paths(
        assets,
        AssetRefKind::DamageModel,
    )
    &&& after.name == before.name
    &&& after.object_class == before.object_class
    &&& after.object_types == before.object_types
    &&& after.visual == before.visual
    &&& after.tactics == before.tactics
    &&& after.physics == before.physics
    &&& after.blueprint == before.blueprint
    &&& after.shape == before.shape
}

proof fn lemma_bundled_chain(a: ObjectAssets, b: ObjectAssets, c: ObjectAssets, x: Seq<Asset>, y: Seq<Asset>)
    requires
        bundled(a, b, x),
        bundled(b, c, y),
    ensures
        bundled(a, c, x + y),
{
    lemma_ref_paths_concat(x, y, AssetRefKind::Model);
    lemma_ref_paths_concat(x, y, AssetRefKind::Anim);
    lemma_ref_paths_concat(x, y, AssetRefKind::DamageModel);
    assert(string_views(c.models@) =~= string_views(a.models@) + ref_paths(x + y, AssetRefKind::Model));
    assert(string_views(c.anims@) =~= string_views(a.anims@) + ref_paths(x + y, AssetRefKind::Anim));
    assert(string_views(c.damage_models@) =~= string_views(a.damage_models@) + ref_paths(
        x + y,
        AssetRefKind::DamageModel,
    ));
}

proof fn lemma_bundled_none(a: ObjectAssets)
    ensures
        bundled(a, a, Seq::empty()),
{
    assert(string_views(a.models@) =~= string_views(a.models@) + ref_paths(Seq::<Asset>::empty(), AssetRefKind::Model));
    assert(string_views(a.anims@) =~= string_views(a.anims@) + ref_paths(Seq::<Asset>::empty(), AssetRefKind::Anim));
    assert(string_views(a.damage_models@) =~= string_views(a.damage_models@) + ref_paths(
        Seq::<Asset>::empty(),
        AssetRefKind::DamageModel,
    ));
}

fn push_ref(list: &mut Vec<String>, r: Option<String>)
    ensures
        string_views(final(list)@) == string_views(old(list)@) + match r {
            Some(p) => seq![p@],
            None => Seq::<Seq<char>>::empty(),
        },
{
    match r {
        Some(p) => {
            let ghost pv = p@;
            list.push(p);
            assert(string_views(list@) =~= string_views(old(list)@) + seq![pv]);
        },
        None => {
            assert(string_views(list@) =~= string_views(old(list)@) + Seq::<Seq<char>>::empty());
        },
    }
}

/// Registers a single asset reference in a per-object bundle.
pub fn register_object_asset(asset: &Asset, obj: &mut ObjectAssets)
    ensures
        bundled(*old(obj), *final(obj), seq![*asset]),
{
    let ghost one = seq![*asset];
    proof {
        assert(one.drop_last() =~= Seq::<Asset>::empty());
        assert(one.last() == *asset);
        assert(ref_paths(Seq::<Asset>::empty(), AssetRefKind::Model) == Seq::<Seq<char>>::empty());
        assert(ref_paths(Seq::<Asset>::empty(), AssetRefKind::Anim) == Seq::<Seq<char>>::empty());
        assert(ref_paths(Seq::<Asset>::empty(), AssetRefKind::DamageModel) == Seq::<Seq<char>>::empty());
        assert(ref_paths(one.drop_last(), AssetRefKind::Model) == Seq::<Seq<char>>::empty());
        assert(ref_paths(one.drop_last(), AssetRefKind::Anim) == Seq::<Seq<char>>::empty());
        assert(ref_paths(one.drop_last(), AssetRefKind::DamageModel) == Seq::<Seq<char>>::empty());
    }
    push_ref(&mut obj.models, asset_ref_of(asset, AssetRefKind::Model));
    push_ref(&mut obj.anims, asset_ref_of(asset, AssetRefKind::Anim));
    push_ref(&mut obj.damage_models, asset_ref_of(asset, AssetRefKind::DamageModel));
    proof {
        match asset_ref(*asset, AssetRefKind::Model) {
            Some(p) => assert(ref_paths(one, AssetRefKind::Model) =~= seq![p]),
            None => assert(ref_paths(one, AssetRefKind::Model) =~= Seq::<Seq<char>>::empty()),
        }
        match asset_ref(*asset, AssetRefKind::Anim) {
            Some(p) => assert(ref_paths(one, AssetRefKind::Anim) =~= seq![p]),
            None => assert(ref_paths(one, AssetRefKind::Anim) =~= Seq::<Seq<char>>::empty()),
        }
        match asset_ref(*asset, AssetRefKind::DamageModel) {
            Some(p) => assert(ref_paths(one, AssetRefKind::DamageModel) =~= seq![p]),
            None => assert(ref_paths(one, AssetRefKind::DamageModel) =~= Seq::<Seq<char>>::empty()),
        }
    }
}

fn register_object_assets(assets: &Vec<Asset>, obj: &mut ObjectAssets)
    ensures
        bundled(*old(obj), *final(obj), assets@),
{
    proof {
        lemma_bundled_none(*obj);
    }
    let mut i: usize = 0;
    while i < assets.len()
        invariant
            i <= assets@.len(),
            bundled(*old(obj), *obj, assets@.take(i as int)),
        decreases assets@.len() - i,
    {
        let ghost before = *obj;
        register_object_asset(&assets[i], obj);
        proof {
            lemma_bundled_chain(*old(obj), before, *obj, assets@.take(i as int), seq![assets@[i as int]]);
            assert(assets@.take(i as int) + seq![assets@[i as int]] =~= assets@.take(i + 1));
        }
        i = i + 1;
    }
    assert(assets@.take(assets@.len() as int) =~= assets@);
}

/// Collects the model, animation and damage model paths of a visual into a
/// per-object bundle, in the order they are visited.
pub fn collect_object_visual_assets(vis: &Visual, obj: &mut ObjectAssets)
    ensures
        bundled(*old(obj), *final(obj), visual_assets(vis.models@)),
{
    proof {
        lemma_bundled_none(*obj);
    }
    let mut i: usize = 0;
    while i < vis.models.len()
        invariant
            i <= vis.models@.len(),
            bundled(*old(obj), *obj, visual_assets(vis.models@.take(i as int))),
        decreases vis.models@.len() - i,
    {
        let model = &vis.models[i];
        let ghost start = *obj;
        let ghost comp_assets = component_assets(*model);
        proof {
            lemma_bundled_none(*obj);
        }
        match &model.component {
            Some(comp) => {
                register_object_assets(&comp.assets, obj);
                let ghost mid = *obj;
                match &comp.logic {
                    Some(logic) => {
                        proof {
                            lemma_bundled_none(*obj);
                        }
                        let mut e: usize = 0;
                        while e < logic.entries.len()
                            invariant
                                e <= logic.entries@.len(),
                                bundled(mid, *obj, entry_assets(logic.entries@.take(e as int))),
                            decreases logic.entries@.len() - e,
                        {
                            let ghost t = logic.entries@.take(e + 1);
                            assert(t.drop_last() =~= logic.entries@.take(e as int));
                            assert(t.last() == logic.entries@[e as int]);
                            let ghost before = *obj;
                            match &logic.entries[e].asset {
                                Some(a) => {
                                    register_object_asset(a, obj);
                                    proof {
                                        lemma_bundled_chain(
                                            mid,
                                            before,
                                            *obj,
                                            entry_assets(logic.entries@.take(e as int)),
                                            seq![*a],
                                        );
                                        assert(entry_assets(t) =~= entry_assets(logic.entries@.take(e as int)) + seq![*a]);
                                    }
                                },
                                None => {},
                            }
                            e = e + 1;
                        }
                        assert(logic.entries@.take(logic.entries@.len() as int) =~= logic.entries@);
                        proof {
                            lemma_bundled_chain(start, mid, *obj, comp.assets@, entry_assets(logic.entries@));
                        }
                    },
                    None => {
                        proof {
                            assert(comp.assets@ + Seq::<Asset>::empty() =~= comp.assets@);
                        }
                    },
                }
            },
            None => {},
        }
        assert(bundled(start, *obj, comp_assets));
        let ghost mid2 = *obj;
        proof {
            lemma_bundled_none(*obj);
        }
        let mut a: usize = 0;
        while a < model.anims.len()
            invariant
                a <= model.anims@.len(),
                bundled(mid2, *obj, anim_assets(model.anims@.take(a as int))),
            decreases model.anims@.len() - a,
        {
            let ghost t = model.anims@.take(a + 1);
            assert(t.drop_last() =~= model.anims@.take(a as int));
            assert(t.last() == model.anims@[a as int]);
            let ghost before = *obj;
            register_object_assets(&model.anims[a].assets, obj);
            proof {
                lemma_bundled_chain(mid2, before, *obj, anim_assets(model.anims@.take(a as int)), model.anims@[a as int].assets@);
            }
            a = a + 1;
        }
        assert(model.anims@.take(model.anims@.len() as int) =~= model.anims@);
        proof {
            lemma_bundled_chain(start, mid2, *obj, comp_assets, anim_assets(model.anims@));
            lemma_bundled_chain(*old(obj), start, *obj, visual_assets(vis.models@.take(i as int)), model_assets(*model));
            let t = vis.models@.take(i + 1);
            assert(t.drop_last() =~= vis.models@.take(i as int));
            assert(t.last() == vis.models@[i as int]);
        }
        i = i + 1;
    }
    assert(vis.models@.take(vis.models@.len() as int) =~= vis.models@);
}

// ── Textures ────────────────────────────────────────────────────────────

/// The texture path of a material map name: leading separators dropped,
/// separators turned to backslashes, under `art\` with `.ddx`.
pub open spec fn material_texture_path(name: Seq<char>) -> Seq<char> {
    "art\\"@ + replace_char(trim_start_set(name, seq!['\\', '/']), '/', '\\') + ".ddx"@
}

/// The texture path of a material map name.
pub fn material_texture(name: &str) -> (r: String)
    ensures
        r@ == material_texture_path(name@),
{
    let seps: Vec<char> = vec!['\\', '/'];
    let trimmed = trim_start_chars(chars_of(name).as_slice(), seps.as_slice());
    let replaced = replace_chars(trimmed.as_slice(), '/', '\\');
    let joined = concat_chars(chars_of("art\\").as_slice(), replaced.as_slice());
    proof {
        assert(seps@ =~= seq!['\\', '/']);
    }
    string_from_chars(concat_str(joined.as_slice(), ".ddx").as_slice())
}

/// The texture name of a terrain texture file: separators turned to
/// backslashes, leading backslashes dropped.
pub open spec fn terrain_texture_name(filename: Seq<char>) -> Seq<char> {
    trim_start_set(replace_char(filename, '/', '\\'), seq!['\\'])
}

impl AssetManifest {
    /// Adds the texture of a material map, unless its name is empty.
    pub fn add_material_texture(&mut self, name: &str)
        requires
            old(self).wf(),
        ensures
            final(self).wf(),
            final(self).textures() == if name@.len() > 0 {
                old(self).textures().insert(material_texture_path(name@))
            } else {
                old(self).textures()
            },
            final(self).model_refs == old(self).model_refs,
            final(self).anim_refs == old(self).anim_refs,
            final(self).damage_model_refs == old(self).damage_model_refs,
    {
        if name.unicode_len() > 0 {
            set_insert(&mut self.texture_refs, material_texture(name));
        }
    }

    /// Adds the texture variants of a terrain texture file, each
    /// `art\{name}{suffix}`, unless the file name is empty.
    pub fn add_terrain_textures(&mut self, filename: &str, suffixes: &[&str])
        requires
            old(self).wf(),
        ensures
            final(self).wf(),
            final(self).textures() == if filename@.len() > 0 {
                old(self).textures() + Set::new(
                    |p: Seq<char>|
                        exists|i: int|
                            0 <= i < suffixes@.len() && p == "art\\"@ + terrain_texture_name(filename@)
                                + (#[trigger] suffixes@[i])@,
                )
            } else {
                old(self).textures()
            },
            final(self).model_refs == old(self).model_refs,
            final(self).anim_refs == old(self).anim_refs,
            final(self).damage_model_refs == old(self).damage_model_refs,
    {
        if filename.unicode_len() == 0 {
            return;
        }
        let replaced = replace_chars(chars_of(filename).as_slice(), '/', '\\');
        let bs: Vec<char> = vec!['\\'];
        let name = trim_start_chars(replaced.as_slice(), bs.as_slice());
        proof {
            assert(bs@ =~= seq!['\\']);
        }
        let base = concat_chars(chars_of("art\\").as_slice(), name.as_slice());
        let mut i: usize = 0;
        while i < suffixes.len()
            invariant
                i <= suffixes@.len(),
                self.wf(),
                base@ == "art\\"@ + terrain_texture_name(filename@),
                self.textures() == old(self).textures() + Set::new(
                    |p: Seq<char>|
                        exists|j: int| 0 <= j < i && p == "art\\"@ + terrain_texture_name(filename@) + (#[trigger] suffixes@[j])@,
                ),
                self.model_refs == old(self).model_refs,
                self.anim_refs == old(self).anim_refs,
                self.damage_model_refs == old(self).damage_model_refs,
            decreases suffixes@.len() - i,
        {
            let p = string_from_chars(concat_str(base.as_slice(), suffixes[i]).as_slice());
            let ghost pv = p@;
            set_insert(&mut self.texture_refs, p);
            proof {
                assert forall|q: Seq<char>| #[trigger] self.textures().contains(q) == (old(self).textures() + Set::new(
                    |p: Seq<char>|
                        exists|j: int| 0 <= j < i + 1 && p == "art\\"@ + terrain_texture_name(filename@) + (#[trigger] suffixes@[j])@,
                )).contains(q) by {
                    if q == pv {
                        assert(q == "art\\"@ + terrain_texture_name(filename@) + suffixes@[i as int]@);
                    }
                }
                assert(self.textures() =~= old(self).textures() + Set::new(
                    |p: Seq<char>|
                        exists|j: int| 0 <= j < i + 1 && p == "art\\"@ + terrain_texture_name(filename@) + (#[trigger] suffixes@[j])@,
                ));
            }
            i = i + 1;
        }
    }
}

/// The texture suffixes of a terrain's active (splat) textures.
pub open spec fn active_suffixes() -> Seq<Seq<char>> {
    seq!["_df.ddx"@, "_nm.ddx"@, "_sp.ddx"@, "_em.ddx"@, "_env.ddx"@]
}

/// The texture suffixes of a terrain's baked decals.
pub open spec fn decal_suffixes() -> Seq<Seq<char>> {
    seq!["_df.ddx"@, "_nm.ddx"@, "_op.ddx"@]
}

/// The texture suffixes of a terrain's foliage sets.
pub open spec fn foliage_suffixes() -> Seq<Seq<char>> {
    seq!["_df.ddx"@, "_nm.ddx"@, "_op.ddx"@, "_sp.ddx"@]
}

/// The texture paths of terrain texture files: for each non-empty file
/// name, `art\{name}{suffix}` for each suffix.
pub open spec fn terrain_variants(names: Seq<Seq<char>>, sufs: Seq<Seq<char>>) -> Set<Seq<char>> {
    Set::new(
        |p: Seq<char>|
            exists|i: int, j: int|
                0 <= i < names.len() && names[i].len() > 0 && 0 <= j < sufs.len() && p == "art\\"@
                    + terrain_texture_name(#[trigger] names[i]) + #[trigger] sufs[j],
    )
}

/// The views of string slices.
pub open spec fn str_views(ss: Seq<&str>) -> Seq<Seq<char>> {
    ss.map_values(|s: &str| s@)
}

/// The terrain texture files among the terrain references: those ending in
/// `.xtt`, in order.
pub open spec fn xtt_refs(refs: Seq<Seq<char>>) -> Seq<Seq<char>> {
    refs.filter(|r: Seq<char>| has_suffix(r, ".xtt"@))
}

/// The terrain texture files among the terrain references, in order.
pub fn terrain_texture_files(terrain_refs: &Vec<String>) -> (r: Vec<String>)
    ensures
        string_views(r@) == xtt_refs(string_views(terrain_refs@)),
{
    let ghost sv = string_views(terrain_refs@);
    let mut r: Vec<String> = Vec::new();
    let mut i: usize = 0;
    while i < terrain_refs.len()
        invariant
            i <= terrain_refs@.len(),
            sv == string_views(terrain_refs@),
            string_views(r@) == xtt_refs(sv.take(i as int)),
        decreases terrain_refs@.len() - i,
    {
        proof {
            let t = sv.take(i + 1);
            assert(t.drop_last() =~= sv.take(i as int));
            assert(t.last() == terrain_refs@[i as int]@);
            reveal(Seq::filter);
        }
        if ends_with_str(chars_of(terrain_refs[i].as_str()).as_slice(), ".xtt") {
            let ghost before = string_views(r@);
            r.push(terrain_refs[i].clone());
            assert(string_views(r@) =~= before.push(terrain_refs@[i as int]@));
        }
        i = i + 1;
    }
    assert(sv.take(sv.len() as int) =~= sv);
    r
}

impl AssetManifest {
    /// Adds the texture variants of each terrain texture file name.
    fn add_variants(&mut self, names: &Vec<String>, sufs: &[&str])
        requires
            old(self).wf(),
        ensures
            final(self).wf(),
            final(self).textures() == old(self).textures() + terrain_variants(string_views(names@), str_views(sufs@)),
            final(self).model_refs == old(self).model_refs,
            final(self).anim_refs == old(self).anim_refs,
            final(self).damage_model_refs == old(self).damage_model_refs,
    {
        let ghost nv = string_views(names@);
        let ghost sv = str_views(sufs@);
        let mut i: usize = 0;
        while i < names.len()
            invariant
                i <= names@.len(),
                nv == string_views(names@),
                sv == str_views(sufs@),
                self.wf(),
                self.textures() == old(self).textures() + terrain_variants(nv.take(i as int), sv),
                self.model_refs == old(self).model_refs,
                self.anim_refs == old(self).anim_refs,
                self.damage_model_refs == old(self).damage_model_refs,
            decreases names@.len() - i,
        {
            let ghost before = self.textures();
            self.add_terrain_textures(names[i].as_str(), sufs);
            proof {
                let t = nv.take(i + 1);
                let n = names@[i as int]@;
                assert(t[i as int] == n);
                assert forall|p: Seq<char>|
                    #[trigger] self.textures().contains(p) == (old(self).textures() + terrain_variants(t, sv)).contains(
                        p,
                    ) by {
                    if terrain_variants(nv.take(i as int), sv).contains(p) {
                        let (a, b) = choose|a: int, b: int|
                            0 <= a < nv.take(i as int).len() && nv.take(i as int)[a].len() > 0 && 0 <= b < sv.len()
                                && p == "art\\"@ + terrain_texture_name(#[trigger] nv.take(i as int)[a])
                                + #[trigger] sv[b];
                        assert(t[a] == nv.take(i as int)[a]);
                    }
                    if terrain_variants(t, sv).contains(p) {
                        let (a, b) = choose|a: int, b: int|
                            0 <= a < t.len() && t[a].len() > 0 && 0 <= b < sv.len() && p == "art\\"@
                                + terrain_texture_name(#[trigger] t[a]) + #[trigger] sv[b];
                        if a < i {
                            assert(nv.take(i as int)[a] == t[a]);
                        } else {
                            assert(sufs@[b]@ == sv[b]);
                        }
                    }
                    if n.len() > 0 {
                        if exists|j: int|
                            0 <= j < sufs@.len() && p == "art\\"@ + terrain_texture_name(n) + (#[trigger] sufs@[j])@ {
                            let j = choose|j: int|
                                0 <= j < sufs@.len() && p == "art\\"@ + terrain_texture_name(n) + (#[trigger] sufs@[j])@;
                            assert(sv[j] == sufs@[j]@);
                        }
                    }
                }
                assert(self.textures() =~= old(self).textures() + terrain_variants(t, sv));
            }
            i = i + 1;
        }
        proof {
            assert(nv.take(nv.len() as int) =~= nv);
        }
    }

    /// Adds the textures a terrain texture file names: each active texture
    /// with the active suffixes, each decal with the decal suffixes and each
    /// foliage set with the foliage suffixes.
    pub fn add_xtt_textures(&mut self, active: &Vec<String>, decals: &Vec<String>, foliage: &Vec<String>)
        requires
            old(self).wf(),
        ensures
            final(self).wf(),
            final(self).textures() == old(self).textures() + terrain_variants(string_views(active@), active_suffixes())
                + terrain_variants(string_views(decals@), decal_suffixes()) + terrain_variants(
                string_views(foliage@),
                foliage_suffixes(),
            ),
            final(self).model_refs == old(self).model_refs,
            final(self).anim_refs == old(self).anim_refs,
            final(self).damage_model_refs == old(self).damage_model_refs,
    {
        let a: Vec<&str> = vec!["_df.ddx", "_nm.ddx", "_sp.ddx", "_em.ddx", "_env.ddx"];
        let d: Vec<&str> = vec!["_df.ddx", "_nm.ddx", "_op.ddx"];
        let f: Vec<&str> = vec!["_df.ddx", "_nm.ddx", "_op.ddx", "_sp.ddx"];
        proof {
            assert(str_views(a@) =~= active_suffixes());
            assert(str_views(d@) =~= decal_suffixes());
            assert(str_views(f@) =~= foliage_suffixes());
        }
        self.add_variants(active, a.as_slice());
        self.add_variants(decals, d.as_slice());
        self.add_variants(foliage, f.as_slice());
    }
}

// ── Preload lists ───────────────────────────────────────────────────────

/// The entries of a preload list: each line, trimmed, the empty ones left
/// out.
pub open spec fn preload_entries(lines: Seq<Seq<char>>) -> Seq<Seq<char>>
    decreases lines.len(),
{
    if lines.len() == 0 {
        Seq::empty()
    } else {
        let prev = preload_entries(lines.drop_last());
        let t = trim_ws(lines.last());
        if t.len() > 0 {
            prev.push(t)
        } else {
            prev
        }
    }
}

/// Appends the entries of a preload list's text (one asset path per line,
/// blank lines ignored) to `out`.
pub fn parse_preload_text(text: &str, out: &mut Vec<String>)
    ensures
        string_views(final(out)@) == string_views(old(out)@) + preload_entries(lines_spec(text@)),
{
    let lines = lines_of(text);
    let ghost ls = lines_spec(text@);
    let mut i: usize = 0;
    while i < lines.len()
        invariant
            i <= lines@.len(),
            string_views(lines@) == ls,
            string_views(out@) == string_views(old(out)@) + preload_entries(ls.take(i as int)),
        decreases lines@.len() - i,
    {
        let ghost t = ls.take(i + 1);
        assert(t.drop_last() =~= ls.take(i as int));
        assert(t.last() == lines@[i as int]@);
        let trimmed = trim_chars(chars_of(lines[i].as_str()).as_slice());
        if trimmed.len() > 0 {
            let ghost before = string_views(out@);
            out.push(string_from_chars(trimmed.as_slice()));
            assert(string_views(out@) =~= before.push(trimmed@));
        }
        i = i + 1;
    }
    assert(ls.take(ls.len() as int) =~= ls);
}

// ── Scenario references ─────────────────────────────────────────────────

/// What the manifest reads of a parsed scenario.
#[derive(Debug, Clone, Default, PartialEq, Eq)]
pub struct ScenarioRefs {
    /// The global lightset.
    pub lightset: String,
    /// Additional lightsets.
    pub lightsets: Vec<String>,
    /// Cinematic references (ID, path).
    pub cinematics: Vec<(i32, String)>,
    /// Talking head references (ID, name).
    pub talking_heads: Vec<(i32, String)>,
    /// Sky dome reference.
    pub sky: String,
    /// Sky environment texture path.
    pub terrain_env: String,
    /// Minimap texture path.
    pub minimap_texture: String,
    /// Sound bank names.
    pub sound_banks: Vec<String>,
}

/// The non-empty strings of a list, in order.
pub open spec fn non_empty(ss: Seq<Seq<char>>) -> Seq<Seq<char>> {
    ss.filter(|s: Seq<char>| s.len() > 0)
}

/// The second components of pairs.
pub open spec fn seconds(ps: Seq<(i32, String)>) -> Seq<Seq<char>> {
    ps.map_values(|p: (i32, String)| p.1@)
}

/// An optional reference: the string when it is not empty.
pub open spec fn non_empty_ref(s: Seq<char>) -> Option<Seq<char>> {
    if s.len() > 0 {
        Some(s)
    } else {
        None
    }
}

/// The optional reference as a list of zero or one element.
pub open spec fn opt_seq(o: Option<Seq<char>>) -> Seq<Seq<char>> {
    match o {
        Some(s) => seq![s],
        None => Seq::empty(),
    }
}

fn push_non_empty(out: &mut Vec<String>, items: &Vec<String>)
    ensures
        string_views(final(out)@) == string_views(old(out)@) + non_empty(string_views(items@)),
{
    let ghost sv = string_views(items@);
    let mut i: usize = 0;
    while i < items.len()
        invariant
            i <= items@.len(),
            sv == string_views(items@),
            string_views(out@) == string_views(old(out)@) + non_empty(sv.take(i as int)),
        decreases items@.len() - i,
    {
        proof {
            let t = sv.take(i + 1);
            assert(t.drop_last() =~= sv.take(i as int));
            reveal(Seq::filter);
            assert(t.last() == items@[i as int]@);
        }
        if items[i].as_str().unicode_len() > 0 {
            let ghost before = string_views(out@);
            out.push(items[i].clone());
            assert(string_views(out@) =~= before.push(items@[i as int]@));
        }
        i = i + 1;
    }
    assert(sv.take(sv.len() as int) =~= sv);
}

fn push_non_empty_seconds(out: &mut Vec<String>, items: &Vec<(i32, String)>)
    ensures
        string_views(final(out)@) == string_views(old(out)@) + non_empty(seconds(items@)),
{
    let ghost sv = seconds(items@);
    let mut i: usize = 0;
    while i < items.len()
        invariant
            i <= items@.len(),
            sv == seconds(items@),
            string_views(out@) == string_views(old(out)@) + non_empty(sv.take(i as int)),
        decreases items@.len() - i,
    {
        proof {
            let t = sv.take(i + 1);
            assert(t.drop_last() =~= sv.take(i as int));
            reveal(Seq::filter);
            assert(t.last() == items@[i as int].1@);
        }
        if items[i].1.as_str().unicode_len() > 0 {
            let ghost before = string_views(out@);
            out.push(items[i].1.clone());
            assert(string_views(out@) =~= before.push(items@[i as int].1@));
        }
        i = i + 1;
    }
    assert(sv.take(sv.len() as int) =~= sv);
}

fn non_empty_copy(s: &String) -> (r: Option<String>)
    ensures
        match r {
            Some(x) => non_empty_ref(s@) == Some(x@),
            None => non_empty_ref(s@) is None,
        },
{
    if s.as_str().unicode_len() > 0 {
        Some(s.clone())
    } else {
        None
    }
}

/// Collects all asset references of a parsed scenario into the manifest:
/// terrain files, lightsets, cinematics, talking heads, sky, terrain
/// environment, minimap and sound banks. Empty references are skipped; an
/// empty sky, environment or minimap leaves the earlier reference.
pub fn collect_scenario_assets_into(descriptor: &ScenarioDescriptor, scn: &ScenarioRefs, manifest: &mut AssetManifest)
    ensures
        final(manifest).model_refs == old(manifest).model_refs,
        final(manifest).anim_refs == old(manifest).anim_refs,
        final(manifest).damage_model_refs == old(manifest).damage_model_refs,
        final(manifest).texture_refs == old(manifest).texture_refs,
        final(manifest).preload_vis_refs == old(manifest).preload_vis_refs,
        final(manifest).preload_tfx_refs == old(manifest).preload_tfx_refs,
        final(manifest).preload_pfx_refs == old(manifest).preload_pfx_refs,
        string_views(final(manifest).terrain_refs@) == string_views(old(manifest).terrain_refs@) + match terrain_base_of(
            descriptor.file@,
        ) {
            Some(b) => seq![b + ".xtd"@, b + ".xtt"@],
            None => Seq::empty(),
        },
        string_views(final(manifest).lightset_refs@) == string_views(old(manifest).lightset_refs@) + opt_seq(
            non_empty_ref(scn.lightset@),
        ) + non_empty(string_views(scn.lightsets@)),
        string_views(final(manifest).cinematic_refs@) == string_views(old(manifest).cinematic_refs@) + non_empty(
            seconds(scn.cinematics@),
        ),
        string_views(final(manifest).talking_head_refs@) == string_views(old(manifest).talking_head_refs@)
            + non_empty(seconds(scn.talking_heads@)),
        final(manifest).sky_ref == if scn.sky@.len() > 0 {
            Some(scn.sky)
        } else {
            old(manifest).sky_ref
        },
        final(manifest).terrain_env_ref == if scn.terrain_env@.len() > 0 {
            Some(scn.terrain_env)
        } else {
            old(manifest).terrain_env_ref
        },
        final(manifest).minimap_ref == if scn.minimap_texture@.len() > 0 {
            Some(scn.minimap_texture)
        } else {
            old(manifest).minimap_ref
        },
        string_views(final(manifest).sound_bank_refs@) == string_views(old(manifest).sound_bank_refs@) + non_empty(
            string_views(scn.sound_banks@),
        ),
{
    let ghost t0 = string_views(manifest.terrain_refs@);
    match descriptor.xtd_path() {
        Some(xtd) => {
            manifest.terrain_refs.push(xtd);
        },
        None => {},
    }
    match descriptor.xtt_path() {
        Some(xtt) => {
            manifest.terrain_refs.push(xtt);
        },
        None => {},
    }
    proof {
        match terrain_base_of(descriptor.file@) {
            Some(b) => {
                assert(string_views(manifest.terrain_refs@) =~= t0 + seq![b + ".xtd"@, b + ".xtt"@]);
            },
            None => {
                assert(string_views(manifest.terrain_refs@) =~= t0 + Seq::<Seq<char>>::empty());
            },
        }
    }
    let ghost l0 = string_views(manifest.lightset_refs@);
    match non_empty_copy(&scn.lightset) {
        Some(ls) => {
            manifest.lightset_refs.push(ls);
        },
        None => {},
    }
    assert(string_views(manifest.lightset_refs@) =~= l0 + opt_seq(non_empty_ref(scn.lightset@)));
    push_non_empty(&mut manifest.lightset_refs, &scn.lightsets);
    push_non_empty_seconds(&mut manifest.cinematic_refs, &scn.cinematics);
    push_non_empty_seconds(&mut manifest.talking_head_refs, &scn.talking_heads);
    if scn.sky.as_str().unicode_len() > 0 {
        manifest.sky_ref = Some(scn.sky.clone());
    }
    if scn.terrain_env.as_str().unicode_len() > 0 {
        manifest.terrain_env_ref = Some(scn.terrain_env.clone());
    }
    if scn.minimap_texture.as_str().unicode_len() > 0 {
        manifest.minimap_ref = Some(scn.minimap_texture.clone());
    }
    push_non_empty(&mut manifest.sound_bank_refs, &scn.sound_banks);
}

impl AssetManifest {
    /// Clears the scenario-level references: lightsets, cinematics,
    /// talking heads, terrain files, sky, terrain environment, minimap and
    /// sound banks.
    pub fn clear_scenario_refs(&mut self)
        ensures
            final(self).lightset_refs@.len() == 0,
            final(self).cinematic_refs@.len() == 0,
            final(self).talking_head_refs@.len() == 0,
            final(self).terrain_refs@.len() == 0,
            final(self).sky_ref is None,
            final(self).terrain_env_ref is None,
            final(self).minimap_ref is None,
            final(self).sound_bank_refs@.len() == 0,
            final(self).model_refs == old(self).model_refs,
            final(self).anim_refs == old(self).anim_refs,
            final(self).damage_model_refs == old(self).damage_model_refs,
            final(self).texture_refs == old(self).texture_refs,
            final(self).preload_vis_refs == old(self).preload_vis_refs,
            final(self).preload_tfx_refs == old(self).preload_tfx_refs,
            final(self).preload_pfx_refs == old(self).preload_pfx_refs,
    {
        self.lightset_refs = Vec::new();
        self.cinematic_refs = Vec::new();
        self.talking_head_refs = Vec::new();
        self.terrain_refs = Vec::new();
        self.sky_ref = None;
        self.terrain_env_ref = None;
        self.minimap_ref = None;
        self.sound_bank_refs = Vec::new();
    }
}

// ── Verification results ────────────────────────────────────────────────

/// Result of checking binary asset references against the loaded layers.
#[derive(Debug, Clone, Default, PartialEq, Eq)]
pub struct VerifyResult {
    pub models_found: usize,
    pub models_missing: Vec<String>,
    pub anims_found: usize,
    pub anims_missing: Vec<String>,
    pub textures_found: usize,
    pub textures_missing: Vec<String>,
}

/// Result of deep-validating binary assets (parsing every file).
#[derive(Debug, Clone, Default, PartialEq, Eq)]
pub struct BinaryValidation {
    pub models_ok: usize,
    pub models_failed: Vec<String>,
    pub models_missing: Vec<String>,
    pub anims_ok: usize,
    pub anims_failed: Vec<String>,
    pub anims_missing: Vec<String>,
    pub textures_ok: usize,
    pub textures_failed: Vec<String>,
    pub textures_missing: Vec<String>,
}

impl BinaryValidation {
    /// Total number of errors: failed and missing files of every kind.
    pub fn total_errors(&self) -> (r: usize)
        requires
            self.models_failed@.len() + self.models_missing@.len() + self.anims_failed@.len()
                + self.anims_missing@.len() + self.textures_failed@.len() + self.textures_missing@.len()
                <= usize::MAX,
        ensures
            r == self.models_failed@.len() + self.models_missing@.len() + self.anims_failed@.len()
                + self.anims_missing@.len() + self.textures_failed@.len() + self.textures_missing@.len(),
    {
        self.models_failed.len() + self.models_missing.len() + self.anims_failed.len() + self.anims_missing.len()
            + self.textures_failed.len() + self.textures_missing.len()
    }
}

/// The paths whose flag says they are missing, in order.
pub open spec fn missing_paths(paths: Seq<Seq<char>>, present: Seq<bool>) -> Seq<Seq<char>>
    decreases paths.len(),
{
    if paths.len() == 0 || present.len() != paths.len() {
        Seq::empty()
    } else {
        let prev = missing_paths(paths.drop_last(), present.drop_last());
        if present.last() {
            prev
        } else {
            prev.push(paths.last())
        }
    }
}

fn split_present(paths: &Vec<String>, present: &Vec<bool>) -> (r: (usize, Vec<String>))
    requires
        present@.len() == paths@.len(),
    ensures
        r.0 + r.1@.len() == paths@.len(),
        string_views(r.1@) == missing_paths(string_views(paths@), present@),
{
    let ghost pv = string_views(paths@);
    let mut found: usize = 0;
    let mut missing: Vec<String> = Vec::new();
    let mut i: usize = 0;
    while i < paths.len()
        invariant
            i <= paths@.len(),
            present@.len() == paths@.len(),
            pv == string_views(paths@),
            found + missing@.len() == i,
            string_views(missing@) == missing_paths(pv.take(i as int), present@.take(i as int)),
        decreases paths@.len() - i,
    {
        proof {
            assert(pv.take(i + 1).drop_last() =~= pv.take(i as int));
            assert(present@.take(i + 1).drop_last() =~= present@.take(i as int));
            assert(pv.take(i + 1).last() == paths@[i as int]@);
        }
        if present[i] {
            found = found + 1;
        } else {
            let ghost before = string_views(missing@);
            missing.push(paths[i].clone());
            assert(string_views(missing@) =~= before.push(paths@[i as int]@));
        }
        i = i + 1;
    }
    assert(pv.take(pv.len() as int) =~= pv);
    assert(present@.take(present@.len() as int) =~= present@);
    (found, missing)
}

impl AssetManifest {
    /// Checks which referenced binary assets exist: `*_present[i]` says
    /// whether the `i`-th path of the set was found. Each found path is
    /// counted; each missing one is listed, in order.
    pub fn verify(&self, models_present: &Vec<bool>, anims_present: &Vec<bool>, textures_present: &Vec<bool>) -> (r:
        VerifyResult)
        requires
            models_present@.len() == self.model_refs@.len(),
            anims_present@.len() == self.anim_refs@.len(),
            textures_present@.len() == self.texture_refs@.len(),
        ensures
            r.models_found + r.models_missing@.len() == self.model_refs@.len(),
            string_views(r.models_missing@) == missing_paths(string_views(self.model_refs@), models_present@),
            r.anims_found + r.anims_missing@.len() == self.anim_refs@.len(),
            string_views(r.anims_missing@) == missing_paths(string_views(self.anim_refs@), anims_present@),
            r.textures_found + r.textures_missing@.len() == self.texture_refs@.len(),
            string_views(r.textures_missing@) == missing_paths(string_views(self.texture_refs@), textures_present@),
    {
        let (models_found, models_missing) = split_present(&self.model_refs, models_present);
        let (anims_found, anims_missing) = split_present(&self.anim_refs, anims_present);
        let (textures_found, textures_missing) = split_present(&self.texture_refs, textures_present);
        VerifyResult { models_found, models_missing, anims_found, anims_missing, textures_found, textures_missing }
    }

    /// Checks that every referenced model, animation and texture exists in
    /// `res`. Which paths exist is the resolver's answer; whatever it is,
    /// each path is counted as found or listed as missing, in order.
    pub fn verify_with<R: AssetResolver>(&self, res: &R) -> (r: VerifyResult)
        ensures
            r.models_found + r.models_missing@.len() == self.model_refs@.len(),
            exists|p: Seq<bool>|
                p.len() == self.model_refs@.len() && string_views(r.models_missing@) == missing_paths(
                    string_views(self.model_refs@),
                    p,
                ),
            r.anims_found + r.anims_missing@.len() == self.anim_refs@.len(),
            exists|p: Seq<bool>|
                p.len() == self.anim_refs@.len() && string_views(r.anims_missing@) == missing_paths(
                    string_views(self.anim_refs@),
                    p,
                ),
            r.textures_found + r.textures_missing@.len() == self.texture_refs@.len(),
            exists|p: Seq<bool>|
                p.len() == self.texture_refs@.len() && string_views(r.textures_missing@) == missing_paths(
                    string_views(self.texture_refs@),
                    p,
                ),
    {
        let models_present = presence(res, &self.model_refs);
        let anims_present = presence(res, &self.anim_refs);
        let textures_present = presence(res, &self.texture_refs);
        self.verify(&models_present, &anims_present, &textures_present)
    }
}

/// Asks the resolver whether each path exists.
fn presence<R: AssetResolver>(res: &R, paths: &Vec<String>) -> (r: Vec<bool>)
    ensures
        r@.len() == paths@.len(),
{
    let mut r: Vec<bool> = Vec::new();
    let mut i: usize = 0;
    while i < paths.len()
        invariant
            i <= paths@.len(),
            r@.len() == i,
        decreases paths@.len() - i,
    {
        r.push(res.file_exists(paths[i].as_str()));
        i = i + 1;
    }
    r
}

// ── Every asset of a visual is collected ────────────────────────────────

proof fn lemma_ref_of_member(assets: Seq<Asset>, j: int, k: AssetRefKind)
    requires
        0 <= j < assets.len(),
        asset_ref(assets[j], k) is Some,
    ensures
        ref_paths(assets, k).contains(asset_ref(assets[j], k)->0),
    decreases assets.len(),
{
    let p = asset_ref(assets[j], k)->0;
    if j == assets.len() - 1 {
        assert(assets.last() == assets[j]);
        assert(ref_paths(assets, k) == ref_paths(assets.drop_last(), k).push(p));
        assert(ref_paths(assets, k)[ref_paths(assets.drop_last(), k).len() as int] == p);
    } else {
        assert(assets.drop_last()[j] == assets[j]);
        lemma_ref_of_member(assets.drop_last(), j, k);
        let prev = ref_paths(assets.drop_last(), k);
        let w = choose|w: int| 0 <= w < prev.len() && prev[w] == p;
        assert(ref_paths(assets, k)[w] == p);
    }
}

proof fn lemma_refs_of_part(a: Seq<Asset>, b: Seq<Asset>, k: AssetRefKind, p: Seq<char>)
    ensures
        ref_paths(a, k).contains(p) ==> ref_paths(a + b, k).contains(p),
        ref_paths(b, k).contains(p) ==> ref_paths(a + b, k).contains(p),
{
    lemma_ref_paths_concat(a, b, k);
    let ra = ref_paths(a, k);
    let rb = ref_paths(b, k);
    if ra.contains(p) {
        let w = choose|w: int| 0 <= w < ra.len() && ra[w] == p;
        assert((ra + rb)[w] == p);
    }
    if rb.contains(p) {
        let w = choose|w: int| 0 <= w < rb.len() && rb[w] == p;
        assert((ra + rb)[ra.len() + w] == p);
    }
}

proof fn lemma_anim_refs(anims: Seq<Anim>, a: int, j: int, k: AssetRefKind)
    requires
        0 <= a < anims.len(),
        0 <= j < anims[a].assets@.len(),
        asset_ref(anims[a].assets@[j], k) is Some,
    ensures
        ref_paths(anim_assets(anims), k).contains(asset_ref(anims[a].assets@[j], k)->0),
    decreases anims.len(),
{
    let p = asset_ref(anims[a].assets@[j], k)->0;
    let t = anims.drop_last();
    if a == anims.len() - 1 {
        assert(anims.last() == anims[a]);
        lemma_ref_of_member(anims[a].assets@, j, k);
        lemma_refs_of_part(anim_assets(t), anims.last().assets@, k, p);
    } else {
        assert(t[a] == anims[a]);
        lemma_anim_refs(t, a, j, k);
        lemma_refs_of_part(anim_assets(t), anims.last().assets@, k, p);
    }
}

proof fn lemma_entry_refs(es: Seq<LogicEntry>, j: int, k: AssetRefKind)
    requires
        0 <= j < es.len(),
        es[j].asset is Some,
        asset_ref(es[j].asset->0, k) is Some,
    ensures
        ref_paths(entry_assets(es), k).contains(asset_ref(es[j].asset->0, k)->0),
    decreases es.len(),
{
    let x = es[j].asset->0;
    let p = asset_ref(x, k)->0;
    let t = es.drop_last();
    let prev = entry_assets(t);
    if j == es.len() - 1 {
        assert(es.last() == es[j]);
        assert(entry_assets(es) == prev.push(x));
        lemma_ref_of_member(prev.push(x), prev.len() as int, k);
    } else {
        assert(t[j] == es[j]);
        lemma_entry_refs(t, j, k);
        match es.last().asset {
            Some(y) => {
                lemma_refs_of_part(prev, seq![y], k, p);
                assert(prev + seq![y] =~= prev.push(y));
            },
            None => {},
        }
    }
}

proof fn lemma_model_refs(models: Seq<Model>, i: int, p: Seq<char>, k: AssetRefKind)
    requires
        0 <= i < models.len(),
        ref_paths(model_assets(models[i]), k).contains(p),
    ensures
        ref_paths(visual_assets(models), k).contains(p),
    decreases models.len(),
{
    let t = models.drop_last();
    if i == models.len() - 1 {
        assert(models.last() == models[i]);
    } else {
        assert(t[i] == models[i]);
        lemma_model_refs(t, i, p, k);
    }
    lemma_refs_of_part(visual_assets(t), model_assets(models.last()), k, p);
}

/// The references of the given kind of a visual include the file of every
/// asset of every animation of every model, and of every asset of every
/// model's component.
proof fn lemma_visual_refs(models: Seq<Model>, k: AssetRefKind)
    ensures
        forall|i: int, a: int, j: int|
            0 <= i < models.len() && 0 <= a < models[i].anims@.len() && 0 <= j
                < models[i].anims@[a].assets@.len() && asset_ref(
                #[trigger] models[i].anims@[a].assets@[j],
                k,
            ) is Some ==> ref_paths(visual_assets(models), k).contains(
                asset_ref(models[i].anims@[a].assets@[j], k)->0,
            ),
        forall|i: int, j: int|
            0 <= i < models.len() && models[i].component is Some && 0 <= j
                < models[i].component.unwrap().assets@.len() && asset_ref(
                #[trigger] models[i].component.unwrap().assets@[j],
                k,
            ) is Some ==> ref_paths(visual_assets(models), k).contains(
                asset_ref(models[i].component.unwrap().assets@[j], k)->0,
            ),
        forall|i: int, j: int|
            0 <= i < models.len() && models[i].component is Some && models[i].component.unwrap().logic is Some && 0
                <= j < models[i].component.unwrap().logic.unwrap().entries@.len()
                && (#[trigger] models[i].component.unwrap().logic.unwrap().entries@[j]).asset is Some && asset_ref(
                models[i].component.unwrap().logic.unwrap().entries@[j].asset->0,
                k,
            ) is Some ==> ref_paths(visual_assets(models), k).contains(
                asset_ref(models[i].component.unwrap().logic.unwrap().entries@[j].asset->0, k)->0,
            ),
{
    assert forall|i: int, a: int, j: int|
        0 <= i < models.len() && 0 <= a < models[i].anims@.len() && 0 <= j < models[i].anims@[a].assets@.len()
            && asset_ref(#[trigger] models[i].anims@[a].assets@[j], k) is Some implies ref_paths(
        visual_assets(models),
        k,
    ).contains(asset_ref(models[i].anims@[a].assets@[j], k)->0) by {
        let m = models[i];
        let p = asset_ref(m.anims@[a].assets@[j], k)->0;
        lemma_anim_refs(m.anims@, a, j, k);
        lemma_refs_of_part(component_assets(m), anim_assets(m.anims@), k, p);
        lemma_model_refs(models, i, p, k);
    }
    assert forall|i: int, j: int|
        0 <= i < models.len() && models[i].component is Some && 0 <= j < models[i].component.unwrap().assets@.len()
            && asset_ref(#[trigger] models[i].component.unwrap().assets@[j], k) is Some implies ref_paths(
        visual_assets(models),
        k,
    ).contains(asset_ref(models[i].component.unwrap().assets@[j], k)->0) by {
        let m = models[i];
        let c = m.component.unwrap();
        let p = asset_ref(c.assets@[j], k)->0;
        let logic = match c.logic {
            Some(l) => entry_assets(l.entries@),
            None => Seq::empty(),
        };
        lemma_ref_of_member(c.assets@, j, k);
        lemma_refs_of_part(c.assets@, logic, k, p);
        assert(component_assets(m) == c.assets@ + logic);
        lemma_refs_of_part(component_assets(m), anim_assets(m.anims@), k, p);
        lemma_model_refs(models, i, p, k);
    }
    assert forall|i: int, j: int|
        0 <= i < models.len() && models[i].component is Some && models[i].component.unwrap().logic is Some && 0 <= j
            < models[i].component.unwrap().logic.unwrap().entries@.len()
            && (#[trigger] models[i].component.unwrap().logic.unwrap().entries@[j]).asset is Some && asset_ref(
            models[i].component.unwrap().logic.unwrap().entries@[j].asset->0,
            k,
        ) is Some implies ref_paths(visual_assets(models), k).contains(
        asset_ref(models[i].component.unwrap().logic.unwrap().entries@[j].asset->0, k)->0,
    ) by {
        let m = models[i];
        let c = m.component.unwrap();
        let es = c.logic.unwrap().entries@;
        let p = asset_ref(es[j].asset->0, k)->0;
        lemma_entry_refs(es, j, k);
        lemma_refs_of_part(c.assets@, entry_assets(es), k, p);
        assert(component_assets(m) == c.assets@ + entry_assets(es));
        lemma_refs_of_part(component_assets(m), anim_assets(m.anims@), k, p);
        lemma_model_refs(models, i, p, k);
    }
}

/// Collecting a visual into the manifest registers every file it names:
/// for each model, the `art\` path (with `.uax`) of every `Anim` asset with
/// a file of every one of its animations; the `art\` path (with `.ugx`) of
/// every `Model` asset with a file of its component, directly or in a
/// logic-switched entry; and the `art\` path (with `.ugx`) of the damage
/// file of every asset of its component. What the manifest held before
/// stays.
pub proof fn law_collect_visual_registers_every_file(vis: Visual, before: AssetManifest, after: AssetManifest)
    requires
        registered(before, after, visual_assets(vis.models@)),
    ensures
        forall|i: int, a: int, j: int|
            0 <= i < vis.models@.len() && 0 <= a < vis.models@[i].anims@.len() && 0 <= j
                < vis.models@[i].anims@[a].assets@.len() && (#[trigger] vis.models@[i].anims@[a].assets@[j]).asset_type@
                == "Anim"@ && vis.models@[i].anims@[a].assets@[j].file is Some ==> after.anims().contains(
                "art\\"@ + replace_char(vis.models@[i].anims@[a].assets@[j].file.unwrap()@, '/', '\\') + ".uax"@,
            ),
        forall|i: int, j: int|
            0 <= i < vis.models@.len() && vis.models@[i].component is Some && 0 <= j
                < vis.models@[i].component.unwrap().assets@.len() && (#[trigger] vis.models@[i].component.unwrap().assets@[j]).asset_type@
                == "Model"@ && vis.models@[i].component.unwrap().assets@[j].file is Some ==> after.models().contains(
                "art\\"@ + replace_char(vis.models@[i].component.unwrap().assets@[j].file.unwrap()@, '/', '\\') + ".ugx"@,
            ),
        forall|i: int, j: int|
            0 <= i < vis.models@.len() && vis.models@[i].component is Some && vis.models@[i].component.unwrap().logic is Some
                && 0 <= j < vis.models@[i].component.unwrap().logic.unwrap().entries@.len()
                && (#[trigger] vis.models@[i].component.unwrap().logic.unwrap().entries@[j]).asset is Some
                && vis.models@[i].component.unwrap().logic.unwrap().entries@[j].asset->0.asset_type@ == "Model"@
                && vis.models@[i].component.unwrap().logic.unwrap().entries@[j].asset->0.file is Some
                ==> after.models().contains(
                "art\\"@ + replace_char(
                    vis.models@[i].component.unwrap().logic.unwrap().entries@[j].asset->0.file.unwrap()@,
                    '/',
                    '\\',
                ) + ".ugx"@,
            ),
        forall|i: int, j: int|
            0 <= i < vis.models@.len() && vis.models@[i].component is Some && 0 <= j
                < vis.models@[i].component.unwrap().assets@.len()
                && (#[trigger] vis.models@[i].component.unwrap().assets@[j]).damage_file is Some
                ==> after.damage_models().contains(
                "art\\"@ + replace_char(vis.models@[i].component.unwrap().assets@[j].damage_file.unwrap()@, '/', '\\')
                    + ".ugx"@,
            ),
        before.anims().subset_of(after.anims()),
        before.models().subset_of(after.models()),
        before.damage_models().subset_of(after.damage_models()),
{
    lemma_visual_refs(vis.models@, AssetRefKind::Anim);
    lemma_visual_refs(vis.models@, AssetRefKind::Model);
    lemma_visual_refs(vis.models@, AssetRefKind::DamageModel);
}

/// Collecting a visual into an object's bundle lists every file it names:
/// the `art\` path (with `.uax`) of every `Anim` asset with a file of every
/// animation of every model, and the `art\` path (with `.ugx`) of every
/// `Model` asset with a file of every model's component, after what the
/// bundle held before.
pub proof fn law_collect_object_visual_lists_every_file(vis: Visual, before: ObjectAssets, after: ObjectAssets)
    requires
        bundled(before, after, visual_assets(vis.models@)),
    ensures
        forall|i: int, a: int, j: int|
            0 <= i < vis.models@.len() && 0 <= a < vis.models@[i].anims@.len() && 0 <= j
                < vis.models@[i].anims@[a].assets@.len() && (#[trigger] vis.models@[i].anims@[a].assets@[j]).asset_type@
                == "Anim"@ && vis.models@[i].anims@[a].assets@[j].file is Some ==> string_views(after.anims@).contains(
                "art\\"@ + replace_char(vis.models@[i].anims@[a].assets@[j].file.unwrap()@, '/', '\\') + ".uax"@,
            ),
        forall|i: int, j: int|
            0 <= i < vis.models@.len() && vis.models@[i].component is Some && 0 <= j
                < vis.models@[i].component.unwrap().assets@.len() && (#[trigger] vis.models@[i].component.unwrap().assets@[j]).asset_type@
                == "Model"@ && vis.models@[i].component.unwrap().assets@[j].file is Some ==> string_views(after.models@).contains(
                "art\\"@ + replace_char(vis.models@[i].component.unwrap().assets@[j].file.unwrap()@, '/', '\\') + ".ugx"@,
            ),
        string_views(before.anims@).is_prefix_of(string_views(after.anims@)),
        string_views(before.models@).is_prefix_of(string_views(after.models@)),
{
    let va = visual_assets(vis.models@);
    lemma_visual_refs(vis.models@, AssetRefKind::Anim);
    lemma_visual_refs(vis.models@, AssetRefKind::Model);
    let ba = string_views(before.anims@);
    let bm = string_views(before.models@);
    let ra = ref_paths(va, AssetRefKind::Anim);
    let rm = ref_paths(va, AssetRefKind::Model);
    assert forall|p: Seq<char>| ra.contains(p) implies (ba + ra).contains(p) by {
        let w = choose|w: int| 0 <= w < ra.len() && ra[w] == p;
        assert((ba + ra)[ba.len() + w] == p);
    }
    assert forall|p: Seq<char>| rm.contains(p) implies (bm + rm).contains(p) by {
        let w = choose|w: int| 0 <= w < rm.len() && rm[w] == p;
        assert((bm + rm)[bm.len() + w] == p);
    }
    assert(ba.is_prefix_of(ba + ra)) by {
        assert((ba + ra).subrange(0, ba.len() as int) =~= ba);
    }
    assert(bm.is_prefix_of(bm + rm)) by {
        assert((bm + rm).subrange(0, bm.len() as int) =~= bm);
    }
}

/// The non-empty references of a list are exactly its non-empty elements:
/// each one is kept, nothing else is, and their order is kept.
pub proof fn law_non_empty_keeps_every_reference(ss: Seq<Seq<char>>)
    ensures
        forall|i: int| 0 <= i < ss.len() && (#[trigger] ss[i]).len() > 0 ==> non_empty(ss).contains(ss[i]),
        forall|x: Seq<char>| #[trigger] non_empty(ss).contains(x) ==> x.len() > 0 && ss.contains(x),
        non_empty(ss).len() <= ss.len(),
{
    let pred = |s: Seq<char>| s.len() > 0;
    assert forall|i: int| 0 <= i < ss.len() && (#[trigger] ss[i]).len() > 0 implies non_empty(ss).contains(ss[i]) by {
        ss.lemma_filter_contains(pred, i);
    }
    assert forall|x: Seq<char>| #[trigger] non_empty(ss).contains(x) implies x.len() > 0 && ss.contains(x) by {
        let f = non_empty(ss);
        let w = choose|w: int| 0 <= w < f.len() && f[w] == x;
        ss.lemma_filter_pred(pred, w);
        ss.lemma_filter_contains_rev(pred, x);
    }
    ss.lemma_filter_len(pred);
}

} // verus!


