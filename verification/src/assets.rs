//! Models of the host engine's asset stores and scene spawner.
//!
//! The engine owns the real meshes, images, materials, and sub-scene
//! instances; this module keeps exactly the facts about them the pixelation
//! pipeline reads or writes: which target meshes are confirmed loaded and
//! their bounding radii, the size of every off-screen buffer, what every
//! material binds, and which entities a spawned sub-scene instance produced.
//! Identifiers are indices into growing arenas and are never reused.

use vstd::prelude::*;

use crate::world::{EntityId, Node};

verus! {

/// An asset identifier: the asset's index in its store.
pub type AssetId = usize;

/// An identifier of one spawned sub-scene instance.
pub type InstanceId = usize;

/// What the pipeline knows about one mesh asset.
#[derive(Debug, Copy, Clone, PartialEq, Eq, Structural)]
pub enum MeshData {
    /// A target mesh confirmed loaded, with the bounding-sphere radius the
    /// host computed from its vertex data.
    Loaded { radius: u32 },
    /// A square canvas quad with the given edge length.
    Quad { size: u64 },
}

/// The mesh assets the pipeline has seen or created.
#[derive(Debug, Clone)]
pub struct MeshAssets {
    items: Vec<MeshData>,
}

impl View for MeshAssets {
    type V = Seq<MeshData>;

    closed spec fn view(&self) -> Seq<MeshData> {
        self.items@
    }
}

/// The bounding radius of mesh `id`, if it is a loaded target mesh.
pub open spec fn radius_of(meshes: Seq<MeshData>, id: AssetId) -> Option<u32> {
    if id < meshes.len() && (meshes[id as int] matches MeshData::Loaded { .. }) {
        Some(meshes[id as int]->Loaded_radius)
    } else {
        None
    }
}

impl MeshAssets {
    /// An empty mesh store.
    pub fn new() -> (s: MeshAssets)
        ensures
            s@ =~= Seq::<MeshData>::empty(),
    {
        MeshAssets { items: Vec::new() }
    }

    /// The number of mesh assets.
    pub fn len(&self) -> (n: usize)
        ensures
            n == self@.len(),
    {
        self.items.len()
    }

    /// Reads mesh asset `id`.
    pub fn get(&self, id: AssetId) -> (d: MeshData)
        requires
            id < self@.len(),
        ensures
            d == self@[id as int],
    {
        self.items[id]
    }

    /// Records a target mesh as confirmed loaded, together with the
    /// bounding-sphere radius the host computed from its vertex data, and
    /// mints its identifier.
    pub fn insert_loaded(&mut self, radius: u32) -> (id: AssetId)
        ensures
            id == old(self)@.len(),
            final(self)@ == old(self)@.push(MeshData::Loaded { radius }),
    {
        let id = self.items.len();
        self.items.push(MeshData::Loaded { radius });
        id
    }

    /// Adds a square canvas quad of the given edge length and mints its
    /// identifier.
    pub fn add_quad(&mut self, size: u64) -> (id: AssetId)
        ensures
            id == old(self)@.len(),
            final(self)@ == old(self)@.push(MeshData::Quad { size }),
    {
        let id = self.items.len();
        self.items.push(MeshData::Quad { size });
        id
    }

    /// Whether mesh `id` is a loaded target mesh, and its radius if so.
    pub fn loaded_radius(&self, id: AssetId) -> (r: Option<u32>)
        ensures
            r == radius_of(self@, id),
    {
        if id < self.items.len() {
            match self.items[id] {
                MeshData::Loaded { radius } => Some(radius),
                MeshData::Quad { .. } => None,
            }
        } else {
            None
        }
    }
}

/// One off-screen color buffer: its resolution in pixels. Every buffer the
/// pipeline allocates is nearest-neighbor sampled and cleared to fully
/// transparent, so only the size varies.
#[derive(Debug, Copy, Clone, PartialEq, Eq, Structural)]
pub struct ImageData {
    /// Width in pixels.
    pub width: u32,
    /// Height in pixels.
    pub height: u32,
}

/// The off-screen buffers allocated so far.
#[derive(Debug, Clone)]
pub struct ImageAssets {
    items: Vec<ImageData>,
}

impl View for ImageAssets {
    type V = Seq<ImageData>;

    closed spec fn view(&self) -> Seq<ImageData> {
        self.items@
    }
}

impl ImageAssets {
    /// An empty image store.
    pub fn new() -> (s: ImageAssets)
        ensures
            s@ =~= Seq::<ImageData>::empty(),
    {
        ImageAssets { items: Vec::new() }
    }

    /// The number of buffers allocated so far.
    pub fn len(&self) -> (n: usize)
        ensures
            n == self@.len(),
    {
        self.items.len()
    }

    /// Reads buffer `id`.
    pub fn get(&self, id: AssetId) -> (d: ImageData)
        requires
            id < self@.len(),
        ensures
            d == self@[id as int],
    {
        self.items[id]
    }

    /// Allocates a buffer of the given size and mints its identifier.
    pub fn add(&mut self, data: ImageData) -> (id: AssetId)
        ensures
            id == old(self)@.len(),
            final(self)@ == old(self)@.push(data),
    {
        let id = self.items.len();
        self.items.push(data);
        id
    }
}

/// How a material blends with what is behind it.
#[derive(Debug, Copy, Clone, PartialEq, Eq, Structural)]
pub enum AlphaMode {
    /// No blending.
    Opaque,
    /// Ordinary alpha blending.
    Blend,
    /// Alpha masking with the threshold at one: nothing reaches the color
    /// output, yet the geometry still rasterizes into shadow maps.
    MaskFull,
}

/// What the pipeline knows about one material.
#[derive(Debug, Copy, Clone, PartialEq, Eq, Structural)]
pub struct MaterialData {
    /// The image sampled as base color, if any.
    pub base_color_texture: Option<AssetId>,
    /// Whether the base color is fully transparent.
    pub base_color_transparent: bool,
    /// Whether main-scene lighting is skipped for this material.
    pub unlit: bool,
    /// How the material blends.
    pub alpha_mode: AlphaMode,
}

/// The materials created so far.
#[derive(Debug, Clone)]
pub struct MaterialAssets {
    items: Vec<MaterialData>,
}

impl View for MaterialAssets {
    type V = Seq<MaterialData>;

    closed spec fn view(&self) -> Seq<MaterialData> {
        self.items@
    }
}

impl MaterialAssets {
    /// An empty material store.
    pub fn new() -> (s: MaterialAssets)
        ensures
            s@ =~= Seq::<MaterialData>::empty(),
    {
        MaterialAssets { items: Vec::new() }
    }

    /// The number of materials created so far.
    pub fn len(&self) -> (n: usize)
        ensures
            n == self@.len(),
    {
        self.items.len()
    }

    /// Reads material `id`.
    pub fn get(&self, id: AssetId) -> (d: MaterialData)
        requires
            id < self@.len(),
        ensures
            d == self@[id as int],
    {
        self.items[id]
    }

    /// Creates a material and mints its identifier.
    pub fn add(&mut self, data: MaterialData) -> (id: AssetId)
        ensures
            id == old(self)@.len(),
            final(self)@ == old(self)@.push(data),
    {
        let id = self.items.len();
        self.items.push(data);
        id
    }
}

/// One spawned sub-scene instance, as the host spawner reports it.
#[derive(Debug, Clone)]
pub struct SceneInstance {
    /// The scene asset the instance was spawned from.
    pub scene: AssetId,
    /// The object the instance was spawned under, if any.
    pub parent: Option<EntityId>,
    /// Whether the host reports the instance as fully spawned.
    pub ready: bool,
    /// The objects belonging to the instance, in the host's enumeration
    /// order; filled in when the instance becomes ready.
    pub entities: Vec<EntityId>,
}

/// One sub-scene instance as specifications see it.
pub struct SceneInstanceView {
    /// The scene asset the instance was spawned from.
    pub scene: AssetId,
    /// The object the instance was spawned under, if any.
    pub parent: Option<EntityId>,
    /// Whether the host reports the instance as fully spawned.
    pub ready: bool,
    /// The objects belonging to the instance.
    pub entities: Seq<EntityId>,
}

impl View for SceneInstance {
    type V = SceneInstanceView;

    open spec fn view(&self) -> SceneInstanceView {
        SceneInstanceView {
            scene: self.scene,
            parent: self.parent,
            ready: self.ready,
            entities: self.entities@,
        }
    }
}

/// Model of the host's scene spawner: every sub-scene instance requested so
/// far and what became of it.
#[derive(Debug, Clone)]
pub struct SceneSpawner {
    instances: Vec<SceneInstance>,
}

impl View for SceneSpawner {
    type V = Seq<SceneInstanceView>;

    closed spec fn view(&self) -> Seq<SceneInstanceView> {
        self.instances@.map_values(|inst: SceneInstance| inst@)
    }
}

/// The first entity of the list that is a live mesh-bearing object, paired
/// with its mesh.
pub open spec fn first_mesh_in(nodes: Seq<Node>, ents: Seq<EntityId>) -> Option<(EntityId, AssetId)>
    decreases ents.len(),
{
    if ents.len() == 0 {
        None
    } else {
        let e = ents[0];
        if e < nodes.len() && nodes[e as int].alive && nodes[e as int].mesh.is_some() {
            Some((e, nodes[e as int].mesh.unwrap()))
        } else {
            first_mesh_in(nodes, ents.drop_first())
        }
    }
}

impl SceneSpawner {
    /// A spawner with no instances.
    pub fn new() -> (s: SceneSpawner)
        ensures
            s@ =~= Seq::<SceneInstanceView>::empty(),
    {
        SceneSpawner { instances: Vec::new() }
    }

    /// The number of instances requested so far.
    pub fn len(&self) -> (n: usize)
        ensures
            n == self@.len(),
    {
        self.instances.len()
    }

    /// Reads instance `id`.
    pub fn instance(&self, id: InstanceId) -> (inst: &SceneInstance)
        requires
            id < self@.len(),
        ensures
            inst@ == self@[id as int],
    {
        &self.instances[id]
    }

    /// Requests a new instance of `scene`, optionally as a child of
    /// `parent`; the instance starts not ready and with no entities.
    pub fn spawn(&mut self, scene: AssetId, parent: Option<EntityId>) -> (id: InstanceId)
        ensures
            id == old(self)@.len(),
            final(self)@ == old(self)@.push(
                SceneInstanceView { scene, parent, ready: false, entities: Seq::empty() },
            ),
    {
        let id = self.instances.len();
        self.instances.push(SceneInstance { scene, parent, ready: false, entities: Vec::new() });
        proof {
            assert(self@ =~= old(self)@.push(
                SceneInstanceView { scene, parent, ready: false, entities: Seq::empty() },
            ));
        }
        id
    }

    /// Records that the host finished spawning instance `id` and which
    /// objects it produced.
    pub fn mark_ready(&mut self, id: InstanceId, entities: Vec<EntityId>)
        requires
            id < old(self)@.len(),
        ensures
            final(self)@ == old(self)@.update(
                id as int,
                SceneInstanceView { ready: true, entities: entities@, ..old(self)@[id as int] },
            ),
    {
        let scene = self.instances[id].scene;
        let parent = self.instances[id].parent;
        let ghost target = SceneInstanceView {
            ready: true,
            entities: entities@,
            ..old(self)@[id as int]
        };
        self.instances.set(id, SceneInstance { scene, parent, ready: true, entities });
        proof {
            assert(self@ =~= old(self)@.update(id as int, target));
        }
    }

    /// How many objects instance `id` produced.
    pub fn instance_entity_count(&self, id: InstanceId) -> (n: usize)
        requires
            id < self@.len(),
        ensures
            n == self@[id as int].entities.len(),
    {
        self.instances[id].entities.len()
    }

    /// The `p`-th object of instance `id`.
    pub fn instance_entity(&self, id: InstanceId, p: usize) -> (e: EntityId)
        requires
            id < self@.len(),
            p < self@[id as int].entities.len(),
        ensures
            e == self@[id as int].entities[p as int],
    {
        self.instances[id].entities[p]
    }

    /// Whether the host reports instance `id` as fully spawned.
    pub fn instance_is_ready(&self, id: InstanceId) -> (r: bool)
        requires
            id < self@.len(),
        ensures
            r == self@[id as int].ready,
    {
        self.instances[id].ready
    }

    /// The first live mesh-bearing object of instance `id`, with its mesh.
    pub fn first_mesh_entity(&self, world: &crate::world::World, id: InstanceId) -> (r: Option<
        (EntityId, AssetId),
    >)
        requires
            id < self@.len(),
        ensures
            r == first_mesh_in(world@, self@[id as int].entities),
    {
        let ents = &self.instances[id].entities;
        let ghost all = ents@;
        proof {
            assert(all.skip(0) =~= all);
        }
        let mut i: usize = 0;
        while i < ents.len()
            invariant
                all == ents@,
                id < self@.len(),
                all == self@[id as int].entities,
                i <= ents@.len(),
                first_mesh_in(world@, all) == first_mesh_in(world@, all.skip(i as int)),
            decreases ents@.len() - i,
        {
            let e = ents[i];
            proof {
                assert(all.skip(i as int)[0] == all[i as int]);
            }
            if e < world.len() {
                let node = world.node(e);
                if node.alive {
                    match node.mesh {
                        Some(m) => {
                            return Some((e, m));
                        },
                        None => {},
                    }
                }
            }
            proof {
                assert(all.skip(i as int).drop_first() =~= all.skip(i as int + 1));
            }
            i = i + 1;
        }
        proof {
            assert(all.skip(i as int).len() == 0);
        }
        None
    }
}

} // verus!
