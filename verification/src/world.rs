//! Arena-indexed model of the scene graph.
//!
//! Every scene object is a `Node` in one growing arena; an identifier is the
//! node's index and is never reused. Parent links always point at an earlier
//! index, so parent chains terminate and a subtree of `root` consists exactly
//! of the indices whose parent chain reaches `root`. Despawning marks a whole
//! subtree dead instead of removing entries, which keeps identifiers stable.

use vstd::prelude::*;

use crate::Pixelate;

verus! {

/// A scene-object identifier: the object's index in the arena.
pub type EntityId = usize;

/// The render settings of an auxiliary (off-screen) camera.
#[derive(Debug, Copy, Clone)]
pub struct CameraSettings {
    /// Compositing order; auxiliary cameras get strictly negative, strictly
    /// decreasing orders so they render before the main pass.
    pub order: i64,
    /// The off-screen color buffer the camera renders into.
    pub image: usize,
}

/// One scene object and the components attached to it.
#[derive(Debug, Copy, Clone)]
pub struct Node {
    /// False once the object has been despawned; dead objects keep their
    /// index but no longer take part in any query.
    pub alive: bool,
    /// The object's parent in the scene graph, always an earlier index.
    pub parent: Option<EntityId>,
    /// The pixelation request attached to the object, if any.
    pub pixelate: Option<Pixelate>,
    /// The mesh asset the object renders, if any.
    pub mesh: Option<usize>,
    /// The material the object renders with, if any.
    pub material: Option<usize>,
    /// The scene asset the object asked to instantiate, if any.
    pub scene: Option<usize>,
    /// The spawned sub-scene instance backing `scene`, once one exists.
    pub scene_instance: Option<usize>,
    /// Whether the object sits on the private pixelation visibility layer.
    pub pixelation_layer: bool,
    /// Auxiliary-camera settings, present only on rig cameras.
    pub camera: Option<CameraSettings>,
    /// Back-reference of a rig camera to its source object.
    pub camera_target: Option<EntityId>,
    /// Back-reference of a canvas to its source object.
    pub canvas_target: Option<EntityId>,
    /// The source object's bounding-sphere radius, cached at rig build time.
    pub cached_radius: Option<u32>,
    /// Whether the object's quad is rotated a half turn about the up axis,
    /// as the canvas mesh is so its front face meets the viewer.
    pub rotated_half_turn: bool,
    /// Marks geometry that must not cast shadows (the canvas mesh).
    pub not_shadow_caster: bool,
    /// Marks geometry that must not receive shadows.
    pub not_shadow_receiver: bool,
}

impl Node {
    /// A freshly spawned object: alive, with no components.
    pub open spec fn blank_spec(parent: Option<EntityId>) -> Node {
        Node {
            alive: true,
            parent,
            pixelate: None,
            mesh: None,
            material: None,
            scene: None,
            scene_instance: None,
            pixelation_layer: false,
            camera: None,
            camera_target: None,
            canvas_target: None,
            cached_radius: None,
            rotated_half_turn: false,
            not_shadow_caster: false,
            not_shadow_receiver: false,
        }
    }

    /// Builds a freshly spawned object with no components.
    pub fn blank(parent: Option<EntityId>) -> (n: Node)
        ensures
            n == Node::blank_spec(parent),
    {
        Node {
            alive: true,
            parent,
            pixelate: None,
            mesh: None,
            material: None,
            scene: None,
            scene_instance: None,
            pixelation_layer: false,
            camera: None,
            camera_target: None,
            canvas_target: None,
            cached_radius: None,
            rotated_half_turn: false,
            not_shadow_caster: false,
            not_shadow_receiver: false,
        }
    }
}

/// A node is well formed at index `i` when its parent link points backwards
/// and any attached pixelation request has a positive resolution.
pub open spec fn node_wf(n: Node, i: int) -> bool {
    &&& (n.parent matches Some(p) ==> (p as int) < i)
    &&& (n.pixelate matches Some(px) ==> px.wf())
}

/// The node as it stands after its subtree was despawned.
pub open spec fn killed(n: Node) -> Node {
    Node { alive: false, ..n }
}

/// Whether the parent chain of `e` reaches `anc`.
pub open spec fn has_ancestor(nodes: Seq<Node>, e: int, anc: int) -> bool
    decreases e,
{
    &&& 0 <= e < nodes.len()
    &&& match nodes[e].parent {
        Option::None => false,
        Option::Some(p) => (p as int) < e && ((p as int) == anc || has_ancestor(
            nodes,
            p as int,
            anc,
        )),
    }
}

/// Whether `i` belongs to the subtree rooted at `root`: it is the root
/// itself or a (structural) descendant of it, dead or alive.
pub open spec fn in_subtree(nodes: Seq<Node>, i: int, root: int) -> bool {
    i == root || has_ancestor(nodes, i, root)
}

/// Whether the node is a live auxiliary camera whose source is `t`.
pub open spec fn is_camera_for(n: Node, t: EntityId) -> bool {
    n.alive && n.camera_target == Some(t)
}

/// Whether the node is a live canvas whose source is `t`.
pub open spec fn is_canvas_for(n: Node, t: EntityId) -> bool {
    n.alive && n.canvas_target == Some(t)
}

/// How many of the first `upto` nodes satisfy `p`.
pub open spec fn count_nodes_upto(nodes: Seq<Node>, p: spec_fn(Node) -> bool, upto: int) -> nat
    decreases upto,
{
    if upto <= 0 || upto > nodes.len() {
        0
    } else {
        count_nodes_upto(nodes, p, upto - 1) + if p(nodes[upto - 1]) {
            1nat
        } else {
            0nat
        }
    }
}

/// How many nodes satisfy `p`.
pub open spec fn count_nodes(nodes: Seq<Node>, p: spec_fn(Node) -> bool) -> nat {
    count_nodes_upto(nodes, p, nodes.len() as int)
}

/// How many live auxiliary cameras reference `t` as their source.
pub open spec fn count_cameras_for(nodes: Seq<Node>, t: EntityId) -> nat {
    count_nodes(nodes, |n: Node| is_camera_for(n, t))
}

/// How many live canvases reference `t` as their source.
pub open spec fn count_canvases_for(nodes: Seq<Node>, t: EntityId) -> nat {
    count_nodes(nodes, |n: Node| is_canvas_for(n, t))
}

/// Membership in a sequence extended by one element.
pub proof fn lemma_push_contains<T>(s: Seq<T>, x: T, e: T)
    ensures
        s.push(x).contains(e) == (s.contains(e) || e == x),
{
    assert(s.push(x)[s.len() as int] == x);
    if s.contains(e) {
        let k = choose|k: int| 0 <= k < s.len() && s[k] == e;
        assert(s.push(x)[k] == e);
    }
    if s.push(x).contains(e) {
        let k = choose|k: int| 0 <= k < s.push(x).len() && s.push(x)[k] == e;
        if k < s.len() {
            assert(s[k] == e);
        } else {
            assert(s.push(x)[s.len() as int] == x);
        }
    }
}

/// Membership in a sequence shortened by its last element.
pub proof fn lemma_drop_last_contains<T>(s: Seq<T>, e: T)
    requires
        s.len() > 0,
    ensures
        s.contains(e) == (s.drop_last().contains(e) || e == s.last()),
{
    if s.contains(e) {
        let k = choose|k: int| 0 <= k < s.len() && s[k] == e;
        if k < s.len() - 1 {
            assert(s.drop_last()[k] == e);
        }
    }
    if s.drop_last().contains(e) {
        let k = choose|k: int| 0 <= k < s.drop_last().len() && s.drop_last()[k] == e;
        assert(s[k] == e);
    }
}

/// Ancestry depends on parent links alone: two arenas whose nodes agree on
/// every parent link agree on every ancestor chain, whatever else (such as
/// liveness or components) was changed.
pub proof fn lemma_has_ancestor_same_parents(s1: Seq<Node>, s2: Seq<Node>, e: int, anc: int)
    requires
        s1.len() == s2.len(),
        forall|i: int| 0 <= i < s1.len() ==> (#[trigger] s1[i]).parent == s2[i].parent,
    ensures
        has_ancestor(s1, e, anc) == has_ancestor(s2, e, anc),
    decreases e,
{
    if 0 <= e < s1.len() {
        match s1[e].parent {
            Option::None => {},
            Option::Some(p) => {
                if (p as int) < e {
                    lemma_has_ancestor_same_parents(s1, s2, p as int, anc);
                }
            },
        }
    }
}

/// Counting sees only what the predicate sees: two arenas agreeing under
/// the predicate on a prefix have the same count there.
pub proof fn lemma_count_upto_agree(
    s1: Seq<Node>,
    s2: Seq<Node>,
    p: spec_fn(Node) -> bool,
    upto: int,
)
    requires
        upto <= s1.len(),
        upto <= s2.len(),
        forall|i: int| 0 <= i < upto ==> p(#[trigger] s1[i]) == p(s2[i]),
    ensures
        count_nodes_upto(s1, p, upto) == count_nodes_upto(s2, p, upto),
    decreases upto,
{
    if upto > 0 {
        lemma_count_upto_agree(s1, s2, p, upto - 1);
    }
}

/// Appending one node raises the count by one exactly when the node
/// matches.
pub proof fn lemma_count_nodes_push(s: Seq<Node>, p: spec_fn(Node) -> bool, x: Node)
    ensures
        count_nodes(s.push(x), p) == count_nodes(s, p) + if p(x) {
            1nat
        } else {
            0nat
        },
{
    assert(s.push(x)[s.len() as int] == x);
    lemma_count_upto_agree(s.push(x), s, p, s.len() as int);
}

/// Replacing one node keeps the count when the replacement matches exactly
/// as the original did.
pub proof fn lemma_count_nodes_update(s: Seq<Node>, p: spec_fn(Node) -> bool, i: int, x: Node)
    requires
        0 <= i < s.len(),
        p(s[i]) == p(x),
    ensures
        count_nodes(s.update(i, x), p) == count_nodes(s, p),
{
    lemma_count_upto_agree(s.update(i, x), s, p, s.len() as int);
}

/// Nothing matches, nothing counts.
pub proof fn lemma_count_nodes_zero(s: Seq<Node>, p: spec_fn(Node) -> bool, upto: int)
    requires
        forall|i: int| 0 <= i < s.len() ==> !p(#[trigger] s[i]),
    ensures
        count_nodes_upto(s, p, upto) == 0,
    decreases upto,
{
    if upto > 0 && upto <= s.len() {
        lemma_count_nodes_zero(s, p, upto - 1);
    }
}

/// The scene world: the arena of all objects spawned so far.
#[derive(Debug, Clone)]
pub struct World {
    nodes: Vec<Node>,
}

impl View for World {
    type V = Seq<Node>;

    closed spec fn view(&self) -> Seq<Node> {
        self.nodes@
    }
}

impl World {
    /// Every node's parent link points backwards and every attached
    /// pixelation request is well formed.
    pub open spec fn wf(self) -> bool {
        forall|i: int| 0 <= i < self@.len() ==> node_wf(#[trigger] self@[i], i)
    }

    /// An empty world.
    pub fn new() -> (w: World)
        ensures
            w@ =~= Seq::<Node>::empty(),
            w.wf(),
    {
        World { nodes: Vec::new() }
    }

    /// The number of identifiers handed out so far, dead ones included.
    pub fn len(&self) -> (n: usize)
        ensures
            n == self@.len(),
    {
        self.nodes.len()
    }

    /// Reads the node of object `e`.
    pub fn node(&self, e: EntityId) -> (n: &Node)
        requires
            e < self@.len(),
        ensures
            *n == self@[e as int],
    {
        &self.nodes[e]
    }

    /// Spawns a fresh object with no components under the given parent.
    pub fn spawn(&mut self, parent: Option<EntityId>) -> (id: EntityId)
        requires
            old(self).wf(),
            parent matches Some(p) ==> p < old(self)@.len(),
        ensures
            final(self).wf(),
            id == old(self)@.len(),
            final(self)@ == old(self)@.push(Node::blank_spec(parent)),
    {
        let id = self.nodes.len();
        self.nodes.push(Node::blank(parent));
        proof {
            assert forall|i: int| 0 <= i < self@.len() implies node_wf(#[trigger] self@[i], i) by {
                if i < old(self)@.len() {
                    assert(node_wf(old(self)@[i], i));
                }
            }
        }
        id
    }

    /// Spawns a fresh object with the given node, which must be well formed
    /// at the new index.
    pub fn spawn_node(&mut self, node: Node) -> (id: EntityId)
        requires
            old(self).wf(),
            node_wf(node, old(self)@.len() as int),
        ensures
            final(self).wf(),
            id == old(self)@.len(),
            final(self)@ == old(self)@.push(node),
    {
        let id = self.nodes.len();
        self.nodes.push(node);
        proof {
            assert forall|i: int| 0 <= i < self@.len() implies node_wf(#[trigger] self@[i], i) by {
                if i < old(self)@.len() {
                    assert(node_wf(old(self)@[i], i));
                }
            }
        }
        id
    }

    /// Marks object `e` as a resolved pixelation source: it moves onto the
    /// private visibility layer and its bounding radius is cached.
    pub fn cache_pixelation_source(&mut self, e: EntityId, radius: u32)
        requires
            old(self).wf(),
            e < old(self)@.len(),
        ensures
            final(self).wf(),
            final(self)@ == old(self)@.update(
                e as int,
                Node {
                    pixelation_layer: true,
                    cached_radius: Some(radius),
                    ..old(self)@[e as int]
                },
            ),
    {
        let mut n = *self.node(e);
        n.pixelation_layer = true;
        n.cached_radius = Some(radius);
        self.set_node(e, n);
    }

    /// Puts object `e` onto or off the private visibility layer.
    pub fn set_pixelation_layer(&mut self, e: EntityId, on: bool)
        requires
            old(self).wf(),
            e < old(self)@.len(),
        ensures
            final(self).wf(),
            final(self)@ == old(self)@.update(
                e as int,
                Node { pixelation_layer: on, ..old(self)@[e as int] },
            ),
    {
        let mut n = *self.node(e);
        n.pixelation_layer = on;
        self.set_node(e, n);
    }

    /// Sets or clears the auxiliary-camera settings of object `e`.
    pub fn set_camera(&mut self, e: EntityId, camera: Option<CameraSettings>)
        requires
            old(self).wf(),
            e < old(self)@.len(),
        ensures
            final(self).wf(),
            final(self)@ == old(self)@.update(
                e as int,
                Node { camera, ..old(self)@[e as int] },
            ),
    {
        let mut n = *self.node(e);
        n.camera = camera;
        self.set_node(e, n);
    }

    /// Marks object `e` as receiving no shadows and replaces its material;
    /// the shadow pass uses this on duplicate geometry.
    pub fn apply_shadow_material(&mut self, e: EntityId, material: usize)
        requires
            old(self).wf(),
            e < old(self)@.len(),
        ensures
            final(self).wf(),
            final(self)@ == old(self)@.update(
                e as int,
                Node {
                    material: Some(material),
                    not_shadow_receiver: true,
                    ..old(self)@[e as int]
                },
            ),
    {
        let mut n = *self.node(e);
        n.material = Some(material);
        n.not_shadow_receiver = true;
        self.set_node(e, n);
    }

    /// Replaces the node of object `e`. The building blocks below express
    /// every component change through this.
    fn set_node(&mut self, e: EntityId, n: Node)
        requires
            old(self).wf(),
            e < old(self)@.len(),
            node_wf(n, e as int),
        ensures
            final(self).wf(),
            final(self)@ == old(self)@.update(e as int, n),
    {
        self.nodes.set(e, n);
        proof {
            assert forall|i: int| 0 <= i < self@.len() implies node_wf(#[trigger] self@[i], i) by {
                if i != e {
                    assert(node_wf(old(self)@[i], i));
                }
            }
        }
    }

    /// Attaches or replaces the pixelation request of object `e`.
    pub fn insert_pixelate(&mut self, e: EntityId, px: Pixelate)
        requires
            old(self).wf(),
            e < old(self)@.len(),
            px.wf(),
        ensures
            final(self).wf(),
            final(self)@ == old(self)@.update(
                e as int,
                Node { pixelate: Some(px), ..old(self)@[e as int] },
            ),
    {
        let mut n = *self.node(e);
        n.pixelate = Some(px);
        self.set_node(e, n);
    }

    /// Removes the pixelation request of object `e`, if any.
    pub fn remove_pixelate(&mut self, e: EntityId)
        requires
            old(self).wf(),
            e < old(self)@.len(),
        ensures
            final(self).wf(),
            final(self)@ == old(self)@.update(
                e as int,
                Node { pixelate: None, ..old(self)@[e as int] },
            ),
    {
        let mut n = *self.node(e);
        n.pixelate = None;
        self.set_node(e, n);
    }

    /// Sets or clears the mesh of object `e`.
    pub fn set_mesh(&mut self, e: EntityId, mesh: Option<usize>)
        requires
            old(self).wf(),
            e < old(self)@.len(),
        ensures
            final(self).wf(),
            final(self)@ == old(self)@.update(
                e as int,
                Node { mesh, ..old(self)@[e as int] },
            ),
    {
        let mut n = *self.node(e);
        n.mesh = mesh;
        self.set_node(e, n);
    }

    /// Sets or clears the material of object `e`.
    pub fn set_material(&mut self, e: EntityId, material: Option<usize>)
        requires
            old(self).wf(),
            e < old(self)@.len(),
        ensures
            final(self).wf(),
            final(self)@ == old(self)@.update(
                e as int,
                Node { material, ..old(self)@[e as int] },
            ),
    {
        let mut n = *self.node(e);
        n.material = material;
        self.set_node(e, n);
    }

    /// Sets or clears the scene asset reference of object `e`.
    pub fn set_scene(&mut self, e: EntityId, scene: Option<usize>)
        requires
            old(self).wf(),
            e < old(self)@.len(),
        ensures
            final(self).wf(),
            final(self)@ == old(self)@.update(
                e as int,
                Node { scene, ..old(self)@[e as int] },
            ),
    {
        let mut n = *self.node(e);
        n.scene = scene;
        self.set_node(e, n);
    }

    /// Records the sub-scene instance spawned for object `e`.
    pub fn set_scene_instance(&mut self, e: EntityId, scene_instance: Option<usize>)
        requires
            old(self).wf(),
            e < old(self)@.len(),
        ensures
            final(self).wf(),
            final(self)@ == old(self)@.update(
                e as int,
                Node { scene_instance, ..old(self)@[e as int] },
            ),
    {
        let mut n = *self.node(e);
        n.scene_instance = scene_instance;
        self.set_node(e, n);
    }

    /// Checks whether the parent chain of `e` reaches `anc`.
    pub fn is_descendant_of(&self, e: EntityId, anc: EntityId) -> (r: bool)
        requires
            self.wf(),
            e < self@.len(),
        ensures
            r == has_ancestor(self@, e as int, anc as int),
    {
        let mut cur: EntityId = e;
        loop
            invariant
                self.wf(),
                cur < self@.len(),
                has_ancestor(self@, e as int, anc as int) == has_ancestor(
                    self@,
                    cur as int,
                    anc as int,
                ),
            decreases cur,
        {
            match self.nodes[cur].parent {
                None => {
                    return false;
                },
                Some(p) => {
                    assert(node_wf(self@[cur as int], cur as int));
                    if p == anc {
                        return true;
                    }
                    cur = p;
                },
            }
        }
    }

    /// Computes, for every identifier, whether it lies in the subtree of
    /// `root`.
    pub fn subtree_marks(&self, root: EntityId) -> (marks: Vec<bool>)
        requires
            self.wf(),
            root < self@.len(),
        ensures
            marks@.len() == self@.len(),
            forall|i: int|
                0 <= i < self@.len() ==> marks@[i] == in_subtree(self@, i, root as int),
    {
        let len = self.nodes.len();
        let mut marks: Vec<bool> = Vec::new();
        let mut i: usize = 0;
        while i < len
            invariant
                self.wf(),
                root < self@.len(),
                len == self@.len(),
                i <= len,
                marks@.len() == i,
                forall|k: int| 0 <= k < i ==> marks@[k] == in_subtree(self@, k, root as int),
            decreases len - i,
        {
            let m = i == root || self.is_descendant_of(i, root);
            marks.push(m);
            i = i + 1;
        }
        marks
    }

    /// Despawns object `e` and every descendant of it.
    pub fn despawn_recursive(&mut self, e: EntityId)
        requires
            old(self).wf(),
            e < old(self)@.len(),
        ensures
            final(self).wf(),
            final(self)@.len() == old(self)@.len(),
            forall|i: int|
                0 <= i < old(self)@.len() ==> final(self)@[i] == (if in_subtree(
                    old(self)@,
                    i,
                    e as int,
                ) {
                    killed(old(self)@[i])
                } else {
                    old(self)@[i]
                }),
    {
        let marks = self.subtree_marks(e);
        let len = self.nodes.len();
        let mut i: usize = 0;
        while i < len
            invariant
                len == old(self)@.len(),
                self@.len() == len,
                marks@.len() == len,
                i <= len,
                forall|k: int|
                    0 <= k < len ==> marks@[k] == in_subtree(old(self)@, k, e as int),
                forall|k: int|
                    0 <= k < i ==> self@[k] == (if marks@[k] {
                        killed(old(self)@[k])
                    } else {
                        old(self)@[k]
                    }),
                forall|k: int| i <= k < len ==> self@[k] == old(self)@[k],
            decreases len - i,
        {
            if marks[i] {
                let mut n = self.nodes[i];
                n.alive = false;
                self.nodes.set(i, n);
            }
            i = i + 1;
        }
        proof {
            assert forall|i: int| 0 <= i < self@.len() implies node_wf(#[trigger] self@[i], i) by {
                assert(node_wf(old(self)@[i], i));
            }
        }
    }

    /// Counts the live auxiliary cameras whose source is `t`.
    pub fn cameras_targeting(&self, t: EntityId) -> (n: usize)
        ensures
            n == count_cameras_for(self@,
            t),
    {
        self.count_matching_cameras(t, true)
    }

    /// Counts the live canvases whose source is `t`.
    pub fn canvases_targeting(&self, t: EntityId) -> (n: usize)
        ensures
            n == count_canvases_for(self@, t),
    {
        self.count_matching_cameras(t, false)
    }

    /// Counts live nodes whose camera (or canvas) back-reference is `t`.
    fn count_matching_cameras(&self, t: EntityId, cameras: bool) -> (n: usize)
        ensures
            cameras ==> n == count_cameras_for(self@, t),
            !cameras ==> n == count_canvases_for(self@, t),
    {
        let ghost p: spec_fn(Node) -> bool = if cameras {
            |n: Node| is_camera_for(n, t)
        } else {
            |n: Node| is_canvas_for(n, t)
        };
        let len = self.nodes.len();
        let mut count: usize = 0;
        let mut i: usize = 0;
        while i < len
            invariant
                len == self@.len(),
                i <= len,
                count == count_nodes_upto(self@, p, i as int),
                count <= i,
                p == (if cameras {
                    |n: Node| is_camera_for(n, t)
                } else {
                    |n: Node| is_canvas_for(n, t)
                }),
            decreases len - i,
        {
            let node = &self.nodes[i];
            let matches_here = if cameras {
                node.alive && match node.camera_target {
                    Some(x) => x == t,
                    None => false,
                }
            } else {
                node.alive && match node.canvas_target {
                    Some(x) => x == t,
                    None => false,
                }
            };
            if matches_here {
                count = count + 1;
            }
            proof {
                assert(p(self@[i as int]) == matches_here);
            }
            i = i + 1;
        }
        count
    }
}

} // verus!
