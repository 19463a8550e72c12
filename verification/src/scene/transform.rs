//! A transform is a node of the scene tree. The tree lives in one flat arena:
//! nodes refer to each other by index, destroyed nodes leave their slot to the
//! next node that is created.
//!
//! The vectors (`V`) and matrices (`M`) a transform carries are never computed
//! on here: whoever drives the tree hands in the function that composes a
//! parent's world matrix with a local translation, rotation and scale.

use vstd::prelude::*;
use crate::error::Error;

verus! {

/// A type checked id to reference the transforms of a tree.
#[derive(Hash, Copy, Clone, PartialEq, Eq, Debug, Structural)]
pub struct TransformId {
    pub index: usize,
}

/// A node in the scene tree. It allows moving through the tree in any direction.
pub struct Transform<V, M> {
    /// Position of the transform relative to its parent.
    translation: V,
    /// Rotation of the transform relative to its parent.
    rotation: V,
    /// Scale of the transform relative to its parent.
    scale: V,
    /// If set, the matrix is not in sync with translation, rotation and scale.
    dirty: bool,
    /// A destroyed transform stays in the arena so that its slot may be reused.
    dead: bool,
    /// World matrix, composed from the parent's and the local values when the tree is refreshed.
    matrix: M,
    /// Parent transform. If None, it's at the root of the scene.
    pub parent: Option<TransformId>,
    /// First child of the transform.
    pub first_child: Option<TransformId>,
    /// Last child of the transform.
    pub last_child: Option<TransformId>,
    /// Next sibling of this transform. None if last of the children chain.
    pub next_sibling: Option<TransformId>,
    /// Previous sibling of this transform. None if first of the children chain.
    pub previous_sibling: Option<TransformId>,
}

impl<V, M> Transform<V, M> {
    pub closed spec fn translation_view(&self) -> V {
        self.translation
    }

    pub closed spec fn rotation_view(&self) -> V {
        self.rotation
    }

    pub closed spec fn scale_view(&self) -> V {
        self.scale
    }

    pub closed spec fn matrix_view(&self) -> M {
        self.matrix
    }

    pub closed spec fn is_dirty(&self) -> bool {
        self.dirty
    }

    pub closed spec fn is_dead(&self) -> bool {
        self.dead
    }

    pub closed spec fn parent_view(&self) -> Option<TransformId> {
        self.parent
    }

    pub closed spec fn first_child_view(&self) -> Option<TransformId> {
        self.first_child
    }

    pub closed spec fn last_child_view(&self) -> Option<TransformId> {
        self.last_child
    }

    pub closed spec fn next_sibling_view(&self) -> Option<TransformId> {
        self.next_sibling
    }

    pub closed spec fn previous_sibling_view(&self) -> Option<TransformId> {
        self.previous_sibling
    }

    /// Whether two transforms carry the same local values, matrix and flags,
    /// whatever their place in a tree.
    pub open spec fn same_payload(&self, other: &Transform<V, M>) -> bool {
        &&& self.translation_view() == other.translation_view()
        &&& self.rotation_view() == other.rotation_view()
        &&& self.scale_view() == other.scale_view()
        &&& self.matrix_view() == other.matrix_view()
        &&& self.is_dirty() == other.is_dirty()
        &&& self.is_dead() == other.is_dead()
    }

    /// Whether two transforms have the same five links.
    pub open spec fn same_links(&self, other: &Transform<V, M>) -> bool {
        &&& self.parent_view() == other.parent_view()
        &&& self.first_child_view() == other.first_child_view()
        &&& self.last_child_view() == other.last_child_view()
        &&& self.next_sibling_view() == other.next_sibling_view()
        &&& self.previous_sibling_view() == other.previous_sibling_view()
    }

    /// Creates a new transform from a relative translation, rotation and scale.
    /// It starts dirty: `matrix` is only what `get_world_matrix` would refuse to hand out.
    pub fn new(t: V, r: V, s: V, matrix: M) -> (transform: Transform<V, M>)
        ensures
            transform.translation_view() == t,
            transform.rotation_view() == r,
            transform.scale_view() == s,
            transform.matrix_view() == matrix,
            transform.is_dirty(),
            !transform.is_dead(),
            transform.parent_view().is_none(),
            transform.first_child_view().is_none(),
            transform.last_child_view().is_none(),
            transform.next_sibling_view().is_none(),
            transform.previous_sibling_view().is_none(),
    {
        Transform {
            translation: t,
            rotation: r,
            scale: s,
            dirty: true,
            dead: false,
            matrix,
            parent: None,
            first_child: None,
            last_child: None,
            next_sibling: None,
            previous_sibling: None,
        }
    }

    /// Returns the translation field.
    pub fn get_position(&self) -> (v: &V)
        ensures
            *v == self.translation_view(),
    {
        &self.translation
    }

    /// Returns the rotation field.
    pub fn get_rotation(&self) -> (v: &V)
        ensures
            *v == self.rotation_view(),
    {
        &self.rotation
    }

    /// Returns the scale field.
    pub fn get_scale(&self) -> (v: &V)
        ensures
            *v == self.scale_view(),
    {
        &self.scale
    }

    /// Returns the translation field, to be changed in place. Handing it out marks the
    /// transform dirty: the value may change, so the world matrix is stale from
    /// now on and is not handed out before the next refresh.
    pub fn get_position_mut(&mut self) -> (v: &mut V)
        ensures
            *v == old(self).translation_view(),
            final(self).translation_view() == *final(v),
            final(self).rotation_view() == old(self).rotation_view(),
            final(self).scale_view() == old(self).scale_view(),
            final(self).matrix_view() == old(self).matrix_view(),
            final(self).is_dirty(),
            final(self).is_dead() == old(self).is_dead(),
            final(self).same_links(old(self)),
    {
        self.dirty = true;
        &mut self.translation
    }

    /// Returns the rotation field, to be changed in place. Handing it out marks the
    /// transform dirty: the value may change, so the world matrix is stale from
    /// now on and is not handed out before the next refresh.
    pub fn get_rotation_mut(&mut self) -> (v: &mut V)
        ensures
            *v == old(self).rotation_view(),
            final(self).rotation_view() == *final(v),
            final(self).translation_view() == old(self).translation_view(),
            final(self).scale_view() == old(self).scale_view(),
            final(self).matrix_view() == old(self).matrix_view(),
            final(self).is_dirty(),
            final(self).is_dead() == old(self).is_dead(),
            final(self).same_links(old(self)),
    {
        self.dirty = true;
        &mut self.rotation
    }

    /// Returns the scale field, to be changed in place. Handing it out marks the
    /// transform dirty: the value may change, so the world matrix is stale from
    /// now on and is not handed out before the next refresh.
    pub fn get_scale_mut(&mut self) -> (v: &mut V)
        ensures
            *v == old(self).scale_view(),
            final(self).scale_view() == *final(v),
            final(self).translation_view() == old(self).translation_view(),
            final(self).rotation_view() == old(self).rotation_view(),
            final(self).matrix_view() == old(self).matrix_view(),
            final(self).is_dirty(),
            final(self).is_dead() == old(self).is_dead(),
            final(self).same_links(old(self)),
    {
        self.dirty = true;
        &mut self.scale
    }

    /// Sets a new local translation; the world matrix is stale from now on.
    pub fn set_translation(&mut self, new_translation: V)
        ensures
            final(self).translation_view() == new_translation,
            final(self).rotation_view() == old(self).rotation_view(),
            final(self).scale_view() == old(self).scale_view(),
            final(self).matrix_view() == old(self).matrix_view(),
            final(self).is_dirty(),
            final(self).is_dead() == old(self).is_dead(),
            final(self).same_links(old(self)),
    {
        self.translation = new_translation;
        self.dirty = true;
    }

    /// Sets a new local rotation; the world matrix is stale from now on.
    pub fn set_rotation(&mut self, new_rotation: V)
        ensures
            final(self).translation_view() == old(self).translation_view(),
            final(self).rotation_view() == new_rotation,
            final(self).scale_view() == old(self).scale_view(),
            final(self).matrix_view() == old(self).matrix_view(),
            final(self).is_dirty(),
            final(self).is_dead() == old(self).is_dead(),
            final(self).same_links(old(self)),
    {
        self.rotation = new_rotation;
        self.dirty = true;
    }

    /// Sets a new local scale; the world matrix is stale from now on.
    pub fn set_scale(&mut self, new_scale: V)
        ensures
            final(self).translation_view() == old(self).translation_view(),
            final(self).rotation_view() == old(self).rotation_view(),
            final(self).scale_view() == new_scale,
            final(self).matrix_view() == old(self).matrix_view(),
            final(self).is_dirty(),
            final(self).is_dead() == old(self).is_dead(),
            final(self).same_links(old(self)),
    {
        self.scale = new_scale;
        self.dirty = true;
    }

    /// Re-computes the world matrix from the local values and a given parent world matrix,
    /// and marks the transform clean.
    pub fn refresh_world_matrix<F: Fn(Option<&M>, &V, &V, &V) -> M>(
        &mut self,
        parent_world_matrix: Option<&M>,
        compose: &F,
    )
        requires
            compose.requires(
                (parent_world_matrix, &old(self).translation_view(), &old(self).rotation_view(), &old(self).scale_view()),
            ),
        ensures
            final(self).translation_view() == old(self).translation_view(),
            final(self).rotation_view() == old(self).rotation_view(),
            final(self).scale_view() == old(self).scale_view(),
            compose.ensures(
                (parent_world_matrix, &old(self).translation_view(), &old(self).rotation_view(), &old(self).scale_view()),
                final(self).matrix_view(),
            ),
            !final(self).is_dirty(),
            final(self).is_dead() == old(self).is_dead(),
            final(self).same_links(old(self)),
    {
        let world = compose(parent_world_matrix, &self.translation, &self.rotation, &self.scale);
        self.matrix = world;
        self.dirty = false;
    }

    /// The world matrix, or `Error::StaleTransform` while the transform is dirty.
    pub fn get_world_matrix(&self) -> (result: Result<&M, Error>)
        ensures
            self.is_dirty() ==> result == Err::<&M, Error>(Error::StaleTransform),
            !self.is_dirty() ==> result == Ok::<&M, Error>(&self.matrix_view()),
    {
        if self.dirty {
            Err(Error::StaleTransform)
        } else {
            Ok(&self.matrix)
        }
    }

    /// Marks the transform dead and takes its links away; what it carries stays.
    fn bury(&mut self)
        ensures
            final(self).is_dead(),
            final(self).translation_view() == old(self).translation_view(),
            final(self).rotation_view() == old(self).rotation_view(),
            final(self).scale_view() == old(self).scale_view(),
            final(self).matrix_view() == old(self).matrix_view(),
            final(self).is_dirty() == old(self).is_dirty(),
            final(self).parent_view().is_none(),
            final(self).first_child_view().is_none(),
            final(self).last_child_view().is_none(),
            final(self).next_sibling_view().is_none(),
            final(self).previous_sibling_view().is_none(),
    {
        self.dead = true;
        self.parent = None;
        self.first_child = None;
        self.last_child = None;
        self.next_sibling = None;
        self.previous_sibling = None;
    }

    /// Sets the transform to a dead state so that it is ignored when processing living transforms.
    pub fn set_dead(&mut self)
        ensures
            final(self).is_dead(),
            final(self).translation_view() == old(self).translation_view(),
            final(self).rotation_view() == old(self).rotation_view(),
            final(self).scale_view() == old(self).scale_view(),
            final(self).matrix_view() == old(self).matrix_view(),
            final(self).is_dirty() == old(self).is_dirty(),
            final(self).same_links(old(self)),
    {
        self.dead = true;
    }

    /// Get whether this transform is dead.
    pub fn get_dead(&self) -> (dead: bool)
        ensures
            dead == self.is_dead(),
    {
        self.dead
    }
}


/// The link that stands for position `k` of a list of children: the child at that
/// position, or none where the list has no such position.
pub open spec fn link(c: Seq<usize>, k: int) -> Option<TransformId> {
    if 0 <= k < c.len() {
        Some(TransformId { index: c[k] })
    } else {
        None
    }
}

/// A link that steps over `root`: where it pointed at `root` it now holds `past`.
pub open spec fn bypass(
    link: Option<TransformId>,
    root: TransformId,
    past: Option<TransformId>,
) -> Option<TransformId> {
    if link == Some(root) {
        past
    } else {
        link
    }
}

/// Whether `world` is a result of composing a parent world matrix (none for a root)
/// with the local values of `node`.
pub open spec fn composed<V, M, F: Fn(Option<&M>, &V, &V, &V) -> M>(
    compose: &F,
    parent_world: Option<M>,
    node: &Transform<V, M>,
    world: M,
) -> bool {
    match parent_world {
        Some(p) => compose.ensures(
            (Some(&p), &node.translation_view(), &node.rotation_view(), &node.scale_view()),
            world,
        ),
        None => compose.ensures(
            (None, &node.translation_view(), &node.rotation_view(), &node.scale_view()),
            world,
        ),
    }
}

/// The scene tree: an arena of transforms with a free-list of destroyed slots
/// and a visiting order in which every parent comes before its children.
pub struct SceneTree<V, M> {
    transforms: Vec<Transform<V, M>>,
    /// Slots of destroyed transforms, the most recently freed last.
    free: Vec<usize>,
    /// The living transforms, each parent before its children.
    order: Vec<usize>,
    /// For each slot, its children from first to last.
    children: Ghost<Seq<Seq<usize>>>,
    /// For each slot, its distance to the root above it.
    depth: Ghost<Seq<nat>>,
}

impl<V, M> SceneTree<V, M> {
    /// The transforms of the arena, by slot.
    pub closed spec fn nodes(&self) -> Seq<Transform<V, M>> {
        self.transforms@
    }

    /// The slots that the next created transforms will take, the next one last.
    pub closed spec fn free_slots(&self) -> Seq<usize> {
        self.free@
    }

    /// The children of the transform in slot `i`, from first to last.
    pub closed spec fn children_of(&self, i: int) -> Seq<usize> {
        self.children@[i]
    }

    /// Whether slot `i` holds a living transform.
    pub open spec fn alive(&self, i: int) -> bool {
        0 <= i < self.nodes().len() && !self.nodes()[i].is_dead()
    }

    spec fn wf_free(&self) -> bool {
        &&& self.free@.no_duplicates()
        &&& forall|k: int|
            0 <= k < self.free@.len() ==> 0 <= #[trigger] self.free@[k] < self.transforms@.len()
                && self.transforms@[self.free@[k] as int].dead
        &&& forall|i: int|
            0 <= i < self.transforms@.len() && (#[trigger] self.transforms@[i]).dead
                ==> self.free@.contains(i as usize)
    }

    spec fn parent_before(&self, k: int) -> bool {
        match self.transforms@[self.order@[k] as int].parent {
            Some(p) => exists|j: int| 0 <= j < k && #[trigger] self.order@[j] == p.index,
            None => true,
        }
    }

    spec fn wf_order(&self) -> bool {
        &&& self.order@.no_duplicates()
        &&& forall|k: int|
            0 <= k < self.order@.len() ==> self.alive(#[trigger] self.order@[k] as int)
        &&& forall|i: int| #[trigger] self.alive(i) ==> self.order@.contains(i as usize)
        &&& forall|k: int| 0 <= k < self.order@.len() ==> #[trigger] self.parent_before(k)
    }

    spec fn above_ok(&self, i: int) -> bool {
        match self.transforms@[i].parent {
            Some(p) => {
                &&& self.alive(p.index as int)
                &&& self.depth@[i] == self.depth@[p.index as int] + 1
                &&& self.children@[p.index as int].contains(i as usize)
            },
            None => {
                &&& self.transforms@[i].previous_sibling.is_none()
                &&& self.transforms@[i].next_sibling.is_none()
            },
        }
    }

    spec fn kid_ok(&self, p: int, k: int) -> bool {
        let c = self.children@[p];
        let n = self.transforms@[c[k] as int];
        &&& self.alive(c[k] as int)
        &&& n.parent == Some(TransformId { index: p as usize })
        &&& n.previous_sibling == link(c, k - 1)
        &&& n.next_sibling == link(c, k + 1)
    }

    spec fn kids_ok(&self, p: int) -> bool {
        let c = self.children@[p];
        let n = self.transforms@[p];
        &&& c.no_duplicates()
        &&& n.first_child == link(c, 0)
        &&& n.last_child == link(c, c.len() - 1)
        &&& forall|k: int| 0 <= k < c.len() ==> #[trigger] self.kid_ok(p, k)
    }

    spec fn dead_ok(&self, i: int) -> bool {
        let n = self.transforms@[i];
        n.dead ==> {
            &&& self.children@[i].len() == 0
            &&& n.parent.is_none()
            &&& n.next_sibling.is_none()
            &&& n.previous_sibling.is_none()
        }
    }

    spec fn wf_links(&self) -> bool {
        &&& self.transforms@.len() <= usize::MAX
        &&& self.children@.len() == self.transforms@.len()
        &&& self.depth@.len() == self.transforms@.len()
        &&& forall|i: int| #[trigger] self.alive(i) ==> self.above_ok(i)
        &&& forall|p: int| 0 <= p < self.transforms@.len() ==> #[trigger] self.kids_ok(p)
        &&& forall|i: int| 0 <= i < self.transforms@.len() ==> #[trigger] self.dead_ok(i)
    }

    /// The invariant of the tree: the free-list holds exactly the dead slots, the
    /// visiting order holds exactly the living ones with parents first, and the five
    /// links of every transform agree with the lists of children.
    pub closed spec fn wf(&self) -> bool {
        &&& self.wf_free()
        &&& self.wf_order()
        &&& self.wf_links()
    }

    /// The distance of slot `i` to the root above it.
    pub closed spec fn depth_of(&self, i: int) -> nat {
        self.depth@[i]
    }

    /// Whether `i` or one of the transforms above it is marked in `seed`.
    pub closed spec fn reaches(&self, seed: Seq<bool>, i: int) -> bool
        decreases self.depth_of(i),
    {
        if !(0 <= i < self.transforms@.len() && i < seed.len() && i < self.depth@.len()) {
            false
        } else if seed[i] {
            true
        } else {
            match self.transforms@[i].parent {
                Some(p) => 0 <= p.index < self.depth@.len() && self.depth@[p.index as int]
                    < self.depth@[i] && self.reaches(seed, p.index as int),
                None => false,
            }
        }
    }

    /// One flag per slot: whether the transform in it is dirty.
    pub open spec fn dirty_seed(&self) -> Seq<bool> {
        Seq::new(self.nodes().len(), |i: int| self.nodes()[i].is_dirty())
    }

    /// One flag per slot, set for `root` alone.
    pub open spec fn single_seed(&self, root: int) -> Seq<bool> {
        Seq::new(self.nodes().len(), |i: int| i == root)
    }

    /// Whether the living transform `i` is dirty or lies below a dirty transform:
    /// the next refresh recomputes exactly these.
    pub open spec fn needs_refresh(&self, i: int) -> bool {
        self.alive(i) && self.reaches(self.dirty_seed(), i)
    }

    /// Whether the living transform `i` is `root` or lies below it.
    pub open spec fn in_subtree(&self, root: int, i: int) -> bool {
        self.alive(i) && self.reaches(self.single_seed(root), i)
    }

    /// The world matrix of the parent of `i`, none for a root.
    pub open spec fn parent_world(&self, i: int) -> Option<M> {
        match self.nodes()[i].parent_view() {
            Some(p) => Some(self.nodes()[p.index as int].matrix_view()),
            None => None,
        }
    }

    /// Unfolds `reaches` by one step for a living transform of a well-formed tree.
    pub proof fn lemma_reaches_step(&self, seed: Seq<bool>, i: int)
        requires
            self.wf(),
            self.alive(i),
            seed.len() == self.nodes().len(),
        ensures
            self.reaches(seed, i) == (seed[i] || match self.nodes()[i].parent_view() {
                Some(p) => self.alive(p.index as int) && self.reaches(seed, p.index as int),
                None => false,
            }),
    {
        assert(self.above_ok(i));
    }

    /// An empty tree.
    pub fn new() -> (tree: SceneTree<V, M>)
        ensures
            tree.wf(),
            tree.nodes().len() == 0,
            tree.free_slots().len() == 0,
    {
        let children: Ghost<Seq<Seq<usize>>> = Ghost(Seq::empty());
        let depth: Ghost<Seq<nat>> = Ghost(Seq::empty());
        SceneTree { transforms: Vec::new(), free: Vec::new(), order: Vec::new(), children, depth }
    }

    /// Number of slots of the arena, living and dead.
    pub fn len(&self) -> (n: usize)
        ensures
            n == self.nodes().len(),
    {
        self.transforms.len()
    }

    /// Whether `id` names a living transform.
    pub fn is_alive(&self, id: TransformId) -> (alive: bool)
        ensures
            alive == self.alive(id.index as int),
    {
        id.index < self.transforms.len() && !self.transforms[id.index].dead
    }

    /// The living transform that `id` names.
    pub fn get(&self, id: TransformId) -> (node: Option<&Transform<V, M>>)
        ensures
            node.is_some() == self.alive(id.index as int),
            node.is_some() ==> *node.unwrap() == self.nodes()[id.index as int],
    {
        if id.index < self.transforms.len() && !self.transforms[id.index].dead {
            Some(&self.transforms[id.index])
        } else {
            None
        }
    }

    /// The last child of `parent` in this tree; none where there is no parent or it has no child.
    pub open spec fn last_child_under(&self, parent: Option<TransformId>) -> Option<TransformId> {
        match parent {
            Some(p) => self.nodes()[p.index as int].last_child_view(),
            None => None,
        }
    }

    /// What creating `id` under `parent` does to another slot `i`: the parent gets
    /// one more child, its former last child gets a next sibling, nothing else moves.
    pub open spec fn kept_by_append(
        &self,
        before: &SceneTree<V, M>,
        parent: Option<TransformId>,
        id: TransformId,
        i: int,
    ) -> bool {
        let a = before.nodes()[i];
        let b = self.nodes()[i];
        let me = Some(TransformId { index: i as usize });
        &&& b.same_payload(&a)
        &&& b.parent_view() == a.parent_view()
        &&& b.previous_sibling_view() == a.previous_sibling_view()
        &&& b.next_sibling_view() == (if before.last_child_under(parent) == me {
            Some(id)
        } else {
            a.next_sibling_view()
        })
        &&& b.first_child_view() == (if parent == me && a.first_child_view().is_none() {
            Some(id)
        } else {
            a.first_child_view()
        })
        &&& b.last_child_view() == (if parent == me {
            Some(id)
        } else {
            a.last_child_view()
        })
        &&& self.children_of(i) == (if parent == me {
            before.children_of(i).push(id.index)
        } else {
            before.children_of(i)
        })
    }

    /// What `append_new` leaves behind when it created the transform `id` under `parent`.
    pub open spec fn appended(
        &self,
        before: &SceneTree<V, M>,
        parent: Option<TransformId>,
        id: TransformId,
    ) -> bool {
        let n = id.index as int;
        let reuse = before.free_slots().len() > 0;
        &&& n == (if reuse { before.free_slots().last() as int } else { before.nodes().len() as int })
        &&& self.free_slots() == (if reuse { before.free_slots().drop_last() } else { before.free_slots() })
        &&& self.nodes().len() == (if reuse { before.nodes().len() } else { before.nodes().len() + 1 })
        &&& !before.alive(n)
        &&& self.alive(n)
        &&& self.nodes()[n].is_dirty()
        &&& self.nodes()[n].parent_view() == parent
        &&& self.nodes()[n].first_child_view().is_none()
        &&& self.nodes()[n].last_child_view().is_none()
        &&& self.nodes()[n].next_sibling_view().is_none()
        &&& self.nodes()[n].previous_sibling_view() == before.last_child_under(parent)
        &&& self.children_of(n) == Seq::<usize>::empty()
        &&& forall|i: int|
            0 <= i < before.nodes().len() && i != n ==> #[trigger] self.kept_by_append(
                before,
                parent,
                id,
                i,
            )
    }

    /// Creates a transform as the last child of `parent`, or at the root if there is
    /// none. It takes the most recently freed slot, or a new one if none is free.
    /// Returns none, and changes nothing, where `parent` names no living transform.
    #[verifier::spinoff_prover]
    pub fn append_new(&mut self, parent: Option<TransformId>, t: V, r: V, s: V, matrix: M) -> (id:
        Option<TransformId>)
        requires
            old(self).wf(),
        ensures
            final(self).wf(),
            id.is_some() == (parent.is_none() || old(self).alive(parent.unwrap().index as int)),
            id.is_none() ==> *final(self) == *old(self),
            id.is_some() ==> {
                &&& final(self).appended(old(self), parent, id.unwrap())
                &&& final(self).nodes()[id.unwrap().index as int].translation_view() == t
                &&& final(self).nodes()[id.unwrap().index as int].rotation_view() == r
                &&& final(self).nodes()[id.unwrap().index as int].scale_view() == s
                &&& final(self).nodes()[id.unwrap().index as int].matrix_view() == matrix
            },
    {
        let previous = match parent {
            Some(p) => {
                if p.index >= self.transforms.len() || self.transforms[p.index].dead {
                    return None;
                }
                self.transforms[p.index].last_child
            },
            None => None,
        };
        let ghost before = *self;
        let node = Transform {
            translation: t,
            rotation: r,
            scale: s,
            dirty: true,
            dead: false,
            matrix,
            parent,
            first_child: None,
            last_child: None,
            next_sibling: None,
            previous_sibling: previous,
        };
        let index = match self.free.pop() {
            Some(slot) => {
                assert(before.free@[before.free@.len() - 1] == slot);
                assert(before.dead_ok(slot as int));
                self.transforms[slot] = node;
                slot
            },
            None => {
                self.transforms.push(node);
                proof {
                    self.children@ = self.children@.push(Seq::empty());
                    self.depth@ = self.depth@.push(0nat);
                }
                self.transforms.len() - 1
            },
        };
        let id = TransformId { index };
        match parent {
            Some(p) => {
                assert(before.kids_ok(p.index as int));
                match previous {
                    Some(last) => {
                        assert(before.kid_ok(p.index as int, before.children@[p.index as int].len() - 1));
                        self.transforms[last.index].next_sibling = Some(id);
                    },
                    None => {
                        self.transforms[p.index].first_child = Some(id);
                    },
                }
                self.transforms[p.index].last_child = Some(id);
                proof {
                    let kids = self.children@[p.index as int].push(index);
                    self.children@ = self.children@.update(p.index as int, kids);
                    self.depth@ = self.depth@.update(index as int, self.depth@[p.index as int] + 1);
                }
            },
            None => {
                proof {
                    self.depth@ = self.depth@.update(index as int, 0nat);
                }
            },
        }
        self.order.push(index);
        proof {
            let n = index as int;
            assert(self.nodes()[n].previous_sibling_view() == before.last_child_under(parent));
            assert(self.children_of(n) == Seq::<usize>::empty());
            assert(self.free_slots() == (if before.free_slots().len() > 0 { before.free_slots().drop_last() } else { before.free_slots() }));
            assert forall|i: int| 0 <= i < before.nodes().len() && i != n implies #[trigger] self.kept_by_append(&before, parent, id, i) by {
                let a = before.nodes()[i];
                let b = self.nodes()[i];
                assert(b.same_payload(&a));
                assert(b.parent_view() == a.parent_view());
                assert(b.previous_sibling_view() == a.previous_sibling_view());
                assert(self.children_of(i) == (if parent == Some(TransformId { index: i as usize }) {
                    before.children_of(i).push(id.index)
                } else {
                    before.children_of(i)
                }));
            }
            self.lemma_append_wf(&before, parent, id);
        }
        Some(id)
    }

    /// The state that `append_new` builds is well formed.
    #[verifier::spinoff_prover]
    proof fn lemma_append_wf(&self, before: &SceneTree<V, M>, parent: Option<TransformId>, id: TransformId)
        requires
            before.wf(),
            parent.is_some() ==> before.alive(parent.unwrap().index as int),
            self.appended(before, parent, id),
            self.order@ == before.order@.push(id.index),
            self.transforms@.len() <= usize::MAX,
            self.depth@.len() == self.transforms@.len(),
            self.children@.len() == self.transforms@.len(),
            forall|i: int|
                0 <= i < before.transforms@.len() && i != id.index ==> self.depth@[i] == before.depth@[i],
            self.depth@[id.index as int] == (match parent {
                Some(p) => before.depth@[p.index as int] + 1,
                None => 0nat,
            }),
        ensures
            self.wf(),
    {
        let n = id.index as int;
        let reuse = before.free@.len() > 0;
        let last_before = before.last_child_under(parent);
        assert forall|i: int| 0 <= i < before.transforms@.len() && i != n implies {
            &&& self.transforms@[i].dead == before.transforms@[i].dead
            &&& self.transforms@[i].parent == before.transforms@[i].parent
            &&& self.transforms@[i].previous_sibling == before.transforms@[i].previous_sibling
        } by {
            assert(self.kept_by_append(before, parent, id, i));
        }
        if parent.is_some() {
            let p = parent.unwrap().index as int;
            assert(before.kids_ok(p));
            assert(last_before == link(before.children@[p], before.children@[p].len() - 1));
            assert(self.kept_by_append(before, parent, id, p));
        }
        // the free-list
        assert(self.wf_free()) by {
            if reuse {
                assert(before.free@[before.free@.len() - 1] == id.index);
                assert forall|i: int|
                    0 <= i < self.transforms@.len() && (#[trigger] self.transforms@[i]).dead
                    implies self.free@.contains(i as usize) by {
                    assert(i != n);
                    assert(before.transforms@[i].dead);
                    assert(before.free@.contains(i as usize));
                    let k = choose|k: int| 0 <= k < before.free@.len() && before.free@[k] == i as usize;
                    assert(k != before.free@.len() - 1);
                    assert(self.free@ == before.free@.drop_last());
                    assert(self.free@[k] == i as usize);
                }
            } else {
                assert forall|i: int|
                    0 <= i < self.transforms@.len() && (#[trigger] self.transforms@[i]).dead
                    implies self.free@.contains(i as usize) by {
                    assert(i != n);
                    assert(before.transforms@[i].dead);
                }
            }
        }
        // the visiting order
        assert(self.wf_order()) by {
            assert(!before.order@.contains(id.index)) by {
                if before.order@.contains(id.index) {
                    let k = choose|k: int| 0 <= k < before.order@.len() && before.order@[k] == id.index;
                    assert(before.alive(before.order@[k] as int));
                }
            }
            assert(self.order@.no_duplicates());
            assert forall|k: int| 0 <= k < self.order@.len() implies self.alive(
                #[trigger] self.order@[k] as int,
            ) by {
                if k < before.order@.len() {
                    assert(before.alive(before.order@[k] as int));
                }
            }
            assert forall|i: int| #[trigger] self.alive(i) implies self.order@.contains(i as usize) by {
                if i == n {
                    assert(self.order@[before.order@.len() as int] == id.index);
                } else {
                    assert(before.alive(i));
                    assert(before.order@.contains(i as usize));
                    let k = choose|k: int| 0 <= k < before.order@.len() && before.order@[k] == i as usize;
                    assert(self.order@[k] == i as usize);
                }
            }
            assert forall|k: int| 0 <= k < self.order@.len() implies #[trigger] self.parent_before(k) by {
                if k < before.order@.len() {
                    assert(before.parent_before(k));
                    assert(before.alive(before.order@[k] as int));
                    match self.transforms@[self.order@[k] as int].parent {
                        Some(p) => {
                            let j = choose|j: int| 0 <= j < k && #[trigger] before.order@[j] == p.index;
                            assert(self.order@[j] == p.index);
                        },
                        None => {},
                    }
                } else {
                    match parent {
                        Some(p) => {
                            assert(before.order@.contains(p.index));
                            let j = choose|j: int| 0 <= j < before.order@.len() && before.order@[j] == p.index;
                            assert(self.order@[j] == p.index);
                        },
                        None => {},
                    }
                }
            }
        }
        // the links
        assert(self.wf_links()) by {
            assert forall|i: int| #[trigger] self.alive(i) implies self.above_ok(i) by {
                if i != n {
                    assert(self.kept_by_append(before, parent, id, i));
                    assert(before.alive(i));
                    assert(before.above_ok(i));
                    match before.transforms@[i].parent {
                        Some(q) => {
                            assert(self.kept_by_append(before, parent, id, q.index as int));
                            let kids = before.children@[q.index as int];
                            let k = choose|k: int| 0 <= k < kids.len() && kids[k] == i as usize;
                            if parent == Some(q) {
                                assert(kids.push(id.index)[k] == i as usize);
                            }
                        },
                        None => {
                            if parent.is_some() {
                                let p = parent.unwrap().index as int;
                                let kids = before.children@[p];
                                if kids.len() > 0 {
                                    assert(before.kid_ok(p, kids.len() - 1));
                                    assert(last_before == Some(TransformId { index: kids[kids.len() - 1] }));
                                    assert(kids[kids.len() - 1] != i as usize);
                                } else {
                                    assert(last_before.is_none());
                                }
                            } else {
                                assert(last_before.is_none());
                            }
                            assert(self.transforms@[i].next_sibling == before.transforms@[i].next_sibling);
                        },
                    }
                } else {
                    match parent {
                        Some(p) => {
                            let kids = before.children@[p.index as int];
                            assert(kids.push(id.index)[kids.len() as int] == id.index);
                        },
                        None => {},
                    }
                }
            }
            assert forall|p: int| 0 <= p < self.transforms@.len() implies #[trigger] self.kids_ok(p) by {
                if p == n {
                } else {
                    assert(self.kept_by_append(before, parent, id, p));
                    let kids = before.children@[p];
                    let now = self.children@[p];
                    assert(before.kids_ok(p));
                    assert(before.dead_ok(p));
                    assert(!kids.contains(id.index)) by {
                        if kids.contains(id.index) {
                            let k = choose|k: int| 0 <= k < kids.len() && kids[k] == id.index;
                            assert(before.kid_ok(p, k));
                        }
                    }
                    if parent == Some(TransformId { index: p as usize }) {
                        assert(now.no_duplicates());
                        assert(now == kids.push(id.index));
                        assert forall|k: int| 0 <= k < now.len() implies #[trigger] self.kid_ok(p, k) by {
                            if k < kids.len() {
                                assert(before.kid_ok(p, k));
                                assert(kids[k] != id.index);
                                assert(now[k] == kids[k]);
                                assert(self.kept_by_append(before, parent, id, kids[k] as int));
                                assert(link(now, k - 1) == link(kids, k - 1));
                                if k == kids.len() - 1 {
                                    assert(last_before == Some(TransformId { index: kids[k] }));
                                    assert(link(now, k + 1) == Some(id));
                                } else {
                                    assert(kids[k] != kids[kids.len() - 1]);
                                    assert(link(now, k + 1) == link(kids, k + 1));
                                }
                            } else {
                                assert(now[k] == id.index);
                                assert(link(now, k - 1) == link(kids, kids.len() - 1));
                                assert(link(now, k + 1).is_none());
                            }
                        }
                    } else {
                        assert forall|k: int| 0 <= k < now.len() implies #[trigger] self.kid_ok(p, k) by {
                            assert(before.kid_ok(p, k));
                            assert(self.kept_by_append(before, parent, id, kids[k] as int));
                            if parent.is_some() {
                                let q = parent.unwrap().index as int;
                                let others = before.children@[q];
                                if others.len() > 0 {
                                    assert(before.kid_ok(q, others.len() - 1));
                                }
                            }
                        }
                    }
                }
            }
            assert forall|i: int| 0 <= i < self.transforms@.len() implies #[trigger] self.dead_ok(i) by {
                if i != n {
                    assert(self.kept_by_append(before, parent, id, i));
                    assert(before.dead_ok(i));
                    if parent.is_some() && self.transforms@[i].dead {
                        let q = parent.unwrap().index as int;
                        let others = before.children@[q];
                        if others.len() > 0 {
                            assert(before.kid_ok(q, others.len() - 1));
                        }
                    }
                }
            }
        }
    }

    /// Whether two trees have the same shape: the same slots, living and dead, with
    /// the same links, lists of children, free-list and visiting order.
    spec fn same_structure(&self, other: &SceneTree<V, M>) -> bool {
        &&& self.transforms@.len() == other.transforms@.len()
        &&& self.free@ == other.free@
        &&& self.order@ == other.order@
        &&& self.children@ == other.children@
        &&& self.depth@ == other.depth@
        &&& forall|i: int|
            0 <= i < self.transforms@.len() ==> {
                &&& (#[trigger] self.transforms@[i]).dead == other.transforms@[i].dead
                &&& self.transforms@[i].same_links(&other.transforms@[i])
            }
    }

    /// The invariant only speaks of the shape of the tree.
    #[verifier::spinoff_prover]
    proof fn lemma_wf_structural(&self, other: &SceneTree<V, M>)
        requires
            self.wf(),
            self.same_structure(other),
        ensures
            other.wf(),
    {
        assert(other.wf_free()) by {
            assert forall|k: int| 0 <= k < other.free@.len() implies 0 <= #[trigger] other.free@[k]
                < other.transforms@.len() && other.transforms@[other.free@[k] as int].dead by {
                assert(self.transforms@[self.free@[k] as int].dead);
            }
            assert forall|i: int|
                0 <= i < other.transforms@.len() && (#[trigger] other.transforms@[i]).dead
                implies other.free@.contains(i as usize) by {
                assert(self.transforms@[i].dead);
            }
        }
        assert(other.wf_order()) by {
            assert forall|k: int| 0 <= k < other.order@.len() implies other.alive(
                #[trigger] other.order@[k] as int,
            ) by {
                assert(self.alive(self.order@[k] as int));
            }
            assert forall|i: int| #[trigger] other.alive(i) implies other.order@.contains(i as usize) by {
                assert(self.alive(i));
            }
            assert forall|k: int| 0 <= k < other.order@.len() implies #[trigger] other.parent_before(k) by {
                assert(self.parent_before(k));
                assert(self.alive(self.order@[k] as int));
            }
        }
        assert(other.wf_links()) by {
            assert forall|i: int| #[trigger] other.alive(i) implies other.above_ok(i) by {
                assert(self.alive(i));
                assert(self.above_ok(i));
            }
            assert forall|p: int| 0 <= p < other.transforms@.len() implies #[trigger] other.kids_ok(p) by {
                assert(self.kids_ok(p));
                let c = self.children@[p];
                assert forall|k: int| 0 <= k < c.len() implies #[trigger] other.kid_ok(p, k) by {
                    assert(self.kid_ok(p, k));
                }
            }
            assert forall|i: int| 0 <= i < other.transforms@.len() implies #[trigger] other.dead_ok(i) by {
                assert(self.dead_ok(i));
            }
        }
    }

    /// Whether a transform needs a refresh only depends on the shape and the dirty flags.
    proof fn lemma_reaches_structural(&self, other: &SceneTree<V, M>, seed: Seq<bool>, i: int)
        requires
            self.same_structure(other),
        ensures
            self.reaches(seed, i) == other.reaches(seed, i),
        decreases self.depth_of(i),
    {
        if 0 <= i < self.transforms@.len() && i < seed.len() && i < self.depth@.len() && !seed[i] {
            match self.transforms@[i].parent {
                Some(p) => {
                    if 0 <= p.index < self.depth@.len() && self.depth@[p.index as int] < self.depth@[i] {
                        self.lemma_reaches_structural(other, seed, p.index as int);
                    }
                },
                None => {},
            }
        }
    }

    /// What a refresh does to slot `i`: a transform that needed it is clean and holds
    /// a matrix composed from its parent's new world matrix and its own local values;
    /// any other keeps its matrix. Nothing else changes.
    pub open spec fn refreshed_at<F: Fn(Option<&M>, &V, &V, &V) -> M>(
        &self,
        before: &SceneTree<V, M>,
        compose: &F,
        i: int,
    ) -> bool {
        let a = before.nodes()[i];
        let b = self.nodes()[i];
        &&& b.same_links(&a)
        &&& self.children_of(i) == before.children_of(i)
        &&& b.is_dead() == a.is_dead()
        &&& b.translation_view() == a.translation_view()
        &&& b.rotation_view() == a.rotation_view()
        &&& b.scale_view() == a.scale_view()
        &&& if before.needs_refresh(i) {
            !b.is_dirty() && composed(compose, self.parent_world(i), &b, b.matrix_view())
        } else {
            b.matrix_view() == a.matrix_view() && b.is_dirty() == a.is_dirty()
        }
    }

    /// What one graph pass leaves behind.
    pub open spec fn refreshed<F: Fn(Option<&M>, &V, &V, &V) -> M>(
        &self,
        before: &SceneTree<V, M>,
        compose: &F,
    ) -> bool {
        &&& self.nodes().len() == before.nodes().len()
        &&& self.free_slots() == before.free_slots()
        &&& forall|i: int|
            0 <= i < before.nodes().len() ==> #[trigger] self.refreshed_at(before, compose, i)
    }

    /// One graph pass: walks the living transforms, parents first, and recomputes the
    /// world matrix of each one that is dirty or whose parent was recomputed in this
    /// pass. Afterwards no living transform is dirty.
    #[verifier::spinoff_prover]
    pub fn refresh<F: Fn(Option<&M>, &V, &V, &V) -> M>(&mut self, compose: &F)
        requires
            old(self).wf(),
            forall|pw: Option<&M>, t: &V, r: &V, s: &V| #[trigger] compose.requires((pw, t, r, s)),
        ensures
            final(self).wf(),
            final(self).refreshed(old(self), compose),
            forall|i: int| final(self).alive(i) ==> !(#[trigger] final(self).nodes()[i]).is_dirty(),
    {
        let ghost before = *self;
        let ghost seed = before.dirty_seed();
        let n = self.transforms.len();
        let mut done: Vec<bool> = Vec::new();
        while done.len() < n
            invariant
                done@.len() <= n,
                forall|i: int| 0 <= i < done@.len() ==> !done@[i],
            decreases n - done.len(),
        {
            done.push(false);
        }
        let ghost mut seen: Seq<bool> = Seq::new(n as nat, |i: int| false);
        let mut k: usize = 0;
        while k < self.order.len()
            invariant
                before.wf(),
                before.same_structure(self),
                seed == before.dirty_seed(),
                n == before.transforms@.len(),
                done@.len() == n,
                seen.len() == n,
                0 <= k <= self.order@.len(),
                forall|pw: Option<&M>, t: &V, r: &V, s: &V| #[trigger] compose.requires((pw, t, r, s)),
                forall|j: int| 0 <= j < k ==> seen[#[trigger] self.order@[j] as int],
                forall|i: int|
                    0 <= i < n && #[trigger] seen[i] ==> exists|j: int|
                        0 <= j < k && #[trigger] self.order@[j] == i,
                forall|i: int|
                    0 <= i < n && !(#[trigger] seen[i]) ==> self.transforms@[i] == before.transforms@[i]
                        && !done@[i],
                forall|i: int|
                    0 <= i < n && #[trigger] seen[i] ==> {
                        &&& done@[i] == before.reaches(seed, i)
                        &&& self.refreshed_at(&before, compose, i)
                        &&& before.alive(i)
                        &&& match before.transforms@[i].parent {
                            Some(q) => seen[q.index as int],
                            None => true,
                        }
                    },
            decreases self.order@.len() - k,
        {
            let i = self.order[k];
            let ghost prior = *self;
            proof {
                assert(before.alive(before.order@[k as int] as int));
                assert(before.above_ok(i as int));
                assert(before.parent_before(k as int));
                before.lemma_reaches_step(seed, i as int);
                if seen[i as int] {
                    let j = choose|j: int| 0 <= j < k && #[trigger] self.order@[j] == i;
                    assert(false);
                }
            }
            let parent = self.transforms[i].parent;
            let need = self.transforms[i].dirty || match parent {
                Some(p) => done[p.index],
                None => false,
            };
            assert(need == before.reaches(seed, i as int));
            if need {
                let world = match parent {
                    Some(p) => compose(
                        Some(&self.transforms[p.index].matrix),
                        &self.transforms[i].translation,
                        &self.transforms[i].rotation,
                        &self.transforms[i].scale,
                    ),
                    None => compose(
                        None,
                        &self.transforms[i].translation,
                        &self.transforms[i].rotation,
                        &self.transforms[i].scale,
                    ),
                };
                self.transforms[i].matrix = world;
                self.transforms[i].dirty = false;
                done[i] = true;
            }
            proof {
                seen = seen.update(i as int, true);
                assert(self.refreshed_at(&before, compose, i as int));
                assert forall|x: int| 0 <= x < n && #[trigger] seen[x] implies {
                    &&& done@[x] == before.reaches(seed, x)
                    &&& self.refreshed_at(&before, compose, x)
                    &&& before.alive(x)
                    &&& match before.transforms@[x].parent {
                        Some(q) => seen[q.index as int],
                        None => true,
                    }
                } by {
                    if x != i {
                        assert(prior.refreshed_at(&before, compose, x));
                        assert(self.transforms@[x] == prior.transforms@[x]);
                        match before.transforms@[x].parent {
                            Some(q) => {
                                assert(q.index != i);
                                assert(self.transforms@[q.index as int] == prior.transforms@[q.index as int]);
                            },
                            None => {},
                        }
                    }
                }
                assert forall|x: int| 0 <= x < n && #[trigger] seen[x] implies exists|j: int|
                    0 <= j < k + 1 && #[trigger] self.order@[j] == x by {
                    if x == i {
                        assert(self.order@[k as int] == x);
                    } else {
                        let j = choose|j: int| 0 <= j < k && #[trigger] self.order@[j] == x;
                        assert(self.order@[j] == x);
                    }
                }
            }
            k += 1;
        }
        proof {
            before.lemma_wf_structural(self);
            assert forall|i: int| 0 <= i < before.nodes().len() implies #[trigger] self.refreshed_at(
                &before,
                compose,
                i,
            ) by {
                if before.alive(i) {
                    assert(before.order@.contains(i as usize));
                    let j = choose|j: int| 0 <= j < before.order@.len() && before.order@[j] == i as usize;
                    assert(seen[self.order@[j] as int]);
                } else {
                    if seen[i] {
                    }
                }
            }
            assert forall|i: int| self.alive(i) implies !(#[trigger] self.nodes()[i]).is_dirty() by {
                assert(before.alive(i));
                assert(self.refreshed_at(&before, compose, i));
                before.lemma_reaches_step(seed, i);
            }
        }
    }

    /// Everything but the local values and the dirty flag of slot `n` is as before,
    /// and slot `n` is dirty.
    pub open spec fn touched(&self, before: &SceneTree<V, M>, n: int) -> bool {
        &&& self.nodes().len() == before.nodes().len()
        &&& self.free_slots() == before.free_slots()
        &&& forall|i: int|
            0 <= i < before.nodes().len() ==> #[trigger] self.children_of(i) == before.children_of(i)
        &&& forall|i: int|
            0 <= i < before.nodes().len() && i != n ==> #[trigger] self.nodes()[i] == before.nodes()[i]
        &&& self.nodes()[n].same_links(&before.nodes()[n])
        &&& self.nodes()[n].matrix_view() == before.nodes()[n].matrix_view()
        &&& self.nodes()[n].is_dead() == before.nodes()[n].is_dead()
        &&& self.nodes()[n].is_dirty()
    }

    /// Sets the local translation of a living transform and marks it dirty. Its world
    /// matrix, and those of the transforms below it, are stale until the next refresh.
    /// Returns false, and changes nothing, where `id` names no living transform.
    pub fn set_translation(&mut self, id: TransformId, new_translation: V) -> (found: bool)
        requires
            old(self).wf(),
        ensures
            final(self).wf(),
            found == old(self).alive(id.index as int),
            !found ==> *final(self) == *old(self),
            found ==> {
                &&& final(self).touched(old(self), id.index as int)
                &&& final(self).nodes()[id.index as int].translation_view() == new_translation
                &&& final(self).nodes()[id.index as int].rotation_view() == old(self).nodes()[id.index as int].rotation_view()
                &&& final(self).nodes()[id.index as int].scale_view() == old(self).nodes()[id.index as int].scale_view()
            },
    {
        if id.index >= self.transforms.len() || self.transforms[id.index].dead {
            return false;
        }
        let ghost before = *self;
        self.transforms[id.index].translation = new_translation;
        self.transforms[id.index].dirty = true;
        proof {
            before.lemma_wf_structural(self);
        }
        true
    }

    /// Sets the local rotation of a living transform and marks it dirty.
    /// Returns false, and changes nothing, where `id` names no living transform.
    pub fn set_rotation(&mut self, id: TransformId, new_rotation: V) -> (found: bool)
        requires
            old(self).wf(),
        ensures
            final(self).wf(),
            found == old(self).alive(id.index as int),
            !found ==> *final(self) == *old(self),
            found ==> {
                &&& final(self).touched(old(self), id.index as int)
                &&& final(self).nodes()[id.index as int].translation_view() == old(self).nodes()[id.index as int].translation_view()
                &&& final(self).nodes()[id.index as int].rotation_view() == new_rotation
                &&& final(self).nodes()[id.index as int].scale_view() == old(self).nodes()[id.index as int].scale_view()
            },
    {
        if id.index >= self.transforms.len() || self.transforms[id.index].dead {
            return false;
        }
        let ghost before = *self;
        self.transforms[id.index].rotation = new_rotation;
        self.transforms[id.index].dirty = true;
        proof {
            before.lemma_wf_structural(self);
        }
        true
    }

    /// Sets the local scale of a living transform and marks it dirty.
    /// Returns false, and changes nothing, where `id` names no living transform.
    pub fn set_scale(&mut self, id: TransformId, new_scale: V) -> (found: bool)
        requires
            old(self).wf(),
        ensures
            final(self).wf(),
            found == old(self).alive(id.index as int),
            !found ==> *final(self) == *old(self),
            found ==> {
                &&& final(self).touched(old(self), id.index as int)
                &&& final(self).nodes()[id.index as int].translation_view() == old(self).nodes()[id.index as int].translation_view()
                &&& final(self).nodes()[id.index as int].rotation_view() == old(self).nodes()[id.index as int].rotation_view()
                &&& final(self).nodes()[id.index as int].scale_view() == new_scale
            },
    {
        if id.index >= self.transforms.len() || self.transforms[id.index].dead {
            return false;
        }
        let ghost before = *self;
        self.transforms[id.index].scale = new_scale;
        self.transforms[id.index].dirty = true;
        proof {
            before.lemma_wf_structural(self);
        }
        true
    }

    /// The world matrix of a living transform. A dirty transform has none to hand
    /// out: the answer is `Error::StaleTransform` until the next refresh.
    pub fn get_world_matrix(&self, id: TransformId) -> (result: Result<&M, Error>)
        ensures
            !self.alive(id.index as int) ==> result == Err::<&M, Error>(Error::MissingReference),
            self.alive(id.index as int) && self.nodes()[id.index as int].is_dirty() ==> result == Err::<
                &M,
                Error,
            >(Error::StaleTransform),
            self.alive(id.index as int) && !self.nodes()[id.index as int].is_dirty() ==> result == Ok::<
                &M,
                Error,
            >(&self.nodes()[id.index as int].matrix_view()),
    {
        if id.index >= self.transforms.len() || self.transforms[id.index].dead {
            Err(Error::MissingReference)
        } else if self.transforms[id.index].dirty {
            Err(Error::StaleTransform)
        } else {
            Ok(&self.transforms[id.index].matrix)
        }
    }

    /// The ids that stand for a list of slots.
    pub open spec fn ids(slots: Seq<usize>) -> Seq<TransformId> {
        Seq::new(slots.len(), |k: int| TransformId { index: slots[k] })
    }

    /// The children of a living transform, from first to last, found by following
    /// the first-child and next-sibling links. Empty where `id` names no living transform.
    #[verifier::spinoff_prover]
    pub fn children(&self, id: TransformId) -> (kids: Vec<TransformId>)
        requires
            self.wf(),
        ensures
            self.alive(id.index as int) ==> kids@ == Self::ids(self.children_of(id.index as int)),
            !self.alive(id.index as int) ==> kids@.len() == 0,
    {
        let mut kids: Vec<TransformId> = Vec::new();
        if id.index >= self.transforms.len() || self.transforms[id.index].dead {
            return kids;
        }
        let ghost c = self.children@[id.index as int];
        assert(self.kids_ok(id.index as int));
        let mut cursor = self.transforms[id.index].first_child;
        while cursor.is_some()
            invariant
                self.wf(),
                id.index < self.transforms@.len(),
                c == self.children@[id.index as int],
                kids@.len() <= c.len(),
                cursor == link(c, kids@.len() as int),
                forall|k: int| 0 <= k < kids@.len() ==> kids@[k].index == c[k],
            decreases c.len() - kids@.len(),
        {
            let child = cursor.unwrap();
            assert(self.kids_ok(id.index as int));
            assert(self.kid_ok(id.index as int, kids@.len() as int));
            kids.push(child);
            cursor = self.transforms[child.index].next_sibling;
        }
        assert(kids@ =~= Self::ids(c));
        kids
    }

    /// What destroying the subtree of `root` does to slot `i`. A transform of the
    /// subtree is dead and has no links left. Any other keeps what it carries, and
    /// each of its links that pointed at `root` now points past it: to the former
    /// next sibling of `root` for a first-child or next-sibling link, to its former
    /// previous sibling for a last-child or previous-sibling link.
    pub open spec fn destroyed_at(&self, before: &SceneTree<V, M>, root: TransformId, i: int) -> bool {
        let a = before.nodes()[i];
        let b = self.nodes()[i];
        let r = before.nodes()[root.index as int];
        &&& b.translation_view() == a.translation_view()
        &&& b.rotation_view() == a.rotation_view()
        &&& b.scale_view() == a.scale_view()
        &&& b.matrix_view() == a.matrix_view()
        &&& b.is_dirty() == a.is_dirty()
        &&& if before.in_subtree(root.index as int, i) {
            &&& b.is_dead()
            &&& b.parent_view().is_none()
            &&& b.first_child_view().is_none()
            &&& b.last_child_view().is_none()
            &&& b.next_sibling_view().is_none()
            &&& b.previous_sibling_view().is_none()
            &&& self.children_of(i) == Seq::<usize>::empty()
        } else {
            &&& b.is_dead() == a.is_dead()
            &&& b.parent_view() == a.parent_view()
            &&& b.first_child_view() == bypass(a.first_child_view(), root, r.next_sibling_view())
            &&& b.last_child_view() == bypass(a.last_child_view(), root, r.previous_sibling_view())
            &&& b.next_sibling_view() == bypass(a.next_sibling_view(), root, r.next_sibling_view())
            &&& b.previous_sibling_view() == bypass(
                a.previous_sibling_view(),
                root,
                r.previous_sibling_view(),
            )
            &&& self.children_of(i) == (if r.parent_view() == Some(TransformId { index: i as usize }) {
                before.children_of(i).remove(before.children_of(i).index_of(root.index))
            } else {
                before.children_of(i)
            })
        }
    }

    /// What `destroy` leaves behind: the subtree of `root` is dead, its slots have
    /// joined the free-list behind the slots that were free before, the lowest
    /// slot first, and the rest of the tree is closed over the gap.
    pub open spec fn destroyed(&self, before: &SceneTree<V, M>, root: TransformId) -> bool {
        let was_free = before.free_slots().len() as int;
        &&& self.nodes().len() == before.nodes().len()
        &&& forall|i: int|
            0 <= i < before.nodes().len() ==> #[trigger] self.destroyed_at(before, root, i)
        &&& was_free <= self.free_slots().len()
        &&& self.free_slots().subrange(0, was_free) == before.free_slots()
        &&& forall|k: int|
            was_free <= k < self.free_slots().len() ==> before.in_subtree(
                root.index as int,
                #[trigger] self.free_slots()[k] as int,
            )
        &&& forall|i: int|
            #[trigger] before.in_subtree(root.index as int, i) ==> self.free_slots().contains(i as usize)
        &&& forall|j: int, k: int|
            was_free <= j < k < self.free_slots().len() ==> #[trigger] self.free_slots()[j]
                < #[trigger] self.free_slots()[k]
    }

    /// Destroys a living transform together with everything below it. Every
    /// destroyed slot joins the free-list, and the parent and the siblings of the
    /// transform are linked past it. Returns false, and changes nothing, where `id`
    /// names no living transform.
    #[verifier::spinoff_prover]
    pub fn destroy(&mut self, id: TransformId) -> (found: bool)
        requires
            old(self).wf(),
        ensures
            final(self).wf(),
            found == old(self).alive(id.index as int),
            !found ==> *final(self) == *old(self),
            found ==> final(self).destroyed(old(self), id),
    {
        if id.index >= self.transforms.len() || self.transforms[id.index].dead {
            return false;
        }
        let ghost before = *self;
        let doomed = self.subtree_marks(id);
        let kept = self.surviving_order(id, &doomed);
        self.detach(id);
        let ghost mid = *self;
        proof {
            before.lemma_detached(&mid, id, doomed@);
        }
        self.kill_marked(Ghost(before), id, &doomed);
        let ghost killed = *self;
        self.order = kept;
        proof {
            let n = before.transforms@.len();
            assert(self.transforms@ == killed.transforms@);
            assert(self.children@ == killed.children@);
            assert forall|x: int| 0 <= x < n implies #[trigger] self.destroyed_at(&before, id, x) by {
                if !doomed@[x] {
                    assert(killed.transforms@[x] == mid.transforms@[x]);
                    assert(killed.children@[x] == mid.children@[x]);
                    assert(mid.destroyed_at(&before, id, x));
                } else {
                    assert(killed.destroyed_at(&before, id, x));
                }
            }
            before.lemma_subtree(id.index as int);
            assert forall|i: int| #[trigger] before.in_subtree(id.index as int, i) implies self.free@.contains(
                i as usize,
            ) by {
                assert(doomed@[i]);
            }
            assert(self.destroyed(&before, id));
            self.lemma_destroy_wf(&before, id);
        }
        true
    }

    /// One flag per slot: whether it lies in the subtree of `id`.
    fn subtree_marks(&self, id: TransformId) -> (doomed: Vec<bool>)
        requires
            self.wf(),
            self.alive(id.index as int),
        ensures
            doomed@.len() == self.transforms@.len(),
            forall|x: int| 0 <= x < doomed@.len() ==> doomed@[x] == self.in_subtree(id.index as int, x),
    {
        let n = self.transforms.len();
        let mut seed: Vec<bool> = Vec::new();
        while seed.len() < n
            invariant
                seed@.len() <= n,
                forall|i: int| 0 <= i < seed@.len() ==> !seed@[i],
            decreases n - seed.len(),
        {
            seed.push(false);
        }
        seed[id.index] = true;
        assert(seed@ =~= self.single_seed(id.index as int));
        self.mark_from(&seed)
    }

    /// The visiting order without the subtree of `id`.
    #[verifier::spinoff_prover]
    fn surviving_order(&self, id: TransformId, doomed: &Vec<bool>) -> (kept: Vec<usize>)
        requires
            self.wf(),
            self.alive(id.index as int),
            doomed@.len() == self.transforms@.len(),
            forall|x: int| 0 <= x < doomed@.len() ==> doomed@[x] == self.in_subtree(id.index as int, x),
        ensures
            kept@.no_duplicates(),
            forall|a: int|
                0 <= a < kept@.len() ==> self.alive(#[trigger] kept@[a] as int) && !self.in_subtree(
                    id.index as int,
                    kept@[a] as int,
                ),
            forall|x: int|
                #[trigger] self.alive(x) && !self.in_subtree(id.index as int, x) ==> kept@.contains(
                    x as usize,
                ),
            forall|a: int|
                0 <= a < kept@.len() ==> match (#[trigger] self.transforms@[kept@[a] as int]).parent {
                    Some(p) => exists|b: int| 0 <= b < a && #[trigger] kept@[b] == p.index,
                    None => true,
                },
    {
        let ghost n = self.transforms@.len();
        let mut kept: Vec<usize> = Vec::new();
        let mut k: usize = 0;
        while k < self.order.len()
            invariant
                0 <= k <= self.order@.len(),
                n == self.transforms@.len(),
                doomed@.len() == n,
                self.wf(),
                self.alive(id.index as int),
                forall|x: int| 0 <= x < n ==> doomed@[x] == self.in_subtree(id.index as int, x),
                kept@.no_duplicates(),
                forall|a: int|
                    0 <= a < kept@.len() ==> 0 <= #[trigger] kept@[a] < n && !doomed@[kept@[a] as int]
                        && self.alive(kept@[a] as int) && exists|j: int|
                        0 <= j < k && #[trigger] self.order@[j] == kept@[a],
                forall|j: int|
                    0 <= j < k && !doomed@[#[trigger] self.order@[j] as int] ==> kept@.contains(
                        self.order@[j],
                    ),
                forall|a: int|
                    0 <= a < kept@.len() ==> match (#[trigger] self.transforms@[kept@[a] as int]).parent {
                        Some(p) => exists|b: int| 0 <= b < a && #[trigger] kept@[b] == p.index,
                        None => true,
                    },
            decreases self.order@.len() - k,
        {
            let slot = self.order[k];
            assert(self.alive(self.order@[k as int] as int));
            if !doomed[slot] {
                proof {
                    assert(!kept@.contains(slot)) by {
                        if kept@.contains(slot) {
                            let a = choose|a: int| 0 <= a < kept@.len() && kept@[a] == slot;
                            let j = choose|j: int| 0 <= j < k && #[trigger] self.order@[j] == kept@[a];
                            assert(self.order@[j] == self.order@[k as int]);
                        }
                    }
                    assert(self.parent_before(k as int));
                    assert(self.above_ok(slot as int));
                    self.lemma_subtree(id.index as int);
                }
                let ghost prior = kept@;
                kept.push(slot);
                proof {
                    assert forall|j: int|
                        0 <= j < k + 1 && !doomed@[#[trigger] self.order@[j] as int]
                        implies kept@.contains(self.order@[j]) by {
                        if j < k {
                            assert(prior.contains(self.order@[j]));
                            let a = choose|a: int| 0 <= a < prior.len() && prior[a] == self.order@[j];
                            assert(kept@[a] == self.order@[j]);
                        } else {
                            assert(kept@[prior.len() as int] == slot);
                        }
                    }
                    assert forall|a: int| 0 <= a < kept@.len() implies match (
                    #[trigger] self.transforms@[kept@[a] as int]).parent {
                        Some(p) => exists|b: int| 0 <= b < a && #[trigger] kept@[b] == p.index,
                        None => true,
                    } by {
                        if a < prior.len() {
                            assert(kept@[a] == prior[a]);
                            match self.transforms@[prior[a] as int].parent {
                                Some(p) => {
                                    let b = choose|b: int| 0 <= b < a && #[trigger] prior[b] == p.index;
                                    assert(kept@[b] == p.index);
                                },
                                None => {},
                            }
                        } else {
                            match self.transforms@[slot as int].parent {
                                Some(p) => {
                                    let j = choose|j: int| 0 <= j < k && #[trigger] self.order@[j] == p.index;
                                    assert(slot != id.index);
                                    assert(!self.in_subtree(id.index as int, p.index as int));
                                    assert(!doomed@[self.order@[j] as int]);
                                    assert(prior.contains(self.order@[j]));
                                    let b = choose|b: int| 0 <= b < prior.len() && prior[b] == p.index;
                                    assert(kept@[b] == p.index);
                                },
                                None => {},
                            }
                        }
                    }
                    assert forall|a: int| 0 <= a < kept@.len() implies 0 <= #[trigger] kept@[a] < n
                        && !doomed@[kept@[a] as int] && self.alive(kept@[a] as int) && exists|j: int|
                        0 <= j < k + 1 && #[trigger] self.order@[j] == kept@[a] by {
                        if a < prior.len() {
                            assert(kept@[a] == prior[a]);
                            let j = choose|j: int| 0 <= j < k && #[trigger] self.order@[j] == prior[a];
                            assert(self.order@[j] == kept@[a]);
                        } else {
                            assert(self.order@[k as int] == kept@[a]);
                        }
                    }
                }
            }
            k += 1;
        }
        proof {
            assert forall|x: int|
                #[trigger] self.alive(x) && !self.in_subtree(id.index as int, x) implies kept@.contains(
                x as usize,
            ) by {
                assert(self.order@.contains(x as usize));
                let j = choose|j: int| 0 <= j < self.order@.len() && self.order@[j] == x as usize;
                assert(!doomed@[self.order@[j] as int]);
            }
        }
        kept
    }

    /// Leads the links of the parent and of the siblings of `id` past it.
    #[verifier::spinoff_prover]
    fn detach(&mut self, id: TransformId)
        requires
            old(self).wf(),
            old(self).alive(id.index as int),
        ensures
            final(self).transforms@.len() == old(self).transforms@.len(),
            final(self).children@.len() == old(self).children@.len(),
            final(self).free@ == old(self).free@,
            final(self).order@ == old(self).order@,
            final(self).depth@ == old(self).depth@,
            forall|x: int|
                0 <= x < old(self).transforms@.len() ==> #[trigger] final(self).transforms@[x] == old(self).detach_step(id.index as int, x),
            forall|x: int|
                0 <= x < old(self).transforms@.len() ==> #[trigger] final(self).children@[x] == (if old(self).transforms@[id.index as int].parent == Some(TransformId { index: x as usize }) {
                    old(self).children@[x].remove(old(self).children@[x].index_of(id.index))
                } else {
                    old(self).children@[x]
                }),
    {
        let parent = self.transforms[id.index].parent;
        let previous = self.transforms[id.index].previous_sibling;
        let next = self.transforms[id.index].next_sibling;
        proof {
            self.lemma_around(id.index as int);
        }
        match previous {
            Some(p) => {
                self.transforms[p.index].next_sibling = next;
            },
            None => {
                match parent {
                    Some(q) => {
                        self.transforms[q.index].first_child = next;
                    },
                    None => {},
                }
            },
        }
        match next {
            Some(x) => {
                self.transforms[x.index].previous_sibling = previous;
            },
            None => {
                match parent {
                    Some(q) => {
                        self.transforms[q.index].last_child = previous;
                    },
                    None => {},
                }
            },
        }
        proof {
            match parent {
                Some(q) => {
                    let c = self.children@[q.index as int];
                    self.children@ = self.children@.update(q.index as int, c.remove(c.index_of(id.index)));
                },
                None => {},
            }
        }
    }

    /// Marks every flagged slot dead, clears its links and hands it to the free-list.
    #[verifier::spinoff_prover]
    fn kill_marked(&mut self, Ghost(before): Ghost<SceneTree<V, M>>, id: TransformId, doomed: &Vec<bool>)
        requires
            before.wf(),
            old(self).transforms@.len() == before.transforms@.len(),
            old(self).children@.len() == before.transforms@.len(),
            doomed@.len() == before.transforms@.len(),
            old(self).free@ == before.free@,
            forall|x: int| 0 <= x < doomed@.len() ==> doomed@[x] == before.in_subtree(id.index as int, x),
            forall|x: int|
                0 <= x < doomed@.len() ==> #[trigger] old(self).transforms@[x].same_payload(
                    &before.transforms@[x],
                ),
        ensures
            final(self).transforms@.len() == before.transforms@.len(),
            final(self).children@.len() == before.transforms@.len(),
            final(self).order@ == old(self).order@,
            final(self).depth@ == old(self).depth@,
            forall|x: int|
                0 <= x < doomed@.len() && !doomed@[x] ==> #[trigger] final(self).transforms@[x] == old(self).transforms@[x] && final(self).children@[x] == old(self).children@[x],
            forall|x: int|
                0 <= x < doomed@.len() && doomed@[x] ==> #[trigger] final(self).destroyed_at(&before, id, x),
            before.free@.len() <= final(self).free@.len(),
            final(self).free@.subrange(0, before.free@.len() as int) == before.free@,
            forall|k: int|
                before.free@.len() <= k < final(self).free@.len() ==> 0 <= #[trigger] final(self).free@[k]
                    < doomed@.len() && doomed@[final(self).free@[k] as int],
            forall|x: int| 0 <= x < doomed@.len() && doomed@[x] ==> final(self).free@.contains(x as usize),
            final(self).free@.no_duplicates(),
            forall|j: int, k: int|
                before.free@.len() <= j < k < final(self).free@.len() ==> #[trigger] final(self).free@[j]
                    < #[trigger] final(self).free@[k],
    {
        let n = self.transforms.len();
        let ghost mid = *self;
        assert(before.wf_free());
        assert(self.free@.subrange(0, before.free@.len() as int) =~= before.free@);
        let mut i: usize = 0;
        while i < n
            invariant
                0 <= i <= n,
                n == before.transforms@.len(),
                self.transforms@.len() == n,
                self.children@.len() == n,
                mid.transforms@.len() == n,
                mid.children@.len() == n,
                doomed@.len() == n,
                before.wf(),
                self.order@ == mid.order@,
                self.depth@ == mid.depth@,
                forall|x: int| 0 <= x < n ==> doomed@[x] == before.in_subtree(id.index as int, x),
                forall|x: int|
                    0 <= x < n && (!doomed@[x] || x >= i) ==> #[trigger] self.transforms@[x]
                        == mid.transforms@[x] && self.children@[x] == mid.children@[x],
                forall|x: int|
                    0 <= x < i && doomed@[x] ==> #[trigger] self.destroyed_at(&before, id, x),
                forall|x: int| 0 <= x < n ==> #[trigger] mid.transforms@[x].same_payload(&before.transforms@[x]),
                before.free@.len() <= self.free@.len(),
                self.free@.subrange(0, before.free@.len() as int) == before.free@,
                forall|k: int|
                    before.free@.len() <= k < self.free@.len() ==> 0 <= #[trigger] self.free@[k] < i
                        && doomed@[self.free@[k] as int],
                forall|x: int| 0 <= x < i && doomed@[x] ==> self.free@.contains(x as usize),
                self.free@.no_duplicates(),
                forall|j: int, k: int|
                    before.free@.len() <= j < k < self.free@.len() ==> #[trigger] self.free@[j]
                        < #[trigger] self.free@[k],
            decreases n - i,
        {
            if doomed[i] {
                let ghost prior = *self;
                let ghost prior_free = self.free@;
                let doomed_one = &mut self.transforms[i];
                doomed_one.bury();
                self.free.push(i);
                proof {
                    self.children@ = self.children@.update(i as int, Seq::empty());
                    assert(!prior_free.contains(i)) by {
                        if prior_free.contains(i) {
                            let k = choose|k: int| 0 <= k < prior_free.len() && prior_free[k] == i;
                            if k < before.free@.len() {
                                assert(before.free@[k] == prior_free.subrange(0, before.free@.len() as int)[k]);
                                assert(before.transforms@[before.free@[k] as int].dead);
                            }
                        }
                    }
                    assert(self.free@.subrange(0, before.free@.len() as int) =~= before.free@) by {
                        assert(prior_free.subrange(0, before.free@.len() as int) == before.free@);
                    }
                    assert(self.free@[self.free@.len() - 1] == i);
                    assert forall|x: int| 0 <= x < i + 1 && doomed@[x] implies self.free@.contains(
                        x as usize,
                    ) by {
                        if x < i {
                            assert(prior_free.contains(x as usize));
                            let k = choose|k: int| 0 <= k < prior_free.len() && prior_free[k] == x as usize;
                            assert(self.free@[k] == x as usize);
                        }
                    }
                    assert forall|x: int| 0 <= x < n && x != i implies self.transforms@[x]
                        == prior.transforms@[x] && self.children@[x] == prior.children@[x] by {}
                    assert forall|x: int| 0 <= x < n && (!doomed@[x] || x >= i + 1) implies #[trigger] self.transforms@[x]
                        == mid.transforms@[x] && self.children@[x] == mid.children@[x] by {
                        assert(prior.transforms@[x] == mid.transforms@[x]);
                    }
                    assert forall|x: int| 0 <= x < i + 1 && doomed@[x] implies #[trigger] self.destroyed_at(
                        &before,
                        id,
                        x,
                    ) by {
                        if x == i {
                            assert(prior.transforms@[x] == mid.transforms@[x]);
                            assert(mid.transforms@[x].same_payload(&before.transforms@[x]));
                            assert(before.in_subtree(id.index as int, x));
                        } else {
                            assert(prior.destroyed_at(&before, id, x));
                        }
                    }
                }
            }
            assert(forall|x: int|
                0 <= x < n && (!doomed@[x] || x >= i + 1) ==> #[trigger] self.transforms@[x]
                    == mid.transforms@[x] && self.children@[x] == mid.children@[x]);
            i += 1;
        }
    }

    /// What stands around a living transform: its parent lists it among its children,
    /// and its siblings are its neighbours in that list.
    #[verifier::spinoff_prover]
    proof fn lemma_around(&self, r: int)
        requires
            self.wf(),
            self.alive(r),
        ensures
            match self.transforms@[r].parent {
                Some(q) => {
                    let c = self.children@[q.index as int];
                    let k = c.index_of(r as usize);
                    &&& self.alive(q.index as int)
                    &&& q.index != r
                    &&& 0 <= k < c.len()
                    &&& c[k] == r
                    &&& self.transforms@[r].previous_sibling == link(c, k - 1)
                    &&& self.transforms@[r].next_sibling == link(c, k + 1)
                    &&& forall|j: int| 0 <= j < c.len() ==> #[trigger] self.kid_ok(q.index as int, j)
                    &&& c.no_duplicates()
                    &&& self.transforms@[q.index as int].first_child == link(c, 0)
                    &&& self.transforms@[q.index as int].last_child == link(c, c.len() - 1)
                },
                None => {
                    &&& self.transforms@[r].previous_sibling.is_none()
                    &&& self.transforms@[r].next_sibling.is_none()
                },
            },
            match self.transforms@[r].previous_sibling {
                Some(p) => self.alive(p.index as int) && p.index != r,
                None => true,
            },
            match self.transforms@[r].next_sibling {
                Some(x) => self.alive(x.index as int) && x.index != r,
                None => true,
            },
    {
        assert(self.above_ok(r));
        match self.transforms@[r].parent {
            Some(q) => {
                let c = self.children@[q.index as int];
                assert(c.contains(r as usize));
                let k = c.index_of(r as usize);
                assert(self.kids_ok(q.index as int));
                assert(self.kid_ok(q.index as int, k));
                if k > 0 {
                    assert(self.kid_ok(q.index as int, k - 1));
                }
                if k + 1 < c.len() {
                    assert(self.kid_ok(q.index as int, k + 1));
                }
            },
            None => {},
        }
    }

    /// The transform in slot `x` once the links around `r` have been led past it.
    spec fn detach_step(&self, r: int, x: int) -> Transform<V, M> {
        let root = self.transforms@[r];
        let a = self.transforms@[x];
        let me = Some(TransformId { index: x as usize });
        Transform {
            translation: a.translation,
            rotation: a.rotation,
            scale: a.scale,
            dirty: a.dirty,
            dead: a.dead,
            matrix: a.matrix,
            parent: a.parent,
            first_child: if root.previous_sibling.is_none() && root.parent == me {
                root.next_sibling
            } else {
                a.first_child
            },
            last_child: if root.next_sibling.is_none() && root.parent == me {
                root.previous_sibling
            } else {
                a.last_child
            },
            next_sibling: if root.previous_sibling == me {
                root.next_sibling
            } else {
                a.next_sibling
            },
            previous_sibling: if root.next_sibling == me {
                root.previous_sibling
            } else {
                a.previous_sibling
            },
        }
    }

    /// What leading the links around `root` past it does to another slot `i`: the
    /// transform keeps what it carries and its parent, and each of its links that
    /// pointed at `root` now points past it; the parent of `root` has one child less.
    pub open spec fn detached_at(&self, before: &SceneTree<V, M>, root: TransformId, i: int) -> bool {
        let a = before.nodes()[i];
        let b = self.nodes()[i];
        let r = before.nodes()[root.index as int];
        &&& b.same_payload(&a)
        &&& b.parent_view() == a.parent_view()
        &&& b.first_child_view() == bypass(a.first_child_view(), root, r.next_sibling_view())
        &&& b.last_child_view() == bypass(a.last_child_view(), root, r.previous_sibling_view())
        &&& b.next_sibling_view() == bypass(a.next_sibling_view(), root, r.next_sibling_view())
        &&& b.previous_sibling_view() == bypass(a.previous_sibling_view(), root, r.previous_sibling_view())
        &&& self.children_of(i) == (if r.parent_view() == Some(TransformId { index: i as usize }) {
            before.children_of(i).remove(before.children_of(i).index_of(root.index))
        } else {
            before.children_of(i)
        })
    }

    /// Leading the links around `root` past it touches no link but those that pointed at `root`.
    #[verifier::spinoff_prover]
    proof fn lemma_detached_all(&self, mid: &SceneTree<V, M>, root: TransformId)
        requires
            self.wf(),
            self.alive(root.index as int),
            mid.transforms@.len() == self.transforms@.len(),
            forall|x: int|
                0 <= x < self.transforms@.len() ==> #[trigger] mid.transforms@[x] == self.detach_step(
                    root.index as int,
                    x,
                ),
            mid.children@.len() == self.children@.len(),
            forall|x: int|
                0 <= x < self.transforms@.len() ==> #[trigger] mid.children@[x] == (if self.transforms@[root.index as int].parent
                    == Some(TransformId { index: x as usize }) {
                    self.children@[x].remove(self.children@[x].index_of(root.index))
                } else {
                    self.children@[x]
                }),
        ensures
            forall|x: int|
                0 <= x < self.transforms@.len() && x != root.index ==> #[trigger] mid.detached_at(self, root, x),
    {
        let r = root.index as int;
        let node = self.transforms@[r];
        self.lemma_around(r);
        assert forall|x: int| 0 <= x < self.transforms@.len() && x != r implies #[trigger] mid.detached_at(
            self,
            root,
            x,
        ) by {
            let a = self.transforms@[x];
            assert(mid.transforms@[x] == self.detach_step(r, x));
            assert(self.kids_ok(x));
            assert(self.dead_ok(x));
            // a first or last child link at the root of the subtree
            if a.first_child == Some(root) {
                assert(self.kid_ok(x, 0));
            }
            if a.last_child == Some(root) {
                assert(self.kid_ok(x, self.children@[x].len() - 1));
            }
            // a sibling link at the root of the subtree
            if self.alive(x) {
                assert(self.above_ok(x));
                match a.parent {
                    Some(q) => {
                        let c = self.children@[q.index as int];
                        let j = c.index_of(x as usize);
                        assert(c.contains(x as usize));
                        assert(self.kids_ok(q.index as int));
                        assert(self.kid_ok(q.index as int, j));
                        if a.next_sibling == Some(root) {
                            assert(self.kid_ok(q.index as int, j + 1));
                        }
                        if a.previous_sibling == Some(root) {
                            assert(self.kid_ok(q.index as int, j - 1));
                        }
                    },
                    None => {},
                }
            }
            match node.parent {
                Some(q) => {
                    let c = self.children@[q.index as int];
                    let k = c.index_of(r as usize);
                    if k > 0 {
                        assert(self.kid_ok(q.index as int, k - 1));
                    }
                    if k + 1 < c.len() {
                        assert(self.kid_ok(q.index as int, k + 1));
                    }
                },
                None => {},
            }
        }
    }

    /// Leading the links around `root` past it gives every transform outside its
    /// subtree the links that `destroyed_at` describes.
    #[verifier::spinoff_prover]
    proof fn lemma_detached(&self, mid: &SceneTree<V, M>, root: TransformId, doomed: Seq<bool>)
        requires
            self.wf(),
            self.alive(root.index as int),
            doomed.len() == self.transforms@.len(),
            forall|x: int| 0 <= x < doomed.len() ==> doomed[x] == self.in_subtree(root.index as int, x),
            mid.transforms@.len() == self.transforms@.len(),
            forall|x: int|
                0 <= x < self.transforms@.len() ==> #[trigger] mid.transforms@[x] == self.detach_step(
                    root.index as int,
                    x,
                ),
            mid.children@.len() == self.children@.len(),
            forall|x: int|
                0 <= x < self.transforms@.len() ==> #[trigger] mid.children@[x] == (if self.transforms@[root.index as int].parent
                    == Some(TransformId { index: x as usize }) {
                    self.children@[x].remove(self.children@[x].index_of(root.index))
                } else {
                    self.children@[x]
                }),
        ensures
            forall|x: int|
                0 <= x < self.transforms@.len() && !doomed[x] ==> #[trigger] mid.destroyed_at(self, root, x),
            forall|x: int|
                0 <= x < self.transforms@.len() ==> #[trigger] mid.transforms@[x].same_payload(
                    &self.transforms@[x],
                ),
    {
        let r = root.index as int;
        self.lemma_reaches_step(self.single_seed(r), r);
        assert(self.in_subtree(r, r));
        self.lemma_detached_all(mid, root);
        assert forall|x: int| 0 <= x < self.transforms@.len() && !doomed[x] implies #[trigger] mid.destroyed_at(
            self,
            root,
            x,
        ) by {
            assert(x != r);
            assert(mid.detached_at(self, root, x));
        }
        assert forall|x: int| 0 <= x < self.transforms@.len() implies #[trigger] mid.transforms@[x].same_payload(
            &self.transforms@[x],
        ) by {
            assert(mid.transforms@[x] == self.detach_step(r, x));
        }
    }

    /// Outside the root of a subtree, a living transform lies in the subtree exactly
    /// when its parent does; nothing dead lies in it.
    #[verifier::spinoff_prover]
    proof fn lemma_subtree(&self, r: int)
        requires
            self.wf(),
            self.alive(r),
        ensures
            self.in_subtree(r, r),
            forall|x: int| #[trigger] self.in_subtree(r, x) ==> self.alive(x),
            forall|x: int|
                self.alive(x) && x != r ==> (#[trigger] self.in_subtree(r, x) <==> match self.transforms@[x].parent {
                    Some(p) => self.in_subtree(r, p.index as int),
                    None => false,
                }),
    {
        let seed = self.single_seed(r);
        self.lemma_reaches_step(seed, r);
        assert forall|x: int| self.alive(x) && x != r implies (#[trigger] self.in_subtree(r, x)
            <==> match self.transforms@[x].parent {
            Some(p) => self.in_subtree(r, p.index as int),
            None => false,
        }) by {
            self.lemma_reaches_step(seed, x);
            assert(self.above_ok(x));
        }
    }

    /// After `destroy` the free-list holds exactly the dead slots.
    #[verifier::spinoff_prover]
    proof fn lemma_destroy_free(&self, before: &SceneTree<V, M>, root: TransformId)
        requires
            before.wf(),
            before.alive(root.index as int),
            self.destroyed(before, root),
            self.free@.no_duplicates(),
        ensures
            self.wf_free(),
    {
        let r = root.index as int;
        let was_free = before.free@.len() as int;
        before.lemma_subtree(r);
        assert forall|k: int| 0 <= k < self.free@.len() implies 0 <= #[trigger] self.free@[k]
            < self.transforms@.len() && self.transforms@[self.free@[k] as int].dead by {
            let x = self.free@[k] as int;
            if k < was_free {
                assert(self.free@.subrange(0, was_free)[k] == before.free@[k]);
                assert(before.transforms@[before.free@[k] as int].dead);
                assert(self.destroyed_at(before, root, x));
            } else {
                assert(before.in_subtree(r, x));
                assert(before.alive(x));
                assert(self.destroyed_at(before, root, x));
            }
        }
        assert forall|i: int|
            0 <= i < self.transforms@.len() && (#[trigger] self.transforms@[i]).dead
            implies self.free@.contains(i as usize) by {
            assert(self.destroyed_at(before, root, i));
            if before.in_subtree(r, i) {
            } else {
                assert(before.transforms@[i].dead);
                assert(before.free@.contains(i as usize));
                let k = choose|k: int| 0 <= k < before.free@.len() && before.free@[k] == i as usize;
                assert(self.free@.subrange(0, was_free)[k] == before.free@[k]);
                assert(self.free@[k] == i as usize);
            }
        }
    }

    /// After `destroy` the visiting order holds exactly the living transforms, parents first.
    #[verifier::spinoff_prover]
    proof fn lemma_destroy_order(&self, before: &SceneTree<V, M>, root: TransformId)
        requires
            before.wf(),
            before.alive(root.index as int),
            self.destroyed(before, root),
            self.order@.no_duplicates(),
            forall|a: int|
                0 <= a < self.order@.len() ==> before.alive(#[trigger] self.order@[a] as int)
                    && !before.in_subtree(root.index as int, self.order@[a] as int),
            forall|x: int|
                #[trigger] before.alive(x) && !before.in_subtree(root.index as int, x)
                    ==> self.order@.contains(x as usize),
            forall|a: int|
                0 <= a < self.order@.len() ==> match (#[trigger] before.transforms@[self.order@[a] as int]).parent {
                    Some(p) => exists|b: int| 0 <= b < a && #[trigger] self.order@[b] == p.index,
                    None => true,
                },
        ensures
            self.wf_order(),
    {
        let r = root.index as int;
        assert forall|k: int| 0 <= k < self.order@.len() implies self.alive(
            #[trigger] self.order@[k] as int,
        ) by {
            let x = self.order@[k] as int;
            assert(before.alive(x));
            assert(self.destroyed_at(before, root, x));
        }
        assert forall|i: int| #[trigger] self.alive(i) implies self.order@.contains(i as usize) by {
            assert(self.destroyed_at(before, root, i));
            assert(before.alive(i));
        }
        assert forall|k: int| 0 <= k < self.order@.len() implies #[trigger] self.parent_before(k) by {
            let x = self.order@[k] as int;
            assert(before.alive(x));
            assert(self.destroyed_at(before, root, x));
            assert(before.transforms@[x].parent == self.transforms@[x].parent);
        }
    }

    /// After `destroy` every living transform is listed by its living parent.
    #[verifier::spinoff_prover]
    proof fn lemma_destroy_above(&self, before: &SceneTree<V, M>, root: TransformId)
        requires
            before.wf(),
            before.alive(root.index as int),
            self.destroyed(before, root),
            self.depth@ == before.depth@,
            self.children@.len() == before.children@.len(),
        ensures
            forall|i: int| #[trigger] self.alive(i) ==> self.above_ok(i),
            forall|i: int| 0 <= i < self.transforms@.len() ==> #[trigger] self.dead_ok(i),
    {
        let r = root.index as int;
        let node = before.transforms@[r];
        before.lemma_around(r);
        before.lemma_subtree(r);
        assert forall|i: int| #[trigger] self.alive(i) implies self.above_ok(i) by {
            assert(self.destroyed_at(before, root, i));
            assert(before.alive(i));
            assert(i != r);
            assert(before.above_ok(i));
            assert(!before.in_subtree(r, i));
            match before.transforms@[i].parent {
                Some(p) => {
                    let c = before.children@[p.index as int];
                    assert(self.destroyed_at(before, root, p.index as int));
                    assert(!before.in_subtree(r, p.index as int));
                    let j = choose|j: int| 0 <= j < c.len() && c[j] == i as usize;
                    if node.parent == Some(p) {
                        let k = c.index_of(r as usize);
                        let now = c.remove(k);
                        if j < k {
                            assert(now[j] == i as usize);
                        } else {
                            assert(now[j - 1] == i as usize);
                        }
                    }
                },
                None => {},
            }
        }
        assert forall|i: int| 0 <= i < self.transforms@.len() implies #[trigger] self.dead_ok(i) by {
            assert(self.destroyed_at(before, root, i));
            assert(before.dead_ok(i));
        }
    }

    /// After `destroy` the children of the former parent of `root` are linked past the gap.
    #[verifier::spinoff_prover]
    proof fn lemma_destroy_kids_of_parent(&self, before: &SceneTree<V, M>, root: TransformId, p: int)
        requires
            before.wf(),
            before.alive(root.index as int),
            self.destroyed(before, root),
            self.children@.len() == before.children@.len(),
            before.transforms@[root.index as int].parent == Some(TransformId { index: p as usize }),
            0 <= p < before.transforms@.len(),
        ensures
            self.kids_ok(p),
    {
        let r = root.index as int;
        let node = before.transforms@[r];
        before.lemma_around(r);
        before.lemma_subtree(r);
        assert(self.destroyed_at(before, root, p));
        assert(before.kids_ok(p));
        assert(before.above_ok(r));
        let c = before.children@[p];
        let k = c.index_of(r as usize);
        let now = c.remove(k);
        assert(!before.in_subtree(r, p)) by {
            // the parent lies above the root: its depth is smaller than any in the subtree
            before.lemma_subtree_is_below(r, p);
        }
        assert(self.children@[p] == now);
        assert(now.no_duplicates()) by {
            assert forall|a: int, b: int| 0 <= a < now.len() && 0 <= b < now.len() && a != b implies now[a]
                != now[b] by {
                let a0 = if a < k { a } else { a + 1 };
                let b0 = if b < k { b } else { b + 1 };
                assert(now[a] == c[a0]);
                assert(now[b] == c[b0]);
            }
        }
        if k > 0 {
            assert(before.kid_ok(p, k - 1));
        }
        if k + 1 < c.len() {
            assert(before.kid_ok(p, k + 1));
        }
        assert(before.kid_ok(p, 0));
        assert(before.kid_ok(p, c.len() - 1));
        assert(self.transforms@[p].first_child == link(now, 0));
        assert(self.transforms@[p].last_child == link(now, now.len() - 1));
        assert forall|j: int| 0 <= j < now.len() implies #[trigger] self.kid_ok(p, j) by {
            let j0 = if j < k { j } else { j + 1 };
            assert(now[j] == c[j0]);
            assert(c[j0] != r as usize);
            assert(before.kid_ok(p, j0));
            let x = c[j0] as int;
            assert(self.destroyed_at(before, root, x));
            assert(!before.in_subtree(r, x));
            assert(link(now, j - 1) == bypass(link(c, j0 - 1), root, link(c, k - 1)));
            assert(link(now, j + 1) == bypass(link(c, j0 + 1), root, link(c, k + 1)));
        }
    }

    /// Whatever lies in the subtree of `r` lies at least as deep as `r`.
    proof fn lemma_subtree_depth(&self, r: int, x: int)
        requires
            self.wf(),
            self.alive(r),
            self.in_subtree(r, x),
        ensures
            self.depth@[x] >= self.depth@[r],
        decreases self.depth@[x],
    {
        if x != r {
            self.lemma_reaches_step(self.single_seed(r), x);
            assert(self.above_ok(x));
            match self.transforms@[x].parent {
                Some(p) => {
                    self.lemma_subtree_depth(r, p.index as int);
                },
                None => {},
            }
        }
    }

    /// The parent of `r` does not lie in the subtree of `r`.
    proof fn lemma_subtree_is_below(&self, r: int, p: int)
        requires
            self.wf(),
            self.alive(r),
            self.transforms@[r].parent == Some(TransformId { index: p as usize }),
            0 <= p < self.transforms@.len(),
        ensures
            !self.in_subtree(r, p),
    {
        assert(self.above_ok(r));
        if self.in_subtree(r, p) {
            self.lemma_subtree_depth(r, p);
        }
    }

    /// After `destroy` the children of any slot but the former parent of `root` are as before.
    #[verifier::spinoff_prover]
    proof fn lemma_destroy_kids_elsewhere(&self, before: &SceneTree<V, M>, root: TransformId, p: int)
        requires
            before.wf(),
            before.alive(root.index as int),
            self.destroyed(before, root),
            self.children@.len() == before.children@.len(),
            before.transforms@[root.index as int].parent != Some(TransformId { index: p as usize }),
            0 <= p < before.transforms@.len(),
        ensures
            self.kids_ok(p),
    {
        let r = root.index as int;
        let node = before.transforms@[r];
        before.lemma_around(r);
        before.lemma_subtree(r);
        assert(self.destroyed_at(before, root, p));
        assert(before.kids_ok(p));
        assert(before.dead_ok(p));
        let c = before.children@[p];
        if before.in_subtree(r, p) {
        } else {
            assert(self.children@[p] == c);
            assert forall|j: int| 0 <= j < c.len() implies #[trigger] self.kid_ok(p, j) by {
                assert(before.kid_ok(p, j));
                let x = c[j] as int;
                assert(x != r);
                assert(self.destroyed_at(before, root, x));
                assert(!before.in_subtree(r, x));
                if j > 0 {
                    assert(before.kid_ok(p, j - 1));
                }
                if j + 1 < c.len() {
                    assert(before.kid_ok(p, j + 1));
                }
            }
            if c.len() > 0 {
                assert(before.kid_ok(p, 0));
                assert(before.kid_ok(p, c.len() - 1));
            }
        }
    }

    /// The state that `destroy` builds is well formed.
    #[verifier::spinoff_prover]
    proof fn lemma_destroy_wf(&self, before: &SceneTree<V, M>, root: TransformId)
        requires
            before.wf(),
            before.alive(root.index as int),
            self.destroyed(before, root),
            self.free@.no_duplicates(),
            self.depth@ == before.depth@,
            self.children@.len() == before.children@.len(),
            self.order@.no_duplicates(),
            forall|a: int|
                0 <= a < self.order@.len() ==> before.alive(#[trigger] self.order@[a] as int)
                    && !before.in_subtree(root.index as int, self.order@[a] as int),
            forall|x: int|
                #[trigger] before.alive(x) && !before.in_subtree(root.index as int, x)
                    ==> self.order@.contains(x as usize),
            forall|a: int|
                0 <= a < self.order@.len() ==> match (#[trigger] before.transforms@[self.order@[a] as int]).parent {
                    Some(p) => exists|b: int| 0 <= b < a && #[trigger] self.order@[b] == p.index,
                    None => true,
                },
        ensures
            self.wf(),
    {
        self.lemma_destroy_free(before, root);
        self.lemma_destroy_order(before, root);
        self.lemma_destroy_above(before, root);
        assert forall|p: int| 0 <= p < self.transforms@.len() implies #[trigger] self.kids_ok(p) by {
            if before.transforms@[root.index as int].parent == Some(TransformId { index: p as usize }) {
                self.lemma_destroy_kids_of_parent(before, root, p);
            } else {
                self.lemma_destroy_kids_elsewhere(before, root, p);
            }
        }
    }

    /// Touching the local values of `n` adds the subtree of `n`, and nothing else, to
    /// the transforms that the next refresh recomputes.
    #[verifier::spinoff_prover]
    pub proof fn lemma_touch_spreads_down(&self, before: &SceneTree<V, M>, n: TransformId, i: int)
        requires
            before.wf(),
            self.wf(),
            before.alive(n.index as int),
            self.touched(before, n.index as int),
        ensures
            self.needs_refresh(i) == (before.needs_refresh(i) || before.in_subtree(n.index as int, i)),
        decreases before.depth_of(i),
    {
        if before.alive(i) {
            assert(self.alive(i));
            self.lemma_reaches_step(self.dirty_seed(), i);
            before.lemma_reaches_step(before.dirty_seed(), i);
            before.lemma_reaches_step(before.single_seed(n.index as int), i);
            assert(before.above_ok(i));
            match before.nodes()[i].parent_view() {
                Some(p) => {
                    assert(self.nodes()[p.index as int].is_dead() == before.nodes()[p.index as int].is_dead());
                    self.lemma_touch_spreads_down(before, n, p.index as int);
                },
                None => {},
            }
        } else {
            if 0 <= i < before.nodes().len() {
                assert(self.nodes()[i].is_dead());
            }
        }
    }

    /// Dirty propagation. Set a local value of the living transform `n`, then run one
    /// graph pass. Afterwards `n` and every transform below it is clean and holds a
    /// world matrix composed from its parent's world matrix and its own local values,
    /// those of `n` being the new ones. A transform outside the subtree of `n` that
    /// was not waiting for a refresh of its own keeps its world matrix; the
    /// transforms above `n` are such transforms.
    #[verifier::spinoff_prover]
    pub proof fn lemma_dirty_propagation<F: Fn(Option<&M>, &V, &V, &V) -> M>(
        before: &SceneTree<V, M>,
        n: TransformId,
        touched: &SceneTree<V, M>,
        after: &SceneTree<V, M>,
        compose: &F,
    )
        requires
            before.wf(),
            touched.wf(),
            before.alive(n.index as int),
            touched.touched(before, n.index as int),
            after.refreshed(touched, compose),
        ensures
            forall|i: int| #[trigger]
                before.in_subtree(n.index as int, i) ==> {
                    &&& after.alive(i)
                    &&& !after.nodes()[i].is_dirty()
                    &&& after.nodes()[i].translation_view() == touched.nodes()[i].translation_view()
                    &&& after.nodes()[i].rotation_view() == touched.nodes()[i].rotation_view()
                    &&& after.nodes()[i].scale_view() == touched.nodes()[i].scale_view()
                    &&& composed(compose, after.parent_world(i), &after.nodes()[i], after.nodes()[i].matrix_view())
                },
            forall|i: int|
                0 <= i < before.nodes().len() && !before.in_subtree(n.index as int, i)
                    && !before.needs_refresh(i) ==> (#[trigger] after.nodes()[i]).matrix_view()
                    == before.nodes()[i].matrix_view(),
            forall|a: int|
                before.alive(a) && a != n.index && #[trigger] before.in_subtree(a, n.index as int)
                    && !before.needs_refresh(a) ==> !before.in_subtree(n.index as int, a)
                    && after.nodes()[a].matrix_view() == before.nodes()[a].matrix_view(),
    {
        assert forall|a: int|
            before.alive(a) && a != n.index && #[trigger] before.in_subtree(a, n.index as int)
                && !before.needs_refresh(a) implies !before.in_subtree(n.index as int, a)
            && after.nodes()[a].matrix_view() == before.nodes()[a].matrix_view() by {
            before.lemma_subtree_is_one_way(a, n.index as int);
            touched.lemma_touch_spreads_down(before, n, a);
            assert(after.refreshed_at(touched, compose, a));
        }
        assert forall|i: int| #[trigger] before.in_subtree(n.index as int, i) implies {
            &&& after.alive(i)
            &&& !after.nodes()[i].is_dirty()
            &&& after.nodes()[i].translation_view() == touched.nodes()[i].translation_view()
            &&& after.nodes()[i].rotation_view() == touched.nodes()[i].rotation_view()
            &&& after.nodes()[i].scale_view() == touched.nodes()[i].scale_view()
            &&& composed(compose, after.parent_world(i), &after.nodes()[i], after.nodes()[i].matrix_view())
        } by {
            touched.lemma_touch_spreads_down(before, n, i);
            assert(after.refreshed_at(touched, compose, i));
        }
        assert forall|i: int|
            0 <= i < before.nodes().len() && !before.in_subtree(n.index as int, i) && !before.needs_refresh(
                i,
            ) implies (#[trigger] after.nodes()[i]).matrix_view() == before.nodes()[i].matrix_view() by {
            touched.lemma_touch_spreads_down(before, n, i);
            assert(after.refreshed_at(touched, compose, i));
            before.lemma_reaches_step(before.single_seed(n.index as int), n.index as int);
            assert(i != n.index);
        }
    }

    /// A refresh leaves nothing to refresh: a second pass right after the first
    /// recomputes no transform.
    pub proof fn lemma_refresh_settles<F: Fn(Option<&M>, &V, &V, &V) -> M>(
        before: &SceneTree<V, M>,
        after: &SceneTree<V, M>,
        compose: &F,
        i: int,
    )
        requires
            before.wf(),
            after.wf(),
            after.refreshed(before, compose),
        ensures
            !after.needs_refresh(i),
        decreases after.depth_of(i),
    {
        if after.alive(i) {
            assert(after.refreshed_at(before, compose, i));
            before.lemma_reaches_step(before.dirty_seed(), i);
            after.lemma_reaches_step(after.dirty_seed(), i);
            assert(after.above_ok(i));
            match after.nodes()[i].parent_view() {
                Some(p) => {
                    Self::lemma_refresh_settles(before, after, compose, p.index as int);
                },
                None => {},
            }
        }
    }

    /// The free-list of a well-formed tree holds every dead slot once and nothing
    /// else: a free slot holds no living transform.
    pub proof fn lemma_free_slots_are_the_dead(&self)
        requires
            self.wf(),
        ensures
            self.free_slots().no_duplicates(),
            forall|k: int|
                0 <= k < self.free_slots().len() ==> 0 <= #[trigger] self.free_slots()[k] < self.nodes().len()
                    && !self.alive(self.free_slots()[k] as int),
            forall|i: int| 0 <= i < self.nodes().len() && !self.alive(i) ==> self.free_slots().contains(i as usize),
    {
        assert(self.wf_free());
        assert forall|i: int| 0 <= i < self.nodes().len() && !self.alive(i) implies self.free_slots().contains(
            i as usize,
        ) by {
            assert(self.transforms@[i].dead);
        }
    }

    /// A transform below another lies deeper than it.
    proof fn lemma_below_is_deeper(&self, r: int, x: int)
        requires
            self.wf(),
            self.alive(r),
            self.in_subtree(r, x),
            x != r,
        ensures
            self.depth@[x] > self.depth@[r],
    {
        self.lemma_reaches_step(self.single_seed(r), x);
        assert(self.above_ok(x));
        match self.transforms@[x].parent {
            Some(p) => {
                self.lemma_subtree_depth(r, p.index as int);
            },
            None => {},
        }
    }

    /// Subtrees go one way: a transform that lies below another does not have
    /// that other one below it. So no transform above `n` lies in the subtree of `n`.
    pub proof fn lemma_subtree_is_one_way(&self, a: int, n: int)
        requires
            self.wf(),
            self.alive(a),
            self.in_subtree(a, n),
            a != n,
        ensures
            self.alive(n),
            !self.in_subtree(n, a),
    {
        self.lemma_below_is_deeper(a, n);
        if self.in_subtree(n, a) {
            self.lemma_below_is_deeper(n, a);
        }
    }

    /// The parent of a living transform is alive, lists the transform among its
    /// children, has it in its subtree and lies outside the subtree of the transform.
    pub proof fn lemma_parent_is_above(&self, i: int)
        requires
            self.wf(),
            self.alive(i),
            self.nodes()[i].parent_view().is_some(),
        ensures
            self.alive(self.nodes()[i].parent_view().unwrap().index as int),
            self.nodes()[i].parent_view().unwrap().index != i,
            self.children_of(self.nodes()[i].parent_view().unwrap().index as int).contains(i as usize),
            self.in_subtree(self.nodes()[i].parent_view().unwrap().index as int, i),
            !self.in_subtree(i, self.nodes()[i].parent_view().unwrap().index as int),
    {
        let p = self.transforms@[i].parent.unwrap().index as int;
        assert(self.above_ok(i));
        self.lemma_subtree_is_below(i, p);
        self.lemma_subtree(p);
        self.lemma_reaches_step(self.single_seed(p), i);
    }

    /// Whether the transform at position `k` among the children of `p` is alive,
    /// has `p` for its parent and its neighbours in the list for its siblings.
    pub open spec fn child_linked(&self, p: int, k: int) -> bool {
        let c = self.children_of(p);
        let n = self.nodes()[c[k] as int];
        &&& self.alive(c[k] as int)
        &&& n.parent_view() == Some(TransformId { index: p as usize })
        &&& n.previous_sibling_view() == link(c, k - 1)
        &&& n.next_sibling_view() == link(c, k + 1)
    }

    /// The links of a transform are its list of children: no child occurs twice,
    /// the first and the last child are the ends of the list, and every child is
    /// alive and linked to its neighbours in the list. A dead transform has no children.
    pub proof fn lemma_children_are_linked(&self, p: int)
        requires
            self.wf(),
            0 <= p < self.nodes().len(),
        ensures
            self.children_of(p).no_duplicates(),
            self.nodes()[p].first_child_view() == link(self.children_of(p), 0),
            self.nodes()[p].last_child_view() == link(self.children_of(p), self.children_of(p).len() - 1),
            forall|k: int| 0 <= k < self.children_of(p).len() ==> #[trigger] self.child_linked(p, k),
            !self.alive(p) ==> self.children_of(p).len() == 0,
    {
        assert(self.kids_ok(p));
        assert(self.dead_ok(p));
        assert forall|k: int| 0 <= k < self.children_of(p).len() implies #[trigger] self.child_linked(p, k) by {
            assert(self.kid_ok(p, k));
        }
    }

    /// Whether the sibling links of the living transform `i` agree in both
    /// directions with those of its neighbours and with the ends of its parent's
    /// list of children, and every link of `i` names a living transform.
    pub open spec fn links_agree(&self, i: int) -> bool {
        let n = self.nodes()[i];
        let me = Some(TransformId { index: i as usize });
        &&& match n.parent_view() {
            Some(p) => {
                &&& self.alive(p.index as int)
                &&& n.previous_sibling_view().is_none() ==> self.nodes()[p.index as int].first_child_view() == me
                &&& n.next_sibling_view().is_none() ==> self.nodes()[p.index as int].last_child_view() == me
            },
            None => n.previous_sibling_view().is_none() && n.next_sibling_view().is_none(),
        }
        &&& match n.next_sibling_view() {
            Some(q) => {
                &&& self.alive(q.index as int)
                &&& q.index != i
                &&& self.nodes()[q.index as int].previous_sibling_view() == me
                &&& self.nodes()[q.index as int].parent_view() == n.parent_view()
            },
            None => true,
        }
        &&& match n.previous_sibling_view() {
            Some(q) => {
                &&& self.alive(q.index as int)
                &&& q.index != i
                &&& self.nodes()[q.index as int].next_sibling_view() == me
                &&& self.nodes()[q.index as int].parent_view() == n.parent_view()
            },
            None => true,
        }
        &&& match n.first_child_view() {
            Some(c) => {
                &&& self.alive(c.index as int)
                &&& self.nodes()[c.index as int].parent_view() == me
                &&& self.nodes()[c.index as int].previous_sibling_view().is_none()
            },
            None => n.last_child_view().is_none(),
        }
        &&& match n.last_child_view() {
            Some(c) => {
                &&& self.alive(c.index as int)
                &&& self.nodes()[c.index as int].parent_view() == me
                &&& self.nodes()[c.index as int].next_sibling_view().is_none()
            },
            None => n.first_child_view().is_none(),
        }
    }

    /// In a well-formed tree the links of every living transform agree, and none
    /// of them names a dead transform.
    #[verifier::spinoff_prover]
    pub proof fn lemma_links_agree(&self, i: int)
        requires
            self.wf(),
            self.alive(i),
        ensures
            self.links_agree(i),
    {
        self.lemma_around(i);
        assert(self.kids_ok(i));
        let c = self.children@[i];
        if c.len() > 0 {
            assert(self.kid_ok(i, 0));
            assert(self.kid_ok(i, c.len() - 1));
        }
        match self.transforms@[i].parent {
            Some(q) => {
                let d = self.children@[q.index as int];
                let k = d.index_of(i as usize);
                if k > 0 {
                    assert(self.kid_ok(q.index as int, k - 1));
                }
                if k + 1 < d.len() {
                    assert(self.kid_ok(q.index as int, k + 1));
                }
            },
            None => {},
        }
    }

    /// Destroy cascades. After the living transform `root` was destroyed, every
    /// transform of its subtree is dead and its slot is free, and every other
    /// transform that was alive still is. The former siblings of `root` point at
    /// each other, and where `root` was the first or the last child, its parent
    /// points at the sibling that took its place, or at none. The links of every
    /// living transform agree again, so none of them names a destroyed transform.
    #[verifier::spinoff_prover]
    pub proof fn lemma_destroy_cascades(before: &SceneTree<V, M>, root: TransformId, after: &SceneTree<V, M>)
        requires
            before.wf(),
            after.wf(),
            before.alive(root.index as int),
            after.destroyed(before, root),
        ensures
            forall|i: int| #[trigger]
                before.in_subtree(root.index as int, i) ==> !after.alive(i) && after.free_slots().contains(i as usize),
            forall|i: int| before.alive(i) && !before.in_subtree(root.index as int, i) ==> #[trigger] after.alive(i),
            forall|i: int| #[trigger] after.alive(i) ==> after.links_agree(i),
            match before.nodes()[root.index as int].previous_sibling_view() {
                Some(p) => after.alive(p.index as int) && after.nodes()[p.index as int].next_sibling_view()
                    == before.nodes()[root.index as int].next_sibling_view(),
                None => match before.nodes()[root.index as int].parent_view() {
                    Some(q) => after.alive(q.index as int) && after.nodes()[q.index as int].first_child_view()
                        == before.nodes()[root.index as int].next_sibling_view(),
                    None => true,
                },
            },
            match before.nodes()[root.index as int].next_sibling_view() {
                Some(x) => after.alive(x.index as int) && after.nodes()[x.index as int].previous_sibling_view()
                    == before.nodes()[root.index as int].previous_sibling_view(),
                None => match before.nodes()[root.index as int].parent_view() {
                    Some(q) => after.alive(q.index as int) && after.nodes()[q.index as int].last_child_view()
                        == before.nodes()[root.index as int].previous_sibling_view(),
                    None => true,
                },
            },
    {
        let r = root.index as int;
        let me = before.nodes()[r];
        before.lemma_subtree(r);
        before.lemma_around(r);
        before.lemma_links_agree(r);
        assert forall|i: int| #[trigger] before.in_subtree(r, i) implies !after.alive(i)
            && after.free_slots().contains(i as usize) by {
            assert(after.destroyed_at(before, root, i));
        }
        assert forall|i: int| before.alive(i) && !before.in_subtree(r, i) implies #[trigger] after.alive(i) by {
            assert(after.destroyed_at(before, root, i));
        }
        assert forall|i: int| #[trigger] after.alive(i) implies after.links_agree(i) by {
            after.lemma_links_agree(i);
        }
        match me.parent_view() {
            Some(q) => {
                before.lemma_subtree_is_below(r, q.index as int);
                assert(after.destroyed_at(before, root, q.index as int));
            },
            None => {},
        }
        match me.previous_sibling_view() {
            Some(p) => {
                before.lemma_outside_sibling(r, p.index as int);
                assert(after.destroyed_at(before, root, p.index as int));
            },
            None => {},
        }
        match me.next_sibling_view() {
            Some(x) => {
                before.lemma_outside_sibling(r, x.index as int);
                assert(after.destroyed_at(before, root, x.index as int));
            },
            None => {},
        }
    }

    /// A living transform with the same parent as `r` that is not `r` lies
    /// outside the subtree of `r`.
    proof fn lemma_outside_sibling(&self, r: int, s: int)
        requires
            self.wf(),
            self.alive(r),
            self.alive(s),
            s != r,
            self.transforms@[s].parent == self.transforms@[r].parent,
        ensures
            !self.in_subtree(r, s),
    {
        self.lemma_subtree(r);
        match self.transforms@[r].parent {
            Some(q) => {
                assert(self.above_ok(r));
                self.lemma_subtree_is_below(r, q.index as int);
            },
            None => {},
        }
    }

    /// Freed slots are taken again. The transform created right after a living
    /// transform was destroyed takes a slot of the destroyed subtree, and the
    /// arena does not grow.
    pub proof fn lemma_freed_slots_are_reused(
        before: &SceneTree<V, M>,
        root: TransformId,
        after: &SceneTree<V, M>,
        parent: Option<TransformId>,
        id: TransformId,
        next: &SceneTree<V, M>,
    )
        requires
            before.wf(),
            before.alive(root.index as int),
            after.destroyed(before, root),
            next.appended(after, parent, id),
        ensures
            before.in_subtree(root.index as int, id.index as int),
            next.nodes().len() == before.nodes().len(),
            next.free_slots() == after.free_slots().drop_last(),
    {
        let r = root.index as int;
        before.lemma_subtree(r);
        before.lemma_free_slots_are_the_dead();
        let was_free = before.free_slots().len() as int;
        assert(after.free_slots().contains(r as usize));
        let k = choose|k: int| 0 <= k < after.free_slots().len() && after.free_slots()[k] == r as usize;
        if k < was_free {
            assert(after.free_slots().subrange(0, was_free)[k] == before.free_slots()[k]);
        }
    }

    /// Whether `trees` is a run of creations: each tree comes out of the one
    /// before it by creating the transform of that step under the parent of that step.
    pub open spec fn created_in_turn(
        trees: Seq<SceneTree<V, M>>,
        parents: Seq<Option<TransformId>>,
        ids: Seq<TransformId>,
    ) -> bool {
        &&& trees.len() == ids.len() + 1
        &&& parents.len() == ids.len()
        &&& forall|j: int| 0 <= j < ids.len() ==> trees[j + 1].appended(&trees[j], parents[j], #[trigger] ids[j])
    }

    /// As long as slots are free, creations take them from the end of the
    /// free-list: after `j` creations the last `j` free slots are gone, the step
    /// before took the slot that was last then, and the arena has not grown.
    proof fn lemma_creations_take_free_slots(
        trees: Seq<SceneTree<V, M>>,
        parents: Seq<Option<TransformId>>,
        ids: Seq<TransformId>,
        j: int,
    )
        requires
            Self::created_in_turn(trees, parents, ids),
            ids.len() <= trees[0].free_slots().len(),
            0 <= j <= ids.len(),
        ensures
            trees[j].free_slots() == trees[0].free_slots().take(trees[0].free_slots().len() - j),
            trees[j].nodes().len() == trees[0].nodes().len(),
            j > 0 ==> ids[j - 1].index == trees[0].free_slots()[trees[0].free_slots().len() - j],
        decreases j,
    {
        let free = trees[0].free_slots();
        if j == 0 {
            assert(free.take(free.len() as int) =~= free);
        } else {
            Self::lemma_creations_take_free_slots(trees, parents, ids, j - 1);
            let step = ids[j - 1];
            assert(trees[j - 1 + 1].appended(&trees[j - 1], parents[j - 1], step));
            let was = trees[j - 1].free_slots();
            assert(was.len() == free.len() - (j - 1));
            assert(was.drop_last() =~= free.take(free.len() - j));
            assert(was.last() == free[free.len() - j]);
        }
    }

    /// Freed slots are taken again, all of them. Of the creations that follow
    /// the destruction of the living transform `root`, as many as slots were
    /// freed each take a slot of the destroyed subtree, no slot twice, and the
    /// arena keeps its length. Once that many transforms were created, every
    /// slot of the destroyed subtree is taken again.
    pub proof fn lemma_freed_slots_are_all_reused(
        before: &SceneTree<V, M>,
        root: TransformId,
        trees: Seq<SceneTree<V, M>>,
        parents: Seq<Option<TransformId>>,
        ids: Seq<TransformId>,
    )
        requires
            before.wf(),
            before.alive(root.index as int),
            Self::created_in_turn(trees, parents, ids),
            trees[0].destroyed(before, root),
            ids.len() <= trees[0].free_slots().len() - before.free_slots().len(),
        ensures
            forall|j: int|
                0 <= j < ids.len() ==> before.in_subtree(root.index as int, (#[trigger] ids[j]).index as int),
            forall|i: int, j: int| 0 <= i < j < ids.len() ==> (#[trigger] ids[i]).index != (#[trigger] ids[j]).index,
            forall|j: int| 0 <= j <= ids.len() ==> (#[trigger] trees[j]).nodes().len() == before.nodes().len(),
            ids.len() == trees[0].free_slots().len() - before.free_slots().len() ==> forall|x: int| #[trigger]
                before.in_subtree(root.index as int, x) ==> exists|j: int|
                    0 <= j < ids.len() && (#[trigger] ids[j]).index == x,
    {
        let free = trees[0].free_slots();
        let was_free = before.free_slots().len() as int;
        let place = |j: int| free.len() - 1 - j;
        before.lemma_free_slots_are_the_dead();
        assert forall|j: int| 0 <= j < ids.len() implies before.in_subtree(
            root.index as int,
            (#[trigger] ids[j]).index as int,
        ) by {
            Self::lemma_creations_take_free_slots(trees, parents, ids, j + 1);
            assert(ids[j].index == free[place(j)]);
        }
        assert forall|i: int, j: int| 0 <= i < j < ids.len() implies (#[trigger] ids[i]).index != (
        #[trigger] ids[j]).index by {
            Self::lemma_creations_take_free_slots(trees, parents, ids, i + 1);
            Self::lemma_creations_take_free_slots(trees, parents, ids, j + 1);
            assert(free[place(j)] < free[place(i)]);
        }
        assert forall|j: int| 0 <= j <= ids.len() implies (#[trigger] trees[j]).nodes().len()
            == before.nodes().len() by {
            Self::lemma_creations_take_free_slots(trees, parents, ids, j);
        }
        if ids.len() == free.len() - was_free {
            assert forall|x: int| #[trigger] before.in_subtree(root.index as int, x) implies exists|j: int|
                0 <= j < ids.len() && (#[trigger] ids[j]).index == x by {
                assert(free.contains(x as usize));
                let k = choose|k: int| 0 <= k < free.len() && free[k] == x as usize;
                if k < was_free {
                    assert(free.subrange(0, was_free)[k] == before.free_slots()[k]);
                }
                let j = free.len() - 1 - k;
                Self::lemma_creations_take_free_slots(trees, parents, ids, j + 1);
                assert(ids[j].index == x);
            }
        }
    }

    /// What `make_root` leaves behind: `root` has no parent and no siblings, is
    /// dirty, and keeps its children; the links that pointed at it point past it.
    pub open spec fn uprooted(&self, before: &SceneTree<V, M>, root: TransformId) -> bool {
        let e = root.index as int;
        let a = before.nodes()[e];
        let b = self.nodes()[e];
        &&& self.nodes().len() == before.nodes().len()
        &&& self.free_slots() == before.free_slots()
        &&& forall|i: int|
            0 <= i < before.nodes().len() && i != e ==> #[trigger] self.detached_at(before, root, i)
        &&& b.translation_view() == a.translation_view()
        &&& b.rotation_view() == a.rotation_view()
        &&& b.scale_view() == a.scale_view()
        &&& b.matrix_view() == a.matrix_view()
        &&& b.is_dirty()
        &&& !b.is_dead()
        &&& b.parent_view().is_none()
        &&& b.previous_sibling_view().is_none()
        &&& b.next_sibling_view().is_none()
        &&& b.first_child_view() == a.first_child_view()
        &&& b.last_child_view() == a.last_child_view()
        &&& self.children_of(e) == before.children_of(e)
    }

    /// Takes a living transform, with everything below it, out from under its
    /// parent and puts it at the root of the scene. Its former parent and siblings
    /// are linked past it. Its world matrix, and those of the transforms below it,
    /// are stale until the next refresh. Returns false, and changes nothing,
    /// where `id` names no living transform.
    #[verifier::spinoff_prover]
    pub fn make_root(&mut self, id: TransformId) -> (found: bool)
        requires
            old(self).wf(),
        ensures
            final(self).wf(),
            found == old(self).alive(id.index as int),
            !found ==> *final(self) == *old(self),
            found ==> final(self).uprooted(old(self), id),
    {
        if id.index >= self.transforms.len() || self.transforms[id.index].dead {
            return false;
        }
        let ghost before = *self;
        self.detach(id);
        let ghost mid = *self;
        self.transforms[id.index].parent = None;
        self.transforms[id.index].previous_sibling = None;
        self.transforms[id.index].next_sibling = None;
        self.transforms[id.index].dirty = true;
        proof {
            let e = id.index as int;
            self.depth@ = Seq::new(
                before.depth@.len(),
                |x: int|
                    if before.in_subtree(e, x) {
                        (before.depth@[x] - before.depth@[e]) as nat
                    } else {
                        before.depth@[x]
                    },
            );
            before.lemma_detached_all(&mid, id);
            assert forall|i: int| 0 <= i < before.nodes().len() && i != e implies #[trigger] self.detached_at(
                &before,
                id,
                i,
            ) by {
                assert(self.transforms@[i] == mid.transforms@[i]);
                assert(mid.detached_at(&before, id, i));
            }
            assert(mid.transforms@[e] == before.detach_step(e, e));
            before.lemma_around(e);
            assert(self.uprooted(&before, id));
            self.lemma_uproot_wf(&before, id);
        }
        true
    }

    /// The state that `make_root` builds is well formed.
    #[verifier::spinoff_prover]
    proof fn lemma_uproot_wf(&self, before: &SceneTree<V, M>, root: TransformId)
        requires
            before.wf(),
            before.alive(root.index as int),
            self.uprooted(before, root),
            self.order@ == before.order@,
            self.children@.len() == before.children@.len(),
            self.depth@.len() == before.depth@.len(),
            forall|x: int|
                0 <= x < before.depth@.len() ==> #[trigger] self.depth@[x] == (if before.in_subtree(
                    root.index as int,
                    x,
                ) {
                    (before.depth@[x] - before.depth@[root.index as int]) as nat
                } else {
                    before.depth@[x]
                }),
        ensures
            self.wf(),
    {
        let e = root.index as int;
        let n = before.transforms@.len();
        let node = before.transforms@[e];
        before.lemma_around(e);
        before.lemma_subtree(e);
        assert forall|x: int| 0 <= x < n implies {
            &&& (#[trigger] self.transforms@[x]).dead == before.transforms@[x].dead
            &&& x != e ==> self.transforms@[x].parent == before.transforms@[x].parent
        } by {
            if x != e {
                assert(self.detached_at(before, root, x));
            }
        }
        assert(self.wf_free()) by {
            assert forall|k: int| 0 <= k < self.free@.len() implies 0 <= #[trigger] self.free@[k]
                < self.transforms@.len() && self.transforms@[self.free@[k] as int].dead by {
                assert(before.transforms@[before.free@[k] as int].dead);
            }
            assert forall|i: int|
                0 <= i < self.transforms@.len() && (#[trigger] self.transforms@[i]).dead
                implies self.free@.contains(i as usize) by {
                assert(before.transforms@[i].dead);
            }
        }
        assert(self.wf_order()) by {
            assert forall|k: int| 0 <= k < self.order@.len() implies self.alive(
                #[trigger] self.order@[k] as int,
            ) by {
                assert(before.alive(before.order@[k] as int));
            }
            assert forall|i: int| #[trigger] self.alive(i) implies self.order@.contains(i as usize) by {
                assert(before.alive(i));
            }
            assert forall|k: int| 0 <= k < self.order@.len() implies #[trigger] self.parent_before(k) by {
                assert(before.parent_before(k));
                assert(before.alive(before.order@[k] as int));
            }
        }
        assert(self.wf_links()) by {
            assert forall|i: int| #[trigger] self.alive(i) implies self.above_ok(i) by {
                assert(before.alive(i));
                if i != e {
                    assert(self.detached_at(before, root, i));
                    assert(before.above_ok(i));
                    match before.transforms@[i].parent {
                        Some(p) => {
                            let c = before.children@[p.index as int];
                            if p.index != e {
                                assert(self.detached_at(before, root, p.index as int));
                            }
                            if before.in_subtree(e, i) {
                                before.lemma_subtree_depth(e, p.index as int);
                            }
                            let j = choose|j: int| 0 <= j < c.len() && c[j] == i as usize;
                            if node.parent == Some(p) {
                                let k = c.index_of(e as usize);
                                let now = c.remove(k);
                                if j < k {
                                    assert(now[j] == i as usize);
                                } else {
                                    assert(now[j - 1] == i as usize);
                                }
                            }
                        },
                        None => {},
                    }
                }
            }
            assert forall|p: int| 0 <= p < self.transforms@.len() implies #[trigger] self.kids_ok(p) by {
                if node.parent == Some(TransformId { index: p as usize }) {
                    before.lemma_subtree_is_below(e, p);
                    self.lemma_uproot_kids_of_parent(before, root, p);
                } else {
                    self.lemma_uproot_kids_elsewhere(before, root, p);
                }
            }
            assert forall|i: int| 0 <= i < self.transforms@.len() implies #[trigger] self.dead_ok(i) by {
                if i != e {
                    assert(self.detached_at(before, root, i));
                    assert(before.dead_ok(i));
                }
            }
        }
    }

    /// After `make_root` the children of the former parent of `root` are linked past the gap.
    #[verifier::spinoff_prover]
    proof fn lemma_uproot_kids_of_parent(&self, before: &SceneTree<V, M>, root: TransformId, p: int)
        requires
            before.wf(),
            before.alive(root.index as int),
            self.uprooted(before, root),
            self.children@.len() == before.children@.len(),
            before.transforms@[root.index as int].parent == Some(TransformId { index: p as usize }),
            0 <= p < before.transforms@.len(),
            p != root.index,
        ensures
            self.kids_ok(p),
    {
        let r = root.index as int;
        before.lemma_around(r);
        assert(self.detached_at(before, root, p));
        assert(before.kids_ok(p));
        assert(before.above_ok(r));
        let c = before.children@[p];
        let k = c.index_of(r as usize);
        let now = c.remove(k);
        assert(self.children@[p] == now);
        assert(now.no_duplicates()) by {
            assert forall|a: int, b: int| 0 <= a < now.len() && 0 <= b < now.len() && a != b implies now[a]
                != now[b] by {
                let a0 = if a < k { a } else { a + 1 };
                let b0 = if b < k { b } else { b + 1 };
                assert(now[a] == c[a0]);
                assert(now[b] == c[b0]);
            }
        }
        if k > 0 {
            assert(before.kid_ok(p, k - 1));
        }
        if k + 1 < c.len() {
            assert(before.kid_ok(p, k + 1));
        }
        assert(before.kid_ok(p, 0));
        assert(before.kid_ok(p, c.len() - 1));
        assert(self.transforms@[p].first_child == link(now, 0));
        assert(self.transforms@[p].last_child == link(now, now.len() - 1));
        assert forall|j: int| 0 <= j < now.len() implies #[trigger] self.kid_ok(p, j) by {
            let j0 = if j < k { j } else { j + 1 };
            assert(now[j] == c[j0]);
            assert(c[j0] != r as usize);
            assert(before.kid_ok(p, j0));
            let x = c[j0] as int;
            assert(self.detached_at(before, root, x));
            assert(link(now, j - 1) == bypass(link(c, j0 - 1), root, link(c, k - 1)));
            assert(link(now, j + 1) == bypass(link(c, j0 + 1), root, link(c, k + 1)));
        }
    }

    /// After `make_root` the children of any slot but the former parent of `root` are as before.
    #[verifier::spinoff_prover]
    proof fn lemma_uproot_kids_elsewhere(&self, before: &SceneTree<V, M>, root: TransformId, p: int)
        requires
            before.wf(),
            before.alive(root.index as int),
            self.uprooted(before, root),
            self.children@.len() == before.children@.len(),
            before.transforms@[root.index as int].parent != Some(TransformId { index: p as usize }),
            0 <= p < before.transforms@.len(),
        ensures
            self.kids_ok(p),
    {
        let r = root.index as int;
        before.lemma_around(r);
        assert(before.kids_ok(p));
        assert(before.dead_ok(p));
        let c = before.children@[p];
        if p != r {
            assert(self.detached_at(before, root, p));
        }
        assert(self.children@[p] == c);
        assert forall|j: int| 0 <= j < c.len() implies #[trigger] self.kid_ok(p, j) by {
            assert(before.kid_ok(p, j));
            let x = c[j] as int;
            assert(x != r);
            assert(self.detached_at(before, root, x));
            if j > 0 {
                assert(before.kid_ok(p, j - 1));
            }
            if j + 1 < c.len() {
                assert(before.kid_ok(p, j + 1));
            }
        }
        if c.len() > 0 {
            assert(before.kid_ok(p, 0));
            assert(before.kid_ok(p, c.len() - 1));
        }
    }

    /// Uprooting a transform changes nothing about what lies below it.
    #[verifier::spinoff_prover]
    proof fn lemma_uproot_keeps_subtree(&self, before: &SceneTree<V, M>, root: TransformId, x: int)
        requires
            before.wf(),
            self.wf(),
            before.alive(root.index as int),
            self.uprooted(before, root),
        ensures
            self.in_subtree(root.index as int, x) == before.in_subtree(root.index as int, x),
        decreases before.depth_of(x),
    {
        let e = root.index as int;
        if before.alive(x) {
            if x != e {
                assert(self.detached_at(before, root, x));
            }
            assert(self.alive(x));
            self.lemma_reaches_step(self.single_seed(e), x);
            before.lemma_reaches_step(before.single_seed(e), x);
            if x != e {
                assert(before.above_ok(x));
                match before.transforms@[x].parent {
                    Some(q) => {
                        if q.index != e {
                            assert(self.detached_at(before, root, q.index as int));
                        }
                        self.lemma_uproot_keeps_subtree(before, root, q.index as int);
                    },
                    None => {},
                }
            }
        } else {
            if 0 <= x < before.transforms@.len() {
                assert(x != e);
                assert(self.detached_at(before, root, x));
            }
        }
    }

    /// The transforms of the subtree of `id`, in the visiting order.
    #[verifier::spinoff_prover]
    fn subtree_order(&self, id: TransformId, inside: &Vec<bool>) -> (moved: Vec<usize>)
        requires
            self.wf(),
            self.alive(id.index as int),
            inside@.len() == self.transforms@.len(),
            forall|x: int| 0 <= x < inside@.len() ==> inside@[x] == self.in_subtree(id.index as int, x),
        ensures
            moved@.no_duplicates(),
            forall|a: int| 0 <= a < moved@.len() ==> self.in_subtree(id.index as int, #[trigger] moved@[a] as int),
            forall|x: int| #[trigger] self.in_subtree(id.index as int, x) ==> moved@.contains(x as usize),
            forall|a: int|
                0 <= a < moved@.len() && moved@[a] != id.index ==> match (#[trigger] self.transforms@[moved@[a] as int]).parent {
                    Some(p) => exists|b: int| 0 <= b < a && #[trigger] moved@[b] == p.index,
                    None => true,
                },
    {
        let ghost n = self.transforms@.len();
        let mut moved: Vec<usize> = Vec::new();
        let mut k: usize = 0;
        proof {
            self.lemma_subtree(id.index as int);
        }
        while k < self.order.len()
            invariant
                0 <= k <= self.order@.len(),
                n == self.transforms@.len(),
                inside@.len() == n,
                self.wf(),
                self.alive(id.index as int),
                forall|x: int| 0 <= x < n ==> inside@[x] == self.in_subtree(id.index as int, x),
                moved@.no_duplicates(),
                forall|a: int|
                    0 <= a < moved@.len() ==> 0 <= #[trigger] moved@[a] < n && inside@[moved@[a] as int]
                        && exists|j: int| 0 <= j < k && #[trigger] self.order@[j] == moved@[a],
                forall|j: int|
                    0 <= j < k && inside@[#[trigger] self.order@[j] as int] ==> moved@.contains(self.order@[j]),
                forall|a: int|
                    0 <= a < moved@.len() && moved@[a] != id.index ==> match (#[trigger] self.transforms@[moved@[a] as int]).parent {
                        Some(p) => exists|b: int| 0 <= b < a && #[trigger] moved@[b] == p.index,
                        None => true,
                    },
            decreases self.order@.len() - k,
        {
            let slot = self.order[k];
            assert(self.alive(self.order@[k as int] as int));
            if inside[slot] {
                proof {
                    assert(!moved@.contains(slot)) by {
                        if moved@.contains(slot) {
                            let a = choose|a: int| 0 <= a < moved@.len() && moved@[a] == slot;
                            let j = choose|j: int| 0 <= j < k && #[trigger] self.order@[j] == moved@[a];
                            assert(self.order@[j] == self.order@[k as int]);
                        }
                    }
                    assert(self.parent_before(k as int));
                    assert(self.above_ok(slot as int));
                    self.lemma_subtree(id.index as int);
                }
                let ghost prior = moved@;
                moved.push(slot);
                proof {
                    assert forall|j: int|
                        0 <= j < k + 1 && inside@[#[trigger] self.order@[j] as int] implies moved@.contains(
                        self.order@[j],
                    ) by {
                        if j < k {
                            assert(prior.contains(self.order@[j]));
                            let a = choose|a: int| 0 <= a < prior.len() && prior[a] == self.order@[j];
                            assert(moved@[a] == self.order@[j]);
                        } else {
                            assert(moved@[prior.len() as int] == slot);
                        }
                    }
                    assert forall|a: int| 0 <= a < moved@.len() && moved@[a] != id.index implies match (
                    #[trigger] self.transforms@[moved@[a] as int]).parent {
                        Some(p) => exists|b: int| 0 <= b < a && #[trigger] moved@[b] == p.index,
                        None => true,
                    } by {
                        if a < prior.len() {
                            assert(moved@[a] == prior[a]);
                            match self.transforms@[prior[a] as int].parent {
                                Some(p) => {
                                    let b = choose|b: int| 0 <= b < a && #[trigger] prior[b] == p.index;
                                    assert(moved@[b] == p.index);
                                },
                                None => {},
                            }
                        } else {
                            match self.transforms@[slot as int].parent {
                                Some(p) => {
                                    let j = choose|j: int| 0 <= j < k && #[trigger] self.order@[j] == p.index;
                                    assert(self.in_subtree(id.index as int, p.index as int));
                                    assert(inside@[self.order@[j] as int]);
                                    assert(prior.contains(self.order@[j]));
                                    let b = choose|b: int| 0 <= b < prior.len() && prior[b] == p.index;
                                    assert(moved@[b] == p.index);
                                },
                                None => {},
                            }
                        }
                    }
                    assert forall|a: int| 0 <= a < moved@.len() implies 0 <= #[trigger] moved@[a] < n
                        && inside@[moved@[a] as int] && exists|j: int|
                        0 <= j < k + 1 && #[trigger] self.order@[j] == moved@[a] by {
                        if a < prior.len() {
                            assert(moved@[a] == prior[a]);
                            let j = choose|j: int| 0 <= j < k && #[trigger] self.order@[j] == prior[a];
                            assert(self.order@[j] == moved@[a]);
                        } else {
                            assert(self.order@[k as int] == moved@[a]);
                        }
                    }
                }
            }
            k += 1;
        }
        proof {
            assert forall|x: int| #[trigger] self.in_subtree(id.index as int, x) implies moved@.contains(
                x as usize,
            ) by {
                assert(self.alive(x));
                assert(self.order@.contains(x as usize));
                let j = choose|j: int| 0 <= j < self.order@.len() && self.order@[j] == x as usize;
                assert(inside@[self.order@[j] as int]);
            }
        }
        moved
    }

    /// What `graft` leaves behind: `id`, which was a root, is the last child of
    /// `parent`, with everything it had below it.
    pub open spec fn grafted(&self, before: &SceneTree<V, M>, id: TransformId, parent: TransformId) -> bool {
        let e = id.index as int;
        let a = before.nodes()[e];
        let b = self.nodes()[e];
        &&& self.nodes().len() == before.nodes().len()
        &&& self.free_slots() == before.free_slots()
        &&& forall|i: int|
            0 <= i < before.nodes().len() && i != e ==> #[trigger] self.kept_by_append(
                before,
                Some(parent),
                id,
                i,
            )
        &&& b.translation_view() == a.translation_view()
        &&& b.rotation_view() == a.rotation_view()
        &&& b.scale_view() == a.scale_view()
        &&& b.matrix_view() == a.matrix_view()
        &&& b.is_dirty()
        &&& !b.is_dead()
        &&& b.parent_view() == Some(parent)
        &&& b.previous_sibling_view() == before.last_child_under(Some(parent))
        &&& b.next_sibling_view().is_none()
        &&& b.first_child_view() == a.first_child_view()
        &&& b.last_child_view() == a.last_child_view()
        &&& self.children_of(e) == before.children_of(e)
    }

    /// Puts a root, with everything below it, under `parent` as its last child.
    #[verifier::spinoff_prover]
    fn graft(&mut self, id: TransformId, parent: TransformId)
        requires
            old(self).wf(),
            old(self).alive(id.index as int),
            old(self).alive(parent.index as int),
            old(self).transforms@[id.index as int].parent.is_none(),
            !old(self).in_subtree(id.index as int, parent.index as int),
        ensures
            final(self).wf(),
            final(self).grafted(old(self), id, parent),
    {
        let ghost before = *self;
        let inside = self.subtree_marks(id);
        let mut order = self.surviving_order(id, &inside);
        let mut moved = self.subtree_order(id, &inside);
        let ghost kept = order@;
        let ghost lifted = moved@;
        order.append(&mut moved);
        proof {
            before.lemma_around(id.index as int);
            assert(before.kids_ok(parent.index as int));
            let kids = before.children@[parent.index as int];
            if kids.len() > 0 {
                assert(before.kid_ok(parent.index as int, kids.len() - 1));
            }
        }
        let previous = self.transforms[parent.index].last_child;
        self.transforms[id.index].parent = Some(parent);
        self.transforms[id.index].previous_sibling = previous;
        self.transforms[id.index].next_sibling = None;
        self.transforms[id.index].dirty = true;
        match previous {
            Some(last) => {
                self.transforms[last.index].next_sibling = Some(id);
            },
            None => {
                self.transforms[parent.index].first_child = Some(id);
            },
        }
        self.transforms[parent.index].last_child = Some(id);
        self.order = order;
        proof {
            let e = id.index as int;
            let p = parent.index as int;
            let kids = self.children@[p].push(id.index);
            self.children@ = self.children@.update(p, kids);
            self.depth@ = Seq::new(
                before.depth@.len(),
                |x: int|
                    if before.in_subtree(e, x) {
                        (before.depth@[x] - before.depth@[e] + before.depth@[p] + 1) as nat
                    } else {
                        before.depth@[x]
                    },
            );
            assert forall|i: int| 0 <= i < before.nodes().len() && i != e implies #[trigger] self.kept_by_append(
                &before,
                Some(parent),
                id,
                i,
            ) by {
                let a = before.nodes()[i];
                let b = self.nodes()[i];
                assert(b.same_payload(&a));
            }
            assert(self.grafted(&before, id, parent));
            self.lemma_graft_wf(&before, id, parent, kept, lifted);
        }
    }

    /// The state that `graft` builds is well formed.
    #[verifier::spinoff_prover]
    proof fn lemma_graft_wf(
        &self,
        before: &SceneTree<V, M>,
        id: TransformId,
        parent: TransformId,
        kept: Seq<usize>,
        moved: Seq<usize>,
    )
        requires
            before.wf(),
            before.alive(id.index as int),
            before.alive(parent.index as int),
            before.transforms@[id.index as int].parent.is_none(),
            !before.in_subtree(id.index as int, parent.index as int),
            self.grafted(before, id, parent),
            self.children@.len() == before.children@.len(),
            self.depth@.len() == before.depth@.len(),
            forall|x: int|
                0 <= x < before.depth@.len() ==> #[trigger] self.depth@[x] == (if before.in_subtree(
                    id.index as int,
                    x,
                ) {
                    (before.depth@[x] - before.depth@[id.index as int] + before.depth@[parent.index as int]
                        + 1) as nat
                } else {
                    before.depth@[x]
                }),
            self.order@ == kept + moved,
            kept.no_duplicates(),
            forall|a: int|
                0 <= a < kept.len() ==> before.alive(#[trigger] kept[a] as int) && !before.in_subtree(
                    id.index as int,
                    kept[a] as int,
                ),
            forall|x: int|
                #[trigger] before.alive(x) && !before.in_subtree(id.index as int, x) ==> kept.contains(x as usize),
            forall|a: int|
                0 <= a < kept.len() ==> match (#[trigger] before.transforms@[kept[a] as int]).parent {
                    Some(p) => exists|b: int| 0 <= b < a && #[trigger] kept[b] == p.index,
                    None => true,
                },
            moved.no_duplicates(),
            forall|a: int| 0 <= a < moved.len() ==> before.in_subtree(id.index as int, #[trigger] moved[a] as int),
            forall|x: int| #[trigger] before.in_subtree(id.index as int, x) ==> moved.contains(x as usize),
            forall|a: int|
                0 <= a < moved.len() && moved[a] != id.index ==> match (#[trigger] before.transforms@[moved[a] as int]).parent {
                    Some(p) => exists|b: int| 0 <= b < a && #[trigger] moved[b] == p.index,
                    None => true,
                },
        ensures
            self.wf(),
    {
        let e = id.index as int;
        let p = parent.index as int;
        let n = before.transforms@.len();
        before.lemma_subtree(e);
        assert(p != e);
        assert forall|x: int| 0 <= x < n implies {
            &&& (#[trigger] self.transforms@[x]).dead == before.transforms@[x].dead
            &&& x != e ==> self.transforms@[x].parent == before.transforms@[x].parent
        } by {
            if x != e {
                assert(self.kept_by_append(before, Some(parent), id, x));
            }
        }
        assert(self.wf_free()) by {
            assert forall|k: int| 0 <= k < self.free@.len() implies 0 <= #[trigger] self.free@[k]
                < self.transforms@.len() && self.transforms@[self.free@[k] as int].dead by {
                assert(before.transforms@[before.free@[k] as int].dead);
            }
            assert forall|i: int|
                0 <= i < self.transforms@.len() && (#[trigger] self.transforms@[i]).dead
                implies self.free@.contains(i as usize) by {
                assert(before.transforms@[i].dead);
            }
        }
        self.lemma_graft_order(before, id, parent, kept, moved);
        assert(self.wf_links()) by {
            assert forall|i: int| #[trigger] self.alive(i) implies self.above_ok(i) by {
                assert(before.alive(i));
                if i != e {
                    assert(self.kept_by_append(before, Some(parent), id, i));
                    assert(before.above_ok(i));
                    match before.transforms@[i].parent {
                        Some(q) => {
                            if q.index != e {
                                assert(self.kept_by_append(before, Some(parent), id, q.index as int));
                            }
                            if before.in_subtree(e, i) {
                                before.lemma_subtree_depth(e, q.index as int);
                            }
                            let c = before.children@[q.index as int];
                            let j = choose|j: int| 0 <= j < c.len() && c[j] == i as usize;
                            if q.index == p {
                                assert(c.push(id.index)[j] == i as usize);
                            }
                        },
                        None => {
                            let kids = before.children@[p];
                            assert(before.kids_ok(p));
                            if kids.len() > 0 {
                                assert(before.kid_ok(p, kids.len() - 1));
                            }
                        },
                    }
                } else {
                    let kids = before.children@[p];
                    assert(self.kept_by_append(before, Some(parent), id, p));
                    assert(kids.push(id.index)[kids.len() as int] == id.index);
                }
            }
            assert forall|q: int| 0 <= q < self.transforms@.len() implies #[trigger] self.kids_ok(q) by {
                self.lemma_graft_kids(before, id, parent, q);
            }
            assert forall|i: int| 0 <= i < self.transforms@.len() implies #[trigger] self.dead_ok(i) by {
                if i != e {
                    assert(self.kept_by_append(before, Some(parent), id, i));
                    assert(before.dead_ok(i));
                    if self.transforms@[i].dead {
                        let kids = before.children@[p];
                        assert(before.kids_ok(p));
                        if kids.len() > 0 {
                            assert(before.kid_ok(p, kids.len() - 1));
                        }
                    }
                }
            }
        }
    }

    /// After `graft` the visiting order holds the living transforms, parents first.
    #[verifier::spinoff_prover]
    proof fn lemma_graft_order(
        &self,
        before: &SceneTree<V, M>,
        id: TransformId,
        parent: TransformId,
        kept: Seq<usize>,
        moved: Seq<usize>,
    )
        requires
            before.wf(),
            before.alive(id.index as int),
            before.alive(parent.index as int),
            !before.in_subtree(id.index as int, parent.index as int),
            self.grafted(before, id, parent),
            self.order@ == kept + moved,
            kept.no_duplicates(),
            forall|a: int|
                0 <= a < kept.len() ==> before.alive(#[trigger] kept[a] as int) && !before.in_subtree(
                    id.index as int,
                    kept[a] as int,
                ),
            forall|x: int|
                #[trigger] before.alive(x) && !before.in_subtree(id.index as int, x) ==> kept.contains(x as usize),
            forall|a: int|
                0 <= a < kept.len() ==> match (#[trigger] before.transforms@[kept[a] as int]).parent {
                    Some(p) => exists|b: int| 0 <= b < a && #[trigger] kept[b] == p.index,
                    None => true,
                },
            moved.no_duplicates(),
            forall|a: int| 0 <= a < moved.len() ==> before.in_subtree(id.index as int, #[trigger] moved[a] as int),
            forall|x: int| #[trigger] before.in_subtree(id.index as int, x) ==> moved.contains(x as usize),
            forall|a: int|
                0 <= a < moved.len() && moved[a] != id.index ==> match (#[trigger] before.transforms@[moved[a] as int]).parent {
                    Some(p) => exists|b: int| 0 <= b < a && #[trigger] moved[b] == p.index,
                    None => true,
                },
        ensures
            self.wf_order(),
    {
        let e = id.index as int;
        let order = self.order@;
        before.lemma_subtree(e);
        assert forall|x: int| 0 <= x < before.transforms@.len() implies {
            &&& (#[trigger] self.transforms@[x]).dead == before.transforms@[x].dead
            &&& x != e ==> self.transforms@[x].parent == before.transforms@[x].parent
        } by {
            if x != e {
                assert(self.kept_by_append(before, Some(parent), id, x));
            }
        }
        assert(order.no_duplicates()) by {
            assert forall|a: int, b: int| 0 <= a < order.len() && 0 <= b < order.len() && a != b implies order[a]
                != order[b] by {
                if a < kept.len() && b < kept.len() {
                } else if a >= kept.len() && b >= kept.len() {
                    assert(moved[a - kept.len()] != moved[b - kept.len()]);
                } else if a < kept.len() {
                    assert(!before.in_subtree(e, kept[a] as int));
                    assert(before.in_subtree(e, moved[b - kept.len()] as int));
                } else {
                    assert(!before.in_subtree(e, kept[b] as int));
                    assert(before.in_subtree(e, moved[a - kept.len()] as int));
                }
            }
        }
        assert forall|k: int| 0 <= k < order.len() implies self.alive(#[trigger] order[k] as int) by {
            if k < kept.len() {
                assert(before.alive(kept[k] as int));
            } else {
                assert(before.in_subtree(e, moved[k - kept.len()] as int));
            }
        }
        assert forall|i: int| #[trigger] self.alive(i) implies order.contains(i as usize) by {
            assert(before.alive(i));
            if before.in_subtree(e, i) {
                assert(moved.contains(i as usize));
                let a = choose|a: int| 0 <= a < moved.len() && moved[a] == i as usize;
                assert(order[kept.len() + a] == i as usize);
            } else {
                assert(kept.contains(i as usize));
                let a = choose|a: int| 0 <= a < kept.len() && kept[a] == i as usize;
                assert(order[a] == i as usize);
            }
        }
        assert forall|k: int| 0 <= k < order.len() implies #[trigger] self.parent_before(k) by {
            let x = order[k] as int;
            if k < kept.len() {
                assert(x == kept[k]);
                assert(x != e);
                match before.transforms@[kept[k] as int].parent {
                    Some(q) => {
                        let b = choose|b: int| 0 <= b < k && #[trigger] kept[b] == q.index;
                        assert(order[b] == q.index);
                    },
                    None => {},
                }
            } else {
                let a = k - kept.len();
                assert(x == moved[a]);
                if x == e {
                    assert(kept.contains(parent.index));
                    let b = choose|b: int| 0 <= b < kept.len() && kept[b] == parent.index;
                    assert(order[b] == parent.index);
                } else {
                    match before.transforms@[moved[a] as int].parent {
                        Some(q) => {
                            let b = choose|b: int| 0 <= b < a && #[trigger] moved[b] == q.index;
                            assert(order[kept.len() + b] == q.index);
                        },
                        None => {},
                    }
                }
            }
        }
    }

    /// After `graft` the children of every slot are linked as their list says.
    #[verifier::spinoff_prover]
    proof fn lemma_graft_kids(&self, before: &SceneTree<V, M>, id: TransformId, parent: TransformId, q: int)
        requires
            before.wf(),
            before.alive(id.index as int),
            before.alive(parent.index as int),
            before.transforms@[id.index as int].parent.is_none(),
            parent.index != id.index,
            self.grafted(before, id, parent),
            self.children@.len() == before.children@.len(),
            0 <= q < before.transforms@.len(),
        ensures
            self.kids_ok(q),
    {
        let e = id.index as int;
        let p = parent.index as int;
        let last_before = before.last_child_under(Some(parent));
        assert(before.kids_ok(q));
        assert(before.kids_ok(p));
        assert(before.dead_ok(q));
        let kids = before.children@[q];
        let family = before.children@[p];
        assert(last_before == link(family, family.len() - 1));
        if family.len() > 0 {
            assert(before.kid_ok(p, family.len() - 1));
        }
        assert(!kids.contains(id.index)) by {
            if kids.contains(id.index) {
                let k = choose|k: int| 0 <= k < kids.len() && kids[k] == id.index;
                assert(before.kid_ok(q, k));
            }
        }
        if q != e {
            assert(self.kept_by_append(before, Some(parent), id, q));
        }
        let now = self.children@[q];
        if q == p {
            assert(now == kids.push(id.index));
            assert(now.no_duplicates());
            assert forall|k: int| 0 <= k < now.len() implies #[trigger] self.kid_ok(q, k) by {
                if k < kids.len() {
                    assert(before.kid_ok(q, k));
                    assert(kids[k] != id.index);
                    assert(now[k] == kids[k]);
                    assert(self.kept_by_append(before, Some(parent), id, kids[k] as int));
                    assert(link(now, k - 1) == link(kids, k - 1));
                    if k == kids.len() - 1 {
                        assert(link(now, k + 1) == Some(id));
                    } else {
                        assert(kids[k] != kids[kids.len() - 1]);
                        assert(link(now, k + 1) == link(kids, k + 1));
                    }
                } else {
                    assert(now[k] == id.index);
                    assert(link(now, k - 1) == link(kids, kids.len() - 1));
                    assert(link(now, k + 1).is_none());
                }
            }
        } else {
            assert(now == kids);
            assert forall|k: int| 0 <= k < now.len() implies #[trigger] self.kid_ok(q, k) by {
                assert(before.kid_ok(q, k));
                assert(kids[k] != id.index);
                assert(self.kept_by_append(before, Some(parent), id, kids[k] as int));
            }
        }
    }

    /// What `set_parent` leaves behind: `id` has been made a root and, where a
    /// parent is given, has then been put under it as its last child.
    pub open spec fn reparented(&self, before: &SceneTree<V, M>, id: TransformId, parent: Option<TransformId>) -> bool {
        match parent {
            None => self.uprooted(before, id),
            Some(p) => exists|between: SceneTree<V, M>|
                between.wf() && #[trigger] between.uprooted(before, id) && self.grafted(&between, id, p),
        }
    }

    /// Whether `id` can be put under `parent`: both are alive, and `parent` is
    /// neither `id` nor below it. Any living transform can be made a root.
    pub open spec fn can_reparent(&self, id: TransformId, parent: Option<TransformId>) -> bool {
        &&& self.alive(id.index as int)
        &&& match parent {
            Some(p) => self.alive(p.index as int) && !self.in_subtree(id.index as int, p.index as int),
            None => true,
        }
    }

    /// Gives a living transform a new parent, or none: the transform moves, with
    /// everything below it, from where it is to the end of the children of the new
    /// parent, or to the root of the scene. Its world matrix, and those of the
    /// transforms below it, are stale until the next refresh. Returns false, and
    /// changes nothing, where the transform or the parent is not alive, or where
    /// the parent is the transform itself or lies below it.
    #[verifier::spinoff_prover]
    pub fn set_parent(&mut self, id: TransformId, parent: Option<TransformId>) -> (found: bool)
        requires
            old(self).wf(),
        ensures
            final(self).wf(),
            found == old(self).can_reparent(id, parent),
            !found ==> *final(self) == *old(self),
            found ==> final(self).reparented(old(self), id, parent),
    {
        if id.index >= self.transforms.len() || self.transforms[id.index].dead {
            return false;
        }
        match parent {
            Some(p) => {
                if p.index >= self.transforms.len() || self.transforms[p.index].dead {
                    return false;
                }
                let inside = self.subtree_marks(id);
                if inside[p.index] {
                    return false;
                }
            },
            None => {},
        }
        let ghost before = *self;
        self.make_root(id);
        let ghost between = *self;
        match parent {
            Some(p) => {
                proof {
                    between.lemma_uproot_keeps_subtree(&before, id, p.index as int);
                    before.lemma_reaches_step(before.single_seed(id.index as int), id.index as int);
                    assert(p.index != id.index);
                    assert(between.detached_at(&before, id, p.index as int));
                }
                self.graft(id, p);
                assert(between.uprooted(&before, id) && self.grafted(&between, id, p));
            },
            None => {},
        }
        true
    }

    /// Marks every living transform that is marked in `seed` or lies below one that is.
    #[verifier::spinoff_prover]
    fn mark_from(&self, seed: &Vec<bool>) -> (marks: Vec<bool>)
        requires
            self.wf(),
            seed@.len() == self.nodes().len(),
        ensures
            marks@.len() == self.nodes().len(),
            forall|i: int|
                0 <= i < marks@.len() ==> marks@[i] == (self.alive(i) && self.reaches(seed@, i)),
    {
        let n = self.transforms.len();
        let mut marks: Vec<bool> = Vec::new();
        while marks.len() < n
            invariant
                marks@.len() <= n,
                forall|i: int| 0 <= i < marks@.len() ==> !marks@[i],
            decreases n - marks.len(),
        {
            marks.push(false);
        }
        let mut k: usize = 0;
        while k < self.order.len()
            invariant
                self.wf(),
                n == self.transforms@.len(),
                seed@.len() == n,
                marks@.len() == n,
                0 <= k <= self.order@.len(),
                forall|j: int|
                    0 <= j < k ==> marks@[#[trigger] self.order@[j] as int] == self.reaches(
                        seed@,
                        self.order@[j] as int,
                    ),
                forall|i: int|
                    0 <= i < n && #[trigger] marks@[i] ==> exists|j: int|
                        0 <= j < k && #[trigger] self.order@[j] == i,
            decreases self.order@.len() - k,
        {
            let i = self.order[k];
            assert(self.alive(i as int));
            assert(self.above_ok(i as int));
            assert(self.parent_before(k as int));
            proof {
                self.lemma_reaches_step(seed@, i as int);
            }
            let hit = seed[i] || match self.transforms[i].parent {
                Some(p) => marks[p.index],
                None => false,
            };
            marks[i] = hit;
            k += 1;
        }
        proof {
            assert forall|i: int| 0 <= i < marks@.len() implies marks@[i] == (self.alive(i)
                && self.reaches(seed@, i)) by {
                if self.alive(i) {
                    assert(self.order@.contains(i as usize));
                    let j = choose|j: int| 0 <= j < self.order@.len() && self.order@[j] == i as usize;
                    assert(marks@[self.order@[j] as int] == self.reaches(seed@, self.order@[j] as int));
                } else {
                    if marks@[i] {
                        let j = choose|j: int| 0 <= j < k && self.order@[j] == i;
                        assert(self.alive(self.order@[j] as int));
                    }
                }
            }
        }
        marks
    }
}

} // verus!
