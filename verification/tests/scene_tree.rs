use wtvr3d::error::Error;
use wtvr3d::scene::transform::{SceneTree, Transform, TransformId};

type V3 = (f32, f32, f32);

fn compose(parent: Option<&V3>, t: &V3, _r: &V3, s: &V3) -> V3 {
    match parent {
        Some(p) => (p.0 + t.0 * s.0, p.1 + t.1 * s.1, p.2 + t.2 * s.2),
        None => (t.0 * s.0, t.1 * s.1, t.2 * s.2),
    }
}

const ZERO: V3 = (0.0, 0.0, 0.0);
const ONE: V3 = (1.0, 1.0, 1.0);

fn add(tree: &mut SceneTree<V3, V3>, parent: Option<TransformId>, t: V3) -> TransformId {
    tree.append_new(parent, t, ZERO, ONE, ZERO).expect("the parent is alive")
}

fn world(tree: &SceneTree<V3, V3>, id: TransformId) -> V3 {
    *tree.get_world_matrix(id).expect("the transform is clean")
}

/// root(0) -> a(1) -> a1(3), a2(4); root -> b(2) -> b1(5)
fn small_tree() -> (SceneTree<V3, V3>, Vec<TransformId>) {
    let mut tree = SceneTree::new();
    let root = add(&mut tree, None, (1.0, 0.0, 0.0));
    let a = add(&mut tree, Some(root), (0.0, 2.0, 0.0));
    let b = add(&mut tree, Some(root), (0.0, 0.0, 3.0));
    let a1 = add(&mut tree, Some(a), (10.0, 0.0, 0.0));
    let a2 = add(&mut tree, Some(a), (20.0, 0.0, 0.0));
    let b1 = add(&mut tree, Some(b), (30.0, 0.0, 0.0));
    (tree, vec![root, a, b, a1, a2, b1])
}

#[test]
fn new_transform_is_dirty_and_alone() {
    let t: Transform<V3, V3> = Transform::new((1.0, 2.0, 3.0), ZERO, ONE, ZERO);
    assert_eq!(*t.get_position(), (1.0, 2.0, 3.0));
    assert_eq!(*t.get_rotation(), ZERO);
    assert_eq!(*t.get_scale(), ONE);
    assert!(!t.get_dead());
    assert_eq!(t.get_world_matrix(), Err(Error::StaleTransform));
    assert_eq!(t.parent, None);
    assert_eq!(t.first_child, None);
    assert_eq!(t.last_child, None);
    assert_eq!(t.next_sibling, None);
    assert_eq!(t.previous_sibling, None);
}

#[test]
fn transform_refresh_composes_with_parent_matrix() {
    let mut t: Transform<V3, V3> = Transform::new((1.0, 2.0, 3.0), ZERO, (2.0, 2.0, 2.0), ZERO);
    t.refresh_world_matrix(None, &compose);
    assert_eq!(t.get_world_matrix(), Ok(&(2.0, 4.0, 6.0)));
    t.set_translation((1.0, 1.0, 1.0));
    assert_eq!(t.get_world_matrix(), Err(Error::StaleTransform));
    let parent = (10.0, 20.0, 30.0);
    t.refresh_world_matrix(Some(&parent), &compose);
    assert_eq!(t.get_world_matrix(), Ok(&(12.0, 22.0, 32.0)));
    t.set_scale(ONE);
    assert_eq!(t.get_world_matrix(), Err(Error::StaleTransform));
    t.set_rotation((0.5, 0.0, 0.0));
    assert_eq!(*t.get_rotation(), (0.5, 0.0, 0.0));
    t.set_dead();
    assert!(t.get_dead());
}

#[test]
fn transform_values_changed_in_place_make_the_world_matrix_stale() {
    let mut t: Transform<V3, V3> = Transform::new((1.0, 2.0, 3.0), ZERO, ONE, ZERO);
    t.refresh_world_matrix(None, &compose);
    assert_eq!(t.get_world_matrix(), Ok(&(1.0, 2.0, 3.0)));
    t.get_position_mut().0 = 5.0;
    assert_eq!(t.get_world_matrix(), Err(Error::StaleTransform));
    t.refresh_world_matrix(None, &compose);
    assert!(t.get_world_matrix().is_ok());
    *t.get_rotation_mut() = (0.0, 1.0, 0.0);
    assert_eq!(t.get_world_matrix(), Err(Error::StaleTransform));
    t.refresh_world_matrix(None, &compose);
    t.get_scale_mut().2 = 4.0;
    assert_eq!(t.get_world_matrix(), Err(Error::StaleTransform));
    assert_eq!(*t.get_position(), (5.0, 2.0, 3.0));
    assert_eq!(*t.get_rotation(), (0.0, 1.0, 0.0));
    assert_eq!(*t.get_scale(), (1.0, 1.0, 4.0));
    t.refresh_world_matrix(None, &compose);
    assert!(t.get_world_matrix().is_ok());
}

#[test]
fn append_links_children_in_order() {
    let (tree, ids) = small_tree();
    let (root, a, b, a1, a2, b1) = (ids[0], ids[1], ids[2], ids[3], ids[4], ids[5]);
    assert_eq!(tree.len(), 6);
    assert_eq!(tree.children(root), vec![a, b]);
    assert_eq!(tree.children(a), vec![a1, a2]);
    assert_eq!(tree.children(b), vec![b1]);
    assert_eq!(tree.children(b1), vec![]);
    let node = tree.get(a).unwrap();
    assert_eq!(node.parent, Some(root));
    assert_eq!(node.first_child, Some(a1));
    assert_eq!(node.last_child, Some(a2));
    assert_eq!(node.next_sibling, Some(b));
    assert_eq!(node.previous_sibling, None);
    let node = tree.get(b).unwrap();
    assert_eq!(node.previous_sibling, Some(a));
    assert_eq!(node.next_sibling, None);
    assert_eq!(tree.get(root).unwrap().parent, None);
}

#[test]
fn append_under_missing_parent_changes_nothing() {
    let (mut tree, _) = small_tree();
    assert_eq!(tree.append_new(Some(TransformId { index: 17 }), ZERO, ZERO, ONE, ZERO), None);
    assert_eq!(tree.len(), 6);
}

#[test]
fn world_matrix_is_refused_until_the_pass_has_run() {
    let (mut tree, ids) = small_tree();
    assert_eq!(tree.get_world_matrix(ids[0]), Err(Error::StaleTransform));
    assert_eq!(tree.get_world_matrix(TransformId { index: 99 }), Err(Error::MissingReference));
    tree.refresh(&compose);
    assert_eq!(world(&tree, ids[0]), (1.0, 0.0, 0.0));
    assert_eq!(world(&tree, ids[1]), (1.0, 2.0, 0.0));
    assert_eq!(world(&tree, ids[2]), (1.0, 0.0, 3.0));
    assert_eq!(world(&tree, ids[3]), (11.0, 2.0, 0.0));
    assert_eq!(world(&tree, ids[4]), (21.0, 2.0, 0.0));
    assert_eq!(world(&tree, ids[5]), (31.0, 0.0, 3.0));
}

#[test]
fn dirty_propagation_reaches_the_subtree_and_nothing_else() {
    let (mut tree, ids) = small_tree();
    tree.refresh(&compose);
    assert!(tree.set_translation(ids[1], (0.0, 5.0, 0.0)));
    assert_eq!(tree.get_world_matrix(ids[1]), Err(Error::StaleTransform));
    // the pass recomputes a, a1, a2 and leaves root, b, b1 alone: make sure by
    // composing with a function that would move whatever it touches
    let shifted = |parent: Option<&V3>, t: &V3, r: &V3, s: &V3| {
        let m = compose(parent, t, r, s);
        (m.0 + 100.0, m.1, m.2)
    };
    tree.refresh(&shifted);
    assert_eq!(world(&tree, ids[0]), (1.0, 0.0, 0.0));
    assert_eq!(world(&tree, ids[2]), (1.0, 0.0, 3.0));
    assert_eq!(world(&tree, ids[5]), (31.0, 0.0, 3.0));
    assert_eq!(world(&tree, ids[1]), (101.0, 5.0, 0.0));
    assert_eq!(world(&tree, ids[3]), (211.0, 5.0, 0.0));
    assert_eq!(world(&tree, ids[4]), (221.0, 5.0, 0.0));
}

#[test]
fn a_second_pass_recomputes_nothing() {
    let (mut tree, ids) = small_tree();
    tree.refresh(&compose);
    let calls = std::cell::Cell::new(0u32);
    let counting = |parent: Option<&V3>, t: &V3, r: &V3, s: &V3| {
        calls.set(calls.get() + 1);
        compose(parent, t, r, s)
    };
    tree.refresh(&counting);
    assert_eq!(calls.get(), 0);
    assert!(tree.set_scale(ids[2], (2.0, 2.0, 2.0)));
    tree.refresh(&counting);
    assert_eq!(calls.get(), 2);
    assert_eq!(world(&tree, ids[2]), (1.0, 0.0, 6.0));
    assert_eq!(world(&tree, ids[5]), (31.0, 0.0, 6.0));
}

#[test]
fn setters_refuse_dead_and_unknown_transforms() {
    let (mut tree, ids) = small_tree();
    assert!(!tree.set_translation(TransformId { index: 6 }, ZERO));
    assert!(!tree.set_rotation(TransformId { index: 6 }, ZERO));
    assert!(!tree.set_scale(TransformId { index: 6 }, ZERO));
    assert!(tree.destroy(ids[5]));
    assert!(!tree.set_translation(ids[5], ZERO));
    assert!(tree.set_rotation(ids[4], (1.0, 0.0, 0.0)));
    assert_eq!(*tree.get(ids[4]).unwrap().get_rotation(), (1.0, 0.0, 0.0));
}

#[test]
fn destroy_cascades() {
    // root with children left, doomed, right; doomed has two children and four grandchildren
    let mut tree: SceneTree<V3, V3> = SceneTree::new();
    let root = add(&mut tree, None, ZERO);
    let left = add(&mut tree, Some(root), ZERO);
    let doomed = add(&mut tree, Some(root), ZERO);
    let right = add(&mut tree, Some(root), ZERO);
    let c1 = add(&mut tree, Some(doomed), ZERO);
    let c2 = add(&mut tree, Some(doomed), ZERO);
    let g1 = add(&mut tree, Some(c1), ZERO);
    let g2 = add(&mut tree, Some(c1), ZERO);
    let g3 = add(&mut tree, Some(c2), ZERO);
    let g4 = add(&mut tree, Some(c2), ZERO);
    let under_right = add(&mut tree, Some(right), ZERO);
    assert_eq!(tree.len(), 11);

    assert!(tree.destroy(doomed));

    for id in [doomed, c1, c2, g1, g2, g3, g4] {
        assert!(!tree.is_alive(id));
        assert!(tree.get(id).is_none());
        assert_eq!(tree.get_world_matrix(id), Err(Error::MissingReference));
    }
    for id in [root, left, right, under_right] {
        assert!(tree.is_alive(id));
    }
    // the former siblings point at each other
    assert_eq!(tree.get(left).unwrap().next_sibling, Some(right));
    assert_eq!(tree.get(right).unwrap().previous_sibling, Some(left));
    assert_eq!(tree.get(left).unwrap().previous_sibling, None);
    assert_eq!(tree.get(right).unwrap().next_sibling, None);
    assert_eq!(tree.children(root), vec![left, right]);
    assert_eq!(tree.children(right), vec![under_right]);
    assert_eq!(tree.children(doomed), vec![]);

    // the seven slots are taken again before the arena grows
    let mut reused = Vec::new();
    for _ in 0..7 {
        reused.push(add(&mut tree, Some(left), ZERO).index);
    }
    assert_eq!(tree.len(), 11);
    reused.sort();
    let mut freed = vec![doomed.index, c1.index, c2.index, g1.index, g2.index, g3.index, g4.index];
    freed.sort();
    assert_eq!(reused, freed);
    let fresh = add(&mut tree, Some(left), ZERO);
    assert_eq!(fresh.index, 11);
    assert_eq!(tree.len(), 12);
    assert_eq!(tree.children(left).len(), 8);
}

#[test]
fn destroy_first_last_and_only_child() {
    let (mut tree, ids) = small_tree();
    let (root, a, b, a1, a2, b1) = (ids[0], ids[1], ids[2], ids[3], ids[4], ids[5]);
    // first child
    assert!(tree.destroy(a1));
    assert_eq!(tree.get(a).unwrap().first_child, Some(a2));
    assert_eq!(tree.get(a).unwrap().last_child, Some(a2));
    assert_eq!(tree.get(a2).unwrap().previous_sibling, None);
    // only child
    assert!(tree.destroy(b1));
    assert_eq!(tree.get(b).unwrap().first_child, None);
    assert_eq!(tree.get(b).unwrap().last_child, None);
    // last child
    assert!(tree.destroy(b));
    assert_eq!(tree.get(root).unwrap().last_child, Some(a));
    assert_eq!(tree.get(a).unwrap().next_sibling, None);
    // destroying twice finds nothing
    assert!(!tree.destroy(b));
    assert!(!tree.destroy(TransformId { index: 100 }));
    // the most recently freed slot is taken first
    let again = add(&mut tree, None, ZERO);
    assert_eq!(again, b);
}

#[test]
fn destroy_root_empties_the_tree_and_the_pass_still_runs() {
    let (mut tree, ids) = small_tree();
    assert!(tree.destroy(ids[0]));
    for id in &ids {
        assert!(!tree.is_alive(*id));
    }
    tree.refresh(&compose);
    let n = add(&mut tree, None, (4.0, 4.0, 4.0));
    tree.refresh(&compose);
    assert_eq!(world(&tree, n), (4.0, 4.0, 4.0));
    assert_eq!(tree.len(), 6);
}

#[test]
fn set_parent_moves_a_subtree_to_the_end_of_the_new_children() {
    let (mut tree, ids) = small_tree();
    let (root, a, b, a1, a2, b1) = (ids[0], ids[1], ids[2], ids[3], ids[4], ids[5]);
    tree.refresh(&compose);
    // a (with a1, a2) goes under b, behind b1
    assert!(tree.set_parent(a, Some(b)));
    assert_eq!(tree.children(root), vec![b]);
    assert_eq!(tree.children(b), vec![b1, a]);
    assert_eq!(tree.children(a), vec![a1, a2]);
    let node = tree.get(a).unwrap();
    assert_eq!(node.parent, Some(b));
    assert_eq!(node.previous_sibling, Some(b1));
    assert_eq!(node.next_sibling, None);
    assert_eq!(tree.get(b1).unwrap().next_sibling, Some(a));
    assert_eq!(tree.get(b).unwrap().previous_sibling, None);
    assert_eq!(tree.get(b).unwrap().last_child, Some(a));
    assert_eq!(tree.get(root).unwrap().first_child, Some(b));
    assert_eq!(tree.get(root).unwrap().last_child, Some(b));
    // a and what is below it are stale, the rest is not
    assert_eq!(tree.get_world_matrix(a), Err(Error::StaleTransform));
    assert_eq!(world(&tree, b), (1.0, 0.0, 3.0));
    assert_eq!(world(&tree, b1), (31.0, 0.0, 3.0));
    tree.refresh(&compose);
    assert_eq!(world(&tree, a), (1.0, 2.0, 3.0));
    assert_eq!(world(&tree, a1), (11.0, 2.0, 3.0));
    assert_eq!(world(&tree, a2), (21.0, 2.0, 3.0));
}

#[test]
fn set_parent_refuses_cycles_and_the_dead() {
    let (mut tree, ids) = small_tree();
    let (root, a, b, a1, _a2, b1) = (ids[0], ids[1], ids[2], ids[3], ids[4], ids[5]);
    assert!(!tree.set_parent(a, Some(a)));
    assert!(!tree.set_parent(a, Some(a1)));
    assert!(!tree.set_parent(root, Some(b1)));
    assert!(!tree.set_parent(a, Some(TransformId { index: 50 })));
    assert!(!tree.set_parent(TransformId { index: 50 }, Some(a)));
    assert!(tree.destroy(b));
    assert!(!tree.set_parent(a, Some(b)));
    assert!(!tree.set_parent(b1, Some(a)));
    assert!(!tree.make_root(b));
    assert_eq!(tree.children(root), vec![a]);
    assert_eq!(tree.children(a).len(), 2);
}

#[test]
fn make_root_and_back() {
    let (mut tree, ids) = small_tree();
    let (root, a, b, a1, a2, b1) = (ids[0], ids[1], ids[2], ids[3], ids[4], ids[5]);
    tree.refresh(&compose);
    assert!(tree.make_root(a));
    assert_eq!(tree.get(a).unwrap().parent, None);
    assert_eq!(tree.get(a).unwrap().next_sibling, None);
    assert_eq!(tree.children(root), vec![b]);
    assert_eq!(tree.get(b).unwrap().previous_sibling, None);
    tree.refresh(&compose);
    assert_eq!(world(&tree, a), (0.0, 2.0, 0.0));
    assert_eq!(world(&tree, a2), (20.0, 2.0, 0.0));
    // the old root goes under what was its grandchild
    assert!(tree.set_parent(root, Some(a1)));
    assert_eq!(tree.children(a1), vec![root]);
    assert_eq!(tree.children(root), vec![b]);
    tree.refresh(&compose);
    assert_eq!(world(&tree, root), (11.0, 2.0, 0.0));
    assert_eq!(world(&tree, b1), (41.0, 2.0, 3.0));
    // same parent again: the transform moves to the end of the children
    assert!(tree.set_parent(a1, Some(a)));
    assert_eq!(tree.children(a), vec![a2, a1]);
    assert!(tree.set_parent(a, None));
    assert_eq!(tree.get(a).unwrap().parent, None);
    // destroying the new top takes everything with it
    assert!(tree.destroy(a));
    for id in &ids {
        assert!(!tree.is_alive(*id));
    }
}

#[test]
fn freed_slots_are_taken_again_from_the_highest_down() {
    let mut tree: SceneTree<V3, V3> = SceneTree::new();
    let root = add(&mut tree, None, ZERO);
    let doomed = add(&mut tree, Some(root), ZERO);
    let kept = add(&mut tree, Some(root), ZERO);
    let child = add(&mut tree, Some(doomed), ZERO);
    let grandchild = add(&mut tree, Some(child), ZERO);
    assert_eq!((doomed.index, kept.index, child.index, grandchild.index), (1, 2, 3, 4));

    assert!(tree.destroy(doomed));

    assert_eq!(add(&mut tree, Some(kept), ZERO).index, 4);
    assert_eq!(add(&mut tree, Some(kept), ZERO).index, 3);
    assert_eq!(add(&mut tree, Some(kept), ZERO).index, 1);
    assert_eq!(add(&mut tree, Some(kept), ZERO).index, 5);
}
