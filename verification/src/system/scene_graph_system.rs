//! The graph pass: once per frame, before the lights are gathered and before
//! anything is drawn, every stale world matrix is brought up to date.

use vstd::prelude::*;
use crate::scene::transform::SceneTree;

verus! {

/// The pass that refreshes the world matrices of the scene tree.
pub struct SceneGraphSystem;

impl SceneGraphSystem {
    pub fn new() -> (system: SceneGraphSystem)
        ensures
            system == SceneGraphSystem,
    {
        SceneGraphSystem {  }
    }

    /// Runs the pass on `tree`: the living transforms are walked, parents first,
    /// and each one that is dirty, or whose parent was recomputed in this pass, gets
    /// its world matrix composed anew. Afterwards no living transform is dirty.
    pub fn run<V, M, F: Fn(Option<&M>, &V, &V, &V) -> M>(&mut self, tree: &mut SceneTree<V, M>, compose: &F)
        requires
            old(tree).wf(),
            forall|pw: Option<&M>, t: &V, r: &V, s: &V| #[trigger] compose.requires((pw, t, r, s)),
        ensures
            final(tree).wf(),
            final(tree).refreshed(old(tree), compose),
            forall|i: int| final(tree).alive(i) ==> !(#[trigger] final(tree).nodes()[i]).is_dirty(),
    {
        tree.refresh(compose);
    }
}

} // verus!
