//! Components: while a transform holds the position in space and in the scene
//! tree, components hold the logic and the data of a scene object.

pub mod camera;

use vstd::prelude::*;
use crate::scene::transform::TransformId;

verus! {

/// A component attaches to a Transform and gives it functionality. It handles the
/// life cycle of a scene object.
pub trait Component {
    /// Returns the parent Transform of the component.
    fn get_parent(&self) -> &TransformId;

    /// Function executed when the component is appended to its parent transform.
    fn initialize(&self) -> () {
    }

    /// Function to enable this component
    fn enable(&self) -> () {
    }

    /// Function executed at the start of the first frame.
    fn start(&self) -> () {
    }

    /// Function executed each frame.
    fn update(&self) -> () {
    }

    /// Function to disable this component.
    fn disable(&self) -> () {
    }

    /// Function executed before destroying the component.
    fn destroy(&self) -> () {
    }
}

/// The functionality every component needs, for components that change in the
/// course of their life.
pub trait ComponentBehaviour {
    /// Returns the parent Transform of the component.
    fn get_parent(&self) -> Option<TransformId>;

    /// Sets the current parent of the component
    fn set_parent(&mut self, tid: TransformId) -> ();

    /// Function executed when the component is appended to its parent transform.
    fn initialize(&mut self) -> () {
    }

    /// Function to enable this component
    fn enable(&mut self) -> () {
    }

    /// Function executed at the start of the first frame.
    fn start(&mut self) -> () {
    }

    /// Function executed each frame.
    fn update(&mut self) -> () {
    }

    /// Function to disable this component.
    fn disable(&mut self) -> () {
    }

    /// Function executed before destroying the component.
    fn destroy(&mut self) -> () {
    }
}

/// A typed id for components.
#[derive(Hash, Copy, Clone, PartialEq, Eq, Debug)]
pub struct ComponentId {
    pub index: usize,
}

} // verus!
