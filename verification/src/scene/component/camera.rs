//! A camera component.

use vstd::prelude::*;
use crate::scene::component::ComponentBehaviour;
use crate::scene::transform::TransformId;

verus! {

/// A camera: a projection matrix and the four values it is computed from. The
/// values are carried, not computed on: whoever drives the camera hands in the
/// function that makes a perspective matrix of a field of view, an aspect ratio,
/// a near plane and a far plane.
pub struct Camera<T, M> {
    /// Projection matrix used by the camera.
    projection: M,
    /// Parent Transform of the camera as a TransformId
    parent: Option<TransformId>,
    /// Field of view of the camera
    fov: T,
    /// Aspect ratio of the camera.
    aspect_ratio: T,
    /// Near plane for the camera
    near_z: T,
    /// Far plane for the camera
    far_z: T,
    /// Active state of the camera. Only one camera should be active at a time.
    active: bool,
    /// Marks the projection matrix as dirty, to be re-computed at next frame.
    dirty: bool,
}

impl<T, M> Camera<T, M> {
    pub closed spec fn projection_view(&self) -> M {
        self.projection
    }

    pub closed spec fn parent_view(&self) -> Option<TransformId> {
        self.parent
    }

    pub closed spec fn fov_view(&self) -> T {
        self.fov
    }

    pub closed spec fn aspect_ratio_view(&self) -> T {
        self.aspect_ratio
    }

    pub closed spec fn near_z_view(&self) -> T {
        self.near_z
    }

    pub closed spec fn far_z_view(&self) -> T {
        self.far_z
    }

    pub closed spec fn is_active(&self) -> bool {
        self.active
    }

    pub closed spec fn is_dirty(&self) -> bool {
        self.dirty
    }

    /// Whether `projection` is a perspective matrix of the four values of the camera.
    pub open spec fn projects<F: Fn(&T, &T, &T, &T) -> M>(&self, perspective: &F, projection: M) -> bool {
        perspective.ensures(
            (&self.fov_view(), &self.aspect_ratio_view(), &self.near_z_view(), &self.far_z_view()),
            projection,
        )
    }

    /// Whether two cameras have the same four values, parent and active state.
    pub open spec fn same_setup(&self, other: &Camera<T, M>) -> bool {
        &&& self.fov_view() == other.fov_view()
        &&& self.aspect_ratio_view() == other.aspect_ratio_view()
        &&& self.near_z_view() == other.near_z_view()
        &&& self.far_z_view() == other.far_z_view()
        &&& self.parent_view() == other.parent_view()
        &&& self.is_active() == other.is_active()
    }

    /// Creates a new Camera component from a fov, aspect ratio, near and far plane.
    /// It has no parent, is not active, and its projection matrix is up to date.
    pub fn new<F: Fn(&T, &T, &T, &T) -> M>(fov: T, aspect_ratio: T, nearz: T, farz: T, perspective: &F) -> (camera:
        Camera<T, M>)
        requires
            perspective.requires((&fov, &aspect_ratio, &nearz, &farz)),
        ensures
            camera.fov_view() == fov,
            camera.aspect_ratio_view() == aspect_ratio,
            camera.near_z_view() == nearz,
            camera.far_z_view() == farz,
            camera.parent_view().is_none(),
            !camera.is_active(),
            !camera.is_dirty(),
            camera.projects(perspective, camera.projection_view()),
    {
        let projection = perspective(&fov, &aspect_ratio, &nearz, &farz);
        Camera {
            fov,
            aspect_ratio,
            near_z: nearz,
            far_z: farz,
            projection,
            parent: None,
            active: false,
            dirty: false,
        }
    }

    /// Sets the field of view of the camera
    pub fn set_fov(&mut self, fov: T)
        ensures
            final(self).fov_view() == fov,
            final(self).is_dirty(),
            final(self).aspect_ratio_view() == old(self).aspect_ratio_view(),
            final(self).near_z_view() == old(self).near_z_view(),
            final(self).far_z_view() == old(self).far_z_view(),
            final(self).parent_view() == old(self).parent_view(),
            final(self).is_active() == old(self).is_active(),
            final(self).projection_view() == old(self).projection_view(),
    {
        self.fov = fov;
        self.dirty = true;
    }

    /// Sets the aspect ratio of the camera
    pub fn set_aspect_ratio(&mut self, aspect_ratio: T)
        ensures
            final(self).aspect_ratio_view() == aspect_ratio,
            final(self).is_dirty(),
            final(self).fov_view() == old(self).fov_view(),
            final(self).near_z_view() == old(self).near_z_view(),
            final(self).far_z_view() == old(self).far_z_view(),
            final(self).parent_view() == old(self).parent_view(),
            final(self).is_active() == old(self).is_active(),
            final(self).projection_view() == old(self).projection_view(),
    {
        self.aspect_ratio = aspect_ratio;
        self.dirty = true;
    }

    /// Sets the near plane of the camera
    pub fn set_near_z(&mut self, nearz: T)
        ensures
            final(self).near_z_view() == nearz,
            final(self).is_dirty(),
            final(self).fov_view() == old(self).fov_view(),
            final(self).aspect_ratio_view() == old(self).aspect_ratio_view(),
            final(self).far_z_view() == old(self).far_z_view(),
            final(self).parent_view() == old(self).parent_view(),
            final(self).is_active() == old(self).is_active(),
            final(self).projection_view() == old(self).projection_view(),
    {
        self.near_z = nearz;
        self.dirty = true;
    }

    /// Sets the far plane of the camera
    pub fn set_far_z(&mut self, farz: T)
        ensures
            final(self).far_z_view() == farz,
            final(self).is_dirty(),
            final(self).fov_view() == old(self).fov_view(),
            final(self).aspect_ratio_view() == old(self).aspect_ratio_view(),
            final(self).near_z_view() == old(self).near_z_view(),
            final(self).parent_view() == old(self).parent_view(),
            final(self).is_active() == old(self).is_active(),
            final(self).projection_view() == old(self).projection_view(),
    {
        self.far_z = farz;
        self.dirty = true;
    }

    /// Performs a matrix refresh for the camera based on its fov, aspect ratio, near and far plane.
    pub fn recalculate_matrix<F: Fn(&T, &T, &T, &T) -> M>(&mut self, perspective: &F)
        requires
            perspective.requires(
                (
                    &old(self).fov_view(),
                    &old(self).aspect_ratio_view(),
                    &old(self).near_z_view(),
                    &old(self).far_z_view(),
                ),
            ),
        ensures
            final(self).same_setup(old(self)),
            !final(self).is_dirty(),
            old(self).projects(perspective, final(self).projection_view()),
    {
        self.projection = perspective(&self.fov, &self.aspect_ratio, &self.near_z, &self.far_z);
        self.dirty = false;
    }

    /// The work of one frame: an active camera whose values have changed gets its
    /// projection matrix computed anew; any other camera stays as it is.
    pub fn refresh<F: Fn(&T, &T, &T, &T) -> M>(&mut self, perspective: &F)
        requires
            old(self).is_active() && old(self).is_dirty() ==> perspective.requires(
                (
                    &old(self).fov_view(),
                    &old(self).aspect_ratio_view(),
                    &old(self).near_z_view(),
                    &old(self).far_z_view(),
                ),
            ),
        ensures
            final(self).same_setup(old(self)),
            old(self).is_active() && old(self).is_dirty() ==> !final(self).is_dirty() && old(self).projects(
                perspective,
                final(self).projection_view(),
            ),
            !(old(self).is_active() && old(self).is_dirty()) ==> final(self).is_dirty() == old(self).is_dirty()
                && final(self).projection_view() == old(self).projection_view(),
    {
        if !self.active {
            return;
        }
        if self.dirty {
            self.recalculate_matrix(perspective);
        }
    }

    /// The projection matrix; none while it is out of date.
    pub fn get_projection(&self) -> (projection: Option<&M>)
        ensures
            projection.is_some() == !self.is_dirty(),
            projection.is_some() ==> *projection.unwrap() == self.projection_view(),
    {
        if self.dirty {
            None
        } else {
            Some(&self.projection)
        }
    }
}

impl<T, M> ComponentBehaviour for Camera<T, M> {
    fn get_parent(&self) -> (parent: Option<TransformId>)
        ensures
            parent == self.parent_view(),
    {
        self.parent
    }

    fn set_parent(&mut self, tid: TransformId)
        ensures
            final(self).parent_view() == Some(tid),
            final(self).fov_view() == old(self).fov_view(),
            final(self).aspect_ratio_view() == old(self).aspect_ratio_view(),
            final(self).near_z_view() == old(self).near_z_view(),
            final(self).far_z_view() == old(self).far_z_view(),
            final(self).is_active() == old(self).is_active(),
            final(self).is_dirty() == old(self).is_dirty(),
            final(self).projection_view() == old(self).projection_view(),
    {
        self.parent = Some(tid);
    }

    fn enable(&mut self)
        ensures
            final(self).is_active(),
            final(self).is_dirty() == old(self).is_dirty(),
            final(self).projection_view() == old(self).projection_view(),
            final(self).parent_view() == old(self).parent_view(),
    {
        self.active = true;
    }

    fn disable(&mut self)
        ensures
            !final(self).is_active(),
            final(self).is_dirty() == old(self).is_dirty(),
            final(self).projection_view() == old(self).projection_view(),
            final(self).parent_view() == old(self).parent_view(),
    {
        self.active = false;
    }
}

} // verus!
