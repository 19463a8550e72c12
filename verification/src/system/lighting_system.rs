//! System for registering lights before rendering.
//!
//! Every frame the repository is rebuilt from the enabled entities that carry a
//! light. What kind of light an entity is depends on the other components it
//! carries. All ambiant lights are merged into one; how two lights merge is for
//! the caller to say, since it is arithmetic on colors and intensities.

use vstd::prelude::*;
use crate::component::light::{Cone, Direction, Light};
use crate::renderer::light_repository::{LightConfiguration, LightRepository};

verus! {

/// What kind of light an entity is.
#[derive(Clone, Copy, Debug, PartialEq, Eq)]
pub enum LightKind {
    /// A direction and no cone: lights the scene in a uniform way.
    Directional,
    /// A transform and nothing else: shines from a point in all directions.
    Point,
    /// A direction, a cone and a transform.
    Spot,
    /// None of the three: adds to the ambiant light.
    Ambiant,
    /// Any other combination lights nothing.
    Unlit,
}

/// An enabled entity that carries a light, with what the lighting pass reads of it.
pub struct LightSource<V, T> {
    pub light: Light<V, T>,
    pub direction: Option<Direction<V>>,
    pub cone: Option<Cone<T>>,
    /// The position of the entity in the world, if it has a transform.
    pub world_position: Option<V>,
}

/// The kind of light of an entity with these components.
pub open spec fn kind_of(has_direction: bool, has_cone: bool, has_transform: bool) -> LightKind {
    if has_direction && !has_cone {
        LightKind::Directional
    } else if has_transform && !has_cone && !has_direction {
        LightKind::Point
    } else if has_direction && has_cone && has_transform {
        LightKind::Spot
    } else if !has_transform && !has_cone && !has_direction {
        LightKind::Ambiant
    } else {
        LightKind::Unlit
    }
}

/// Tells what kind of light an entity with these components is.
pub fn classify(has_direction: bool, has_cone: bool, has_transform: bool) -> (kind: LightKind)
    ensures
        kind == kind_of(has_direction, has_cone, has_transform),
{
    if has_direction && !has_cone {
        LightKind::Directional
    } else if has_transform && !has_cone && !has_direction {
        LightKind::Point
    } else if has_direction && has_cone && has_transform {
        LightKind::Spot
    } else if !has_transform && !has_cone && !has_direction {
        LightKind::Ambiant
    } else {
        LightKind::Unlit
    }
}

impl<V, T> LightSource<V, T> {
    /// The kind of light this entity is.
    pub open spec fn kind(&self) -> LightKind {
        kind_of(self.direction.is_some(), self.cone.is_some(), self.world_position.is_some())
    }
}

/// The directional lights among `sources`, in their order, each with its direction.
pub open spec fn directional_of<V, T>(sources: Seq<LightSource<V, T>>) -> Seq<(Light<V, T>, V)>
    decreases sources.len(),
{
    if sources.len() == 0 {
        Seq::empty()
    } else if sources.last().kind() == LightKind::Directional {
        directional_of(sources.drop_last()).push((sources.last().light, sources.last().direction.unwrap().0))
    } else {
        directional_of(sources.drop_last())
    }
}

/// The point lights among `sources`, in their order, each with its position.
pub open spec fn point_of<V, T>(sources: Seq<LightSource<V, T>>) -> Seq<(Light<V, T>, V)>
    decreases sources.len(),
{
    if sources.len() == 0 {
        Seq::empty()
    } else if sources.last().kind() == LightKind::Point {
        point_of(sources.drop_last()).push((sources.last().light, sources.last().world_position.unwrap()))
    } else {
        point_of(sources.drop_last())
    }
}

/// The spot lights among `sources`, in their order, each with its position, direction and cone.
pub open spec fn spot_of<V, T>(sources: Seq<LightSource<V, T>>) -> Seq<(Light<V, T>, V, V, Cone<T>)>
    decreases sources.len(),
{
    if sources.len() == 0 {
        Seq::empty()
    } else if sources.last().kind() == LightKind::Spot {
        spot_of(sources.drop_last()).push(
            (
                sources.last().light,
                sources.last().world_position.unwrap(),
                sources.last().direction.unwrap().0,
                sources.last().cone.unwrap(),
            ),
        )
    } else {
        spot_of(sources.drop_last())
    }
}

/// The ambiant lights among `sources`, in their order.
pub open spec fn ambiant_of<V, T>(sources: Seq<LightSource<V, T>>) -> Seq<Light<V, T>>
    decreases sources.len(),
{
    if sources.len() == 0 {
        Seq::empty()
    } else if sources.last().kind() == LightKind::Ambiant {
        ambiant_of(sources.drop_last()).push(sources.last().light)
    } else {
        ambiant_of(sources.drop_last())
    }
}

/// Whether `result` is what comes of merging `lights` into `start`, one after
/// the other, each merge being one call of `merge` on what has been merged so far.
pub open spec fn merged<V, T, F: Fn(Light<V, T>, &Light<V, T>) -> Light<V, T>>(
    merge: &F,
    start: Light<V, T>,
    lights: Seq<Light<V, T>>,
    result: Light<V, T>,
) -> bool
    decreases lights.len(),
{
    if lights.len() == 0 {
        result == start
    } else {
        exists|so_far: Light<V, T>|
            #![trigger merge.ensures((so_far, &lights.last()), result)]
            merged(merge, start, lights.drop_last(), so_far) && merge.ensures((so_far, &lights.last()), result)
    }
}

/// One more light merged into what had been merged so far.
pub proof fn lemma_merged_step<V, T, F: Fn(Light<V, T>, &Light<V, T>) -> Light<V, T>>(
    merge: &F,
    start: Light<V, T>,
    lights: Seq<Light<V, T>>,
    so_far: Light<V, T>,
    result: Light<V, T>,
)
    requires
        lights.len() > 0,
        merged(merge, start, lights.drop_last(), so_far),
        merge.ensures((so_far, &lights.last()), result),
    ensures
        merged(merge, start, lights, result),
{
}

/// The pass that gathers the lights of the frame.
pub struct LightingSystem;

impl LightingSystem {
    /// What the pass leaves in the repository: the lights of this frame and no
    /// other. The ambiant slot is filled exactly when there is an ambiant light,
    /// with all of them merged into `darkness` in their order.
    pub open spec fn gathered<V, T, F: Fn(Light<V, T>, &Light<V, T>) -> Light<V, T>>(
        repository: &LightRepository<V, T>,
        sources: Seq<LightSource<V, T>>,
        darkness: Light<V, T>,
        merge: &F,
    ) -> bool {
        &&& repository.directional@ == directional_of(sources)
        &&& repository.point@ == point_of(sources)
        &&& repository.spot@ == spot_of(sources)
        &&& repository.ambiant.is_some() == (ambiant_of(sources).len() > 0)
        &&& repository.ambiant.is_some() ==> merged(
            merge,
            darkness,
            ambiant_of(sources),
            repository.ambiant.unwrap(),
        )
    }

    /// Rebuilds the repository from the enabled light-bearing entities of the
    /// frame; nothing of the previous frame stays. `darkness` is the light that
    /// the ambiant lights are merged into, and `merge` adds one light to what has
    /// been merged so far.
    pub fn run<V, T, F: Fn(Light<V, T>, &Light<V, T>) -> Light<V, T>>(
        &mut self,
        sources: Vec<LightSource<V, T>>,
        repository: &mut LightRepository<V, T>,
        configuration: &mut LightConfiguration,
        darkness: Light<V, T>,
        merge: &F,
    )
        requires
            forall|so_far: Light<V, T>, light: &Light<V, T>| #[trigger] merge.requires((so_far, light)),
        ensures
            Self::gathered(final(repository), sources@, darkness, merge),
            final(configuration).directional == directional_of(sources@).len(),
            final(configuration).point == point_of(sources@).len(),
            final(configuration).spot == spot_of(sources@).len(),
    {
        repository.ambiant = None;
        repository.directional = Vec::new();
        repository.point = Vec::new();
        repository.spot = Vec::new();
        let mut ambiant = darkness;
        let mut some_ambiant = false;
        let ghost all = sources@;
        for source in it: sources
            invariant
                it.seq() == all,
                forall|so_far: Light<V, T>, light: &Light<V, T>| #[trigger] merge.requires((so_far, light)),
                repository.ambiant.is_none(),
                repository.directional@ == directional_of(all.take(it.index() as int)),
                repository.point@ == point_of(all.take(it.index() as int)),
                repository.spot@ == spot_of(all.take(it.index() as int)),
                some_ambiant == (ambiant_of(all.take(it.index() as int)).len() > 0),
                merged(merge, darkness, ambiant_of(all.take(it.index() as int)), ambiant),
        {
            proof {
                let done = all.take(it.index() as int + 1);
                assert(done.drop_last() =~= all.take(it.index() as int));
                assert(done.last() == source);
            }
            let LightSource { light, direction, cone, world_position } = source;
            match classify(direction.is_some(), cone.is_some(), world_position.is_some()) {
                LightKind::Directional => {
                    let Direction(towards) = direction.unwrap();
                    repository.directional.push((light, towards));
                },
                LightKind::Point => {
                    repository.point.push((light, world_position.unwrap()));
                },
                LightKind::Spot => {
                    let Direction(towards) = direction.unwrap();
                    repository.spot.push((light, world_position.unwrap(), towards, cone.unwrap()));
                },
                LightKind::Ambiant => {
                    some_ambiant = true;
                    let ghost so_far = ambiant;
                    ambiant = merge(ambiant, &light);
                    proof {
                        let before = all.take(it.index() as int);
                        let done = all.take(it.index() as int + 1);
                        assert(done.last().kind() == LightKind::Ambiant);
                        assert(ambiant_of(done) == ambiant_of(before).push(light));
                        assert(ambiant_of(done).drop_last() =~= ambiant_of(before));
                        assert(ambiant_of(done).last() == light);
                        assert(merged(merge, darkness, ambiant_of(done).drop_last(), so_far));
                        assert(merge.ensures((so_far, &ambiant_of(done).last()), ambiant));
                        lemma_merged_step(merge, darkness, ambiant_of(done), so_far, ambiant);
                    }
                },
                LightKind::Unlit => {},
            }
            proof {
                let before = all.take(it.index() as int);
                let done = all.take(it.index() as int + 1);
                if done.last().kind() != LightKind::Ambiant {
                    assert(ambiant_of(done) == ambiant_of(before));
                }
                assert(merged(merge, darkness, ambiant_of(done), ambiant));
            }
        }
        assert(all.take(all.len() as int) =~= all);
        if some_ambiant {
            repository.ambiant = Some(ambiant);
        }
        configuration.directional = repository.directional.len();
        configuration.point = repository.point.len();
        configuration.spot = repository.spot.len();
    }
}

} // verus!
