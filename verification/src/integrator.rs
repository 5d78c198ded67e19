//! The bounce loop of the path integrator, as a machine that is told what
//! each ray met and answers with what to do next.

use crate::scalar::Scalar;
use vstd::prelude::*;

verus! {

/// Pattern of `100.0`, the depth of a camera ray that meets nothing.
pub const FAR_DEPTH_BITS: u32 = 0x42C8_0000;

/// The depth that a camera ray leaves in the frame buffer: the distance to
/// the first surface it met, or the far depth where it met none.
pub open spec fn spec_first_depth(distance: Option<Scalar>) -> Scalar {
    match distance {
        Some(x) => x,
        None => Scalar { bits: FAR_DEPTH_BITS },
    }
}

#[verifier::when_used_as_spec(spec_first_depth)]
pub fn first_depth(distance: Option<Scalar>) -> (d: Scalar)
    ensures
        d == spec_first_depth(distance),
{
    match distance {
        Some(x) => x,
        None => Scalar::from_bits(FAR_DEPTH_BITS),
    }
}

/// What the ray that is being followed met.
#[derive(Clone, Copy, Debug, PartialEq, Eq, Structural)]
pub enum Surface {
    /// Nothing: the ray leaves the scene.
    Miss,
    /// A surface that gives no outgoing ray.
    Absorbs,
    /// A surface that gives an outgoing ray.
    Scatters,
}

/// What the integrator does with the surface it was told of.
#[derive(Clone, Copy, Debug, PartialEq, Eq, Structural)]
pub enum Action {
    /// Leave the loop and shade the background with what was gathered.
    Shade,
    /// Take the surface's attenuation in, then leave the loop and shade.
    AttenuateAndShade,
    /// Take the surface's attenuation in and follow the outgoing ray.
    AttenuateAndFollow,
}

/// One camera ray's way through the scene.
#[derive(Clone, Copy, Debug, PartialEq, Eq, Structural)]
pub struct Path {
    /// The largest number of bounces after which a surface is still looked at.
    pub limit: i32,
    /// Outgoing rays followed so far.
    pub bounces: u32,
    /// Whether the loop was left.
    pub finished: bool,
}

impl Path {
    pub open spec fn spec_new(limit: i32) -> Path {
        Path { limit, bounces: 0, finished: false }
    }

    /// The state and the action that follow on `met`.
    pub open spec fn spec_step(self, met: Surface) -> (Path, Action) {
        if self.finished || self.bounces > self.limit {
            (Path { finished: true, ..self }, Action::Shade)
        } else {
            match met {
                Surface::Miss => (Path { finished: true, ..self }, Action::Shade),
                Surface::Absorbs => (Path { finished: true, ..self }, Action::AttenuateAndShade),
                Surface::Scatters => (
                    Path { bounces: (self.bounces + 1) as u32, ..self },
                    Action::AttenuateAndFollow,
                ),
            }
        }
    }

    /// How many attenuations this path can still take in.
    pub open spec fn room(self) -> nat {
        if self.finished || self.bounces > self.limit {
            0
        } else {
            (self.limit + 1 - self.bounces) as nat
        }
    }

    /// A path at its camera ray.
    #[verifier::when_used_as_spec(spec_new)]
    pub fn new(limit: i32) -> (p: Path)
        ensures
            p == Path::spec_new(limit),
    {
        Path { limit, bounces: 0, finished: false }
    }

    /// Whether the path still looks at what its ray meets. Once it does not,
    /// it answers `Shade` whatever it is told.
    pub fn active(&self) -> (r: bool)
        ensures
            r == (self.room() > 0),
            !r ==> forall|met: Surface| (#[trigger] self.spec_step(met)).1 == Action::Shade,
    {
        !self.finished && self.limit >= 0 && self.bounces <= self.limit as u32
    }

    /// Tells the path what its ray met; answers with what to do.
    pub fn step(&mut self, met: Surface) -> (a: Action)
        ensures
            (*final(self), a) == old(self).spec_step(met),
    {
        if self.finished || self.limit < 0 || self.bounces > self.limit as u32 {
            self.finished = true;
            return Action::Shade;
        }
        match met {
            Surface::Miss => {
                self.finished = true;
                Action::Shade
            },
            Surface::Absorbs => {
                self.finished = true;
                Action::AttenuateAndShade
            },
            Surface::Scatters => {
                self.bounces = self.bounces + 1;
                Action::AttenuateAndFollow
            },
        }
    }
}

/// One if the action takes an attenuation in, zero if not.
pub open spec fn weight(a: Action) -> nat {
    if a == Action::Shade {
        0
    } else {
        1
    }
}

/// How many attenuations a path takes in while it is told of `met`, one
/// surface after the other.
pub open spec fn attenuations(p: Path, met: Seq<Surface>) -> nat
    decreases met.len(),
{
    if met.len() == 0 {
        0
    } else {
        let (q, a) = p.spec_step(met[0]);
        weight(a) + attenuations(q, met.skip(1))
    }
}

/// How many outgoing rays a path follows while it is told of `met`.
pub open spec fn followed(p: Path, met: Seq<Surface>) -> nat
    decreases met.len(),
{
    if met.len() == 0 {
        0
    } else {
        let (q, a) = p.spec_step(met[0]);
        (if a == Action::AttenuateAndFollow {
            1nat
        } else {
            0nat
        }) + followed(q, met.skip(1))
    }
}

/// Whatever a path meets, it takes in no more attenuations than it has room
/// for, and follows no more rays than that.
pub proof fn lemma_room_bounds_path(p: Path, met: Seq<Surface>)
    ensures
        followed(p, met) <= attenuations(p, met) <= p.room(),
    decreases met.len(),
{
    if met.len() > 0 {
        let (q, a) = p.spec_step(met[0]);
        lemma_room_bounds_path(q, met.skip(1));
    }
}

/// A camera ray under bounce limit `limit` gathers at most `limit + 1`
/// attenuations, and none under a negative limit: the loop is bounded whatever
/// the scene.
pub proof fn lemma_bounce_limit_bounds_path(limit: i32, met: Seq<Surface>)
    ensures
        attenuations(Path::new(limit), met) <= if limit < 0 {
            0
        } else {
            limit + 1
        },
{
    lemma_room_bounds_path(Path::new(limit), met);
}

/// Under a bounce limit that is not negative the first surface always
/// counts, so a camera ray that meets a surface gathers between one and
/// `limit + 1` attenuations: exactly one under bounce limit 0.
pub proof fn lemma_first_surface_counts(limit: i32, met: Seq<Surface>)
    requires
        limit >= 0,
        met.len() > 0,
        met[0] != Surface::Miss,
    ensures
        1 <= attenuations(Path::new(limit), met) <= limit + 1,
{
    lemma_room_bounds_path(Path::new(limit), met);
}

/// A camera ray that meets nothing gathers no attenuation.
pub proof fn lemma_escape_is_unattenuated(limit: i32, met: Seq<Surface>)
    requires
        met.len() > 0,
        met[0] == Surface::Miss,
    ensures
        attenuations(Path::new(limit), met) == 0,
{
    let (q, a) = Path::new(limit).spec_step(met[0]);
    lemma_room_bounds_path(q, met.skip(1));
}

/// Once a path has answered with a shading action, it answers `Shade` to
/// everything and changes no more.
pub proof fn lemma_finished_stays(p: Path, met: Surface, next: Surface)
    requires
        p.spec_step(met).1 != Action::AttenuateAndFollow,
    ensures
        p.spec_step(met).0.spec_step(next) == (p.spec_step(met).0, Action::Shade),
{
}

} // verus!
