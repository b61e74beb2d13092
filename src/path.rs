use vstd::prelude::*;

verus! {

/// What the scene reported for one traced ray.
#[derive(Debug, Clone, Copy, PartialEq, Eq, Structural)]
pub enum Interaction {
    /// The ray struck nothing within the valid distance range.
    Missed,
    /// The ray struck a surface whose material absorbed it.
    Absorbed,
    /// The ray struck a surface whose material sent out a new ray.
    Scattered,
}

/// How a traced path ended, which decides the colour of its sample.
#[derive(Debug, Clone, Copy, PartialEq, Eq, Structural)]
pub enum PathEnd {
    /// The last ray left the scene: the sample is the sky colour in its
    /// direction, filtered by every attenuation gathered on the way.
    Sky,
    /// A surface absorbed the ray: the sample is black.
    Absorbed,
    /// The bounce budget ran out before the path escaped: the sample is black.
    Exhausted,
}

/// What the integrator has to do next for a path.
#[derive(Debug, Clone, Copy, PartialEq, Eq, Structural)]
pub enum PathStep {
    /// Intersect the current ray with the scene and report the interaction.
    Trace,
    /// The path is over.
    Done(PathEnd),
}

/// How a path with a budget of `depth` rays ends, given the interactions
/// reported for its rays in order; `None` while it needs more rays.
/// A budget of zero or less ends the path black before any ray is cast;
/// a miss ends it in the sky, an absorption ends it black, and a scatter
/// goes on with one ray less in the budget.
pub open spec fn path_end(depth: int, events: Seq<Interaction>) -> Option<PathEnd>
    decreases events.len(),
{
    if depth <= 0 {
        Some(PathEnd::Exhausted)
    } else if events.len() == 0 {
        None
    } else {
        match events[0] {
            Interaction::Missed => Some(PathEnd::Sky),
            Interaction::Absorbed => Some(PathEnd::Absorbed),
            Interaction::Scattered => path_end(depth - 1, events.drop_first()),
        }
    }
}

/// A path that is still open has only scattered so far, has spent less than
/// its budget, and goes on from the rest of its budget.
pub proof fn lemma_open_path_continues(depth: int, history: Seq<Interaction>, rest: Seq<Interaction>)
    requires
        path_end(depth, history) is None,
    ensures
        history.len() < depth,
        forall|k: int| 0 <= k < history.len() ==> history[k] == Interaction::Scattered,
        path_end(depth, history + rest) == path_end(depth - history.len(), rest),
    decreases history.len(),
{
    if history.len() > 0 {
        let tail = history.drop_first();
        lemma_open_path_continues(depth - 1, tail, rest);
        assert((history + rest).drop_first() =~= tail + rest);
        assert forall|k: int| 0 <= k < history.len() implies history[k]
            == Interaction::Scattered by {
            if k > 0 {
                assert(history[k] == tail[k - 1]);
            }
        }
    } else {
        assert(history + rest =~= rest);
    }
}

/// No path traces more rays than its budget: once `depth` interactions are
/// known, the path is over.
pub proof fn lemma_budget_bounds_rays(depth: int, events: Seq<Interaction>)
    requires
        events.len() >= depth,
    ensures
        path_end(depth, events) is Some,
{
    if path_end(depth, events) is None {
        lemma_open_path_continues(depth, events, Seq::empty());
    }
}

/// A positive budget runs out only when each of its rays scattered.
pub proof fn lemma_exhausted_means_all_scattered(depth: int, events: Seq<Interaction>)
    requires
        depth > 0,
        path_end(depth, events) == Some(PathEnd::Exhausted),
    ensures
        events.len() >= depth,
        forall|k: int| 0 <= k < depth ==> events[k] == Interaction::Scattered,
    decreases events.len(),
{
    let tail = events.drop_first();
    if depth > 1 {
        lemma_exhausted_means_all_scattered(depth - 1, tail);
    }
    assert forall|k: int| 0 <= k < depth implies events[k] == Interaction::Scattered by {
        if k > 0 {
            assert(events[k] == tail[k - 1]);
        }
    }
}

/// A path ends in the sky only through a ray that missed, within the
/// budget, after rays that all scattered; the result is that ray's position.
pub proof fn lemma_sky_means_escape(depth: int, events: Seq<Interaction>) -> (k: int)
    requires
        path_end(depth, events) == Some(PathEnd::Sky),
    ensures
        0 <= k < events.len(),
        k < depth,
        events[k] == Interaction::Missed,
        forall|m: int| 0 <= m < k ==> events[m] == Interaction::Scattered,
    decreases events.len(),
{
    if events[0] == Interaction::Missed {
        0
    } else {
        let tail = events.drop_first();
        let k = lemma_sky_means_escape(depth - 1, tail);
        assert forall|m: int| 0 <= m < k + 1 implies events[m] == Interaction::Scattered by {
            if m > 0 {
                assert(events[m] == tail[m - 1]);
            }
        }
        k + 1
    }
}

/// In a scene with no objects every ray misses, so with a budget of at least
/// one ray every path ends in the sky after its first ray.
pub proof fn lemma_empty_scene_shows_sky(depth: int, events: Seq<Interaction>)
    requires
        depth >= 1,
        events.len() >= 1,
        forall|k: int| 0 <= k < events.len() ==> events[k] == Interaction::Missed,
    ensures
        path_end(depth, events) == Some(PathEnd::Sky),
        path_end(depth, Seq::empty()) is None,
{
    assert(events[0] == Interaction::Missed);
}

/// With a budget of one ray, a ray that scatters ends the path black: the
/// scattered ray is never traced.
pub proof fn lemma_single_bounce_budget(events: Seq<Interaction>)
    requires
        events.len() >= 1,
        events[0] == Interaction::Scattered,
    ensures
        path_end(1, events) == Some(PathEnd::Exhausted),
{
    assert(path_end(0, events.drop_first()) == Some(PathEnd::Exhausted));
}

/// Decision state of one path: how much of the bounce budget is left and
/// whether the path is over.
pub struct PathWalk {
    max_depth: i32,
    depth_left: i32,
    end: Option<PathEnd>,
    history: Ghost<Seq<Interaction>>,
}

impl PathWalk {
    /// The budget of rays the path was started with.
    pub closed spec fn budget(&self) -> int {
        self.max_depth as int
    }

    /// The interactions reported so far, in order.
    pub closed spec fn history(&self) -> Seq<Interaction> {
        self.history@
    }

    /// How the path has ended, or `None` while it needs another ray.
    pub open spec fn outcome(&self) -> Option<PathEnd> {
        path_end(self.budget(), self.history())
    }

    /// The step that the path state stands for.
    pub open spec fn step_spec(&self) -> PathStep {
        match self.outcome() {
            Some(e) => PathStep::Done(e),
            None => PathStep::Trace,
        }
    }

    /// Well-formedness: the decision state agrees with the history.
    pub closed spec fn wf(&self) -> bool {
        &&& self.end is None ==> self.history@.len() + self.depth_left == self.max_depth
        &&& path_end(self.max_depth as int, self.history@) == match self.end {
            Some(e) => Some(e),
            None => if self.depth_left <= 0 {
                Some(PathEnd::Exhausted)
            } else {
                None
            },
        }
    }

    /// A fresh path with a budget of `max_depth` rays.
    pub fn new(max_depth: i32) -> (w: PathWalk)
        ensures
            w.wf(),
            w.budget() == max_depth,
            w.history() == Seq::<Interaction>::empty(),
    {
        PathWalk { max_depth, depth_left: max_depth, end: None, history: Ghost(Seq::empty()) }
    }

    /// What to do next: trace another ray, or stop with the path's end.
    pub fn step(&self) -> (s: PathStep)
        requires
            self.wf(),
        ensures
            s == self.step_spec(),
    {
        match self.end {
            Some(e) => PathStep::Done(e),
            None => if self.depth_left <= 0 {
                PathStep::Done(PathEnd::Exhausted)
            } else {
                PathStep::Trace
            },
        }
    }

    /// Reports what the scene did with the ray that `step` asked to trace.
    pub fn record(&mut self, event: Interaction)
        requires
            old(self).wf(),
            old(self).outcome() is None,
        ensures
            final(self).wf(),
            final(self).budget() == old(self).budget(),
            final(self).history() == old(self).history().push(event),
    {
        let ghost before = self.history@;
        proof {
            lemma_open_path_continues(self.max_depth as int, before, seq![event]);
            assert(before + seq![event] =~= before.push(event));
            assert(seq![event].drop_first() =~= Seq::<Interaction>::empty());
        }
        match event {
            Interaction::Missed => {
                self.end = Some(PathEnd::Sky);
            },
            Interaction::Absorbed => {
                self.end = Some(PathEnd::Absorbed);
            },
            Interaction::Scattered => {
                proof {
                    let rest = seq![event].drop_first();
                    assert(path_end(self.depth_left - 1, rest) == if self.depth_left - 1 <= 0 {
                        Some(PathEnd::Exhausted)
                    } else {
                        None::<PathEnd>
                    });
                }
                self.depth_left = self.depth_left - 1;
            },
        }
        self.history = Ghost(before.push(event));
    }
}

} // verus!
