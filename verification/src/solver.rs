//! The physics solver: a fixed-timestep accumulator that moves one actor's
//! box under gravity and control input, and resolves its collisions with
//! static tiles.
//!
//! Real time is banked as a tick budget. Each whole tick applies gravity,
//! moves the box by control plus force, gathers the tiles that the box now
//! touches, nearest first, and pushes the box off them in up to three
//! passes. What is left of the budget carries over to the next call.
//!
//! Coordinates are machine integers. A tick is run only from a state whose
//! centre and force leave room for its arithmetic; an actor that has left
//! that range runs no tick, and the time it was given stays in the budget.

use vstd::prelude::*;
use crate::collide::{Collide, Push, collide_push, horz_push, push_of, vert_push};
use crate::geometry::{Aabb, COORD_MAX, Rect, Vec2i, abs};

verus! {

/// Largest half-extent of the actor and of a tile: 2^29. The squared
/// distance of two boxes that touch then fits a candidate's `dist`.
pub const EXTENT_MAX: i64 = 0x2000_0000;

/// Largest number of tiles: 2^24. Three passes of the longest push off each
/// of them move the box by less than 2^57.
pub const SOLIDS_MAX: usize = 0x100_0000;

/// Longest push along one axis off a tile that the box touches: four
/// half-extents, 2^31.
pub const PUSH_MAX: i64 = 0x8000_0000;

/// Largest control component, largest gravity, and largest force component
/// with which a tick is run: 2^55.
pub const SPEED_MAX: i64 = 0x80_0000_0000_0000;

/// Largest magnitude of the actor's centre with which a tick is run: 2^58.
/// One tick moves the box by control, force and three passes of pushes, which
/// from here stays within the range of a coordinate.
pub const REACH_MAX: i64 = 0x400_0000_0000_0000;

/// Passes of collision resolution per tick.
pub const PASSES: usize = 3;

/// A static tile: its box and shape.
#[derive(Clone, Copy, Debug, PartialEq, Eq, Structural)]
pub struct Solid {
    pub shape: Collide,
    pub aabb: Aabb,
}

/// A tile that the actor's box touched when the tick's candidates were
/// gathered, with the squared distance of its centre from the box's.
#[derive(Clone, Copy, Debug, PartialEq, Eq, Structural)]
pub struct Candidate {
    pub dist: i64,
    pub shape: Collide,
    pub aabb: Aabb,
}

/// The mathematical candidate.
pub struct Target {
    pub dist: int,
    pub shape: Collide,
    pub rect: Rect,
}

impl View for Candidate {
    type V = Target;

    open spec fn view(&self) -> Target {
        Target { dist: self.dist as int, shape: self.shape, rect: self.aabb@ }
    }
}

/// One push of a tick, as it is kept for the debug view: the pass it came
/// in, the shape that pushed, the push, and the forces it dampened.
#[derive(Clone, Copy, Debug, PartialEq, Eq, Structural)]
pub struct PushRecord {
    pub pass: usize,
    pub shape: Collide,
    pub push: Vec2i,
    pub damph: bool,
    pub dampv: bool,
}

/// The mathematical push record.
pub struct PushNote {
    pub pass: int,
    pub shape: Collide,
    pub push: Push,
}

impl View for PushRecord {
    type V = PushNote;

    open spec fn view(&self) -> PushNote {
        PushNote {
            pass: self.pass as int,
            shape: self.shape,
            push: (self.push.x as int, self.push.y as int, self.damph, self.dampv),
        }
    }
}

/// What one tick did, for the debug view: the tiles that the moved box
/// touched, nearest first, and the pushes in the order they were made.
#[derive(Clone, Debug)]
pub struct TickRecord {
    pub collisions: Vec<Candidate>,
    pub pushes: Vec<PushRecord>,
}

/// The actor's movement state.
#[derive(Clone, Copy, Debug, PartialEq, Eq, Structural)]
pub struct Movement {
    /// Velocity asked for by the controls, per tick.
    pub ctl: Vec2i,
    /// Velocity built up by gravity, per tick; it lasts until a contact
    /// dampens it.
    pub force: Vec2i,
    /// The displacement that the last call came to.
    pub out: Vec2i,
    /// Whether a contact pushed the actor down while the controls asked for
    /// up.
    pub climb: bool,
}

impl Default for Movement {
    /// An actor at rest.
    fn default() -> (v: Movement)
        ensures
            v == (Movement {
                ctl: Vec2i::zero(),
                force: Vec2i::zero(),
                out: Vec2i::zero(),
                climb: false,
            }),
    {
        let zero = Vec2i { x: 0, y: 0 };
        Movement { ctl: zero, force: zero, out: zero, climb: false }
    }
}

/// Tick budget left over from earlier calls.
#[derive(Clone, Copy, Debug, PartialEq, Eq, Structural)]
pub struct PhysicsTick(pub u64);

/// The constants of the simulation.
#[derive(Clone, Copy, Debug, PartialEq, Eq, Structural)]
pub struct Physics {
    /// What every tick takes off the vertical force.
    pub gravity: i64,
    /// Ticks per second.
    pub tick_rate: u64,
    /// Units of time per second.
    pub time_scale: u64,
}

impl Physics {
    /// Gravity pulls down, within limits, and a tick costs some budget.
    pub open spec fn wf(self) -> bool {
        &&& 0 <= self.gravity <= SPEED_MAX
        &&& 0 < self.time_scale
    }
}

/// What a tick works on: the box's centre, the force, and the climb flag.
pub struct Sim {
    pub cx: int,
    pub cy: int,
    pub fx: int,
    pub fy: int,
    pub climb: bool,
}

/// What stays the same over a call.
pub struct Scene {
    pub hx: int,
    pub hy: int,
    pub ctl_x: int,
    pub ctl_y: int,
    pub gravity: int,
}

/// The actor's box in state `sim`.
pub open spec fn body(sim: Sim, scene: Scene) -> Rect {
    Rect { cx: sim.cx, cy: sim.cy, hx: scene.hx, hy: scene.hy }
}

/// The views of a list of candidates.
pub open spec fn targets_of(cands: Seq<Candidate>) -> Seq<Target> {
    Seq::new(cands.len(), |i: int| cands[i]@)
}

/// The candidate that a tile makes for the box `b`.
pub open spec fn target_of(s: Solid, b: Rect) -> Target {
    Target { dist: b.center_distance_squared(s.aabb@), shape: s.shape, rect: s.aabb@ }
}

/// The tiles among the first `i` that touch the box `b`, in their order.
pub open spec fn gathered(solids: Seq<Solid>, b: Rect, i: int) -> Seq<Target>
    decreases i,
{
    if i <= 0 {
        Seq::empty()
    } else if b.overlaps(solids[i - 1].aabb@) {
        gathered(solids, b, i - 1).push(target_of(solids[i - 1], b))
    } else {
        gathered(solids, b, i - 1)
    }
}

/// Where a candidate at distance `dist` goes among the first `n` of a list
/// that is ordered by distance: behind the last one that is not farther.
pub open spec fn insertion_point(sorted: Seq<Target>, dist: int, n: int) -> int
    decreases n,
{
    if n <= 0 {
        0
    } else if sorted[n - 1].dist <= dist {
        n
    } else {
        insertion_point(sorted, dist, n - 1)
    }
}

/// The first `i` candidates ordered by distance, nearest first; candidates
/// at one distance keep their order.
pub open spec fn sorted_at(cands: Seq<Target>, i: int) -> Seq<Target>
    decreases i,
{
    if i <= 0 {
        Seq::empty()
    } else {
        let prev = sorted_at(cands, i - 1);
        prev.insert(insertion_point(prev, cands[i - 1].dist, prev.len() as int), cands[i - 1])
    }
}

/// All candidates ordered by distance, nearest first.
pub open spec fn nearest_first(cands: Seq<Target>) -> Seq<Target> {
    sorted_at(cands, cands.len() as int)
}

/// Whether distances never go down along the list.
pub open spec fn ordered(cands: Seq<Target>) -> bool {
    forall|i: int, j: int| 0 <= i <= j < cands.len() ==> cands[i].dist <= cands[j].dist
}

/// Where `insertion_point` puts a candidate, nothing before it is farther
/// and everything behind it is.
pub proof fn lemma_insertion_point(sorted: Seq<Target>, dist: int, n: int)
    requires
        0 <= n <= sorted.len(),
        ordered(sorted),
    ensures
        0 <= insertion_point(sorted, dist, n) <= n,
        forall|j: int| 0 <= j < insertion_point(sorted, dist, n) ==> sorted[j].dist <= dist,
        forall|j: int| insertion_point(sorted, dist, n) <= j < n ==> sorted[j].dist > dist,
    decreases n,
{
    if n > 0 && !(sorted[n - 1].dist <= dist) {
        lemma_insertion_point(sorted, dist, n - 1);
    }
}

/// Sorting keeps every candidate, as often as it was there, and leaves the
/// list ordered by distance.
pub proof fn lemma_sorted_at(cands: Seq<Target>, i: int)
    requires
        0 <= i <= cands.len(),
    ensures
        sorted_at(cands, i).len() == i,
        ordered(sorted_at(cands, i)),
        sorted_at(cands, i).to_multiset() == cands.take(i).to_multiset(),
    decreases i,
{
    if i <= 0 {
        assert(cands.take(0) =~= Seq::<Target>::empty());
    } else {
        lemma_sorted_at(cands, i - 1);
        let prev = sorted_at(cands, i - 1);
        let x = cands[i - 1];
        let pos = insertion_point(prev, x.dist, prev.len() as int);
        lemma_insertion_point(prev, x.dist, prev.len() as int);
        let cur = prev.insert(pos, x);
        prev.insert_ensures(pos, x);
        assert(ordered(cur)) by {
            assert forall|a: int, b: int| 0 <= a <= b < cur.len() implies cur[a].dist
                <= cur[b].dist by {
                if a < pos && b > pos {
                    assert(cur[a] == prev[a] && cur[b] == prev[b - 1]);
                } else if a < pos && b < pos {
                    assert(cur[a] == prev[a] && cur[b] == prev[b]);
                } else if a > pos {
                    assert(cur[a] == prev[a - 1] && cur[b] == prev[b - 1]);
                } else if a == pos && b > pos {
                    assert(cur[b] == prev[b - 1]);
                }
            }
        }
        vstd::seq_lib::to_multiset_insert(prev, pos, x);
        assert(cands.take(i) =~= cands.take(i - 1).push(x));
        vstd::seq_lib::to_multiset_build(cands.take(i - 1), x);
    }
}

/// Whether a sideways push runs against the horizontal force.
pub open spec fn opposes(push_x: int, force_x: int) -> bool {
    (push_x > 0 && force_x < 0) || (push_x < 0 && force_x > 0)
}

/// The state after the push `p`: the box is moved by it; a vertical damping
/// clears the vertical force, and sets the climb flag when the push points
/// down while the controls point up; a horizontal damping clears a
/// horizontal force that runs against the push.
pub open spec fn after_push(sim: Sim, scene: Scene, p: Push) -> Sim {
    Sim {
        cx: sim.cx + p.0,
        cy: sim.cy + p.1,
        fx: if p.2 && opposes(p.0, sim.fx) {
            0
        } else {
            sim.fx
        },
        fy: if p.3 {
            0
        } else {
            sim.fy
        },
        climb: sim.climb || (p.3 && scene.ctl_y > 0 && p.1 < 0),
    }
}

/// A push that dampens vertical force leaves none, one that dampens
/// horizontal force leaves none that runs against it, and no push changes a
/// force otherwise.
pub proof fn lemma_push_dampens(sim: Sim, scene: Scene, p: Push)
    ensures
        p.3 ==> after_push(sim, scene, p).fy == 0,
        !p.3 ==> after_push(sim, scene, p).fy == sim.fy,
        p.2 ==> !opposes(p.0, after_push(sim, scene, p).fx),
        after_push(sim, scene, p).fx == sim.fx || after_push(sim, scene, p).fx == 0,
        !p.2 ==> after_push(sim, scene, p).fx == sim.fx,
{
}

/// Whether the candidate `t` pushes the box in state `sim`: the two touch and
/// the shape's push is not zero.
pub open spec fn is_pushed(sim: Sim, scene: Scene, t: Target) -> bool {
    let p = push_of(body(sim, scene), t.shape, t.rect);
    body(sim, scene).overlaps(t.rect) && (p.0 != 0 || p.1 != 0)
}

/// The state after the candidate `t` had its turn.
pub open spec fn resolved_one(sim: Sim, scene: Scene, t: Target) -> Sim {
    if is_pushed(sim, scene, t) {
        after_push(sim, scene, push_of(body(sim, scene), t.shape, t.rect))
    } else {
        sim
    }
}

/// The state after the first `i` candidates had their turn, in order.
pub open spec fn pass_at(sim: Sim, scene: Scene, targets: Seq<Target>, i: int) -> Sim
    decreases i,
{
    if i <= 0 {
        sim
    } else {
        resolved_one(pass_at(sim, scene, targets, i - 1), scene, targets[i - 1])
    }
}

/// Whether one of the first `i` candidates pushed the box on its turn.
pub open spec fn pushed_at(sim: Sim, scene: Scene, targets: Seq<Target>, i: int) -> bool
    decreases i,
{
    if i <= 0 {
        false
    } else {
        pushed_at(sim, scene, targets, i - 1) || is_pushed(
            pass_at(sim, scene, targets, i - 1),
            scene,
            targets[i - 1],
        )
    }
}

/// The state after up to `passes` passes over the candidates; a pass in
/// which nothing pushed is the last.
pub open spec fn resolved(sim: Sim, scene: Scene, targets: Seq<Target>, passes: nat) -> Sim
    decreases passes,
{
    if passes == 0 {
        sim
    } else {
        let next = pass_at(sim, scene, targets, targets.len() as int);
        if pushed_at(sim, scene, targets, targets.len() as int) {
            resolved(next, scene, targets, (passes - 1) as nat)
        } else {
            next
        }
    }
}

/// The views of a list of push records.
pub open spec fn notes_of(pushes: Seq<PushRecord>) -> Seq<PushNote> {
    Seq::new(pushes.len(), |i: int| pushes[i]@)
}

/// The record of the push that candidate `t` gives the box in state `sim`.
pub open spec fn note_of(sim: Sim, scene: Scene, t: Target, pass: int) -> PushNote {
    PushNote { pass, shape: t.shape, push: push_of(body(sim, scene), t.shape, t.rect) }
}

/// The pushes that the first `i` candidates made in pass number `pass`.
pub open spec fn pass_notes(sim: Sim, scene: Scene, targets: Seq<Target>, i: int, pass: int)
    -> Seq<PushNote>
    decreases i,
{
    if i <= 0 {
        Seq::empty()
    } else {
        let before = pass_at(sim, scene, targets, i - 1);
        let notes = pass_notes(sim, scene, targets, i - 1, pass);
        if is_pushed(before, scene, targets[i - 1]) {
            notes.push(note_of(before, scene, targets[i - 1], pass))
        } else {
            notes
        }
    }
}

/// The pushes of up to `passes` passes, the first of them numbered `pass`.
pub open spec fn resolved_notes(
    sim: Sim,
    scene: Scene,
    targets: Seq<Target>,
    passes: nat,
    pass: int,
) -> Seq<PushNote>
    decreases passes,
{
    if passes == 0 {
        Seq::empty()
    } else {
        let notes = pass_notes(sim, scene, targets, targets.len() as int, pass);
        if pushed_at(sim, scene, targets, targets.len() as int) {
            notes + resolved_notes(
                pass_at(sim, scene, targets, targets.len() as int),
                scene,
                targets,
                (passes - 1) as nat,
                pass + 1,
            )
        } else {
            notes
        }
    }
}

/// The tiles that the box touches after gravity and movement, nearest
/// first: the candidates of the tick that starts in `sim`.
pub open spec fn tick_targets(sim: Sim, scene: Scene, solids: Seq<Solid>) -> Seq<Target> {
    nearest_first(gathered(solids, body(integrated(sim, scene), scene), solids.len() as int))
}

/// The pushes of the tick that starts in `sim`, passes numbered from zero.
pub open spec fn tick_notes(sim: Sim, scene: Scene, solids: Seq<Solid>) -> Seq<PushNote> {
    resolved_notes(
        integrated(sim, scene),
        scene,
        tick_targets(sim, scene, solids),
        PASSES as nat,
        0,
    )
}

/// The state after gravity and one tick of free movement.
pub open spec fn integrated(sim: Sim, scene: Scene) -> Sim {
    let fy = sim.fy - scene.gravity;
    Sim { cx: sim.cx + scene.ctl_x + sim.fx, cy: sim.cy + scene.ctl_y + fy, fy, ..sim }
}

/// The state after one whole tick: gravity, movement, and the resolution of
/// the collisions with the tiles that the moved box touches, nearest first.
pub open spec fn stepped(sim: Sim, scene: Scene, solids: Seq<Solid>) -> Sim {
    resolved(integrated(sim, scene), scene, tick_targets(sim, scene, solids), PASSES as nat)
}

/// Whether a tick can be run from this state: centre and force are small
/// enough for the tick's arithmetic.
pub open spec fn in_range(sim: Sim) -> bool {
    &&& -REACH_MAX <= sim.cx <= REACH_MAX
    &&& -REACH_MAX <= sim.cy <= REACH_MAX
    &&& -SPEED_MAX <= sim.fx <= SPEED_MAX
    &&& -SPEED_MAX <= sim.fy <= SPEED_MAX
}

/// Where a run of ticks ends: the state, the budget left, the number of
/// ticks run, and the state in which the last of them started.
pub struct Run {
    pub sim: Sim,
    pub leftover: int,
    pub ticks: nat,
    pub last: Option<Sim>,
}

/// The run that a budget pays for: one tick for each time `scale` can be
/// taken off the budget while more than `scale` is left. A state out of
/// range ends the run, and the budget not spent stays banked.
pub open spec fn ran(sim: Sim, scene: Scene, solids: Seq<Solid>, budget: int, scale: int) -> Run
    decreases budget,
{
    if 0 < scale < budget && in_range(sim) {
        let rest = ran(stepped(sim, scene, solids), scene, solids, budget - scale, scale);
        Run {
            ticks: rest.ticks + 1,
            last: if rest.last is Some {
                rest.last
            } else {
                Some(sim)
            },
            ..rest
        }
    } else {
        Run { sim, leftover: budget, ticks: 0, last: None }
    }
}

/// How many whole ticks a budget pays for: one for each time `scale` can be
/// taken off it while more than `scale` is left.
pub open spec fn ticks_due(budget: int, scale: int) -> nat
    decreases budget,
{
    if scale <= 0 || budget <= scale {
        0
    } else {
        1 + ticks_due(budget - scale, scale)
    }
}

/// A run spends one `scale` per tick. It runs every tick that the budget
/// pays for, unless it ends on a state out of range; only then is more than
/// one `scale` left.
pub proof fn lemma_ran_budget(sim: Sim, scene: Scene, solids: Seq<Solid>, budget: int, scale: int)
    requires
        0 < scale,
    ensures
        ({
            let r = ran(sim, scene, solids, budget, scale);
            &&& r.leftover == budget - r.ticks * scale
            &&& r.ticks <= ticks_due(budget, scale)
            &&& r.leftover <= scale || !in_range(r.sim)
            &&& r.leftover <= scale ==> r.ticks == ticks_due(budget, scale)
            &&& r.last is Some <==> r.ticks > 0
        }),
    decreases budget,
{
    if scale < budget && in_range(sim) {
        let next = stepped(sim, scene, solids);
        lemma_ran_budget(next, scene, solids, budget - scale, scale);
        let rest = ran(next, scene, solids, budget - scale, scale);
        assert((rest.ticks + 1) * scale == rest.ticks * scale + scale) by (nonlinear_arith);
    } else {
        assert(0 * scale == 0);
        if scale < budget {
            lemma_leftover_positive(budget, scale);
        }
    }
}

/// A budget over one `scale` pays for a tick.
proof fn lemma_leftover_positive(budget: int, scale: int)
    requires
        0 < scale < budget,
    ensures
        ticks_due(budget, scale) >= 1,
{
}

/// A box that the solver takes: well formed, with a half-extent of at most
/// `EXTENT_MAX`.
pub open spec fn box_in_limits(b: Aabb) -> bool {
    &&& b.wf()
    &&& b.half.x <= EXTENT_MAX
    &&& b.half.y <= EXTENT_MAX
}

/// There are at most `SOLIDS_MAX` tiles, each within limits.
pub open spec fn solids_in_limits(solids: Seq<Solid>) -> bool {
    &&& solids.len() <= SOLIDS_MAX
    &&& forall|i: int| 0 <= i < solids.len() ==> box_in_limits(#[trigger] solids[i].aabb)
}

/// Every candidate's box is within limits.
pub open spec fn candidates_in_limits(cands: Seq<Candidate>) -> bool {
    forall|i: int| 0 <= i < cands.len() ==> box_in_limits(#[trigger] cands[i].aabb)
}

/// The state that a box and a movement stand for.
pub open spec fn sim_of(b: Aabb, v: Movement) -> Sim {
    Sim {
        cx: b.center.x as int,
        cy: b.center.y as int,
        fx: v.force.x as int,
        fy: v.force.y as int,
        climb: v.climb,
    }
}

/// The scene that a box, a movement and the constants stand for.
pub open spec fn scene_of(b: Aabb, v: Movement, physics: Physics) -> Scene {
    Scene {
        hx: b.half.x as int,
        hy: b.half.y as int,
        ctl_x: v.ctl.x as int,
        ctl_y: v.ctl.y as int,
        gravity: physics.gravity as int,
    }
}

/// A push off a tile that the box touches is at most `PUSH_MAX` along each
/// axis, where no half-extent is over `EXTENT_MAX`.
pub proof fn lemma_touching_push(a: Rect, col: Collide, s: Rect)
    requires
        a.overlaps(s),
        0 <= a.hx <= EXTENT_MAX,
        0 <= a.hy <= EXTENT_MAX,
        0 <= s.hx <= EXTENT_MAX,
        0 <= s.hy <= EXTENT_MAX,
    ensures
        abs(push_of(a, col, s).0) <= PUSH_MAX,
        abs(push_of(a, col, s).1) <= PUSH_MAX,
{
    let dl = crate::collide::depth_left(a, s);
    let dr = crate::collide::depth_right(a, s);
    assert(abs(dl) <= 6 * EXTENT_MAX);
    assert(abs(dr) <= 6 * EXTENT_MAX);
    assert(abs(horz_push(a, s)) <= 4 * EXTENT_MAX);
    assert(abs(vert_push(a, s)) <= 4 * EXTENT_MAX);
    assert(1 * (dl / 2) == dl / 2);
    assert((-1int) * (dr / 2) == -(dr / 2)) by (nonlinear_arith);
}

/// The box is far enough from the coordinate limit for a tick to move it.
pub open spec fn box_has_room(b: Aabb) -> bool {
    &&& -0x800_0000_0000_0000 <= b.center.x <= 0x800_0000_0000_0000
    &&& -0x800_0000_0000_0000 <= b.center.y <= 0x800_0000_0000_0000
    &&& 0 <= b.half.x <= EXTENT_MAX
    &&& 0 <= b.half.y <= EXTENT_MAX
}

/// Gathers the tiles that the box touches, each with the squared distance of
/// its centre from the box's, in the order of `solids`.
#[verifier::rlimit(50)]
pub fn gather(solids: &Vec<Solid>, aabb: &Aabb) -> (cands: Vec<Candidate>)
    requires
        box_has_room(*aabb),
        solids_in_limits(solids@),
    ensures
        targets_of(cands@) == gathered(solids@, aabb@, solids@.len() as int),
        cands@.len() <= solids@.len(),
        candidates_in_limits(cands@),
{
    let mut cands: Vec<Candidate> = Vec::new();
    let mut i: usize = 0;
    while i < solids.len()
        invariant
            i <= solids@.len(),
            box_has_room(*aabb),
            solids_in_limits(solids@),
            targets_of(cands@) == gathered(solids@, aabb@, i as int),
            cands@.len() <= i,
            candidates_in_limits(cands@),
        decreases solids@.len() - i,
    {
        let solid = solids[i];
        assert(box_in_limits(solids@[i as int].aabb));
        if aabb.intersects(&solid.aabb) {
            let dx: i64 = solid.aabb.center.x - aabb.center.x;
            let dy: i64 = solid.aabb.center.y - aabb.center.y;
            assert(dx * dx <= 0x4000_0000 * 0x4000_0000 && dy * dy <= 0x4000_0000 * 0x4000_0000)
                by (nonlinear_arith)
                requires
                    -0x4000_0000 <= dx <= 0x4000_0000,
                    -0x4000_0000 <= dy <= 0x4000_0000,
            ;
            assert(dx * dx >= 0 && dy * dy >= 0) by (nonlinear_arith);
            let dist: i64 = dx * dx + dy * dy;
            let ghost before = cands@;
            cands.push(Candidate { dist, shape: solid.shape, aabb: solid.aabb });
            assert(targets_of(cands@) =~= targets_of(before).push(target_of(solid, aabb@)));
        }
        i += 1;
    }
    cands
}

/// Orders candidates by distance, nearest first; candidates at one distance
/// keep their order.
#[verifier::rlimit(50)]
pub fn sort_nearest(cands: &Vec<Candidate>) -> (sorted: Vec<Candidate>)
    ensures
        targets_of(sorted@) == nearest_first(targets_of(cands@)),
        sorted@.len() == cands@.len(),
        candidates_in_limits(cands@) ==> candidates_in_limits(sorted@),
{
    let mut sorted: Vec<Candidate> = Vec::new();
    let mut i: usize = 0;
    while i < cands.len()
        invariant
            i <= cands@.len(),
            sorted@.len() == i,
            targets_of(sorted@) == sorted_at(targets_of(cands@), i as int),
            candidates_in_limits(cands@) ==> candidates_in_limits(sorted@),
        decreases cands@.len() - i,
    {
        let x = cands[i];
        let mut pos: usize = sorted.len();
        while pos > 0 && sorted[pos - 1].dist > x.dist
            invariant
                pos <= sorted@.len(),
                insertion_point(targets_of(sorted@), x.dist as int, sorted@.len() as int)
                    == insertion_point(targets_of(sorted@), x.dist as int, pos as int),
            decreases pos,
        {
            pos -= 1;
        }
        let ghost before = sorted@;
        sorted.insert(pos, x);
        proof {
            assert(targets_of(sorted@) =~= targets_of(before).insert(pos as int, x@));
            if candidates_in_limits(cands@) {
                assert(box_in_limits(cands@[i as int].aabb));
                assert forall|k: int| 0 <= k < sorted@.len() implies box_in_limits(
                    #[trigger] sorted@[k].aabb,
                ) by {
                    if k < pos {
                        assert(sorted@[k] == before[k]);
                    } else if k > pos {
                        assert(sorted@[k] == before[k - 1]);
                    }
                }
            }
        }
        i += 1;
    }
    sorted
}

/// The turn of one candidate in pass number `pass`: if the box touches it and
/// its shape's push is not zero, the box is pushed and the forces are
/// dampened. Returns the record of the push, if there was one.
#[verifier::rlimit(50)]
fn resolve_one(
    aabb: &mut Aabb,
    v: &mut Movement,
    physics: &Physics,
    cand: &Candidate,
    pass: usize,
) -> (pushed: Option<PushRecord>)
    requires
        old(aabb).wf(),
        0 <= old(aabb).half.x <= EXTENT_MAX,
        0 <= old(aabb).half.y <= EXTENT_MAX,
        -0x900_0000_0000_0000 <= old(aabb).center.x <= 0x900_0000_0000_0000,
        -0x900_0000_0000_0000 <= old(aabb).center.y <= 0x900_0000_0000_0000,
        box_in_limits(cand.aabb),
    ensures
        sim_of(*final(aabb), *final(v)) == resolved_one(
            sim_of(*old(aabb), *old(v)),
            scene_of(*old(aabb), *old(v), *physics),
            cand@,
        ),
        pushed is Some == is_pushed(
            sim_of(*old(aabb), *old(v)),
            scene_of(*old(aabb), *old(v), *physics),
            cand@,
        ),
        pushed is Some ==> pushed->0@ == note_of(
            sim_of(*old(aabb), *old(v)),
            scene_of(*old(aabb), *old(v), *physics),
            cand@,
            pass as int,
        ),
        final(aabb).half == old(aabb).half,
        final(v).ctl == old(v).ctl,
        final(v).out == old(v).out,
        abs(final(aabb).center.x - old(aabb).center.x) <= PUSH_MAX,
        abs(final(aabb).center.y - old(aabb).center.y) <= PUSH_MAX,
        final(v).force.x == old(v).force.x || final(v).force.x == 0,
        final(v).force.y == old(v).force.y || final(v).force.y == 0,
{
    assert(body(sim_of(*aabb, *v), scene_of(*aabb, *v, *physics)) == aabb@);
    if !aabb.intersects(&cand.aabb) {
        return None;
    }
    let (push, damph, dampv) = collide_push(aabb, &cand.shape, &cand.aabb);
    proof {
        lemma_touching_push(aabb@, cand.shape, cand.aabb@);
    }
    if push.is_zero() {
        return None;
    }
    if dampv {
        if v.ctl.y > 0 && push.y < 0 {
            v.climb = true;
        }
        v.force.y = 0;
    }
    if damph {
        if (push.x > 0 && v.force.x < 0) || (push.x < 0 && v.force.x > 0) {
            v.force.x = 0;
        }
    }
    aabb.center.x = aabb.center.x + push.x;
    aabb.center.y = aabb.center.y + push.y;
    Some(PushRecord { pass, shape: cand.shape, push, damph, dampv })
}

/// Pass number `pass` of collision resolution: every candidate that the box
/// still touches pushes it in turn, and every push is added to `pushes`.
/// Returns whether any push happened.
#[verifier::rlimit(50)]
fn resolve_pass(
    aabb: &mut Aabb,
    v: &mut Movement,
    physics: &Physics,
    cands: &Vec<Candidate>,
    pass: usize,
    pushes: &mut Vec<PushRecord>,
) -> (pushed: bool)
    requires
        box_has_room(*old(aabb)),
        cands@.len() <= SOLIDS_MAX,
        candidates_in_limits(cands@),
    ensures
        sim_of(*final(aabb), *final(v)) == pass_at(
            sim_of(*old(aabb), *old(v)),
            scene_of(*old(aabb), *old(v), *physics),
            targets_of(cands@),
            cands@.len() as int,
        ),
        pushed == pushed_at(
            sim_of(*old(aabb), *old(v)),
            scene_of(*old(aabb), *old(v), *physics),
            targets_of(cands@),
            cands@.len() as int,
        ),
        notes_of(final(pushes)@) == notes_of(old(pushes)@) + pass_notes(
            sim_of(*old(aabb), *old(v)),
            scene_of(*old(aabb), *old(v), *physics),
            targets_of(cands@),
            cands@.len() as int,
            pass as int,
        ),
        final(aabb).half == old(aabb).half,
        final(v).ctl == old(v).ctl,
        final(v).out == old(v).out,
        abs(final(aabb).center.x - old(aabb).center.x) <= cands@.len() * PUSH_MAX,
        abs(final(aabb).center.y - old(aabb).center.y) <= cands@.len() * PUSH_MAX,
        final(v).force.x == old(v).force.x || final(v).force.x == 0,
        final(v).force.y == old(v).force.y || final(v).force.y == 0,
{
    let ghost scene = scene_of(*aabb, *v, *physics);
    let ghost start = sim_of(*aabb, *v);
    let ghost targets = targets_of(cands@);
    let mut pushed = false;
    let mut i: usize = 0;
    while i < cands.len()
        invariant
            i <= cands@.len(),
            cands@.len() <= SOLIDS_MAX,
            candidates_in_limits(cands@),
            targets == targets_of(cands@),
            scene == scene_of(*aabb, *v, *physics),
            aabb.half == old(aabb).half,
            v.ctl == old(v).ctl,
            v.out == old(v).out,
            box_has_room(*old(aabb)),
            sim_of(*aabb, *v) == pass_at(start, scene, targets, i as int),
            pushed == pushed_at(start, scene, targets, i as int),
            notes_of(pushes@) == notes_of(old(pushes)@) + pass_notes(
                start,
                scene,
                targets,
                i as int,
                pass as int,
            ),
            abs(aabb.center.x - old(aabb).center.x) <= i * PUSH_MAX,
            abs(aabb.center.y - old(aabb).center.y) <= i * PUSH_MAX,
            v.force.x == old(v).force.x || v.force.x == 0,
            v.force.y == old(v).force.y || v.force.y == 0,
        decreases cands@.len() - i,
    {
        assert(box_in_limits(cands@[i as int].aabb));
        assert(targets[i as int] == cands@[i as int]@);
        let ghost before = pushes@;
        match resolve_one(aabb, v, physics, &cands[i], pass) {
            Some(record) => {
                pushes.push(record);
                pushed = true;
                assert(notes_of(pushes@) =~= notes_of(before).push(record@));
            },
            None => {},
        }
        assert(notes_of(pushes@) =~= notes_of(old(pushes)@) + pass_notes(
            start,
            scene,
            targets,
            i as int + 1,
            pass as int,
        ));
        i += 1;
    }
    assert(notes_of(old(pushes)@) + Seq::<PushNote>::empty() =~= notes_of(old(pushes)@));
    pushed
}

/// A tick can be run: the state is in range, and the box's half-extent and
/// the control are within limits.
pub open spec fn ready_for_step(b: Aabb, v: Movement) -> bool {
    &&& in_range(sim_of(b, v))
    &&& 0 <= b.half.x <= EXTENT_MAX
    &&& 0 <= b.half.y <= EXTENT_MAX
    &&& -SPEED_MAX <= v.ctl.x <= SPEED_MAX
    &&& -SPEED_MAX <= v.ctl.y <= SPEED_MAX
}

/// One whole tick: gravity, movement, and up to three passes of collision
/// resolution against the tiles that the moved box touches, nearest first.
#[verifier::rlimit(50)]
pub fn physics_step(aabb: &mut Aabb, v: &mut Movement, physics: &Physics, solids: &Vec<Solid>) -> (record:
    TickRecord)
    requires
        physics.wf(),
        ready_for_step(*old(aabb), *old(v)),
        solids_in_limits(solids@),
    ensures
        targets_of(record.collisions@) == tick_targets(
            sim_of(*old(aabb), *old(v)),
            scene_of(*old(aabb), *old(v), *physics),
            solids@,
        ),
        notes_of(record.pushes@) == tick_notes(
            sim_of(*old(aabb), *old(v)),
            scene_of(*old(aabb), *old(v), *physics),
            solids@,
        ),
        sim_of(*final(aabb), *final(v)) == stepped(
            sim_of(*old(aabb), *old(v)),
            scene_of(*old(aabb), *old(v), *physics),
            solids@,
        ),
        final(aabb).half == old(aabb).half,
        final(v).ctl == old(v).ctl,
        final(v).out == old(v).out,
        box_has_room(*final(aabb)),
        final(v).force.x == old(v).force.x || final(v).force.x == 0,
        final(v).force.y == old(v).force.y - physics.gravity || final(v).force.y == 0,
{
    let ghost scene = scene_of(*aabb, *v, *physics);
    let ghost start = sim_of(*aabb, *v);
    v.force.y = v.force.y - physics.gravity;
    aabb.center.x = aabb.center.x + v.ctl.x + v.force.x;
    aabb.center.y = aabb.center.y + v.ctl.y + v.force.y;
    let ghost moved = sim_of(*aabb, *v);
    let ghost moved_box = *aabb;
    assert(moved == integrated(start, scene));
    assert(body(moved, scene) == aabb@);
    let gathered = gather(solids, aabb);
    let cands = sort_nearest(&gathered);
    let ghost targets = targets_of(cands@);
    assert(targets == tick_targets(start, scene, solids@));
    let mut pushes: Vec<PushRecord> = Vec::new();
    let mut pass: usize = 0;
    let mut done = false;
    while pass < PASSES && !done
        invariant
            pass <= PASSES,
            !done ==> resolved_notes(moved, scene, targets, PASSES as nat, 0) == notes_of(pushes@)
                + resolved_notes(
                sim_of(*aabb, *v),
                scene,
                targets,
                (PASSES - pass) as nat,
                pass as int,
            ),
            done ==> resolved_notes(moved, scene, targets, PASSES as nat, 0) == notes_of(pushes@),
            cands@.len() <= SOLIDS_MAX,
            candidates_in_limits(cands@),
            targets == targets_of(cands@),
            scene == scene_of(*aabb, *v, *physics),
            aabb.half == old(aabb).half,
            v.ctl == old(v).ctl,
            v.out == old(v).out,
            0 <= aabb.half.x <= EXTENT_MAX,
            0 <= aabb.half.y <= EXTENT_MAX,
            -0x580_0000_0000_0000 <= moved_box.center.x <= 0x580_0000_0000_0000,
            -0x580_0000_0000_0000 <= moved_box.center.y <= 0x580_0000_0000_0000,
            abs(aabb.center.x - moved_box.center.x) <= pass * 0x80_0000_0000_0000,
            abs(aabb.center.y - moved_box.center.y) <= pass * 0x80_0000_0000_0000,
            v.force.x == moved.fx || v.force.x == 0,
            v.force.y == moved.fy || v.force.y == 0,
            !done ==> resolved(moved, scene, targets, PASSES as nat) == resolved(
                sim_of(*aabb, *v),
                scene,
                targets,
                (PASSES - pass) as nat,
            ),
            done ==> resolved(moved, scene, targets, PASSES as nat) == sim_of(*aabb, *v),
        decreases PASSES - pass + (if done { 0int } else { 1int }),
    {
        let ghost before = notes_of(pushes@);
        let ghost from = sim_of(*aabb, *v);
        let pushed = resolve_pass(aabb, v, physics, &cands, pass, &mut pushes);
        if !pushed {
            done = true;
        }
        proof {
            let made = pass_notes(from, scene, targets, targets.len() as int, pass as int);
            let rest = resolved_notes(
                sim_of(*aabb, *v),
                scene,
                targets,
                (PASSES - pass - 1) as nat,
                pass as int + 1,
            );
            if pushed {
                assert(before + (made + rest) =~= (before + made) + rest);
            }
        }
        pass += 1;
    }
    proof {
        assert(notes_of(pushes@) + Seq::<PushNote>::empty() =~= notes_of(pushes@));
    }
    TickRecord { collisions: cands, pushes }
}

/// Whether the actor rests: no control input and no force left.
pub open spec fn at_rest(scene: Scene, fx: int, fy: int) -> bool {
    scene.ctl_x == 0 && scene.ctl_y == 0 && fx == 0 && fy == 0
}

/// What the elapsed time `dt` pays into the budget; a negative time pays
/// nothing.
pub open spec fn paid_for(dt: i64, physics: Physics) -> int {
    (if dt < 0 {
        0
    } else {
        dt as int
    }) * physics.tick_rate
}

/// What a call may be asked: gravity, control, the actor's half-extent and
/// the tiles are within limits, and the budget with the time paid in can be
/// counted. Where the actor is and what force it has is not limited.
pub open spec fn callable(
    physics: Physics,
    dt: i64,
    update_rem: PhysicsTick,
    aabb: Aabb,
    v: Movement,
    solids: Seq<Solid>,
) -> bool {
    &&& physics.wf()
    &&& 0 <= aabb.half.x <= EXTENT_MAX
    &&& 0 <= aabb.half.y <= EXTENT_MAX
    &&& -SPEED_MAX <= v.ctl.x <= SPEED_MAX
    &&& -SPEED_MAX <= v.ctl.y <= SPEED_MAX
    &&& solids_in_limits(solids)
    &&& update_rem.0 + paid_for(dt, physics) <= u64::MAX
}

/// What a call comes to: the new force, the displacement to apply to the
/// actor, the climb flag, the budget left over, the ticks run, and the state
/// in which the last tick started.
pub struct Outcome {
    pub fx: int,
    pub fy: int,
    pub out_x: int,
    pub out_y: int,
    pub climb: bool,
    pub leftover: int,
    pub ticks: nat,
    pub last: Option<Sim>,
}

/// The outcome of a call for an actor at `(cx, cy)` with force `(fx, fy)`,
/// with `leftover` in the budget and `paid` coming in.
///
/// An actor without control input and without force rests: it has no
/// displacement and does not climb, and force and budget stay as they are.
/// Else the budget is paid into, the ticks that it pays for are run, and the
/// displacement is the way from where the box was to where the last tick
/// left it.
pub open spec fn outcome(
    scene: Scene,
    solids: Seq<Solid>,
    scale: int,
    leftover: int,
    paid: int,
    cx: int,
    cy: int,
    fx: int,
    fy: int,
) -> Outcome {
    if at_rest(scene, fx, fy) {
        Outcome { fx, fy, out_x: 0, out_y: 0, climb: false, leftover, ticks: 0, last: None }
    } else {
        let end = ran(Sim { cx, cy, fx, fy, climb: false }, scene, solids, leftover + paid, scale);
        Outcome {
            fx: end.sim.fx,
            fy: end.sim.fy,
            out_x: end.sim.cx - cx,
            out_y: end.sim.cy - cy,
            climb: end.sim.climb,
            leftover: end.leftover,
            ticks: end.ticks,
            last: end.last,
        }
    }
}

/// The outcome of a call on the values that `check_collide` takes.
pub open spec fn collided(
    physics: Physics,
    dt: i64,
    update_rem: PhysicsTick,
    aabb: Aabb,
    v: Movement,
    solids: Seq<Solid>,
) -> Outcome {
    outcome(
        scene_of(aabb, v, physics),
        solids,
        physics.time_scale as int,
        update_rem.0 as int,
        paid_for(dt, physics),
        aabb.center.x as int,
        aabb.center.y as int,
        v.force.x as int,
        v.force.y as int,
    )
}

/// The state with the climb flag also set where `c` holds.
pub open spec fn raised(sim: Sim, c: bool) -> Sim {
    Sim { climb: sim.climb || c, ..sim }
}

/// The climb flag has no part in what a candidate does to the box and the
/// force.
proof fn lemma_raised_one(sim: Sim, scene: Scene, t: Target, c: bool)
    ensures
        is_pushed(raised(sim, c), scene, t) == is_pushed(sim, scene, t),
        resolved_one(raised(sim, c), scene, t) == raised(resolved_one(sim, scene, t), c),
{
    assert(body(raised(sim, c), scene) == body(sim, scene));
}

proof fn lemma_raised_pass(sim: Sim, scene: Scene, targets: Seq<Target>, i: int, c: bool)
    ensures
        pushed_at(raised(sim, c), scene, targets, i) == pushed_at(sim, scene, targets, i),
        pass_at(raised(sim, c), scene, targets, i) == raised(pass_at(sim, scene, targets, i), c),
    decreases i,
{
    if i > 0 {
        lemma_raised_pass(sim, scene, targets, i - 1, c);
        lemma_raised_one(pass_at(sim, scene, targets, i - 1), scene, targets[i - 1], c);
    }
}

proof fn lemma_raised_resolved(sim: Sim, scene: Scene, targets: Seq<Target>, passes: nat, c: bool)
    ensures
        resolved(raised(sim, c), scene, targets, passes) == raised(
            resolved(sim, scene, targets, passes),
            c,
        ),
    decreases passes,
{
    if passes > 0 {
        lemma_raised_pass(sim, scene, targets, targets.len() as int, c);
        lemma_raised_resolved(
            pass_at(sim, scene, targets, targets.len() as int),
            scene,
            targets,
            (passes - 1) as nat,
            c,
        );
    }
}

proof fn lemma_raised_step(sim: Sim, scene: Scene, solids: Seq<Solid>, c: bool)
    ensures
        stepped(raised(sim, c), scene, solids) == raised(stepped(sim, scene, solids), c),
{
    let moved = integrated(sim, scene);
    assert(integrated(raised(sim, c), scene) == raised(moved, c));
    assert(body(raised(moved, c), scene) == body(moved, scene));
    let targets = tick_targets(sim, scene, solids);
    assert(tick_targets(raised(sim, c), scene, solids) == targets);
    lemma_raised_resolved(moved, scene, targets, PASSES as nat, c);
}

/// The climb flag has no part in how a run goes.
proof fn lemma_raised_ran(
    sim: Sim,
    scene: Scene,
    solids: Seq<Solid>,
    budget: int,
    scale: int,
    c: bool,
)
    ensures
        ran(raised(sim, c), scene, solids, budget, scale).sim == raised(
            ran(sim, scene, solids, budget, scale).sim,
            c,
        ),
        ran(raised(sim, c), scene, solids, budget, scale).leftover == ran(
            sim,
            scene,
            solids,
            budget,
            scale,
        ).leftover,
        ran(raised(sim, c), scene, solids, budget, scale).ticks == ran(
            sim,
            scene,
            solids,
            budget,
            scale,
        ).ticks,
    decreases budget,
{
    if 0 < scale < budget && in_range(sim) {
        lemma_raised_step(sim, scene, solids, c);
        lemma_raised_ran(stepped(sim, scene, solids), scene, solids, budget - scale, scale, c);
    }
}

/// A budget that comes in two parts, the second added to what the run on the
/// first left over, pays for the run that it pays for at once.
pub proof fn lemma_ran_split(
    sim: Sim,
    scene: Scene,
    solids: Seq<Solid>,
    x: int,
    y: int,
    scale: int,
)
    requires
        0 <= y,
    ensures
        ({
            let first = ran(sim, scene, solids, x, scale);
            let second = ran(first.sim, scene, solids, first.leftover + y, scale);
            let whole = ran(sim, scene, solids, x + y, scale);
            &&& second.sim == whole.sim
            &&& second.leftover == whole.leftover
            &&& first.ticks + second.ticks == whole.ticks
        }),
    decreases x,
{
    if 0 < scale < x && in_range(sim) {
        lemma_ran_split(stepped(sim, scene, solids), scene, solids, x - scale, y, scale);
    }
}

/// Elapsed time may come in pieces: two calls in a row, the second on the
/// actor moved by the first call's displacement, run the ticks and leave the
/// force and the budget that one call for the whole time does, and their
/// displacements add up to its displacement. The whole call climbs where one
/// of the two does.
///
/// This holds where the first call starts from an actor at rest, or does not
/// end in one: an actor at rest banks no time.
pub proof fn lemma_split_call(
    scene: Scene,
    solids: Seq<Solid>,
    scale: int,
    leftover: int,
    paid_a: int,
    paid_b: int,
    cx: int,
    cy: int,
    fx: int,
    fy: int,
)
    requires
        0 <= paid_a,
        0 <= paid_b,
        ({
            let first = outcome(scene, solids, scale, leftover, paid_a, cx, cy, fx, fy);
            at_rest(scene, fx, fy) || !at_rest(scene, first.fx, first.fy)
        }),
    ensures
        ({
            let first = outcome(scene, solids, scale, leftover, paid_a, cx, cy, fx, fy);
            let second = outcome(
                scene,
                solids,
                scale,
                first.leftover,
                paid_b,
                cx + first.out_x,
                cy + first.out_y,
                first.fx,
                first.fy,
            );
            let whole = outcome(scene, solids, scale, leftover, paid_a + paid_b, cx, cy, fx, fy);
            &&& second.fx == whole.fx
            &&& second.fy == whole.fy
            &&& first.out_x + second.out_x == whole.out_x
            &&& first.out_y + second.out_y == whole.out_y
            &&& second.leftover == whole.leftover
            &&& first.ticks + second.ticks == whole.ticks
            &&& whole.climb == (first.climb || second.climb)
        }),
{
    if !at_rest(scene, fx, fy) {
        let start = Sim { cx, cy, fx, fy, climb: false };
        let mid = ran(start, scene, solids, leftover + paid_a, scale);
        lemma_ran_split(start, scene, solids, leftover + paid_a, paid_b, scale);
        let restart = Sim { climb: false, ..mid.sim };
        assert(raised(restart, mid.sim.climb) == mid.sim);
        lemma_raised_ran(restart, scene, solids, mid.leftover + paid_b, scale, mid.sim.climb);
    }
}

/// Four calls for a quarter of the time each, every one on the actor moved
/// by the displacement of the one before, run the ticks and leave the force
/// and the budget that one call for the whole time does, and their
/// displacements add up to its displacement.
///
/// This holds where the actor starts at rest, or is at rest after none of
/// the first three calls.
pub proof fn lemma_quarter_calls(
    scene: Scene,
    solids: Seq<Solid>,
    scale: int,
    leftover: int,
    paid: int,
    cx: int,
    cy: int,
    fx: int,
    fy: int,
)
    requires
        0 <= paid,
        ({
            let a = outcome(scene, solids, scale, leftover, paid, cx, cy, fx, fy);
            let b = outcome(
                scene,
                solids,
                scale,
                a.leftover,
                paid,
                cx + a.out_x,
                cy + a.out_y,
                a.fx,
                a.fy,
            );
            let c = outcome(
                scene,
                solids,
                scale,
                b.leftover,
                paid,
                cx + a.out_x + b.out_x,
                cy + a.out_y + b.out_y,
                b.fx,
                b.fy,
            );
            at_rest(scene, fx, fy) || (!at_rest(scene, a.fx, a.fy) && !at_rest(scene, b.fx, b.fy)
                && !at_rest(scene, c.fx, c.fy))
        }),
    ensures
        ({
            let a = outcome(scene, solids, scale, leftover, paid, cx, cy, fx, fy);
            let b = outcome(
                scene,
                solids,
                scale,
                a.leftover,
                paid,
                cx + a.out_x,
                cy + a.out_y,
                a.fx,
                a.fy,
            );
            let c = outcome(
                scene,
                solids,
                scale,
                b.leftover,
                paid,
                cx + a.out_x + b.out_x,
                cy + a.out_y + b.out_y,
                b.fx,
                b.fy,
            );
            let d = outcome(
                scene,
                solids,
                scale,
                c.leftover,
                paid,
                cx + a.out_x + b.out_x + c.out_x,
                cy + a.out_y + b.out_y + c.out_y,
                c.fx,
                c.fy,
            );
            let whole = outcome(scene, solids, scale, leftover, 4 * paid, cx, cy, fx, fy);
            &&& d.fx == whole.fx
            &&& d.fy == whole.fy
            &&& a.out_x + b.out_x + c.out_x + d.out_x == whole.out_x
            &&& a.out_y + b.out_y + c.out_y + d.out_y == whole.out_y
            &&& d.leftover == whole.leftover
            &&& a.ticks + b.ticks + c.ticks + d.ticks == whole.ticks
            &&& whole.climb == (a.climb || b.climb || c.climb || d.climb)
        }),
{
    lemma_split_call(scene, solids, scale, leftover, paid, paid, cx, cy, fx, fy);
    lemma_split_call(scene, solids, scale, leftover, 2 * paid, paid, cx, cy, fx, fy);
    lemma_split_call(scene, solids, scale, leftover, 3 * paid, paid, cx, cy, fx, fy);
}

/// Time that is zero or negative pays nothing into the budget, time that
/// comes in two pieces pays what it pays at once, and a quarter of the time
/// pays a quarter.
pub proof fn lemma_paid_adds(a: i64, b: i64, whole: i64, physics: Physics)
    requires
        0 <= a,
        0 <= b,
        whole == a + b,
    ensures
        paid_for(whole, physics) == paid_for(a, physics) + paid_for(b, physics),
        forall|dt: i64| dt <= 0 ==> #[trigger] paid_for(dt, physics) == 0,
        forall|dt: i64, four: i64|
            0 <= dt && four == 4 * dt ==> #[trigger] paid_for(four, physics) == 4 * #[trigger] paid_for(
                dt,
                physics,
            ),
{
    assert forall|dt: i64, four: i64| 0 <= dt && four == 4 * dt implies #[trigger] paid_for(
        four,
        physics,
    ) == 4 * #[trigger] paid_for(dt, physics) by {
        assert((4 * dt) * physics.tick_rate == 4 * (dt * physics.tick_rate)) by (nonlinear_arith);
    }
    assert((a + b) * physics.tick_rate == a * physics.tick_rate + b * physics.tick_rate)
        by (nonlinear_arith);
    assert forall|dt: i64| dt <= 0 implies #[trigger] paid_for(dt, physics) == 0 by {
        assert(0 * physics.tick_rate == 0);
    }
}

/// Whether a box is one that the solver takes.
pub fn aabb_in_limits(b: &Aabb) -> (r: bool)
    ensures
        r == box_in_limits(*b),
{
    -COORD_MAX <= b.center.x && b.center.x <= COORD_MAX && -COORD_MAX <= b.center.y && b.center.y
        <= COORD_MAX && 0 <= b.half.x && b.half.x <= EXTENT_MAX && 0 <= b.half.y && b.half.y
        <= EXTENT_MAX
}

/// The budget with the time `dt` paid in, where it can be counted.
fn paid_budget(physics: &Physics, dt: i64, update_rem: &PhysicsTick) -> (r: Option<u64>)
    ensures
        match r {
            Some(b) => b == update_rem.0 + paid_for(dt, *physics),
            None => update_rem.0 + paid_for(dt, *physics) > u64::MAX,
        },
{
    let paid: u128 = if dt < 0 {
        assert(0 * physics.tick_rate == 0);
        0
    } else {
        assert(0 <= dt * physics.tick_rate <= 0x8000_0000_0000_0000 * 0x1_0000_0000_0000_0000)
            by (nonlinear_arith)
            requires
                0 <= dt <= 0x8000_0000_0000_0000,
                0 <= physics.tick_rate <= 0x1_0000_0000_0000_0000,
        ;
        (dt as u128) * (physics.tick_rate as u128)
    };
    let budget: u128 = update_rem.0 as u128 + paid;
    if budget <= u64::MAX as u128 {
        Some(budget as u64)
    } else {
        None
    }
}

/// Whether `check_collide` may be called on these values.
#[verifier::rlimit(50)]
pub fn can_check_collide(
    physics: &Physics,
    dt: i64,
    update_rem: &PhysicsTick,
    aabb: &Aabb,
    v: &Movement,
    solids: &Vec<Solid>,
) -> (b: bool)
    ensures
        b == callable(*physics, dt, *update_rem, *aabb, *v, solids@),
{
    if !(0 <= physics.gravity && physics.gravity <= SPEED_MAX && 0 < physics.time_scale) {
        return false;
    }
    if !(0 <= aabb.half.x && aabb.half.x <= EXTENT_MAX && 0 <= aabb.half.y && aabb.half.y
        <= EXTENT_MAX) {
        return false;
    }
    if !(-SPEED_MAX <= v.ctl.x && v.ctl.x <= SPEED_MAX && -SPEED_MAX <= v.ctl.y && v.ctl.y
        <= SPEED_MAX) {
        return false;
    }
    if solids.len() > SOLIDS_MAX {
        return false;
    }
    let mut i: usize = 0;
    while i < solids.len()
        invariant
            i <= solids@.len(),
            forall|j: int| 0 <= j < i ==> box_in_limits(#[trigger] solids@[j].aabb),
        decreases solids@.len() - i,
    {
        if !aabb_in_limits(&solids[i].aabb) {
            return false;
        }
        i += 1;
    }
    paid_budget(physics, dt, update_rem).is_some()
}

/// Whether a tick can be run from this state.
fn is_in_range(aabb: &Aabb, v: &Movement) -> (r: bool)
    ensures
        r == in_range(sim_of(*aabb, *v)),
{
    -REACH_MAX <= aabb.center.x && aabb.center.x <= REACH_MAX && -REACH_MAX <= aabb.center.y
        && aabb.center.y <= REACH_MAX && -SPEED_MAX <= v.force.x && v.force.x <= SPEED_MAX
        && -SPEED_MAX <= v.force.y && v.force.y <= SPEED_MAX
}

/// Runs the physics for the time `dt` on the actor whose box is `aabb`, and
/// leaves the outcome in `v` and `update_rem`: the new force, the
/// displacement to apply to the actor, the climb flag, and the budget left
/// over. Returns the record of the last tick run, for the debug view, or
/// `None` where no tick was run.
#[verifier::rlimit(50)]
pub fn check_collide(
    physics: &Physics,
    dt: i64,
    update_rem: &mut PhysicsTick,
    aabb: &Aabb,
    v: &mut Movement,
    solids: &Vec<Solid>,
) -> (record: Option<TickRecord>)
    requires
        callable(*physics, dt, *old(update_rem), *aabb, *old(v), solids@),
    ensures
        ({
            let o = collided(*physics, dt, *old(update_rem), *aabb, *old(v), solids@);
            let scene = scene_of(*aabb, *old(v), *physics);
            &&& record is Some == o.last is Some
            &&& record is Some ==> targets_of(record->0.collisions@) == tick_targets(
                o.last->0,
                scene,
                solids@,
            ) && notes_of(record->0.pushes@) == tick_notes(o.last->0, scene, solids@)
            &&& final(v).ctl == old(v).ctl
            &&& final(v).force.x == o.fx
            &&& final(v).force.y == o.fy
            &&& final(v).out.x == o.out_x
            &&& final(v).out.y == o.out_y
            &&& final(v).climb == o.climb
            &&& final(update_rem).0 == o.leftover
        }),
{
    if v.ctl.is_zero() && v.force.is_zero() {
        v.out = Vec2i { x: 0, y: 0 };
        v.climb = false;
        return None;
    }
    let scale: u64 = physics.time_scale;
    let mut budget: u64 = match paid_budget(physics, dt, update_rem) {
        Some(b) => b,
        None => {
            return None;
        },
    };
    let ghost budget0 = budget as int;
    let ghost scene = scene_of(*aabb, *v, *physics);
    let mut cur: Aabb = *aabb;
    v.climb = false;
    let ghost start = sim_of(cur, *v);
    let mut record: Option<TickRecord> = None;
    let ghost last: Option<Sim> = None;
    let mut moved = false;
    while budget > scale && is_in_range(&cur, v)
        invariant
            ran(start, scene, solids@, budget0, scale as int).last == (if ran(
                sim_of(cur, *v),
                scene,
                solids@,
                budget as int,
                scale as int,
            ).last is Some {
                ran(sim_of(cur, *v), scene, solids@, budget as int, scale as int).last
            } else {
                last
            }),
            record is Some == last is Some,
            record is Some ==> targets_of(record->0.collisions@) == tick_targets(
                last->0,
                scene,
                solids@,
            ) && notes_of(record->0.pushes@) == tick_notes(last->0, scene, solids@),
            physics.wf(),
            scale == physics.time_scale,
            solids_in_limits(solids@),
            scene == scene_of(cur, *v, *physics),
            cur.half == aabb.half,
            0 <= cur.half.x <= EXTENT_MAX,
            0 <= cur.half.y <= EXTENT_MAX,
            v.ctl == old(v).ctl,
            v.out == old(v).out,
            -SPEED_MAX <= v.ctl.x <= SPEED_MAX,
            -SPEED_MAX <= v.ctl.y <= SPEED_MAX,
            ran(start, scene, solids@, budget0, scale as int).sim == ran(
                sim_of(cur, *v),
                scene,
                solids@,
                budget as int,
                scale as int,
            ).sim,
            ran(start, scene, solids@, budget0, scale as int).leftover == ran(
                sim_of(cur, *v),
                scene,
                solids@,
                budget as int,
                scale as int,
            ).leftover,
            !moved ==> cur == *aabb && sim_of(cur, *v) == start,
            moved ==> box_has_room(cur) && in_range(start),
        decreases budget,
    {
        proof {
            last = Some(sim_of(cur, *v));
        }
        record = Some(physics_step(&mut cur, v, physics, solids));
        budget = budget - scale;
        moved = true;
    }
    if moved {
        v.out = Vec2i { x: cur.center.x - aabb.center.x, y: cur.center.y - aabb.center.y };
    } else {
        v.out = Vec2i { x: 0, y: 0 };
    }
    update_rem.0 = budget;
    record
}

} // verus!
