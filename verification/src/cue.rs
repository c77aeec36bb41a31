//! Cue lists and their compilation into curve tracks.
//!
//! A cue list is a flat script. `Tick` advances an implicit clock; every other
//! cue stages a value for one channel at the current clock. A staged value
//! becomes a keyframe of its channel's track when the clock next advances, or
//! when the list ends. Staging twice for one channel without a `Tick` in
//! between keeps only the later value.

use vstd::prelude::*;

verus! {

/// One instruction of a cue list. Names select the entity it is for.
#[derive(Clone, Debug)]
pub enum Q {
    /// Advance the clock.
    Tick(u64),
    /// Set translation `x, y, z`.
    Tran(String, i64, i64, i64),
    /// Set rotation about the z axis.
    Rot(String, i64),
    /// Set horizontal flip.
    Flip(String, bool),
    /// Pause or resume a sound.
    Paused(String, bool),
    /// Set a sound's volume.
    Vol(String, i64),
    /// Remove the entity at the current clock.
    Despawn(String),
    /// Show a subtitle.
    Subtitle(String),
}

/// A position in three axes.
pub type Position = (i64, i64, i64);

/// Selects the translations staged for `name`.
pub open spec fn tran_of(name: Seq<char>) -> spec_fn(Q) -> Option<Position> {
    |q: Q|
        match q {
            Q::Tran(n, x, y, z) => if n@ == name {
                Some((x, y, z))
            } else {
                None
            },
            _ => None,
        }
}

/// Selects the rotations staged for `name`.
pub open spec fn rot_of(name: Seq<char>) -> spec_fn(Q) -> Option<i64> {
    |q: Q|
        match q {
            Q::Rot(n, r) => if n@ == name {
                Some(r)
            } else {
                None
            },
            _ => None,
        }
}

/// Selects the flips staged for `name`.
pub open spec fn flip_of(name: Seq<char>) -> spec_fn(Q) -> Option<bool> {
    |q: Q|
        match q {
            Q::Flip(n, b) => if n@ == name {
                Some(b)
            } else {
                None
            },
            _ => None,
        }
}

/// Selects the pause states staged for `name`.
pub open spec fn paused_of(name: Seq<char>) -> spec_fn(Q) -> Option<bool> {
    |q: Q|
        match q {
            Q::Paused(n, b) => if n@ == name {
                Some(b)
            } else {
                None
            },
            _ => None,
        }
}

/// Selects the volumes staged for `name`.
pub open spec fn vol_of(name: Seq<char>) -> spec_fn(Q) -> Option<i64> {
    |q: Q|
        match q {
            Q::Vol(n, v) => if n@ == name {
                Some(v)
            } else {
                None
            },
            _ => None,
        }
}

/// Selects the subtitles.
pub open spec fn subtitle_of() -> spec_fn(Q) -> Option<String> {
    |q: Q|
        match q {
            Q::Subtitle(s) => Some(s),
            _ => None,
        }
}

/// How far a cue advances the clock.
pub open spec fn tick_of(q: Q) -> int {
    match q {
        Q::Tick(dt) => dt as int,
        _ => 0,
    }
}

/// The clock after the first `i` cues: the sum of their ticks.
pub open spec fn clock_at(cues: Seq<Q>, i: int) -> int
    decreases i,
{
    if i <= 0 {
        0
    } else {
        clock_at(cues, i - 1) + tick_of(cues[i - 1])
    }
}

/// The length of the whole sequence: the clock after every cue.
pub open spec fn total_duration(cues: Seq<Q>) -> int {
    clock_at(cues, cues.len() as int)
}

/// The value staged on a channel after the first `i` cues and not yet made a
/// keyframe: the latest one selected since the last tick.
pub open spec fn pending_at<T>(cues: Seq<Q>, sel: spec_fn(Q) -> Option<T>, i: int) -> Option<T>
    decreases i,
{
    if i <= 0 {
        None
    } else if cues[i - 1] is Tick {
        None
    } else {
        match sel(cues[i - 1]) {
            Some(v) => Some(v),
            None => pending_at(cues, sel, i - 1),
        }
    }
}

/// A track with the staged value, if there is one, appended at `clock`.
pub open spec fn flushed<T>(track: Seq<(u64, T)>, pending: Option<T>, clock: int) -> Seq<(u64, T)> {
    match pending {
        Some(v) => track.push((clock as u64, v)),
        None => track,
    }
}

/// The keyframes a channel has after the first `i` cues: each tick turns the
/// value staged before it into a keyframe at the clock before it.
pub open spec fn track_at<T>(cues: Seq<Q>, sel: spec_fn(Q) -> Option<T>, i: int) -> Seq<(u64, T)>
    decreases i,
{
    if i <= 0 {
        Seq::empty()
    } else if cues[i - 1] is Tick {
        flushed(track_at(cues, sel, i - 1), pending_at(cues, sel, i - 1), clock_at(cues, i - 1))
    } else {
        track_at(cues, sel, i - 1)
    }
}

/// The finished track of a channel: its keyframes after every cue, with a
/// value still staged at the end made a keyframe at the final clock.
pub open spec fn compiled<T>(cues: Seq<Q>, sel: spec_fn(Q) -> Option<T>) -> Seq<(u64, T)> {
    flushed(
        track_at(cues, sel, cues.len() as int),
        pending_at(cues, sel, cues.len() as int),
        total_duration(cues),
    )
}

/// The despawn time of `name` after the first `i` cues: the clock at its
/// latest `Despawn`.
pub open spec fn despawn_at(cues: Seq<Q>, name: Seq<char>, i: int) -> Option<u64>
    decreases i,
{
    if i <= 0 {
        None
    } else {
        match cues[i - 1] {
            Q::Despawn(n) => if n@ == name {
                Some(clock_at(cues, i - 1) as u64)
            } else {
                despawn_at(cues, name, i - 1)
            },
            _ => despawn_at(cues, name, i - 1),
        }
    }
}

/// The translation first staged for `name` among the first `i` cues.
pub open spec fn first_tran_at(cues: Seq<Q>, name: Seq<char>, i: int) -> Option<Position>
    decreases i,
{
    if i <= 0 {
        None
    } else {
        match first_tran_at(cues, name, i - 1) {
            Some(p) => Some(p),
            None => tran_of(name)(cues[i - 1]),
        }
    }
}

/// The clock never runs backwards.
pub proof fn lemma_clock_monotone(cues: Seq<Q>, i: int, j: int)
    requires
        i <= j,
    ensures
        0 <= clock_at(cues, i) <= clock_at(cues, j),
    decreases j,
{
    if j > 0 && i < j {
        lemma_clock_monotone(cues, i, j - 1);
    } else if j > 0 {
        lemma_clock_monotone(cues, i - 1, j - 1);
    }
}

/// While the sequence's length fits the clock, no keyframe made so far is
/// later than the clock, and keyframe times never go down.
pub proof fn lemma_track_ordered<T>(cues: Seq<Q>, sel: spec_fn(Q) -> Option<T>, i: int)
    requires
        0 <= i <= cues.len(),
        total_duration(cues) <= u64::MAX,
    ensures
        crate::track::times_ordered(track_at(cues, sel, i)),
        forall|k: int|
            0 <= k < track_at(cues, sel, i).len() ==> (#[trigger] track_at(cues, sel, i)[k]).0
                <= clock_at(cues, i),
    decreases i,
{
    if i > 0 {
        lemma_track_ordered(cues, sel, i - 1);
        lemma_clock_monotone(cues, i - 1, i);
        lemma_clock_monotone(cues, i, cues.len() as int);
    }
}

/// Keyframe times of a finished track never go down, and none is later than
/// the sequence's length.
pub proof fn lemma_compiled_ordered<T>(cues: Seq<Q>, sel: spec_fn(Q) -> Option<T>)
    requires
        total_duration(cues) <= u64::MAX,
    ensures
        crate::track::times_ordered(compiled(cues, sel)),
        forall|k: int|
            0 <= k < compiled(cues, sel).len() ==> (#[trigger] compiled(cues, sel)[k]).0
                <= total_duration(cues),
{
    lemma_track_ordered(cues, sel, cues.len() as int);
    lemma_clock_monotone(cues, 0, cues.len() as int);
}

/// Whether every tick among the cues advances the clock.
pub open spec fn ticks_positive(cues: Seq<Q>) -> bool {
    forall|k: int| 0 <= k < cues.len() && #[trigger] cues[k] is Tick ==> tick_of(cues[k]) > 0
}

/// Whether keyframe times go up along the track.
pub open spec fn times_rising<T>(curve: Seq<(u64, T)>) -> bool {
    forall|i: int, j: int| 0 <= i < j < curve.len() ==> curve[i].0 < curve[j].0
}

/// Where every tick advances the clock, every keyframe made so far is
/// earlier than the clock, and keyframe times go up.
pub proof fn lemma_track_rising<T>(cues: Seq<Q>, sel: spec_fn(Q) -> Option<T>, i: int)
    requires
        0 <= i <= cues.len(),
        total_duration(cues) <= u64::MAX,
        ticks_positive(cues),
    ensures
        times_rising(track_at(cues, sel, i)),
        forall|k: int|
            0 <= k < track_at(cues, sel, i).len() ==> (#[trigger] track_at(cues, sel, i)[k]).0
                < clock_at(cues, i),
    decreases i,
{
    if i > 0 {
        lemma_track_rising(cues, sel, i - 1);
        lemma_clock_monotone(cues, i - 1, i);
        lemma_clock_monotone(cues, i, cues.len() as int);
        if cues[i - 1] is Tick {
            assert(tick_of(cues[i - 1]) > 0);
        }
    }
}

/// Where every tick advances the clock, the keyframe times of a finished
/// track go up: no two keyframes share a time.
pub proof fn lemma_compiled_rising<T>(cues: Seq<Q>, sel: spec_fn(Q) -> Option<T>)
    requires
        total_duration(cues) <= u64::MAX,
        ticks_positive(cues),
    ensures
        times_rising(compiled(cues, sel)),
{
    lemma_track_rising(cues, sel, cues.len() as int);
    lemma_clock_monotone(cues, 0, cues.len() as int);
}

/// Whether one of the first `i` cues stages a value on the channel.
pub open spec fn staged_before<T>(cues: Seq<Q>, sel: spec_fn(Q) -> Option<T>, i: int) -> bool {
    exists|k: int| 0 <= k < i && !(#[trigger] cues[k] is Tick) && sel(cues[k]) is Some
}

/// A channel has a keyframe or a staged value exactly when some cue so far
/// staged a value on it.
pub proof fn lemma_track_nonempty<T>(cues: Seq<Q>, sel: spec_fn(Q) -> Option<T>, i: int)
    requires
        0 <= i <= cues.len(),
    ensures
        (track_at(cues, sel, i).len() > 0 || pending_at(cues, sel, i) is Some) <==> staged_before(
            cues,
            sel,
            i,
        ),
    decreases i,
{
    if i > 0 {
        lemma_track_nonempty(cues, sel, i - 1);
        if staged_before(cues, sel, i - 1) {
            let k = choose|k: int|
                0 <= k < i - 1 && !(#[trigger] cues[k] is Tick) && sel(cues[k]) is Some;
            assert(0 <= k < i && !(cues[k] is Tick) && sel(cues[k]) is Some);
        }
        if !(cues[i - 1] is Tick) && sel(cues[i - 1]) is Some {
            assert(staged_before(cues, sel, i));
        }
        if staged_before(cues, sel, i) && !staged_before(cues, sel, i - 1) {
            let k = choose|k: int|
                0 <= k < i && !(#[trigger] cues[k] is Tick) && sel(cues[k]) is Some;
            assert(k == i - 1);
        }
    }
}

/// A finished track is empty exactly when no cue stages a value on its
/// channel.
pub proof fn lemma_compiled_nonempty<T>(cues: Seq<Q>, sel: spec_fn(Q) -> Option<T>)
    ensures
        compiled(cues, sel).len() > 0 <==> staged_before(cues, sel, cues.len() as int),
{
    lemma_track_nonempty(cues, sel, cues.len() as int);
}

/// A value staged before the first tick is the track's first keyframe, at
/// time zero; of several, the last one staged.
pub proof fn lemma_initial_keyframe<T>(cues: Seq<Q>, sel: spec_fn(Q) -> Option<T>, first_tick: int)
    requires
        0 <= first_tick <= cues.len(),
        forall|k: int| 0 <= k < first_tick ==> !(#[trigger] cues[k] is Tick),
        first_tick < cues.len() ==> cues[first_tick] is Tick,
        pending_at(cues, sel, first_tick) is Some,
    ensures
        compiled(cues, sel).len() > 0,
        compiled(cues, sel)[0] == (0u64, pending_at(cues, sel, first_tick)->0),
{
    lemma_no_ticks(cues, sel, first_tick);
    if first_tick < cues.len() {
        lemma_track_prefix(cues, sel, first_tick + 1, cues.len() as int);
    }
}

/// Before the first tick the clock is zero and no keyframe exists.
proof fn lemma_no_ticks<T>(cues: Seq<Q>, sel: spec_fn(Q) -> Option<T>, i: int)
    requires
        0 <= i <= cues.len(),
        forall|k: int| 0 <= k < i ==> !(#[trigger] cues[k] is Tick),
    ensures
        clock_at(cues, i) == 0,
        track_at(cues, sel, i).len() == 0,
    decreases i,
{
    if i > 0 {
        lemma_no_ticks(cues, sel, i - 1);
        assert(!(cues[i - 1] is Tick));
    }
}

/// Keyframes are only ever appended: the track after fewer cues is a prefix
/// of the track after more.
pub proof fn lemma_track_prefix<T>(cues: Seq<Q>, sel: spec_fn(Q) -> Option<T>, i: int, j: int)
    requires
        0 <= i <= j <= cues.len(),
    ensures
        track_at(cues, sel, i).len() <= track_at(cues, sel, j).len(),
        forall|k: int|
            0 <= k < track_at(cues, sel, i).len() ==> track_at(cues, sel, j)[k] == track_at(
                cues,
                sel,
                i,
            )[k],
    decreases j,
{
    if i < j {
        lemma_track_prefix(cues, sel, i, j - 1);
    }
}

/// The length of the whole sequence, or `None` when it is too long for the
/// clock to hold.
pub fn cue_duration(cues: &Vec<Q>) -> (r: Option<u64>)
    ensures
        match r {
            Some(d) => d == total_duration(cues@),
            None => total_duration(cues@) > u64::MAX,
        },
{
    let mut t: u64 = 0;
    let mut i: usize = 0;
    while i < cues.len()
        invariant
            i <= cues@.len(),
            t == clock_at(cues@, i as int),
        decreases cues@.len() - i,
    {
        if let Q::Tick(dt) = &cues[i] {
            match t.checked_add(*dt) {
                Some(sum) => {
                    t = sum;
                },
                None => {
                    proof {
                        lemma_clock_monotone(cues@, i as int + 1, cues@.len() as int);
                    }
                    return None;
                },
            }
        }
        i += 1;
    }
    Some(t)
}

/// Where `name` starts out: the translation that the list stages for it
/// first.
pub fn initial_position(cues: &Vec<Q>, name: &str) -> (r: Option<Position>)
    ensures
        r == first_tran_at(cues@, name@, cues@.len() as int),
{
    let key = name.to_owned();
    let mut i: usize = 0;
    while i < cues.len()
        invariant
            i <= cues@.len(),
            key@ == name@,
            first_tran_at(cues@, name@, i as int) is None,
        decreases cues@.len() - i,
    {
        if let Q::Tran(n, x, y, z) = &cues[i] {
            if *n == key {
                proof {
                    lemma_first_tran_stays(cues@, name@, i as int + 1, cues@.len() as int);
                }
                return Some((*x, *y, *z));
            }
        }
        i += 1;
    }
    None
}

/// Once a first translation is found, later cues do not change it.
proof fn lemma_first_tran_stays(cues: Seq<Q>, name: Seq<char>, i: int, j: int)
    requires
        0 <= i <= j,
        first_tran_at(cues, name, i) is Some,
    ensures
        first_tran_at(cues, name, j) == first_tran_at(cues, name, i),
    decreases j,
{
    if i < j {
        lemma_first_tran_stays(cues, name, i, j - 1);
    }
}

} // verus!
