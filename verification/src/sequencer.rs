//! The cue sequencer: compiled tracks for every entity of a scene, a
//! playback clock, and the per-tick sampling that turns the clock into
//! commands for the presentation layer.

use vstd::prelude::*;
use crate::cue::{
    Q, Position, clock_at, compiled, cue_duration, despawn_at, flip_of, lemma_clock_monotone,
    paused_of, pending_at, rot_of, subtitle_of, total_duration, track_at, tran_of, vol_of,
};
use crate::track::{Fraction, find_segment, lerp, lerp_spec, sample_at, snap, snap_spec};

verus! {

/// Volume of a sound that has no volume keyframe: full volume, in
/// thousandths.
pub const FULL_VOLUME: i64 = 1000;

/// Where playback stands.
#[derive(Clone, Copy, Debug, PartialEq, Eq, Structural)]
pub enum Phase {
    /// Not ticked yet.
    Idle,
    /// Ticked, and the clock is before the end.
    Playing,
    /// The clock has reached the end. Nothing leads out of this phase.
    Finished,
}

/// The tracks of one entity.
#[derive(Clone, Debug)]
pub struct EntityCues {
    pub name: String,
    pub position: Vec<(u64, Position)>,
    pub rotation: Vec<(u64, i64)>,
    pub volume: Vec<(u64, i64)>,
    pub paused: Vec<(u64, bool)>,
    pub flip: Vec<(u64, bool)>,
    pub despawn: Option<u64>,
}

impl EntityCues {
    /// Every track is the one that `cues` compile to for this entity's name.
    pub open spec fn compiled_from(self, cues: Seq<Q>) -> bool {
        &&& self.position@ == compiled(cues, tran_of(self.name@))
        &&& self.rotation@ == compiled(cues, rot_of(self.name@))
        &&& self.volume@ == compiled(cues, vol_of(self.name@))
        &&& self.paused@ == compiled(cues, paused_of(self.name@))
        &&& self.flip@ == compiled(cues, flip_of(self.name@))
        &&& self.despawn == despawn_at(cues, self.name@, cues.len() as int)
    }

    /// Whether the entity has a sound to drive: a volume or a pause keyframe.
    pub open spec fn has_audio(self) -> bool {
        self.volume@.len() > 0 || self.paused@.len() > 0
    }
}

/// What one tick asks the presentation layer to do for one entity.
#[derive(Clone, Debug)]
pub struct EntityFrame {
    pub name: String,
    /// Volume and pause state, for an entity with a sound.
    pub audio: Option<(i64, bool)>,
    /// Whether the entity is due to be removed.
    pub despawn: bool,
    /// Horizontal flip, once a flip keyframe has been reached.
    pub flip: Option<bool>,
}

/// What one tick of the sequencer came to.
#[derive(Clone, Debug)]
pub enum CueStep {
    /// The sequencer is not playing; nothing changed.
    Halted,
    /// The clock is at or past the end: the scene is over, nothing was
    /// sampled.
    Finished,
    /// One frame per entity, in the sequencer's order, and the subtitle.
    Frame(Vec<EntityFrame>, String),
}

/// Compiled cue tracks with their playback clock.
#[derive(Clone, Debug)]
pub struct CueSequencer {
    pub playing: bool,
    pub phase: Phase,
    pub entities: Vec<EntityCues>,
    pub subtitles: Vec<(u64, String)>,
    pub time: u64,
    pub end: u64,
}

impl Default for CueSequencer {
    /// A sequencer without cues, not playing.
    fn default() -> (seq: CueSequencer)
        ensures
            !seq.playing,
            seq.phase == Phase::Idle,
            seq.entities@.len() == 0,
            seq.subtitles@.len() == 0,
            seq.time == 0,
            seq.end == 0,
    {
        CueSequencer {
            playing: false,
            phase: Phase::Idle,
            entities: Vec::new(),
            subtitles: Vec::new(),
            time: 0,
            end: 0,
        }
    }
}

/// The duration a tick contributes: a negative one counts as zero.
pub open spec fn elapsed(dt: i64) -> int {
    if dt < 0 {
        0
    } else {
        dt as int
    }
}

/// The clock after a tick of `dt`: it stops at the largest time it can hold.
pub open spec fn advanced(time: u64, dt: i64) -> u64 {
    if time + elapsed(dt) > u64::MAX {
        u64::MAX
    } else {
        (time + elapsed(dt)) as u64
    }
}

/// The value of the last keyframe among the first `i` whose time is not
/// later than `time`.
pub open spec fn held_at<T>(curve: Seq<(u64, T)>, time: u64, i: int) -> Option<T>
    decreases i,
{
    if i <= 0 {
        None
    } else if curve[i - 1].0 <= time {
        Some(curve[i - 1].1)
    } else {
        held_at(curve, time, i - 1)
    }
}

/// The value held at `time`: that of the last keyframe whose time is not
/// later.
pub open spec fn held<T>(curve: Seq<(u64, T)>, time: u64) -> Option<T> {
    held_at(curve, time, curve.len() as int)
}

/// Index of the first entity at or after `from` called `name`, or the number
/// of entities when there is none.
pub open spec fn index_from(entities: Seq<EntityCues>, name: Seq<char>, from: int) -> int
    decreases entities.len() - from,
{
    if from < 0 || from >= entities.len() {
        entities.len() as int
    } else if entities[from].name@ == name {
        from
    } else {
        index_from(entities, name, from + 1)
    }
}

/// The names in `names[..i]`, each once, in the order of their first
/// occurrence.
pub open spec fn distinct_names(names: Seq<Seq<char>>, i: int) -> Seq<Seq<char>>
    decreases i,
{
    if i <= 0 {
        Seq::empty()
    } else {
        let prev = distinct_names(names, i - 1);
        if prev.contains(names[i - 1]) {
            prev
        } else {
            prev.push(names[i - 1])
        }
    }
}

/// The names of a list of entities, in order.
pub open spec fn names_of(entities: Seq<EntityCues>) -> Seq<Seq<char>> {
    Seq::new(entities.len(), |i: int| entities[i].name@)
}

/// The names of a catalog, in order.
pub open spec fn catalog_names(catalog: Seq<String>) -> Seq<Seq<char>> {
    Seq::new(catalog.len(), |i: int| catalog[i]@)
}

/// What `index_from` finds: no entity it passed has the name, and the one it
/// stops at has.
pub proof fn lemma_index_from(entities: Seq<EntityCues>, name: Seq<char>, from: int)
    requires
        0 <= from <= entities.len(),
    ensures
        from <= index_from(entities, name, from) <= entities.len(),
        forall|j: int| from <= j < index_from(entities, name, from) ==> entities[j].name@ != name,
        index_from(entities, name, from) < entities.len() ==> entities[index_from(
            entities,
            name,
            from,
        )].name@ == name,
    decreases entities.len() - from,
{
    if from < entities.len() && entities[from].name@ != name {
        lemma_index_from(entities, name, from + 1);
    }
}

/// `distinct_names` holds no name twice, and holds exactly the names of the
/// prefix it was made from.
pub proof fn lemma_distinct_names(names: Seq<Seq<char>>, i: int)
    requires
        0 <= i <= names.len(),
    ensures
        distinct_names(names, i).no_duplicates(),
        forall|n: Seq<char>| #[trigger]
            distinct_names(names, i).contains(n) <==> exists|k: int|
                0 <= k < i && #[trigger] names[k] == n,
    decreases i,
{
    if i > 0 {
        lemma_distinct_names(names, i - 1);
        let prev = distinct_names(names, i - 1);
        let cur = distinct_names(names, i);
        assert forall|n: Seq<char>| #[trigger] cur.contains(n) <==> exists|k: int|
            0 <= k < i && #[trigger] names[k] == n by {
            if cur.contains(n) {
                if prev.contains(n) {
                    let k = choose|k: int| 0 <= k < i - 1 && #[trigger] names[k] == n;
                    assert(0 <= k < i && names[k] == n);
                } else {
                    let j = choose|j: int| 0 <= j < cur.len() && cur[j] == n;
                    assert(n == names[i - 1]);
                }
            }
            if exists|k: int| 0 <= k < i && #[trigger] names[k] == n {
                let k = choose|k: int| 0 <= k < i && #[trigger] names[k] == n;
                if k < i - 1 {
                    assert(prev.contains(n));
                    let j = choose|j: int| 0 <= j < prev.len() && prev[j] == n;
                    assert(cur[j] == n);
                } else if !prev.contains(n) {
                    assert(cur[cur.len() - 1] == n);
                } else {
                    let j = choose|j: int| 0 <= j < prev.len() && prev[j] == n;
                    assert(cur[j] == n);
                }
            }
        }
    }
}

/// Index of the first entity called `key`.
pub fn find_entity(entities: &Vec<EntityCues>, key: &String) -> (r: Option<usize>)
    ensures
        match r {
            Some(i) => i < entities@.len() && index_from(entities@, key@, 0) == i,
            None => index_from(entities@, key@, 0) == entities@.len(),
        },
{
    let mut i: usize = 0;
    while i < entities.len()
        invariant
            i <= entities@.len(),
            index_from(entities@, key@, 0) == index_from(entities@, key@, i as int),
        decreases entities@.len() - i,
    {
        if entities[i].name == *key {
            return Some(i);
        }
        i += 1;
    }
    None
}

/// Compiles every track of the entity called `name` in one pass over the
/// list.
#[verifier::rlimit(50)]
fn compile_entity(cues: &Vec<Q>, name: &String) -> (e: EntityCues)
    requires
        total_duration(cues@) <= u64::MAX,
    ensures
        e.name == *name,
        e.compiled_from(cues@),
{
    let mut t: u64 = 0;
    let mut pos_next: Option<Position> = None;
    let mut position: Vec<(u64, Position)> = Vec::new();
    let mut rot_next: Option<i64> = None;
    let mut rotation: Vec<(u64, i64)> = Vec::new();
    let mut vol_next: Option<i64> = None;
    let mut volume: Vec<(u64, i64)> = Vec::new();
    let mut paused_next: Option<bool> = None;
    let mut paused: Vec<(u64, bool)> = Vec::new();
    let mut flip_next: Option<bool> = None;
    let mut flip: Vec<(u64, bool)> = Vec::new();
    let mut despawn: Option<u64> = None;
    let mut i: usize = 0;
    while i < cues.len()
        invariant
            i <= cues@.len(),
            total_duration(cues@) <= u64::MAX,
            t == clock_at(cues@, i as int),
            pos_next == pending_at(cues@, tran_of(name@), i as int),
            position@ == track_at(cues@, tran_of(name@), i as int),
            rot_next == pending_at(cues@, rot_of(name@), i as int),
            rotation@ == track_at(cues@, rot_of(name@), i as int),
            vol_next == pending_at(cues@, vol_of(name@), i as int),
            volume@ == track_at(cues@, vol_of(name@), i as int),
            paused_next == pending_at(cues@, paused_of(name@), i as int),
            paused@ == track_at(cues@, paused_of(name@), i as int),
            flip_next == pending_at(cues@, flip_of(name@), i as int),
            flip@ == track_at(cues@, flip_of(name@), i as int),
            despawn == despawn_at(cues@, name@, i as int),
        decreases cues@.len() - i,
    {
        proof {
            lemma_clock_monotone(cues@, i as int + 1, cues@.len() as int);
        }
        match &cues[i] {
            Q::Tran(kname, x, y, z) => {
                if *kname == *name {
                    pos_next = Some((*x, *y, *z));
                }
            },
            Q::Rot(kname, rad) => {
                if *kname == *name {
                    rot_next = Some(*rad);
                }
            },
            Q::Flip(kname, f) => {
                if *kname == *name {
                    flip_next = Some(*f);
                }
            },
            Q::Paused(kname, p) => {
                if *kname == *name {
                    paused_next = Some(*p);
                }
            },
            Q::Vol(kname, v) => {
                if *kname == *name {
                    vol_next = Some(*v);
                }
            },
            Q::Despawn(kname) => {
                if *kname == *name {
                    despawn = Some(t);
                }
            },
            Q::Subtitle(_) => {},
            Q::Tick(dt) => {
                if let Some(p) = pos_next {
                    position.push((t, p));
                    pos_next = None;
                }
                if let Some(r) = rot_next {
                    rotation.push((t, r));
                    rot_next = None;
                }
                if let Some(v) = vol_next {
                    volume.push((t, v));
                    vol_next = None;
                }
                if let Some(p) = paused_next {
                    paused.push((t, p));
                    paused_next = None;
                }
                if let Some(f) = flip_next {
                    flip.push((t, f));
                    flip_next = None;
                }
                t = t + *dt;
            },
        }
        i += 1;
    }
    if let Some(p) = pos_next {
        position.push((t, p));
    }
    if let Some(r) = rot_next {
        rotation.push((t, r));
    }
    if let Some(v) = vol_next {
        volume.push((t, v));
    }
    if let Some(p) = paused_next {
        paused.push((t, p));
    }
    if let Some(f) = flip_next {
        flip.push((t, f));
    }
    EntityCues { name: name.clone(), position, rotation, volume, paused, flip, despawn }
}

/// Compiles the subtitle track.
fn compile_subtitles(cues: &Vec<Q>) -> (subs: Vec<(u64, String)>)
    requires
        total_duration(cues@) <= u64::MAX,
    ensures
        subs@ == compiled(cues@, subtitle_of()),
{
    let mut t: u64 = 0;
    let mut sub_next: Option<String> = None;
    let mut subs: Vec<(u64, String)> = Vec::new();
    let mut i: usize = 0;
    while i < cues.len()
        invariant
            i <= cues@.len(),
            total_duration(cues@) <= u64::MAX,
            t == clock_at(cues@, i as int),
            sub_next == pending_at(cues@, subtitle_of(), i as int),
            subs@ == track_at(cues@, subtitle_of(), i as int),
        decreases cues@.len() - i,
    {
        proof {
            lemma_clock_monotone(cues@, i as int + 1, cues@.len() as int);
        }
        match &cues[i] {
            Q::Subtitle(text) => {
                sub_next = Some(text.clone());
            },
            Q::Tick(dt) => {
                match sub_next {
                    Some(text) => {
                        subs.push((t, text));
                    },
                    None => {},
                }
                sub_next = None;
                t = t + *dt;
            },
            _ => {},
        }
        i += 1;
    }
    match sub_next {
        Some(text) => {
            subs.push((t, text));
        },
        None => {},
    }
    subs
}

/// A name is among the names of a list of entities exactly when looking it
/// up finds an entity.
pub proof fn lemma_index_contains(entities: Seq<EntityCues>, name: Seq<char>)
    ensures
        names_of(entities).contains(name) <==> index_from(entities, name, 0) < entities.len(),
{
    lemma_index_from(entities, name, 0);
    let i = index_from(entities, name, 0);
    if i < entities.len() {
        assert(names_of(entities)[i] == name);
    }
    if names_of(entities).contains(name) {
        let j = choose|j: int| 0 <= j < names_of(entities).len() && names_of(entities)[j] == name;
        assert(entities[j].name@ == name);
    }
}

/// Compiles a cue list for the entities named in `catalog`.
///
/// Every distinct name of the catalog gets one entity, in the order of first
/// mention, holding the tracks that the list compiles to for that name. The
/// subtitle track is compiled once for the whole scene. The sequencer starts
/// out playing, idle, with its clock at zero and its end at the length of the
/// list. Returns `None` exactly when that length is more than the clock can
/// hold.
#[verifier::rlimit(50)]
pub fn setup_anim(cues: &Vec<Q>, catalog: &Vec<String>) -> (r: Option<CueSequencer>)
    ensures
        r is Some <==> total_duration(cues@) <= u64::MAX,
        match r {
            Some(seq) => {
                &&& seq.playing
                &&& seq.phase == Phase::Idle
                &&& seq.time == 0
                &&& seq.end == total_duration(cues@)
                &&& seq.subtitles@ == compiled(cues@, subtitle_of())
                &&& names_of(seq.entities@) == distinct_names(
                    catalog_names(catalog@),
                    catalog@.len() as int,
                )
                &&& forall|i: int|
                    0 <= i < seq.entities@.len() ==> (#[trigger] seq.entities@[i]).compiled_from(
                        cues@,
                    )
                &&& seq.wf()
            },
            None => true,
        },
{
    let end: u64 = match cue_duration(cues) {
        Some(d) => d,
        None => {
            return None;
        },
    };
    let mut entities: Vec<EntityCues> = Vec::new();
    let mut k: usize = 0;
    while k < catalog.len()
        invariant
            k <= catalog@.len(),
            total_duration(cues@) <= u64::MAX,
            names_of(entities@) == distinct_names(catalog_names(catalog@), k as int),
            forall|i: int|
                0 <= i < entities@.len() ==> (#[trigger] entities@[i]).compiled_from(cues@),
        decreases catalog@.len() - k,
    {
        let name = &catalog[k];
        proof {
            lemma_index_contains(entities@, name@);
            assert(catalog_names(catalog@)[k as int] == name@);
        }
        if find_entity(&entities, name).is_none() {
            let ghost before = entities@;
            let e = compile_entity(cues, name);
            entities.push(e);
            assert(names_of(entities@) == names_of(before).push(name@));
        }
        k += 1;
    }
    proof {
        lemma_distinct_names(catalog_names(catalog@), catalog@.len() as int);
    }
    let subtitles = compile_subtitles(cues);
    Some(CueSequencer { playing: true, phase: Phase::Idle, entities, subtitles, time: 0, end })
}

impl CueSequencer {
    /// The first entity called `name`.
    pub open spec fn entity(self, name: Seq<char>) -> Option<EntityCues> {
        let i = index_from(self.entities@, name, 0);
        if i < self.entities@.len() {
            Some(self.entities@[i])
        } else {
            None
        }
    }

    /// No two entities share a name.
    pub open spec fn wf(self) -> bool {
        names_of(self.entities@).no_duplicates()
    }

    /// Volume and pause state of `name` at `time`, for an entity that has a
    /// volume or a pause keyframe. The volume is blended linearly between
    /// keyframes and is full without any; the pause state changes only on
    /// reaching a keyframe, and a sound without any is paused.
    pub open spec fn audio_at(self, name: Seq<char>, time: u64) -> Option<(i64, bool)> {
        match self.entity(name) {
            Some(e) => if e.has_audio() {
                Some(
                    (
                        match sample_at(e.volume@, time) {
                            Some((a, b, f)) => lerp_spec(a as int, b as int, f) as i64,
                            None => FULL_VOLUME,
                        },
                        match sample_at(e.paused@, time) {
                            Some((a, b, f)) => snap_spec(a, b, f),
                            None => true,
                        },
                    ),
                )
            } else {
                None
            },
            None => None,
        }
    }

    /// Whether `name` is due to be removed at `time`: it has a despawn time
    /// and the time has come.
    pub open spec fn despawn_due(self, name: Seq<char>, time: u64) -> bool {
        match self.entity(name) {
            Some(e) => e.despawn is Some && time >= e.despawn->0,
            None => false,
        }
    }

    /// The flip of `name` at `time`: the value of its latest flip keyframe
    /// not after `time`.
    pub open spec fn flip_at(self, name: Seq<char>, time: u64) -> Option<bool> {
        match self.entity(name) {
            Some(e) => held(e.flip@, time),
            None => None,
        }
    }

    /// The subtitle at `time`: the subtitle track sampled and stepped. A text
    /// shows from its keyframe's time on, and the first text also before
    /// that; without any subtitle the text is empty.
    pub open spec fn subtitle_at(self, time: u64) -> Seq<char> {
        match sample_at(self.subtitles@, time) {
            Some((a, b, f)) => snap_spec(a, b, f)@,
            None => Seq::empty(),
        }
    }

    /// The frame of entity `i` at `time`.
    pub open spec fn frame_at(self, i: int, time: u64) -> EntityFrame {
        let name = self.entities@[i].name;
        EntityFrame {
            name,
            audio: self.audio_at(name@, time),
            despawn: self.despawn_due(name@, time),
            flip: self.flip_at(name@, time),
        }
    }

    /// Index of the first entity called `name`.
    pub fn find(&self, name: &str) -> (r: Option<usize>)
        ensures
            match r {
                Some(i) => i < self.entities@.len() && index_from(self.entities@, name@, 0) == i,
                None => index_from(self.entities@, name@, 0) == self.entities@.len(),
            },
    {
        let key = name.to_owned();
        find_entity(&self.entities, &key)
    }

    /// Samples a track at `time`: the values before and after, and the
    /// fraction of the way between them.
    ///
    /// An empty track has no sample. Before the first keyframe, and from the
    /// last one on, both values are that keyframe's and the fraction is one.
    /// A keyframe's own time starts the segment that follows it.
    pub fn get_curve<T: Copy>(curve: &Vec<(u64, T)>, time: u64) -> (r: Option<(T, T, Fraction)>)
        ensures
            r == sample_at(curve@, time),
    {
        match find_segment(curve, time) {
            Some((a, b, f)) => {
                proof {
                    crate::track::lemma_segment_wf(curve@, time);
                }
                Some((curve[a].1, curve[b].1, f))
            },
            None => None,
        }
    }

    /// Volume and pause state of the sound of `name` at `time`.
    pub fn get_audio(&self, name: &str, time: u64) -> (r: Option<(i64, bool)>)
        ensures
            r == self.audio_at(name@, time),
    {
        let i: usize = match self.find(name) {
            Some(i) => i,
            None => {
                return None;
            },
        };
        let e = &self.entities[i];
        if e.volume.len() == 0 && e.paused.len() == 0 {
            return None;
        }
        let vol: i64 = match Self::get_curve(&e.volume, time) {
            Some((a, b, f)) => {
                proof {
                    crate::track::lemma_segment_wf(e.volume@, time);
                }
                lerp(a, b, f)
            },
            None => FULL_VOLUME,
        };
        let paused: bool = match Self::get_curve(&e.paused, time) {
            Some((a, b, f)) => snap(a, b, f),
            None => true,
        };
        Some((vol, paused))
    }

    /// Whether `name` is due to be removed at `time`. Asking changes nothing,
    /// and the answer stays `true` from the despawn time on.
    pub fn get_despawn(&self, name: &str, time: u64) -> (r: bool)
        ensures
            r == self.despawn_due(name@, time),
    {
        match self.find(name) {
            Some(i) => match self.entities[i].despawn {
                Some(t) => time >= t,
                None => false,
            },
            None => false,
        }
    }

    /// The flip of `name` at `time`, once a flip keyframe has been reached.
    pub fn get_flip(&self, name: &str, time: u64) -> (r: Option<bool>)
        ensures
            r == self.flip_at(name@, time),
    {
        let i: usize = match self.find(name) {
            Some(i) => i,
            None => {
                return None;
            },
        };
        let flips = &self.entities[i].flip;
        let mut flip: Option<bool> = None;
        let mut k: usize = 0;
        while k < flips.len()
            invariant
                k <= flips@.len(),
                flip == held_at(flips@, time, k as int),
            decreases flips@.len() - k,
        {
            if time >= flips[k].0 {
                flip = Some(flips[k].1);
            }
            k += 1;
        }
        flip
    }

    /// The subtitle to show at `time`; empty where there is no subtitle at
    /// all.
    pub fn get_subtitle(&self, time: u64) -> (r: String)
        ensures
            r@ == self.subtitle_at(time),
    {
        match find_segment(&self.subtitles, time) {
            Some((a, b, f)) => {
                proof {
                    crate::track::lemma_segment_wf(self.subtitles@, time);
                }
                if f.reached() {
                    self.subtitles[b].1.clone()
                } else {
                    self.subtitles[a].1.clone()
                }
            },
            None => String::new(),
        }
    }

    /// Stops or resumes playback. A sequencer that does not play ignores
    /// ticks.
    pub fn set_playing(&mut self, playing: bool)
        ensures
            *final(self) == (CueSequencer { playing, ..*old(self) }),
    {
        self.playing = playing;
    }

    /// The frames of all entities at `time`, in the sequencer's order.
    pub fn sample_entities(&self, time: u64) -> (frames: Vec<EntityFrame>)
        ensures
            frames@.len() == self.entities@.len(),
            forall|i: int| 0 <= i < frames@.len() ==> frames@[i] == self.frame_at(i, time),
    {
        let mut frames: Vec<EntityFrame> = Vec::new();
        let mut i: usize = 0;
        while i < self.entities.len()
            invariant
                i <= self.entities@.len(),
                frames@.len() == i,
                forall|j: int| 0 <= j < i ==> frames@[j] == self.frame_at(j, time),
            decreases self.entities@.len() - i,
        {
            let name = self.entities[i].name.clone();
            let audio = self.get_audio(name.as_str(), time);
            let despawn = self.get_despawn(name.as_str(), time);
            let flip = self.get_flip(name.as_str(), time);
            frames.push(EntityFrame { name, audio, despawn, flip });
            i += 1;
        }
        frames
    }

    /// Advances playback by `dt` and samples every entity.
    ///
    /// A sequencer that is not playing, or has finished, changes nothing. Else
    /// the clock advances by `dt`, a negative `dt` counting as zero. If the
    /// clock has then reached the end, the sequencer finishes without sampling;
    /// if not, it reports one frame per entity and the subtitle, both sampled
    /// at the new clock.
    pub fn sequence_cues(&mut self, dt: i64) -> (r: CueStep)
        ensures
            final(self).time >= old(self).time,
            old(self).phase == Phase::Finished ==> final(self).phase == Phase::Finished,
            !old(self).playing ==> r is Halted && *final(self) == *old(self),
            old(self).playing && old(self).phase == Phase::Finished ==> r is Finished
                && *final(self) == *old(self),
            old(self).playing && old(self).phase != Phase::Finished ==> {
                let now = advanced(old(self).time, dt);
                &&& *final(self) == (CueSequencer {
                    time: now,
                    phase: if now >= old(self).end {
                        Phase::Finished
                    } else {
                        Phase::Playing
                    },
                    ..*old(self)
                })
                &&& now >= old(self).end ==> r is Finished
                &&& now < old(self).end ==> match r {
                    CueStep::Frame(frames, subtitle) => {
                        &&& frames@.len() == old(self).entities@.len()
                        &&& forall|i: int|
                            0 <= i < frames@.len() ==> frames@[i] == old(self).frame_at(i, now)
                        &&& subtitle@ == old(self).subtitle_at(now)
                    },
                    _ => false,
                }
            },
    {
        if !self.playing {
            return CueStep::Halted;
        }
        if self.phase == Phase::Finished {
            return CueStep::Finished;
        }
        let step: u64 = if dt < 0 {
            0
        } else {
            dt as u64
        };
        let now: u64 = self.time.saturating_add(step);
        self.time = now;
        if now >= self.end {
            self.phase = Phase::Finished;
            return CueStep::Finished;
        }
        self.phase = Phase::Playing;
        let frames = self.sample_entities(now);
        let subtitle = self.get_subtitle(now);
        CueStep::Frame(frames, subtitle)
    }
}

/// From its despawn time on, an entity stays due for removal.
pub proof fn lemma_despawn_stays(seq: CueSequencer, name: Seq<char>, t1: u64, t2: u64)
    requires
        t1 <= t2,
        seq.despawn_due(name, t1),
    ensures
        seq.despawn_due(name, t2),
{
}

} // verus!
