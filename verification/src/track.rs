//! The track timeline model: timed guitar actions, hand-position markers,
//! and the query that extracts what is visible at a given playback instant.

use vstd::prelude::*;

verus! {

/// A span of time, counted in whole milliseconds.
#[derive(Clone, Copy, PartialEq, Eq, Structural, PartialOrd, Ord, Debug)]
pub struct Duration {
    pub millis: u64,
}

impl Duration {
    pub fn from_millis(millis: u64) -> (d: Duration)
        ensures
            d.millis == millis,
    {
        Duration { millis }
    }

    pub fn from_secs(secs: u64) -> (d: Duration)
        requires
            secs * 1000 <= u64::MAX,
        ensures
            d.millis == secs * 1000,
    {
        Duration { millis: secs * 1000 }
    }
}

/// Read a duration back as a plain millisecond count.
pub trait DurationExt {
    spec fn spec_total_millis(&self) -> u64;

    fn total_millis(&self) -> (r: u64)
        ensures
            r == self.spec_total_millis(),
    ;
}

impl DurationExt for Duration {
    open spec fn spec_total_millis(&self) -> u64 {
        self.millis
    }

    fn total_millis(&self) -> u64 {
        self.millis
    }
}

/// One fretted note: which fret and string, and when it sounds.
#[derive(Clone, Copy, PartialEq, Eq, Structural, Debug)]
pub struct Fret {
    pub fret: u8,
    pub string: u8,
    pub ends_at: Duration,
    pub starts_at: Duration,
}

impl Fret {
    /// A fret hit is well formed when it starts strictly before it ends.
    pub open spec fn wf(&self) -> bool {
        self.starts_at.millis < self.ends_at.millis
    }
}

/// How far a bend raises the pitch.
#[derive(Clone, Copy, PartialEq, Eq, Structural, Debug)]
pub enum Interval {
    HalfStep,
    Step,
    DoubleStep,
}

/// One timed event on the fretboard.
#[derive(Clone, Copy, PartialEq, Eq, Structural, Debug)]
pub enum Action {
    Fret(Fret),
    Slide(Fret, Fret),
    Bend(Fret, Interval),
}

impl Action {
    /// An action is well formed when every fret hit inside it is.
    pub open spec fn wf(&self) -> bool {
        match self {
            Action::Fret(f) => f.wf(),
            Action::Slide(f1, f2) => f1.wf() && f2.wf(),
            Action::Bend(f, _) => f.wf(),
        }
    }

    /// When the action begins: a slide begins at the earlier of its two frets.
    pub open spec fn spec_starts_at(&self) -> u64 {
        match self {
            Action::Fret(f) => f.starts_at.millis,
            Action::Slide(f1, f2) => if f1.starts_at.millis <= f2.starts_at.millis {
                f1.starts_at.millis
            } else {
                f2.starts_at.millis
            },
            Action::Bend(f, _) => f.starts_at.millis,
        }
    }

    /// When the action is over: a slide ends at the later of its two frets.
    pub open spec fn spec_ends_at(&self) -> u64 {
        match self {
            Action::Fret(f) => f.ends_at.millis,
            Action::Slide(f1, f2) => if f1.ends_at.millis <= f2.ends_at.millis {
                f2.ends_at.millis
            } else {
                f1.ends_at.millis
            },
            Action::Bend(f, _) => f.ends_at.millis,
        }
    }

    pub fn starts_at(&self) -> (d: Duration)
        ensures
            d.millis == self.spec_starts_at(),
    {
        match self {
            Action::Fret(f) => f.starts_at,
            Action::Slide(f1, f2) => if f1.starts_at.millis <= f2.starts_at.millis {
                f1.starts_at
            } else {
                f2.starts_at
            },
            Action::Bend(f, _) => f.starts_at,
        }
    }

    pub fn ends_at(&self) -> (d: Duration)
        ensures
            d.millis == self.spec_ends_at(),
    {
        match self {
            Action::Fret(f) => f.ends_at,
            Action::Slide(f1, f2) => if f1.ends_at.millis <= f2.ends_at.millis {
                f2.ends_at
            } else {
                f1.ends_at
            },
            Action::Bend(f, _) => f.ends_at,
        }
    }
}

/// Every well-formed action starts strictly before it ends, whichever
/// variant it is; for a slide this holds because the earliest start of its
/// two frets precedes the latest end.
pub proof fn lemma_action_starts_before_ends(a: Action)
    requires
        a.wf(),
    ensures
        a.spec_starts_at() < a.spec_ends_at(),
{
}

/// A marker saying where the fretting hand should sit from an instant on.
#[derive(Clone, Copy, PartialEq, Eq, Structural, Debug)]
pub struct HandPosition {
    pub fret: u8,
    pub at: Duration,
}

/// The authored timeline: actions and hand positions, in authored order.
#[derive(Clone, PartialEq, Debug)]
pub struct TrackData {
    pub actions: Vec<Action>,
    pub hand_positions: Vec<HandPosition>,
}

/// A stored track: identity, display name, backing video, and its timeline.
#[derive(Clone, PartialEq, Debug)]
pub struct Track {
    pub id: String,
    pub name: String,
    pub youtube_id: String,
    pub data: TrackData,
}

/// The subset of a track visible at one instant, as indices into the
/// `TrackData` it was computed from; it holds no copies and is recomputed
/// every frame.
#[derive(Clone, PartialEq, Debug)]
pub struct TrackView {
    pub actions: Vec<usize>,
    pub hand_positions: Vec<usize>,
}

/// An action is visible when it lies entirely inside the window, both
/// bounds inclusive; an action partially outside is excluded, not clipped.
pub open spec fn action_visible(a: Action, from: int, until: int) -> bool {
    from <= a.spec_starts_at() && a.spec_ends_at() <= until
}

/// A hand position is visible from its instant on, with no upper bound.
pub open spec fn hand_position_visible(p: HandPosition, from: int) -> bool {
    from <= p.at.millis
}

/// The length of the visibility window, in milliseconds.
pub const WINDOW_MILLIS: u64 = 60000;

impl TrackData {
    /// The indices of the actions and hand positions visible in the window
    /// `[from, from + 60s]`, each list in ascending index order.
    pub fn view(&self, from: Duration) -> (v: TrackView)
        requires
            from.millis + WINDOW_MILLIS <= u64::MAX,
        ensures
            forall|k: int|
                0 <= k < v.actions@.len() ==> v.actions@[k] < self.actions@.len()
                    && action_visible(
                    self.actions@[v.actions@[k] as int],
                    from.millis as int,
                    from.millis + WINDOW_MILLIS,
                ),
            forall|k1: int, k2: int|
                0 <= k1 < k2 < v.actions@.len() ==> v.actions@[k1] < v.actions@[k2],
            forall|j: int|
                0 <= j < self.actions@.len() && action_visible(
                    self.actions@[j],
                    from.millis as int,
                    from.millis + WINDOW_MILLIS,
                ) ==> v.actions@.contains(j as usize),
            forall|k: int|
                0 <= k < v.hand_positions@.len() ==> v.hand_positions@[k]
                    < self.hand_positions@.len() && hand_position_visible(
                    self.hand_positions@[v.hand_positions@[k] as int],
                    from.millis as int,
                ),
            forall|k1: int, k2: int|
                0 <= k1 < k2 < v.hand_positions@.len() ==> v.hand_positions@[k1]
                    < v.hand_positions@[k2],
            forall|j: int|
                0 <= j < self.hand_positions@.len() && hand_position_visible(
                    self.hand_positions@[j],
                    from.millis as int,
                ) ==> v.hand_positions@.contains(j as usize),
    {
        let until = from.millis + WINDOW_MILLIS;
        let mut actions: Vec<usize> = Vec::new();
        let mut i: usize = 0;
        while i < self.actions.len()
            invariant
                i <= self.actions@.len(),
                forall|k: int|
                    0 <= k < actions@.len() ==> actions@[k] < i && action_visible(
                        self.actions@[actions@[k] as int],
                        from.millis as int,
                        from.millis + WINDOW_MILLIS,
                    ),
                forall|k1: int, k2: int|
                    0 <= k1 < k2 < actions@.len() ==> actions@[k1] < actions@[k2],
                forall|j: int|
                    0 <= j < i && action_visible(
                        self.actions@[j],
                        from.millis as int,
                        from.millis + WINDOW_MILLIS,
                    ) ==> actions@.contains(j as usize),
                until == from.millis + WINDOW_MILLIS,
            decreases self.actions@.len() - i,
        {
            let a = &self.actions[i];
            let s = a.starts_at();
            let e = a.ends_at();
            if from.millis <= s.millis && e.millis <= until {
                let ghost prev = actions@;
                actions.push(i);
                proof {
                    assert forall|j: int|
                        0 <= j <= i && action_visible(
                            self.actions@[j],
                            from.millis as int,
                            from.millis + WINDOW_MILLIS,
                        ) implies actions@.contains(j as usize) by {
                        if j == i {
                            assert(actions@[prev.len() as int] == i);
                        } else {
                            let k = choose|k: int|
                                0 <= k < prev.len() && prev[k] == j as usize;
                            assert(actions@[k] == j as usize);
                        }
                    }
                }
            }
            i = i + 1;
        }
        let mut hand_positions: Vec<usize> = Vec::new();
        let mut i: usize = 0;
        while i < self.hand_positions.len()
            invariant
                i <= self.hand_positions@.len(),
                forall|k: int|
                    0 <= k < hand_positions@.len() ==> hand_positions@[k] < i
                        && hand_position_visible(
                        self.hand_positions@[hand_positions@[k] as int],
                        from.millis as int,
                    ),
                forall|k1: int, k2: int|
                    0 <= k1 < k2 < hand_positions@.len() ==> hand_positions@[k1]
                        < hand_positions@[k2],
                forall|j: int|
                    0 <= j < i && hand_position_visible(self.hand_positions@[j], from.millis as int)
                        ==> hand_positions@.contains(j as usize),
            decreases self.hand_positions@.len() - i,
        {
            let p = &self.hand_positions[i];
            if from.millis <= p.at.millis {
                let ghost prev = hand_positions@;
                hand_positions.push(i);
                proof {
                    assert forall|j: int|
                        0 <= j <= i && hand_position_visible(
                            self.hand_positions@[j],
                            from.millis as int,
                        ) implies hand_positions@.contains(j as usize) by {
                        if j == i {
                            assert(hand_positions@[prev.len() as int] == i);
                        } else {
                            let k = choose|k: int|
                                0 <= k < prev.len() && prev[k] == j as usize;
                            assert(hand_positions@[k] == j as usize);
                        }
                    }
                }
            }
            i = i + 1;
        }
        TrackView { actions, hand_positions }
    }
}

/// Build a fret action from raw authored fields; the timestamps are
/// milliseconds.
pub fn fret_action(starts_at: u64, ends_at: u64, fret: u8, string: u8) -> (a: Action)
    ensures
        a == (Action::Fret(
            Fret {
                fret,
                string,
                starts_at: Duration { millis: starts_at },
                ends_at: Duration { millis: ends_at },
            },
        )),
{
    Action::Fret(
        Fret {
            fret,
            string,
            starts_at: Duration::from_millis(starts_at),
            ends_at: Duration::from_millis(ends_at),
        },
    )
}

/// Build a hand-position marker from raw authored fields; the timestamp is
/// milliseconds.
pub fn hand_position(at: u64, fret: u8) -> (p: HandPosition)
    ensures
        p == (HandPosition { fret, at: Duration { millis: at } }),
{
    HandPosition { fret, at: Duration::from_millis(at) }
}

} // verus!
