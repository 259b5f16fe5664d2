use vstd::prelude::*;
use crate::error::{Result, RhythmixError};
use crate::text::{decimal_string, decimal_text};

verus! {

/// A lane of the rhythm game (0 to 2 in the three-lane layout).
#[derive(Debug, Clone, Copy, PartialEq, Eq, Structural)]
pub struct Lane(pub u8);

/// The error of a lane outside its layout.
pub open spec fn lane_error_message(lane: nat, max_lanes: nat) -> Seq<char> {
    "Lane "@ + decimal_text(lane) + " is invalid for "@ + decimal_text(max_lanes) + "-lane layout"@
}

impl Lane {
    /// Makes the lane numbered `lane` of a layout of `max_lanes` lanes.
    pub fn new(lane: u8, max_lanes: u8) -> (r: Result<Self>)
        ensures
            r is Ok <==> lane < max_lanes,
            r matches Ok(l) ==> l.0 == lane,
            r matches Err(e) ==> e matches RhythmixError::InvalidConfig(m) && m@ == lane_error_message(
                lane as nat,
                max_lanes as nat,
            ),
    {
        if lane >= max_lanes {
            let mut m = "Lane ".to_owned();
            m.append(decimal_string(lane as u64).as_str());
            m.append(" is invalid for ");
            m.append(decimal_string(max_lanes as u64).as_str());
            m.append("-lane layout");
            return Err(RhythmixError::InvalidConfig(m));
        }
        Ok(Lane(lane))
    }

    /// The lane's number.
    pub fn value(&self) -> (v: u8)
        ensures
            v == self.0,
    {
        self.0
    }
}

/// The lanes a note occupies: its own lane and, for a multi note, its
/// additional lanes.
pub open spec fn occupied_lanes(lane: Lane, additional: Seq<Lane>) -> Seq<Lane> {
    seq![lane] + additional
}

/// Whether two notes that meet in time collide: two multi notes collide when
/// they share any lane; otherwise notes collide when their own lanes match.
/// `additional` is `Some` with a multi note's additional lanes, `None` for
/// every other note.
pub open spec fn notes_collide(
    lane: Lane,
    additional: Option<Seq<Lane>>,
    other_lane: Lane,
    other_additional: Option<Seq<Lane>>,
) -> bool {
    if additional is Some && other_additional is Some {
        exists|l: Lane|
            #[trigger] occupied_lanes(lane, additional->0).contains(l) && occupied_lanes(
                other_lane,
                other_additional->0,
            ).contains(l)
    } else {
        lane == other_lane
    }
}

/// Two multi notes that share a lane collide.
proof fn lemma_collide_witness(lane: Lane, a: Seq<Lane>, other_lane: Lane, b: Seq<Lane>, x: int, y: int)
    requires
        0 <= x < occupied_lanes(lane, a).len(),
        0 <= y < occupied_lanes(other_lane, b).len(),
        occupied_lanes(lane, a)[x] == occupied_lanes(other_lane, b)[y],
    ensures
        notes_collide(lane, Some(a), other_lane, Some(b)),
{
    let l = occupied_lanes(lane, a)[x];
    assert(occupied_lanes(lane, a).contains(l));
    assert(occupied_lanes(other_lane, b).contains(l));
    assert(Some(a)->0 == a);
}

fn any_lane_in(lane: Lane, lanes: &[Lane]) -> (r: bool)
    ensures
        r == exists|j: int| 0 <= j < lanes@.len() && lanes@[j] == lane,
{
    let mut j: usize = 0;
    while j < lanes.len()
        invariant
            j <= lanes@.len(),
            forall|m: int| 0 <= m < j ==> lanes@[m] != lane,
        decreases lanes@.len() - j,
    {
        if lanes[j].0 == lane.0 {
            return true;
        }
        j = j + 1;
    }
    false
}

/// Whether two multi notes share a lane.
fn multi_lanes_overlap(lane: Lane, a: &[Lane], other_lane: Lane, b: &[Lane]) -> (r: bool)
    ensures
        r == notes_collide(lane, Some(a@), other_lane, Some(b@)),
{
    let ghost sa = occupied_lanes(lane, a@);
    let ghost sb = occupied_lanes(other_lane, b@);
    if lane.0 == other_lane.0 {
        proof {
            lemma_collide_witness(lane, a@, other_lane, b@, 0, 0);
        }
        return true;
    }
    if any_lane_in(lane, b) {
        let ghost j = choose|j: int| 0 <= j < b@.len() && b@[j] == lane;
        proof {
            lemma_collide_witness(lane, a@, other_lane, b@, 0, j + 1);
        }
        return true;
    }
    assert forall|y: int| 0 <= y < sb.len() implies sa[0] != sb[y] by {
        if y > 0 {
            assert(sb[y] == b@[y - 1]);
        }
    }
    let mut i: usize = 0;
    while i < a.len()
        invariant
            i <= a@.len(),
            sa == occupied_lanes(lane, a@),
            sb == occupied_lanes(other_lane, b@),
            forall|x: int, y: int| 0 <= x < i + 1 && 0 <= y < sb.len() ==> sa[x] != sb[y],
        decreases a@.len() - i,
    {
        let l = a[i];
        assert(sa[i + 1] == l);
        if l.0 == other_lane.0 {
            proof {
                lemma_collide_witness(lane, a@, other_lane, b@, i + 1, 0);
            }
            return true;
        }
        if any_lane_in(l, b) {
            let ghost j = choose|j: int| 0 <= j < b@.len() && b@[j] == l;
            proof {
                lemma_collide_witness(lane, a@, other_lane, b@, i + 1, j + 1);
            }
            return true;
        }
        assert forall|y: int| 0 <= y < sb.len() implies sa[i + 1] != sb[y] by {
            if y > 0 {
                assert(sb[y] == b@[y - 1]);
            }
        }
        i = i + 1;
    }
    assert forall|m: Lane| #[trigger] sa.contains(m) implies !sb.contains(m) by {
        if sb.contains(m) {
            let x = choose|x: int| 0 <= x < sa.len() && sa[x] == m;
            let y = choose|y: int| 0 <= y < sb.len() && sb[y] == m;
            assert(sa[x] != sb[y]);
        }
    }
    false
}

/// Whether two notes that meet in time collide by their lanes.
pub fn lanes_overlap(
    lane: Lane,
    additional: Option<&[Lane]>,
    other_lane: Lane,
    other_additional: Option<&[Lane]>,
) -> (r: bool)
    ensures
        r == notes_collide(
            lane,
            match additional {
                Some(a) => Some(a@),
                None => None,
            },
            other_lane,
            match other_additional {
                Some(b) => Some(b@),
                None => None,
            },
        ),
{
    match additional {
        Some(a) => match other_additional {
            Some(b) => multi_lanes_overlap(lane, a, other_lane, b),
            None => lane.0 == other_lane.0,
        },
        None => lane.0 == other_lane.0,
    }
}

/// Collision is symmetric: a note collides with another exactly when the
/// other collides with it.
pub proof fn lemma_collide_symmetric(
    lane: Lane,
    additional: Option<Seq<Lane>>,
    other_lane: Lane,
    other_additional: Option<Seq<Lane>>,
)
    ensures
        notes_collide(lane, additional, other_lane, other_additional) == notes_collide(
            other_lane,
            other_additional,
            lane,
            additional,
        ),
{
    if additional is Some && other_additional is Some {
        let a = occupied_lanes(lane, additional->0);
        let b = occupied_lanes(other_lane, other_additional->0);
        if notes_collide(lane, additional, other_lane, other_additional) {
            let l = choose|l: Lane| #[trigger] a.contains(l) && b.contains(l);
            assert(b.contains(l) && a.contains(l));
        }
        if notes_collide(other_lane, other_additional, lane, additional) {
            let l = choose|l: Lane| #[trigger] b.contains(l) && a.contains(l);
            assert(a.contains(l) && b.contains(l));
        }
    }
}

/// Every note collides with itself.
pub proof fn lemma_collide_reflexive(lane: Lane, additional: Option<Seq<Lane>>)
    ensures
        notes_collide(lane, additional, lane, additional),
{
    if additional is Some {
        let a = occupied_lanes(lane, additional->0);
        assert(a[0] == lane);
        assert(a.contains(lane));
    }
}

/// The kinds of song section.
#[derive(Debug, PartialEq, Eq, Clone, Copy, Structural)]
pub enum SectionType {
    /// Builds up intensity, center focused
    Intro,
    /// Main song section, alternating edges
    Verse,
    /// High intensity wave pattern
    Chorus,
    /// Complex cascading pattern
    Bridge,
    /// Build up to the chorus
    PreChorus,
    /// Wind down, center focused
    Outro,
}

/// Beats in a measure of 4/4 time.
pub const BEATS_PER_MEASURE: usize = 4;

/// How finely a beat grid divides the time, from one note every eight beats
/// to eight notes per beat.
#[derive(Debug, Clone, Copy, PartialEq, Eq, Structural)]
pub enum GridDivision {
    /// Slowest: one note every 8 beats
    DoubleBreve,
    /// One note every 4 beats
    Breve,
    /// One note every 2 beats
    Whole,
    /// One note per beat
    Half,
    /// Two notes per beat (the default)
    Quarter,
    /// Four notes per beat
    Eighth,
    /// Eight notes per beat
    Sixteenth,
}

/// The number that names a grid division: the divisions of an eight-beat span.
pub open spec fn division_count(d: GridDivision) -> nat {
    match d {
        GridDivision::DoubleBreve => 1,
        GridDivision::Breve => 2,
        GridDivision::Whole => 4,
        GridDivision::Half => 8,
        GridDivision::Quarter => 16,
        GridDivision::Eighth => 32,
        GridDivision::Sixteenth => 64,
    }
}

impl GridDivision {
    /// The number that names this division (1, 2, 4, ... 64).
    pub fn divisions(self) -> (n: usize)
        ensures
            n as nat == division_count(self),
    {
        match self {
            GridDivision::DoubleBreve => 1,
            GridDivision::Breve => 2,
            GridDivision::Whole => 4,
            GridDivision::Half => 8,
            GridDivision::Quarter => 16,
            GridDivision::Eighth => 32,
            GridDivision::Sixteenth => 64,
        }
    }
}

impl Default for GridDivision {
    fn default() -> (d: Self)
        ensures
            d == GridDivision::Quarter,
    {
        GridDivision::Quarter
    }
}

/// Whether a note on `lane` with the additional lanes `extra` plays lane `l`.
pub open spec fn plays_lane(l: Lane, lane: Lane, extra: Seq<Lane>) -> bool {
    l == lane || extra.contains(l)
}

/// A multi note and a note of any other kind collide exactly when their own
/// lanes match; two multi notes collide exactly when some lane is played by
/// both, as an own or an additional lane.
pub proof fn lemma_collide_by_shared_lane(
    lane: Lane,
    additional: Option<Seq<Lane>>,
    other_lane: Lane,
    other_additional: Option<Seq<Lane>>,
)
    ensures
        (additional is None || other_additional is None) ==> (notes_collide(
            lane,
            additional,
            other_lane,
            other_additional,
        ) <==> lane == other_lane),
        additional is Some && other_additional is Some ==> (notes_collide(
            lane,
            additional,
            other_lane,
            other_additional,
        ) <==> exists|l: Lane|
            #[trigger] plays_lane(l, lane, additional->0) && plays_lane(
                l,
                other_lane,
                other_additional->0,
            )),
{
    if additional is Some && other_additional is Some {
        let a = additional->0;
        let b = other_additional->0;
        let sa = occupied_lanes(lane, a);
        let sb = occupied_lanes(other_lane, b);
        assert forall|l: Lane| #[trigger] sa.contains(l) == plays_lane(l, lane, a) by {
            if sa.contains(l) {
                let x = choose|x: int| 0 <= x < sa.len() && sa[x] == l;
                if x > 0 {
                    assert(a[x - 1] == sa[x]);
                }
            }
            if plays_lane(l, lane, a) {
                if l == lane {
                    assert(sa[0] == l);
                } else {
                    let x = choose|x: int| 0 <= x < a.len() && a[x] == l;
                    assert(sa[x + 1] == l);
                }
            }
        }
        assert forall|l: Lane| #[trigger] sb.contains(l) == plays_lane(l, other_lane, b) by {
            if sb.contains(l) {
                let x = choose|x: int| 0 <= x < sb.len() && sb[x] == l;
                if x > 0 {
                    assert(b[x - 1] == sb[x]);
                }
            }
            if plays_lane(l, other_lane, b) {
                if l == other_lane {
                    assert(sb[0] == l);
                } else {
                    let x = choose|x: int| 0 <= x < b.len() && b[x] == l;
                    assert(sb[x + 1] == l);
                }
            }
        }
        if notes_collide(lane, additional, other_lane, other_additional) {
            let l = choose|l: Lane| #[trigger] sa.contains(l) && sb.contains(l);
            assert(plays_lane(l, lane, a) && plays_lane(l, other_lane, b));
        }
        if exists|l: Lane| #[trigger] plays_lane(l, lane, a) && plays_lane(l, other_lane, b) {
            let l = choose|l: Lane| #[trigger] plays_lane(l, lane, a) && plays_lane(l, other_lane, b);
            assert(sa.contains(l) && sb.contains(l));
        }
    }
}

/// Each grid division is twice as fine as the one before it, from one note
/// every eight beats (the slowest) to eight notes per beat.
pub proof fn lemma_grid_divisions_double()
    ensures
        division_count(GridDivision::DoubleBreve) == 1,
        division_count(GridDivision::Breve) == 2 * division_count(GridDivision::DoubleBreve),
        division_count(GridDivision::Whole) == 2 * division_count(GridDivision::Breve),
        division_count(GridDivision::Half) == 2 * division_count(GridDivision::Whole),
        division_count(GridDivision::Quarter) == 2 * division_count(GridDivision::Half),
        division_count(GridDivision::Eighth) == 2 * division_count(GridDivision::Quarter),
        division_count(GridDivision::Sixteenth) == 2 * division_count(GridDivision::Eighth),
{
}

} // verus!
