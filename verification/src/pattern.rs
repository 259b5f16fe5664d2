use vstd::prelude::*;
use crate::types::SectionType;

verus! {

/// The lane figures that a section's notes follow.
#[derive(Debug, Clone, Copy, PartialEq, Eq, Structural)]
pub enum PatternType {
    AlternatingEdges,
    Cascade,
    CenterFocus,
    Wave,
    CrossOver,
    Buildup,
}

/// How intense a section is, in the bands that pick its figures: above 0.8
/// is high, above 0.5 moderate, the rest low.
#[derive(Debug, Clone, Copy, PartialEq, Eq, Structural)]
pub enum IntensityBand {
    Low,
    Moderate,
    High,
}

/// The figures that a verse of the given intensity cycles through.
pub open spec fn progression(band: IntensityBand) -> Seq<PatternType> {
    match band {
        IntensityBand::High => seq![PatternType::Cascade, PatternType::Wave, PatternType::CrossOver],
        IntensityBand::Moderate => seq![PatternType::AlternatingEdges, PatternType::Wave],
        IntensityBand::Low => seq![PatternType::CenterFocus, PatternType::AlternatingEdges],
    }
}

/// The figures that a section of the given type and intensity cycles through.
pub open spec fn section_patterns(section_type: SectionType, band: IntensityBand) -> Seq<PatternType> {
    match section_type {
        SectionType::Intro => seq![PatternType::CenterFocus, PatternType::Buildup],
        SectionType::Verse => progression(band),
        SectionType::Chorus => seq![PatternType::Wave, PatternType::CrossOver],
        SectionType::Bridge => seq![PatternType::Cascade, PatternType::CrossOver],
        _ => seq![PatternType::CenterFocus],
    }
}

/// The figure of the given beat of a section: the section's figures in turn, one per beat.
pub open spec fn pattern_for_section(
    section_type: SectionType,
    band: IntensityBand,
    beat_number: nat,
) -> PatternType {
    let p = section_patterns(section_type, band);
    p[(beat_number % p.len()) as int]
}

impl PatternType {
    /// The figures that a verse of the given intensity cycles through.
    pub fn get_progression(band: IntensityBand) -> (v: Vec<PatternType>)
        ensures
            v@ == progression(band),
    {
        let mut v: Vec<PatternType> = Vec::new();
        match band {
            IntensityBand::High => {
                v.push(PatternType::Cascade);
                v.push(PatternType::Wave);
                v.push(PatternType::CrossOver);
            },
            IntensityBand::Moderate => {
                v.push(PatternType::AlternatingEdges);
                v.push(PatternType::Wave);
            },
            IntensityBand::Low => {
                v.push(PatternType::CenterFocus);
                v.push(PatternType::AlternatingEdges);
            },
        }
        assert(v@ =~= progression(band));
        v
    }
}

/// The figure of the given beat of a section of the given type and intensity.
pub fn get_pattern_for_section(
    section_type: SectionType,
    band: IntensityBand,
    beat_number: usize,
) -> (p: PatternType)
    ensures
        p == pattern_for_section(section_type, band, beat_number as nat),
{
    let patterns: Vec<PatternType> = match section_type {
        SectionType::Intro => {
            let mut v = Vec::new();
            v.push(PatternType::CenterFocus);
            v.push(PatternType::Buildup);
            v
        },
        SectionType::Verse => PatternType::get_progression(band),
        SectionType::Chorus => {
            let mut v = Vec::new();
            v.push(PatternType::Wave);
            v.push(PatternType::CrossOver);
            v
        },
        SectionType::Bridge => {
            let mut v = Vec::new();
            v.push(PatternType::Cascade);
            v.push(PatternType::CrossOver);
            v
        },
        _ => {
            let mut v = Vec::new();
            v.push(PatternType::CenterFocus);
            v
        },
    };
    assert(patterns@ =~= section_patterns(section_type, band));
    patterns[beat_number % patterns.len()]
}

/// The lane that a figure puts on the given beat.
pub open spec fn base_lane(pattern: PatternType, beat: nat) -> nat {
    match pattern {
        PatternType::AlternatingEdges => if beat % 2 == 0 {
            0
        } else {
            2
        },
        PatternType::Cascade => beat % 3,
        PatternType::CenterFocus => 1,
        PatternType::Wave => if beat % 4 == 0 {
            0
        } else if beat % 4 == 1 {
            1
        } else if beat % 4 == 2 {
            2
        } else {
            1
        },
        PatternType::CrossOver => if beat % 6 == 0 {
            0
        } else if beat % 6 == 1 {
            1
        } else if beat % 6 == 2 {
            2
        } else if beat % 6 == 3 {
            0
        } else if beat % 6 == 4 {
            2
        } else {
            1
        },
        PatternType::Buildup => if (beat / 4) % 3 == 0 {
            1
        } else if (beat / 4) % 3 == 1 {
            (beat % 2) * 2
        } else {
            beat % 3
        },
    }
}

/// The lane of a note: the figure's lane on a beat; off the beat a center
/// lane moves to an edge (the left one when `coin` is set) and, in an
/// intense section, an edge lane moves to the center.
pub open spec fn pattern_lane(
    pattern: PatternType,
    beat: nat,
    is_subdivision: bool,
    intense: bool,
    coin: bool,
) -> nat {
    let base = base_lane(pattern, beat);
    if is_subdivision {
        if base == 1 {
            if coin {
                0
            } else {
                2
            }
        } else if intense {
            1
        } else {
            base
        }
    } else {
        base
    }
}

/// The lane that a figure puts on the given beat.
fn base_lane_exec(pattern: PatternType, beat_number: usize) -> (l: u8)
    ensures
        l as nat == base_lane(pattern, beat_number as nat),
{
    match pattern {
        PatternType::AlternatingEdges => if beat_number % 2 == 0 {
            0
        } else {
            2
        },
        PatternType::Cascade => (beat_number % 3) as u8,
        PatternType::CenterFocus => 1,
        PatternType::Wave => match beat_number % 4 {
            0 => 0,
            1 => 1,
            2 => 2,
            _ => 1,
        },
        PatternType::CrossOver => match beat_number % 6 {
            0 => 0,
            1 => 1,
            2 => 2,
            3 => 0,
            4 => 2,
            _ => 1,
        },
        PatternType::Buildup => match (beat_number / 4) % 3 {
            0 => 1,
            1 => (beat_number % 2 * 2) as u8,
            _ => (beat_number % 3) as u8,
        },
    }
}

/// The lane of a note, given the outcome of the coin that sends a center
/// lane off the beat to the left (`true`) or the right (`false`).
pub fn lane_from_pattern_with_coin(
    pattern: PatternType,
    beat_number: usize,
    is_subdivision: bool,
    intense: bool,
    coin: bool,
) -> (l: u8)
    ensures
        l as nat == pattern_lane(pattern, beat_number as nat, is_subdivision, intense, coin),
        l < 3,
{
    let base = base_lane_exec(pattern, beat_number);
    if is_subdivision {
        if base == 1 {
            if coin {
                0
            } else {
                2
            }
        } else if intense {
            1
        } else {
            base
        }
    } else {
        base
    }
}

/// Calls `rand::random::<bool>()`; the outcome is random, so nothing is
/// promised of it.
#[verifier::external_body]
fn random_bool() -> (b: bool) {
    rand::random::<bool>()
}

/// The lane of a note of the given figure; `intense` is whether the
/// section's intensity is above 0.7. Off the beat, a center lane goes to an
/// edge picked at random. The lane of the previous note plays no part.
pub fn get_lane_from_pattern(
    pattern: PatternType,
    beat_number: usize,
    is_subdivision: bool,
    last_lane: u8,
    intense: bool,
) -> (l: u8)
    ensures
        exists|coin: bool|
            l as nat == pattern_lane(pattern, beat_number as nat, is_subdivision, intense, coin),
        !(is_subdivision && base_lane(pattern, beat_number as nat) == 1) ==> l as nat
            == pattern_lane(pattern, beat_number as nat, is_subdivision, intense, false),
        l < 3,
{
    let coin = if is_subdivision && base_lane_exec(pattern, beat_number) == 1 {
        random_bool()
    } else {
        false
    };
    lane_from_pattern_with_coin(pattern, beat_number, is_subdivision, intense, coin)
}

/// The type of the section at `index` of a song cut into `count` sections:
/// the first is the intro, the last the outro, and those between cycle
/// through verse, pre-chorus, chorus and bridge.
pub open spec fn planned_section_type(index: nat, count: nat) -> SectionType {
    if index == 0 {
        SectionType::Intro
    } else if index == count - 1 {
        SectionType::Outro
    } else if index % 4 == 1 {
        SectionType::Verse
    } else if index % 4 == 2 {
        SectionType::PreChorus
    } else if index % 4 == 3 {
        SectionType::Chorus
    } else {
        SectionType::Bridge
    }
}

/// The type of the section at `index` of a song cut into `count` sections.
pub fn section_type_at(index: usize, count: usize) -> (t: SectionType)
    requires
        index < count,
    ensures
        t == planned_section_type(index as nat, count as nat),
{
    if index == 0 {
        SectionType::Intro
    } else if index == count - 1 {
        SectionType::Outro
    } else if index % 4 == 1 {
        SectionType::Verse
    } else if index % 4 == 2 {
        SectionType::PreChorus
    } else if index % 4 == 3 {
        SectionType::Chorus
    } else {
        SectionType::Bridge
    }
}

/// A song cut into sections opens with its intro and closes with its outro,
/// and every section between is neither.
pub proof fn lemma_section_plan_bookends(count: nat)
    requires
        count >= 2,
    ensures
        planned_section_type(0, count) == SectionType::Intro,
        planned_section_type((count - 1) as nat, count) == SectionType::Outro,
        forall|i: nat|
            0 < i < count - 1 ==> #[trigger] planned_section_type(i, count) != SectionType::Intro
                && planned_section_type(i, count) != SectionType::Outro,
{
}

/// The lane of the quarter note on the given beat: left, center, right,
/// center in each measure.
pub open spec fn quarter_note_lane_spec(beat: int) -> nat {
    if beat % 4 == 0 {
        0
    } else if beat % 4 == 2 {
        2
    } else {
        1
    }
}

/// The lane of the quarter note on the given beat (counted from zero) of a
/// three-lane layout.
pub fn quarter_note_lane(beat: i32) -> (l: u8)
    requires
        beat >= 0,
    ensures
        l as nat == quarter_note_lane_spec(beat as int),
        l < 3,
{
    match beat % 4 {
        0 => 0,
        1 => 1,
        2 => 2,
        _ => 1,
    }
}

/// The lane of a beat at an accented position of the measure: the downbeat
/// goes to the center; the third beat stays in the center when
/// `keep_center` is set and otherwise goes to the edge away from the last
/// lane. Other positions have no fixed lane (`None`).
pub open spec fn accent_lane_spec(measure_position: nat, last_lane: nat, keep_center: bool) -> Option<nat> {
    if measure_position == 0 {
        Some(1)
    } else if measure_position == 2 {
        if keep_center {
            Some(1)
        } else if last_lane == 0 {
            Some(2)
        } else {
            Some(0)
        }
    } else {
        None
    }
}

/// The lane of a beat at an accented position of the measure, if it has one.
pub fn accent_lane(measure_position: usize, last_lane: u8, keep_center: bool) -> (l: Option<u8>)
    ensures
        match l {
            Some(v) => accent_lane_spec(measure_position as nat, last_lane as nat, keep_center)
                == Some(v as nat),
            None => accent_lane_spec(measure_position as nat, last_lane as nat, keep_center) is None,
        },
        l matches Some(v) ==> v < 3,
{
    if measure_position == 0 {
        Some(1)
    } else if measure_position == 2 {
        if keep_center {
            Some(1)
        } else if last_lane == 0 {
            Some(2)
        } else {
            Some(0)
        }
    } else {
        None
    }
}

/// Whether moving from lane `last` to lane `next` is a smooth transition:
/// to the same lane or a neighbouring one.
pub fn is_smooth_transition(last: u8, next: u8) -> (r: bool)
    ensures
        r == (-1 <= next - last <= 1),
{
    if next >= last {
        next - last <= 1
    } else {
        last - next <= 1
    }
}

/// On the beat, a cascade puts beat `b` in lane `b % 3`, so any three
/// consecutive beats use the three lanes.
pub proof fn lemma_cascade_lanes(b: nat, intense: bool, coin: bool)
    ensures
        pattern_lane(PatternType::Cascade, b, false, intense, coin) == b % 3,
        pattern_lane(PatternType::Cascade, b, false, intense, coin) != pattern_lane(
            PatternType::Cascade,
            b + 1,
            false,
            intense,
            coin,
        ),
        pattern_lane(PatternType::Cascade, b, false, intense, coin) != pattern_lane(
            PatternType::Cascade,
            b + 2,
            false,
            intense,
            coin,
        ),
        pattern_lane(PatternType::Cascade, b + 1, false, intense, coin) != pattern_lane(
            PatternType::Cascade,
            b + 2,
            false,
            intense,
            coin,
        ),
{
}

/// On the beat, alternating edges puts even beats left and odd beats right:
/// it never uses the center, and two consecutive beats are on opposite edges.
pub proof fn lemma_alternating_edges_lanes(b: nat, intense: bool, coin: bool)
    ensures
        pattern_lane(PatternType::AlternatingEdges, b, false, intense, coin) == (if b % 2 == 0 {
            0nat
        } else {
            2nat
        }),
        pattern_lane(PatternType::AlternatingEdges, b, false, intense, coin) + pattern_lane(
            PatternType::AlternatingEdges,
            b + 1,
            false,
            intense,
            coin,
        ) == 2,
{
}

/// On the beat, center focus always plays the center lane.
pub proof fn lemma_center_focus_lanes(b: nat, intense: bool, coin: bool)
    ensures
        pattern_lane(PatternType::CenterFocus, b, false, intense, coin) == 1,
{
}

/// On the beat, a wave runs left, center, right, center and repeats every
/// four beats.
pub proof fn lemma_wave_lanes(k: nat, intense: bool, coin: bool)
    ensures
        pattern_lane(PatternType::Wave, 4 * k, false, intense, coin) == 0,
        pattern_lane(PatternType::Wave, 4 * k + 1, false, intense, coin) == 1,
        pattern_lane(PatternType::Wave, 4 * k + 2, false, intense, coin) == 2,
        pattern_lane(PatternType::Wave, 4 * k + 3, false, intense, coin) == 1,
{
    assert((4 * k) % 4 == 0 && (4 * k + 1) % 4 == 1 && (4 * k + 2) % 4 == 2 && (4 * k + 3) % 4
        == 3) by (nonlinear_arith);
}

/// On the beat, a cross-over runs left, center, right, left, right, center and
/// repeats every six beats.
pub proof fn lemma_cross_over_lanes(k: nat, intense: bool, coin: bool)
    ensures
        pattern_lane(PatternType::CrossOver, 6 * k, false, intense, coin) == 0,
        pattern_lane(PatternType::CrossOver, 6 * k + 1, false, intense, coin) == 1,
        pattern_lane(PatternType::CrossOver, 6 * k + 2, false, intense, coin) == 2,
        pattern_lane(PatternType::CrossOver, 6 * k + 3, false, intense, coin) == 0,
        pattern_lane(PatternType::CrossOver, 6 * k + 4, false, intense, coin) == 2,
        pattern_lane(PatternType::CrossOver, 6 * k + 5, false, intense, coin) == 1,
{
    assert((6 * k) % 6 == 0 && (6 * k + 1) % 6 == 1 && (6 * k + 2) % 6 == 2 && (6 * k + 3) % 6
        == 3 && (6 * k + 4) % 6 == 4 && (6 * k + 5) % 6 == 5) by (nonlinear_arith);
}

/// On the beat, a buildup repeats every twelve beats: four beats in the
/// center, four alternating left and right, then four that cascade
/// right, left, center, right.
pub proof fn lemma_buildup_lanes(k: nat, intense: bool, coin: bool)
    ensures
        pattern_lane(PatternType::Buildup, 12 * k, false, intense, coin) == 1,
        pattern_lane(PatternType::Buildup, 12 * k + 1, false, intense, coin) == 1,
        pattern_lane(PatternType::Buildup, 12 * k + 2, false, intense, coin) == 1,
        pattern_lane(PatternType::Buildup, 12 * k + 3, false, intense, coin) == 1,
        pattern_lane(PatternType::Buildup, 12 * k + 4, false, intense, coin) == 0,
        pattern_lane(PatternType::Buildup, 12 * k + 5, false, intense, coin) == 2,
        pattern_lane(PatternType::Buildup, 12 * k + 6, false, intense, coin) == 0,
        pattern_lane(PatternType::Buildup, 12 * k + 7, false, intense, coin) == 2,
        pattern_lane(PatternType::Buildup, 12 * k + 8, false, intense, coin) == 2,
        pattern_lane(PatternType::Buildup, 12 * k + 9, false, intense, coin) == 0,
        pattern_lane(PatternType::Buildup, 12 * k + 10, false, intense, coin) == 1,
        pattern_lane(PatternType::Buildup, 12 * k + 11, false, intense, coin) == 2,
{
    lemma_buildup_shift(k, 0);
    lemma_buildup_shift(k, 1);
    lemma_buildup_shift(k, 2);
    lemma_buildup_shift(k, 3);
    lemma_buildup_shift(k, 4);
    lemma_buildup_shift(k, 5);
    lemma_buildup_shift(k, 6);
    lemma_buildup_shift(k, 7);
    lemma_buildup_shift(k, 8);
    lemma_buildup_shift(k, 9);
    lemma_buildup_shift(k, 10);
    lemma_buildup_shift(k, 11);
}

proof fn lemma_buildup_shift(k: nat, j: nat)
    requires
        j < 12,
    ensures
        ((12 * k + j) / 4) % 3 == (j / 4) % 3,
        (12 * k + j) % 2 == j % 2,
        (12 * k + j) % 3 == j % 3,
{
    assert((12 * k + j) / 4 == 3 * k + j / 4) by (nonlinear_arith)
        requires
            j < 12,
    ;
    assert((3 * k + j / 4) % 3 == (j / 4) % 3) by (nonlinear_arith);
    assert((12 * k + j) % 2 == j % 2) by (nonlinear_arith);
    assert((12 * k + j) % 3 == j % 3) by (nonlinear_arith);
}

/// Off the beat, the lane follows from the figure's lane on that beat: a
/// center lane goes to the left edge when the coin is set and to the right
/// edge otherwise; an edge lane goes to the center in an intense section and
/// stays in a calm one.
pub proof fn lemma_off_beat_lane(pattern: PatternType, b: nat, intense: bool, coin: bool)
    ensures
        ({
            let on = pattern_lane(pattern, b, false, intense, coin);
            let off = pattern_lane(pattern, b, true, intense, coin);
            &&& on == 1 && coin ==> off == 0
            &&& on == 1 && !coin ==> off == 2
            &&& on != 1 && intense ==> off == 1
            &&& on != 1 && !intense ==> off == on
        }),
{
}

/// A bridge alternates cascade on even beats and cross-over on odd beats,
/// whatever its intensity.
pub proof fn lemma_bridge_figures(band: IntensityBand, b: nat)
    ensures
        pattern_for_section(SectionType::Bridge, band, b) == (if b % 2 == 0 {
            PatternType::Cascade
        } else {
            PatternType::CrossOver
        }),
{
}

/// A chorus alternates wave on even beats and cross-over on odd beats,
/// whatever its intensity.
pub proof fn lemma_chorus_figures(band: IntensityBand, b: nat)
    ensures
        pattern_for_section(SectionType::Chorus, band, b) == (if b % 2 == 0 {
            PatternType::Wave
        } else {
            PatternType::CrossOver
        }),
{
}

/// An intro alternates center focus on even beats and buildup on odd beats,
/// whatever its intensity.
pub proof fn lemma_intro_figures(band: IntensityBand, b: nat)
    ensures
        pattern_for_section(SectionType::Intro, band, b) == (if b % 2 == 0 {
            PatternType::CenterFocus
        } else {
            PatternType::Buildup
        }),
{
}

/// A pre-chorus and an outro keep to center focus on every beat.
pub proof fn lemma_center_sections_figures(band: IntensityBand, b: nat)
    ensures
        pattern_for_section(SectionType::PreChorus, band, b) == PatternType::CenterFocus,
        pattern_for_section(SectionType::Outro, band, b) == PatternType::CenterFocus,
{
}

/// A verse's figures depend on its intensity: a high one cycles cascade,
/// wave and cross-over; a moderate one alternates alternating edges and
/// wave; a low one alternates center focus and alternating edges.
pub proof fn lemma_verse_figures(b: nat)
    ensures
        pattern_for_section(SectionType::Verse, IntensityBand::High, b) == (if b % 3 == 0 {
            PatternType::Cascade
        } else if b % 3 == 1 {
            PatternType::Wave
        } else {
            PatternType::CrossOver
        }),
        pattern_for_section(SectionType::Verse, IntensityBand::Moderate, b) == (if b % 2 == 0 {
            PatternType::AlternatingEdges
        } else {
            PatternType::Wave
        }),
        pattern_for_section(SectionType::Verse, IntensityBand::Low, b) == (if b % 2 == 0 {
            PatternType::CenterFocus
        } else {
            PatternType::AlternatingEdges
        }),
{
}

/// The sections between the intro and the outro cycle with period four:
/// verse when the index is 1 more than a multiple of four, pre-chorus for 2,
/// chorus for 3 and bridge for a multiple of four.
pub proof fn lemma_section_plan_cycle(i: nat, count: nat)
    requires
        0 < i,
        i + 1 < count,
    ensures
        planned_section_type(i, count) == SectionType::Verse <==> i % 4 == 1,
        planned_section_type(i, count) == SectionType::PreChorus <==> i % 4 == 2,
        planned_section_type(i, count) == SectionType::Chorus <==> i % 4 == 3,
        planned_section_type(i, count) == SectionType::Bridge <==> i % 4 == 0,
        i + 5 < count ==> planned_section_type(i, count) == planned_section_type(i + 4, count),
{
}

/// Quarter notes run left, center, right, center through each measure and
/// repeat every four beats.
pub proof fn lemma_quarter_note_lanes(k: int)
    requires
        k >= 0,
    ensures
        quarter_note_lane_spec(4 * k) == 0,
        quarter_note_lane_spec(4 * k + 1) == 1,
        quarter_note_lane_spec(4 * k + 2) == 2,
        quarter_note_lane_spec(4 * k + 3) == 1,
{
    assert((4 * k) % 4 == 0 && (4 * k + 1) % 4 == 1 && (4 * k + 2) % 4 == 2 && (4 * k + 3) % 4
        == 3) by (nonlinear_arith);
}

/// The downbeat of a measure is played in the center; the third beat stays
/// in the center when asked to, and otherwise goes to an edge other than the
/// last lane (the right edge after the left one, the left edge otherwise);
/// the second and fourth beats have no fixed lane.
pub proof fn lemma_accent_lanes(measure_position: nat, last_lane: nat, keep_center: bool)
    requires
        measure_position < 4,
        last_lane < 3,
    ensures
        measure_position == 0 ==> accent_lane_spec(measure_position, last_lane, keep_center)
            == Some(1nat),
        measure_position == 2 && keep_center ==> accent_lane_spec(
            measure_position,
            last_lane,
            keep_center,
        ) == Some(1nat),
        measure_position == 2 && !keep_center ==> (accent_lane_spec(
            measure_position,
            last_lane,
            keep_center,
        ) matches Some(l) && l != 1 && l != last_lane && (last_lane == 1 ==> l == 0)),
        (measure_position == 1 || measure_position == 3) ==> accent_lane_spec(
            measure_position,
            last_lane,
            keep_center,
        ) is None,
{
}

} // verus!
