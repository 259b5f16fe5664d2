use rhythmix::pattern::{
    accent_lane, get_lane_from_pattern, get_pattern_for_section, is_smooth_transition,
    lane_from_pattern_with_coin, quarter_note_lane, section_type_at, IntensityBand, PatternType,
};
use rhythmix::section::{determine_next_section, refine_section_type};
use rhythmix::types::SectionType;

#[test]
fn test_pattern_progression() {
    assert_eq!(
        PatternType::get_progression(IntensityBand::High),
        vec![PatternType::Cascade, PatternType::Wave, PatternType::CrossOver]
    );
    assert_eq!(
        PatternType::get_progression(IntensityBand::Low),
        vec![PatternType::CenterFocus, PatternType::AlternatingEdges]
    );
    assert_eq!(get_pattern_for_section(SectionType::Intro, IntensityBand::Low, 3), PatternType::Buildup);
    assert_eq!(get_pattern_for_section(SectionType::Verse, IntensityBand::High, 4), PatternType::Wave);
    assert_eq!(get_pattern_for_section(SectionType::Outro, IntensityBand::High, 9), PatternType::CenterFocus);
}

#[test]
fn test_pattern_lanes() {
    let wave: Vec<u8> = (0..8).map(|b| lane_from_pattern_with_coin(PatternType::Wave, b, false, false, false)).collect();
    assert_eq!(wave, vec![0, 1, 2, 1, 0, 1, 2, 1]);
    let cross: Vec<u8> = (0..6).map(|b| lane_from_pattern_with_coin(PatternType::CrossOver, b, false, false, false)).collect();
    assert_eq!(cross, vec![0, 1, 2, 0, 2, 1]);
    let buildup: Vec<u8> = (0..12).map(|b| lane_from_pattern_with_coin(PatternType::Buildup, b, false, false, false)).collect();
    assert_eq!(buildup, vec![1, 1, 1, 1, 0, 2, 0, 2, 2, 0, 1, 2]);
    // Off the beat a center lane goes to the edge that the coin picks
    assert_eq!(lane_from_pattern_with_coin(PatternType::CenterFocus, 0, true, false, true), 0);
    assert_eq!(lane_from_pattern_with_coin(PatternType::CenterFocus, 0, true, false, false), 2);
    // Off the beat an edge lane goes to the center in an intense section
    assert_eq!(lane_from_pattern_with_coin(PatternType::AlternatingEdges, 1, true, true, false), 1);
    assert_eq!(lane_from_pattern_with_coin(PatternType::AlternatingEdges, 1, true, false, false), 2);
    for beat in 0..50 {
        for p in [PatternType::AlternatingEdges, PatternType::Cascade, PatternType::CenterFocus, PatternType::Wave, PatternType::CrossOver, PatternType::Buildup] {
            assert!(get_lane_from_pattern(p, beat, true, 1, beat % 2 == 0) < 3);
            assert_eq!(get_lane_from_pattern(p, beat, false, 1, true), lane_from_pattern_with_coin(p, beat, false, true, false));
        }
    }
    let off_center = get_lane_from_pattern(PatternType::CenterFocus, 3, true, 1, false);
    assert!(off_center == 0 || off_center == 2);
}

#[test]
fn test_quarter_note_lanes() {
    let lanes: Vec<u8> = (0..8).map(quarter_note_lane).collect();
    // Pattern should follow left-center-right-center
    assert_eq!(lanes, vec![0, 1, 2, 1, 0, 1, 2, 1]);
}

#[test]
fn test_section_plan() {
    let types: Vec<SectionType> = (0..6).map(|i| section_type_at(i, 6)).collect();
    assert_eq!(
        types,
        vec![SectionType::Intro, SectionType::Verse, SectionType::PreChorus, SectionType::Chorus, SectionType::Bridge, SectionType::Outro]
    );
    assert_eq!(section_type_at(0, 1), SectionType::Intro);
}

#[test]
fn test_accent_lanes() {
    assert_eq!(accent_lane(0, 2, false), Some(1));
    assert_eq!(accent_lane(2, 0, false), Some(2));
    assert_eq!(accent_lane(2, 1, false), Some(0));
    assert_eq!(accent_lane(2, 0, true), Some(1));
    assert_eq!(accent_lane(1, 0, true), None);
    assert!(is_smooth_transition(0, 1));
    assert!(is_smooth_transition(2, 2));
    assert!(!is_smooth_transition(0, 2));
    assert!(!is_smooth_transition(2, 0));
}

#[test]
fn test_section_transitions() {
    assert_eq!(determine_next_section(&[]), SectionType::Verse);
    assert_eq!(determine_next_section(&[SectionType::Intro]), SectionType::Verse);
    assert_eq!(determine_next_section(&[SectionType::Intro, SectionType::Verse]), SectionType::PreChorus);
    assert_eq!(determine_next_section(&[SectionType::Intro, SectionType::Verse, SectionType::PreChorus]), SectionType::Chorus);
    assert_eq!(determine_next_section(&[SectionType::Intro, SectionType::Verse, SectionType::PreChorus, SectionType::Chorus]), SectionType::Verse);
    assert_eq!(determine_next_section(&[SectionType::Intro, SectionType::Verse, SectionType::PreChorus, SectionType::Chorus, SectionType::Verse]), SectionType::Bridge);
    assert_eq!(determine_next_section(&[SectionType::Intro, SectionType::Bridge]), SectionType::Chorus);
}

#[test]
fn test_section_refinement() {
    assert_eq!(refine_section_type(SectionType::Chorus, &[]), SectionType::Chorus);
    assert_eq!(refine_section_type(SectionType::Chorus, &[SectionType::Intro, SectionType::Chorus]), SectionType::Verse);
    assert_eq!(refine_section_type(SectionType::Chorus, &[SectionType::Intro, SectionType::Verse]), SectionType::PreChorus);
    assert_eq!(refine_section_type(SectionType::Chorus, &[SectionType::Intro, SectionType::PreChorus, SectionType::Verse]), SectionType::Chorus);
    assert_eq!(refine_section_type(SectionType::Bridge, &[SectionType::Intro, SectionType::Chorus]), SectionType::Bridge);
}
