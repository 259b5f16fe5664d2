use rhythmix::error::{validate_file_size, RhythmixError};
use rhythmix::types::{lanes_overlap, GridDivision, Lane, SectionType};

#[test]
fn test_lane_creation() {
    assert!(Lane::new(0, 4).is_ok());
    assert!(Lane::new(3, 4).is_ok());
    assert!(Lane::new(4, 4).is_err());
}

#[test]
fn test_lane_value_and_error_message() {
    let lane = Lane::new(2, 3).unwrap();
    assert_eq!(lane.value(), 2);
    match Lane::new(7, 3) {
        Err(RhythmixError::InvalidConfig(m)) => assert_eq!(m, "Lane 7 is invalid for 3-lane layout"),
        _ => panic!("Expected InvalidConfig error"),
    }
    match Lane::new(200, 12) {
        Err(RhythmixError::InvalidConfig(m)) => assert_eq!(m, "Lane 200 is invalid for 12-lane layout"),
        _ => panic!("Expected InvalidConfig error"),
    }
}

#[test]
fn test_validate_file_size() {
    assert!(validate_file_size(1000, 2000).is_ok());
    let err = validate_file_size(2000, 1000).unwrap_err();
    match err {
        RhythmixError::FileTooLarge { max_size, actual_size } => {
            assert_eq!(max_size, 1000);
            assert_eq!(actual_size, 2000);
        }
        _ => panic!("Expected FileTooLarge error"),
    }
}

#[test]
fn test_validate_file_size_at_limit() {
    assert!(validate_file_size(1000, 1000).is_ok());
    assert!(validate_file_size(0, 0).is_ok());
    assert!(validate_file_size(1, 0).is_err());
}

#[test]
fn test_error_conversion() {
    let error = RhythmixError::FileTooLarge { max_size: 1000, actual_size: 2000 };
    assert_eq!(error.http_status(), 413);
}

#[test]
fn test_error_statuses() {
    assert_eq!(RhythmixError::InvalidRequest("x".to_string()).http_status(), 400);
    assert_eq!(RhythmixError::UnsupportedFileType("x".to_string()).http_status(), 415);
    assert_eq!(RhythmixError::Internal("x".to_string()).http_status(), 500);
    assert_eq!(RhythmixError::AudioDecoding("x".to_string()).http_status(), 500);
    let from_string: RhythmixError = String::from("boom").into();
    match from_string {
        RhythmixError::Internal(m) => assert_eq!(m, "boom"),
        _ => panic!("Expected Internal error"),
    }
}

#[test]
fn test_note_lane_overlap() {
    let l0 = Lane::new(0, 4).unwrap();
    let l1 = Lane::new(1, 4).unwrap();
    // Same lane, same time
    assert!(lanes_overlap(l0, None, l0, None));
    // Different lanes
    assert!(!lanes_overlap(l0, None, l1, None));
}

#[test]
fn test_multi_note_lane_overlap() {
    let l = |n| Lane::new(n, 4).unwrap();
    // Overlapping lanes
    assert!(lanes_overlap(l(0), Some(&[l(1)]), l(1), Some(&[l(2)])));
    // Overlapping lanes through additional
    assert!(lanes_overlap(l(0), Some(&[l(1)]), l(3), Some(&[l(0)])));
    // No shared lane
    assert!(!lanes_overlap(l(0), Some(&[l(1)]), l(2), Some(&[l(3)])));
    // A multi note meets a tap only in its own lane
    assert!(!lanes_overlap(l(0), Some(&[l(1)]), l(1), None));
    assert!(lanes_overlap(l(1), Some(&[l(2)]), l(1), None));
}

#[test]
fn test_lane_overlap_symmetric() {
    let l = |n| Lane::new(n, 4).unwrap();
    let a = [l(1), l(2)];
    let b = [l(3), l(2)];
    assert!(lanes_overlap(l(0), Some(&a), l(3), Some(&b)));
    assert!(lanes_overlap(l(3), Some(&b), l(0), Some(&a)));
    assert_eq!(lanes_overlap(l(0), Some(&a), l(1), None), lanes_overlap(l(1), None, l(0), Some(&a)));
    assert_eq!(lanes_overlap(l(2), None, l(3), Some(&b)), lanes_overlap(l(3), Some(&b), l(2), None));
}

#[test]
fn test_grid_divisions() {
    assert_eq!(GridDivision::default(), GridDivision::Quarter);
    assert_eq!(GridDivision::DoubleBreve.divisions(), 1);
    assert_eq!(GridDivision::Breve.divisions(), 2);
    assert_eq!(GridDivision::Whole.divisions(), 4);
    assert_eq!(GridDivision::Half.divisions(), 8);
    assert_eq!(GridDivision::Quarter.divisions(), 16);
    assert_eq!(GridDivision::Eighth.divisions(), 32);
    assert_eq!(GridDivision::Sixteenth.divisions(), 64);
    assert_ne!(SectionType::Intro, SectionType::Outro);
}

// The lane half of note overlap: notes that meet in time (here all at the
// same time) overlap exactly when their lanes collide. Whether a hold note
// and a later tap meet in time is decided on their floating-point times by
// the server, not here.
#[test]
fn test_note_overlap() {
    let l = |n| Lane::new(n, 4).unwrap();
    // Same time, same lane
    assert!(lanes_overlap(l(0), None, l(0), None));
    // Same time, different lane
    assert!(!lanes_overlap(l(0), None, l(1), None));
}

#[test]
fn test_multi_note_overlap() {
    let l = |n| Lane::new(n, 4).unwrap();
    let extra1 = [l(1)];
    let extra2 = [l(2)];
    let extra3 = [l(0)];
    // Overlapping lanes
    assert!(lanes_overlap(l(0), Some(&extra1), l(1), Some(&extra2)));
    // Overlapping lanes through additional
    assert!(lanes_overlap(l(0), Some(&extra1), l(3), Some(&extra3)));
}

#[test]
fn test_lane_overlap_reflexive() {
    let l = |n| Lane::new(n, 4).unwrap();
    let extra = [l(2), l(3)];
    assert!(lanes_overlap(l(1), None, l(1), None));
    assert!(lanes_overlap(l(1), Some(&extra), l(1), Some(&extra)));
}
