use rhythmix::analysis::{
    check_audio_size, check_input_length, check_window_size, counting_gate,
    frequency_band_ranges, holding_gate, window_starts,
};
use rhythmix::error::RhythmixError;
use rhythmix::service::{pool_queue_capacity, route_request, Route};

#[test]
fn test_fft_processor_creation() {
    assert!(check_window_size(1024).is_ok());
    assert!(check_window_size(1000).is_err()); // Not power of 2
}

#[test]
fn test_spectral_analyzer_creation() {
    assert!(check_window_size(1024).is_ok());
    assert!(check_window_size(1000).is_err()); // Not power of 2
}

#[test]
fn test_window_size_edges() {
    assert!(check_window_size(1).is_ok());
    assert!(check_window_size(0).is_err());
    assert!(check_window_size(3).is_err());
    match check_window_size(6) {
        Err(RhythmixError::FftProcessing(m)) => assert_eq!(m, "FFT window size must be a power of 2"),
        other => panic!("unexpected {:?}", other),
    }
}

#[test]
fn test_input_length() {
    assert!(check_input_length(1024, 1024).is_ok());
    match check_input_length(1000, 1024) {
        Err(RhythmixError::FftProcessing(m)) => {
            assert_eq!(m, "Input length 1000 does not match window size 1024")
        }
        other => panic!("unexpected {:?}", other),
    }
}

#[test]
fn test_audio_size() {
    assert!(check_audio_size(128).is_ok());
    match check_audio_size(127) {
        Err(RhythmixError::AudioDecoding(m)) => assert_eq!(m, "File too small to be valid audio"),
        other => panic!("unexpected {:?}", other),
    }
}

#[test]
fn test_band_ranges() {
    let r = frequency_band_ranges(1024, 32);
    assert_eq!(r.len(), 32);
    assert_eq!(r[0], (0, 32));
    assert_eq!(r[31], (992, 1024));
    // 513 bins in 8 bands: the last bin is left out
    let r = frequency_band_ranges(513, 8);
    assert_eq!(r[7], (448, 512));
    // More bands than bins: one bin each, the last band empty
    let r = frequency_band_ranges(3, 4);
    assert_eq!(r, vec![(0, 1), (1, 2), (2, 3), (3, 3)]);
}

#[test]
fn test_window_starts() {
    assert_eq!(window_starts(10, 4, 4), vec![0, 4]);
    assert_eq!(window_starts(12, 4, 4), vec![0, 4, 8]);
    assert_eq!(window_starts(3, 4, 4), Vec::<usize>::new());
    assert_eq!(window_starts(10, 4, 1), vec![0, 1, 2, 3, 4, 5, 6]);
}

#[test]
fn test_onset_gates() {
    // Counting gate: accepts once the interval has passed, counting every frame
    assert_eq!(counting_gate(4, 4, true), (true, 0));
    assert_eq!(counting_gate(3, 4, true), (false, 4));
    assert_eq!(counting_gate(9, 4, false), (false, 10));
    // Holding gate: stops counting once the interval has passed
    assert_eq!(holding_gate(4, 4, false), (false, 4));
    assert_eq!(holding_gate(4, 4, true), (true, 0));
    assert_eq!(holding_gate(1, 4, true), (false, 2));
    // Onsets in a run are more than the interval apart
    let mut frames = 0;
    let mut fired = Vec::new();
    for t in 0..40 {
        let (f, next) = counting_gate(frames, 4, true);
        frames = next;
        if f {
            fired.push(t);
        }
    }
    assert!(fired.windows(2).all(|w| w[1] - w[0] > 4));
}

#[test]
fn test_routes() {
    assert_eq!(route_request("POST", "/analyze"), Route::Analyze);
    assert_eq!(route_request("GET", "/health"), Route::HealthCheck);
    assert_eq!(route_request("GET", "/nonexistent"), Route::NotFound);
    assert_eq!(route_request("GET", "/analyze"), Route::NotFound);
    assert_eq!(route_request("POST", "/health"), Route::NotFound);
}

#[test]
fn test_thread_pool_creation() {
    assert!(pool_queue_capacity(0).is_err());
    assert!(pool_queue_capacity(1).is_ok());
    assert_eq!(pool_queue_capacity(4).unwrap(), 8);
}

fn band_averages(magnitudes: &[f32], num_bands: usize) -> Vec<f32> {
    frequency_band_ranges(magnitudes.len(), num_bands)
        .into_iter()
        .map(|(start, end)| magnitudes[start..end].iter().sum::<f32>() / (end - start) as f32)
        .collect()
}

#[test]
fn spectral_test_frequency_bands() {
    let magnitudes = vec![1.0f32; 513];
    let bands = band_averages(&magnitudes, 8);
    assert_eq!(bands.len(), 8);
    assert!(bands.iter().all(|&x| x > 0.0));
}

#[test]
fn onset_detector_test_frequency_bands() {
    let magnitudes = vec![1.0f32; 1024];
    let bands = band_averages(&magnitudes, 32);
    assert_eq!(bands.len(), 32);
    assert!(bands.iter().all(|&x| x == 1.0));
}

#[test]
fn test_onset_gate_varying_interval() {
    // The configured interval is 4; strong onsets lower it to 3 (0.75 of it)
    // or 3 (0.85 of it, rounded down), so onsets stay more than 3 frames apart.
    let intervals = [4usize, 3, 3, 4, 3, 4, 4, 3];
    let mut frames = 0;
    let mut fired = Vec::new();
    for t in 0..64 {
        let (f, next) = holding_gate(frames, intervals[t % intervals.len()], true);
        frames = next;
        if f {
            fired.push(t);
        }
    }
    assert!(fired.len() > 10);
    assert!(fired.windows(2).all(|w| w[1] - w[0] > 3));
}
