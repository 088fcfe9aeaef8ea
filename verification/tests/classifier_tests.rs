use silero_rs::classifier::{
    classify_window, classify_windows, supported_sample_rate, ClassifierState, ScorerOutput,
    VoiceDetectResult, STATE_BATCH, STATE_LAYERS, STATE_LEN, STATE_WIDTH,
};
use silero_rs::error::VadError;
use silero_rs::vad_session::VadSession;
use silero_rs::window::AudioDetectWindow;

fn tensor(first: u32) -> Vec<u32> {
    let mut values = vec![0u32; STATE_LEN];
    values[0] = first;
    values
}

/// Answers with the first sample as the probability, and with tensors that
/// hold the number of samples and the rate.
fn first_sample_scorer(samples: &Vec<f32>, rate: i64, _h: &Vec<u32>, _c: &Vec<u32>) -> Option<ScorerOutput> {
    Some(ScorerOutput {
        probability: samples[0].to_bits(),
        hn: tensor(samples.len() as u32),
        cn: tensor(rate as u32),
    })
}

#[test]
fn only_two_rates_are_supported() {
    assert!(supported_sample_rate(8000));
    assert!(supported_sample_rate(16000));
    for rate in [0i64, -8000, 7999, 8001, 11025, 15999, 16001, 24000, 32000, 44100, 48000, i64::MIN] {
        assert!(!supported_sample_rate(rate), "{}", rate);
    }
}

#[test]
fn the_memory_has_two_tensors_of_two_by_one_by_sixty_four() {
    assert_eq!((STATE_LAYERS, STATE_BATCH, STATE_WIDTH), (2, 1, 64));
    assert_eq!(STATE_LEN, 128);
    let state = ClassifierState::new();
    assert_eq!(state.hidden(), &vec![0u32; 128]);
    assert_eq!(state.cell(), &vec![0u32; 128]);
}

#[test]
fn an_answer_of_the_right_shape_replaces_the_memory() {
    let mut state = ClassifierState::new();
    let probability = state.commit(Some(ScorerOutput {
        probability: 0.75f32.to_bits(),
        hn: tensor(7),
        cn: tensor(9),
    }));
    assert_eq!(probability, Some(0.75f32.to_bits()));
    assert_eq!(state.hidden(), &tensor(7));
    assert_eq!(state.cell(), &tensor(9));
}

#[test]
fn no_answer_leaves_the_memory() {
    let mut state = ClassifierState::new();
    state.commit(Some(ScorerOutput { probability: 0, hn: tensor(7), cn: tensor(9) }));
    assert_eq!(state.commit(None), None);
    assert_eq!(state.hidden(), &tensor(7));
    assert_eq!(state.cell(), &tensor(9));
}

#[test]
fn an_answer_of_another_shape_leaves_the_memory() {
    let mut state = ClassifierState::new();
    state.commit(Some(ScorerOutput { probability: 0, hn: tensor(7), cn: tensor(9) }));
    let short = ScorerOutput { probability: 1, hn: vec![1; STATE_LEN - 1], cn: tensor(1) };
    let long = ScorerOutput { probability: 1, hn: tensor(1), cn: vec![1; STATE_LEN + 1] };
    let empty = ScorerOutput { probability: 1, hn: Vec::new(), cn: Vec::new() };
    for answer in [short, long, empty] {
        assert_eq!(state.commit(Some(answer)), None);
        assert_eq!(state.hidden(), &tensor(7));
        assert_eq!(state.cell(), &tensor(9));
    }
}

#[test]
fn a_cleared_memory_is_all_zeros() {
    let mut state = ClassifierState::new();
    state.commit(Some(ScorerOutput { probability: 0, hn: tensor(7), cn: tensor(9) }));
    state.reset();
    assert_eq!(state, ClassifierState::new());
}

#[test]
fn one_window_is_decided_and_committed() {
    let mut state = ClassifierState::new();
    let window = AudioDetectWindow::new(vec![0.5f32, 0.1, 0.9], 16000, 16002);
    let decision =
        classify_window(&mut state, 0.5f32.to_bits(), &window, 1, 16000, &first_sample_scorer);
    assert_eq!(decision, Ok(VoiceDetectResult::new(16000, 16002, 0.5f32.to_bits(), true)));
    assert_eq!(state.hidden(), &tensor(3));
    assert_eq!(state.cell(), &tensor(16000));

    let quiet = AudioDetectWindow::new(vec![0.25f32; 5], 0, 4);
    let decision =
        classify_window(&mut state, 0.5f32.to_bits(), &quiet, 0, 8000, &first_sample_scorer);
    assert_eq!(decision, Ok(VoiceDetectResult::new(0, 4, 0.25f32.to_bits(), false)));
    assert_eq!(state.hidden(), &tensor(5));
    assert_eq!(state.cell(), &tensor(8000));
}

#[test]
fn a_window_without_an_answer_is_not_decided() {
    let silent = |_: &Vec<f32>, _: i64, _: &Vec<u32>, _: &Vec<u32>| -> Option<ScorerOutput> { None };
    let mut state = ClassifierState::new();
    state.commit(Some(ScorerOutput { probability: 0, hn: tensor(7), cn: tensor(9) }));
    let window = AudioDetectWindow::new(vec![0.5f32], 0, 0);
    assert_eq!(
        classify_window(&mut state, 0, &window, 5, 16000, &silent),
        Err(VadError::InferenceFailure { window: 5 })
    );
    assert_eq!(state.hidden(), &tensor(7));
}

#[test]
fn a_window_is_refused_before_the_scorer_is_asked() {
    let never = |_: &Vec<f32>, _: i64, _: &Vec<u32>, _: &Vec<u32>| -> Option<ScorerOutput> {
        panic!("the scorer was asked")
    };
    let mut state = ClassifierState::new();
    let window = AudioDetectWindow::new(vec![0.5f32], 0, 0);
    assert_eq!(
        classify_window(&mut state, 0, &window, 0, 44100, &never),
        Err(VadError::UnsupportedSampleRate)
    );
    let empty = AudioDetectWindow::new(Vec::<f32>::new(), 0, 0);
    assert_eq!(classify_window(&mut state, 0, &empty, 0, 16000, &never), Err(VadError::EmptyInput));
    assert_eq!(
        classify_window(&mut state, 0, &empty, 0, 12345, &never),
        Err(VadError::UnsupportedSampleRate)
    );
    assert_eq!(
        classify_windows(&mut state, 0, &vec![0.5f32; 10], 0, &never),
        Err(VadError::UnsupportedSampleRate)
    );
    assert_eq!(
        classify_windows(&mut state, 0, &Vec::<f32>::new(), 8000, &never),
        Err(VadError::EmptyInput)
    );
    assert_eq!(state, ClassifierState::new());
}

#[test]
fn every_window_of_a_buffer_is_decided_in_order() {
    let mut samples = vec![0.9f32; 8000];
    samples.extend_from_slice(&[0.1; 8000]);
    samples.extend_from_slice(&[0.6; 10]);
    let mut state = ClassifierState::new();
    let decisions =
        classify_windows(&mut state, 0.5f32.to_bits(), &samples, 8000, &first_sample_scorer);
    assert_eq!(
        decisions,
        Ok(vec![
            VoiceDetectResult::new(0, 7999, 0.9f32.to_bits(), true),
            VoiceDetectResult::new(8000, 15999, 0.1f32.to_bits(), false),
            VoiceDetectResult::new(16000, 16009, 0.6f32.to_bits(), true),
        ])
    );
    assert_eq!(state.hidden(), &tensor(10));
}

#[test]
fn the_first_window_without_an_answer_ends_the_run() {
    let until_nan = |samples: &Vec<f32>, rate: i64, h: &Vec<u32>, c: &Vec<u32>| {
        if samples[0].is_nan() {
            None
        } else {
            first_sample_scorer(samples, rate, h, c)
        }
    };
    let mut samples = vec![0.9f32; 16000];
    samples.extend_from_slice(&[0.2; 16000]);
    samples.extend_from_slice(&[f32::NAN; 16000]);
    samples.extend_from_slice(&[0.9; 16000]);
    let mut state = ClassifierState::new();
    assert_eq!(
        classify_windows(&mut state, 0.5f32.to_bits(), &samples, 16000, &until_nan),
        Err(VadError::InferenceFailure { window: 2 })
    );
    assert_eq!(state.hidden(), &tensor(16000));
}

#[test]
fn an_answer_without_a_probability_is_not_committed() {
    for wild in [f32::NAN, 1.5, -0.5, f32::INFINITY, f32::NEG_INFINITY, 1.0000001, -1.0e-30] {
        let mut state = ClassifierState::new();
        let window = AudioDetectWindow::new(vec![wild], 0, 0);
        let decision =
            classify_window(&mut state, 0.0f32.to_bits(), &window, 3, 16000, &first_sample_scorer);
        assert_eq!(decision, Err(VadError::InferenceFailure { window: 3 }), "{:?}", wild);
        assert_eq!(state, ClassifierState::new());
        assert_eq!(
            state.commit(Some(ScorerOutput { probability: wild.to_bits(), hn: tensor(1), cn: tensor(1) })),
            None
        );
        assert_eq!(
            classify_windows(&mut state, 0, &vec![0.5f32, wild], 8000, &first_sample_scorer),
            Ok(vec![VoiceDetectResult::new(0, 1, 0.5f32.to_bits(), true)])
        );
        let mut wild_second = vec![0.5f32; 8000];
        wild_second.push(wild);
        assert_eq!(
            classify_windows(&mut state, 0, &wild_second, 8000, &first_sample_scorer),
            Err(VadError::InferenceFailure { window: 1 })
        );
    }
}

#[test]
fn the_ends_of_the_range_are_probabilities() {
    for edge in [0.0f32, -0.0, 1.0, f32::MIN_POSITIVE, 0.99999994] {
        let mut state = ClassifierState::new();
        let window = AudioDetectWindow::new(vec![edge], 0, 0);
        let decision =
            classify_window(&mut state, 0.5f32.to_bits(), &window, 0, 16000, &first_sample_scorer);
        assert_eq!(
            decision,
            Ok(VoiceDetectResult::new(0, 0, edge.to_bits(), edge >= 0.5)),
            "{:?}",
            edge
        );
    }
}

#[test]
fn there_is_room_for_any_chunk_at_the_start_of_a_stream() {
    let session = VadSession::new(0.5f32.to_bits());
    assert!(session.has_room_for(0, 16000));
    assert!(session.has_room_for(160000, 16000));
    assert!(session.has_room_for(usize::MAX, 8000));
    assert!(session.has_room_for(usize::MAX, 16000));
    assert!(session.has_room_for(usize::MAX, 44100));
}
