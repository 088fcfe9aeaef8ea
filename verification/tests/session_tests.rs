use rand::Rng;
use silero_rs::classifier::{ScorerOutput, VoiceDetectResult, STATE_LEN};
use silero_rs::error::VadError;
use silero_rs::reconcile::{LocalFragment, TranscribedFragment};
use silero_rs::timeline::TimedSpan;
use silero_rs::vad_session::{SpanOutcome, VadSession};
use silero_rs::window::prepare_audio_data;
use std::cell::{Cell, RefCell};

fn half() -> u32 {
    0.5f32.to_bits()
}

/// Stands in for the network: the probability is the mean of the window, the
/// first tensor counts the calls and the second sums the lengths.
fn mean_scorer(samples: &Vec<f32>, _rate: i64, h: &Vec<u32>, c: &Vec<u32>) -> Option<ScorerOutput> {
    let mean = samples.iter().sum::<f32>() / samples.len() as f32;
    let mut hn = h.clone();
    hn[0] += 1;
    let mut cn = c.clone();
    cn[0] += samples.len() as u32;
    Some(ScorerOutput { probability: mean.to_bits(), hn, cn })
}

/// Stands in for the engine: one fragment over the whole slice at 16000
/// samples a second, with the number of samples as its text.
fn length_transcriber(audio: &Vec<f32>) -> Option<Vec<LocalFragment>> {
    Some(vec![LocalFragment {
        local_start: 0,
        local_end: (audio.len() as i64) * 100 / 16000,
        text: audio.len().to_string(),
    }])
}

/// Audio of whole seconds at 16000 samples a second: a second of ones where
/// `voice` says so, a second of zeros elsewhere.
fn seconds(voice: &[bool]) -> Vec<f32> {
    let mut samples = Vec::new();
    for v in voice {
        for _ in 0..16000 {
            samples.push(if *v { 1.0 } else { 0.0 });
        }
    }
    samples
}

fn spans_of(outcomes: &Vec<SpanOutcome>) -> Vec<TimedSpan> {
    outcomes.iter().map(|o| o.span).collect()
}

#[test]
fn test_struct() {
    let audio_data = seconds(&[true; 35]);
    let audio_data2 = audio_data.clone();
    let silero_model = VadSession::new(half());
    let result = silero_model.run_voice_detection(&audio_data, 16000, &mean_scorer).unwrap();
    let result2 = prepare_audio_data(&audio_data2, 16000).unwrap();
    assert_eq!(result.len(), result2.len());

    let expected_outputs: [bool; 35] = [
        true, true, true, true, true, true, true, true, true, true, true, true, true, true, true,
        true, true, true, true, true, true, true, true, true, true, true, true, true, true, true,
        true, true, true, true, true,
    ];

    for i in 0..result.len() {
        assert_eq!(
            result.get(i).unwrap().voice_detect,
            *expected_outputs.get(i).unwrap(),
            "run_vad_wav is not outputting the expected values"
        );
    }
}

#[test]
fn test_stateful_interface() {
    let mut silero_model = VadSession::new(half());
    let result = silero_model.stateful_vad(&seconds(&[true; 35]), 16000, &mean_scorer).unwrap();
    let expected_outputs: [bool; 35] = [
        true, true, true, true, true, true, true, true, true, true, true, true, true, true, true,
        true, true, true, true, true, true, true, true, true, true, true, true, true, true, true,
        true, true, true, true, true,
    ];
    assert_eq!(result.len(), 35);
    for i in 0..result.len() {
        assert_eq!(
            result.get(i).unwrap().voice_detect,
            *expected_outputs.get(i).unwrap(),
            "run_vad is not outputting the expected values"
        );
    }
}

#[test]
fn a_new_session_waits_at_zero() {
    let session = VadSession::new(half());
    assert_eq!(session.detection_threshold(), half());
    assert_eq!(session.wallclock_offset(), 0);
    assert!(!session.is_streaming());
    assert_eq!(session.state().hidden(), &vec![0u32; STATE_LEN]);
    assert_eq!(session.state().cell(), &vec![0u32; STATE_LEN]);
    assert_eq!(STATE_LEN, 2 * 1 * 64);
}

#[test]
fn a_rate_that_is_not_supported_changes_nothing() {
    for rate in [0i64, 1, 7999, 8001, 15999, 16001, 22050, 44100, 48000, -8000, -16000, i64::MAX] {
        let mut session = VadSession::new(half());
        let audio = seconds(&[true, false]);
        assert_eq!(
            session.stateful_vad(&audio, rate, &mean_scorer),
            Err(VadError::UnsupportedSampleRate)
        );
        assert_eq!(
            session.run_voice_detection(&audio, rate, &mean_scorer),
            Err(VadError::UnsupportedSampleRate)
        );
        assert_eq!(
            session.process_chunk(&audio, rate, &mean_scorer, &length_transcriber),
            Err(VadError::UnsupportedSampleRate)
        );
        assert!(!session.is_streaming());
        assert_eq!(session.wallclock_offset(), 0);
        assert_eq!(session.state().hidden(), &vec![0u32; STATE_LEN]);
    }
}

#[test]
fn a_rate_is_checked_before_the_chunk_is_looked_at() {
    let mut session = VadSession::new(half());
    let empty: Vec<f32> = Vec::new();
    assert_eq!(
        session.process_chunk(&empty, 44100, &mean_scorer, &length_transcriber),
        Err(VadError::UnsupportedSampleRate)
    );
    assert_eq!(
        session.stateful_vad(&empty, 44100, &mean_scorer),
        Err(VadError::UnsupportedSampleRate)
    );
}

#[test]
fn an_empty_chunk_changes_nothing() {
    let mut session = VadSession::new(half());
    session.process_chunk(&seconds(&[false, true]), 16000, &mean_scorer, &length_transcriber).unwrap();
    let offset = session.wallclock_offset();
    let memory = session.state().clone();
    let empty: Vec<f32> = Vec::new();
    for rate in [8000i64, 16000] {
        assert_eq!(
            session.process_chunk(&empty, rate, &mean_scorer, &length_transcriber),
            Err(VadError::EmptyInput)
        );
        assert_eq!(session.stateful_vad(&empty, rate, &mean_scorer), Err(VadError::EmptyInput));
        assert_eq!(
            session.run_voice_detection(&empty, rate, &mean_scorer),
            Err(VadError::EmptyInput)
        );
    }
    assert_eq!(session.wallclock_offset(), offset);
    assert_eq!(session.state(), &memory);
}

#[test]
fn a_session_streams_from_its_first_chunk_until_it_is_reset() {
    let mut session = VadSession::new(half());
    assert!(!session.is_streaming());
    session.process_chunk(&seconds(&[true]), 16000, &mean_scorer, &length_transcriber).unwrap();
    assert!(session.is_streaming());
    session.process_chunk(&seconds(&[false]), 16000, &mean_scorer, &length_transcriber).unwrap();
    assert!(session.is_streaming());
    session.reset();
    assert!(!session.is_streaming());
    session.stateful_vad(&seconds(&[true]), 16000, &mean_scorer).unwrap();
    assert!(session.is_streaming());
}

#[test]
fn a_probability_at_the_threshold_is_voice_in_a_session() {
    for threshold in [0.5f32, 0.25, 1.0, 0.0] {
        let at = |_: &Vec<f32>, _: i64, h: &Vec<u32>, c: &Vec<u32>| {
            Some(ScorerOutput { probability: threshold.to_bits(), hn: h.clone(), cn: c.clone() })
        };
        let mut session = VadSession::new(threshold.to_bits());
        let decisions = session.stateful_vad(&vec![0.0f32; 10], 8000, &at).unwrap();
        assert_eq!(decisions, vec![VoiceDetectResult::new(0, 9, threshold.to_bits(), true)]);
    }
    let below = |_: &Vec<f32>, _: i64, h: &Vec<u32>, c: &Vec<u32>| {
        Some(ScorerOutput { probability: half() - 1, hn: h.clone(), cn: c.clone() })
    };
    let mut session = VadSession::new(half());
    let decisions = session.stateful_vad(&vec![0.0f32; 10], 8000, &below).unwrap();
    assert_eq!(decisions, vec![VoiceDetectResult::new(0, 9, half() - 1, false)]);
}

#[test]
fn decisions_carry_the_bounds_of_their_windows() {
    let mut audio = seconds(&[true, false]);
    audio.extend_from_slice(&[1.0; 4000]);
    let mut session = VadSession::new(half());
    let decisions = session.stateful_vad(&audio, 16000, &mean_scorer).unwrap();
    assert_eq!(
        decisions,
        vec![
            VoiceDetectResult::new(0, 15999, 1.0f32.to_bits(), true),
            VoiceDetectResult::new(16000, 31999, 0.0f32.to_bits(), false),
            VoiceDetectResult::new(32000, 35999, 1.0f32.to_bits(), true),
        ]
    );
    let at_eight = session.stateful_vad(&audio, 8000, &mean_scorer).unwrap();
    assert_eq!(at_eight.len(), 5);
    assert_eq!((at_eight[4].start_period, at_eight[4].end_period), (32000, 35999));
    assert_eq!((at_eight[1].start_period, at_eight[1].end_period), (8000, 15999));
}

#[test]
fn the_scorer_is_handed_each_window_with_the_memory_of_the_one_before() {
    let seen: RefCell<Vec<(usize, f32, i64, u32, u32)>> = RefCell::new(Vec::new());
    let recording = |samples: &Vec<f32>, rate: i64, h: &Vec<u32>, c: &Vec<u32>| {
        assert_eq!(h.len(), STATE_LEN);
        assert_eq!(c.len(), STATE_LEN);
        seen.borrow_mut().push((samples.len(), samples[0], rate, h[0], c[0]));
        mean_scorer(samples, rate, h, c)
    };
    let mut session = VadSession::new(half());
    let mut first = seconds(&[true, false]);
    first.extend_from_slice(&[0.5; 100]);
    session.stateful_vad(&first, 16000, &recording).unwrap();
    session.process_chunk(&seconds(&[false]), 16000, &recording, &length_transcriber).unwrap();
    assert_eq!(
        *seen.borrow(),
        vec![
            (16000, 1.0, 16000, 0, 0),
            (16000, 0.0, 16000, 1, 16000),
            (100, 0.5, 16000, 2, 32000),
            (16000, 0.0, 16000, 3, 32100),
        ]
    );
    assert_eq!(session.state().hidden()[0], 4);
    assert_eq!(session.state().cell()[0], 48100);
}

#[test]
fn the_memory_is_kept_for_windows_without_voice() {
    let mut session = VadSession::new(half());
    let decisions = session.stateful_vad(&seconds(&[false, false, false]), 16000, &mean_scorer).unwrap();
    assert!(decisions.iter().all(|d| !d.voice_detect));
    assert_eq!(session.state().hidden()[0], 3);
}

#[test]
fn a_window_that_fails_is_reported_and_the_windows_before_it_stay() {
    let calls = Cell::new(0usize);
    let failing_on_third = |samples: &Vec<f32>, rate: i64, h: &Vec<u32>, c: &Vec<u32>| {
        calls.set(calls.get() + 1);
        if calls.get() == 3 {
            None
        } else {
            mean_scorer(samples, rate, h, c)
        }
    };
    let mut session = VadSession::new(half());
    let audio = seconds(&[true, false, true, true]);
    assert_eq!(
        session.process_chunk(&audio, 16000, &failing_on_third, &length_transcriber),
        Err(VadError::InferenceFailure { window: 2 })
    );
    assert_eq!(calls.get(), 3);
    assert_eq!(session.state().hidden()[0], 2);
    assert_eq!(session.state().cell()[0], 32000);
    assert_eq!(session.wallclock_offset(), 0);
    assert!(session.is_streaming());

    calls.set(2);
    let mut other = VadSession::new(half());
    assert_eq!(
        other.stateful_vad(&audio, 16000, &failing_on_third),
        Err(VadError::InferenceFailure { window: 0 })
    );
    assert_eq!(other.state().hidden()[0], 0);
    calls.set(2);
    assert_eq!(
        other.run_voice_detection(&audio, 16000, &failing_on_third),
        Err(VadError::InferenceFailure { window: 0 })
    );
}

#[test]
fn the_engine_is_not_called_when_the_scorer_fails() {
    let heard = Cell::new(0usize);
    let counting = |audio: &Vec<f32>| {
        heard.set(heard.get() + 1);
        length_transcriber(audio)
    };
    let never = |_: &Vec<f32>, _: i64, _: &Vec<u32>, _: &Vec<u32>| -> Option<ScorerOutput> { None };
    let mut session = VadSession::new(half());
    assert_eq!(
        session.process_chunk(&seconds(&[true, true]), 16000, &never, &counting),
        Err(VadError::InferenceFailure { window: 0 })
    );
    assert_eq!(heard.get(), 0);
}

#[test]
fn tensors_of_another_shape_are_a_failure_of_the_window() {
    let short_h = |samples: &Vec<f32>, rate: i64, h: &Vec<u32>, c: &Vec<u32>| {
        let mut out = mean_scorer(samples, rate, h, c).unwrap();
        if out.hn[0] == 2 {
            out.hn.pop();
        }
        Some(out)
    };
    let mut session = VadSession::new(half());
    assert_eq!(
        session.stateful_vad(&seconds(&[true, true, true]), 16000, &short_h),
        Err(VadError::InferenceFailure { window: 1 })
    );
    assert_eq!(session.state().hidden().len(), STATE_LEN);
    assert_eq!(session.state().hidden()[0], 1);

    let long_c = |samples: &Vec<f32>, rate: i64, h: &Vec<u32>, c: &Vec<u32>| {
        let mut out = mean_scorer(samples, rate, h, c).unwrap();
        out.cn.push(0);
        Some(out)
    };
    let mut other = VadSession::new(half());
    assert_eq!(
        other.stateful_vad(&seconds(&[true]), 16000, &long_c),
        Err(VadError::InferenceFailure { window: 0 })
    );
    assert_eq!(other.state().cell(), &vec![0u32; STATE_LEN]);
}

#[test]
fn detection_on_its_own_starts_from_zeros_and_leaves_the_session_alone() {
    let mut session = VadSession::new(half());
    session.stateful_vad(&seconds(&[true, true]), 16000, &mean_scorer).unwrap();
    let memory = session.state().clone();
    let seen: RefCell<Vec<u32>> = RefCell::new(Vec::new());
    let recording = |samples: &Vec<f32>, rate: i64, h: &Vec<u32>, c: &Vec<u32>| {
        seen.borrow_mut().push(h[0]);
        mean_scorer(samples, rate, h, c)
    };
    let first = session.run_voice_detection(&seconds(&[true, false]), 16000, &recording).unwrap();
    let second = session.run_voice_detection(&seconds(&[true, false]), 16000, &recording).unwrap();
    assert_eq!(first, second);
    assert_eq!(*seen.borrow(), vec![0, 1, 0, 1]);
    assert_eq!(session.state(), &memory);
    assert_eq!(session.wallclock_offset(), 0);
}

#[test]
fn ten_seconds_with_speech_from_the_third_to_the_fifth() {
    let audio = seconds(&[false, false, true, true, true, false, false, false, false, false]);
    assert_eq!(audio.len(), 160000);
    let engine = |slice: &Vec<f32>| {
        assert_eq!(slice.len(), 48000);
        Some(vec![
            LocalFragment { local_start: 0, local_end: 140, text: "good".to_string() },
            LocalFragment { local_start: 140, local_end: 300, text: "morning".to_string() },
        ])
    };
    let mut session = VadSession::new(half());
    let outcomes = session.process_chunk(&audio, 16000, &mean_scorer, &engine).unwrap();
    assert_eq!(
        outcomes,
        vec![SpanOutcome {
            span: TimedSpan {
                start_sample: 32000,
                end_sample: 79999,
                absolute_start_ts: 200,
                absolute_end_ts: 500,
            },
            fragments: Ok(vec![
                TranscribedFragment {
                    absolute_start_ts: 200,
                    absolute_end_ts: 340,
                    text: "good".to_string()
                },
                TranscribedFragment {
                    absolute_start_ts: 340,
                    absolute_end_ts: 500,
                    text: "morning".to_string()
                },
            ]),
        }]
    );
    for fragment in outcomes[0].fragments.as_ref().unwrap() {
        assert!(200 <= fragment.absolute_start_ts && fragment.absolute_end_ts <= 500);
    }
    assert_eq!(session.wallclock_offset(), 1000);
}

#[test]
fn a_span_is_placed_by_the_silence_before_it_in_its_chunk() {
    let mut session = VadSession::new(half());
    let outcomes = session
        .process_chunk(
            &seconds(&[true, false, true, true, false, false, true]),
            16000,
            &mean_scorer,
            &length_transcriber,
        )
        .unwrap();
    assert_eq!(
        spans_of(&outcomes),
        vec![
            TimedSpan { start_sample: 0, end_sample: 15999, absolute_start_ts: 0, absolute_end_ts: 100 },
            TimedSpan {
                start_sample: 32000,
                end_sample: 63999,
                absolute_start_ts: 100,
                absolute_end_ts: 300
            },
            TimedSpan {
                start_sample: 96000,
                end_sample: 111999,
                absolute_start_ts: 300,
                absolute_end_ts: 400
            },
        ]
    );
    assert_eq!(session.wallclock_offset(), 700);
}

#[test]
fn the_next_chunk_starts_where_the_last_one_ended() {
    let mut session = VadSession::new(half());
    let first = session
        .process_chunk(&seconds(&[false, true, true]), 16000, &mean_scorer, &length_transcriber)
        .unwrap();
    assert_eq!(spans_of(&first)[0].absolute_start_ts, 100);
    assert_eq!(session.wallclock_offset(), 300);
    let mut second_audio = seconds(&[false, false, true]);
    second_audio.extend_from_slice(&[1.0; 8000]);
    let second = session
        .process_chunk(&second_audio, 16000, &mean_scorer, &length_transcriber)
        .unwrap();
    assert_eq!(
        spans_of(&second),
        vec![TimedSpan {
            start_sample: 32000,
            end_sample: 55999,
            absolute_start_ts: 500,
            absolute_end_ts: 650
        }]
    );
    assert_eq!(
        second[0].fragments,
        Ok(vec![TranscribedFragment {
            absolute_start_ts: 500,
            absolute_end_ts: 650,
            text: "24000".to_string()
        }])
    );
    assert_eq!(session.wallclock_offset(), 650);
    let third =
        session.process_chunk(&vec![1.0f32; 4000], 8000, &mean_scorer, &length_transcriber).unwrap();
    assert_eq!(
        spans_of(&third),
        vec![TimedSpan { start_sample: 0, end_sample: 3999, absolute_start_ts: 650, absolute_end_ts: 700 }]
    );
    assert_eq!(session.wallclock_offset(), 700);
}

#[test]
fn a_chunk_of_silence_gives_no_span_and_moves_the_clock() {
    let heard = Cell::new(0usize);
    let counting = |audio: &Vec<f32>| {
        heard.set(heard.get() + 1);
        length_transcriber(audio)
    };
    let mut session = VadSession::new(half());
    let outcomes =
        session.process_chunk(&seconds(&[false, false, false]), 16000, &mean_scorer, &counting).unwrap();
    assert!(outcomes.is_empty());
    assert_eq!(heard.get(), 0);
    assert_eq!(session.wallclock_offset(), 300);
}

#[test]
fn the_engine_is_handed_the_samples_of_each_span() {
    let mut rng = rand::thread_rng();
    let mut audio: Vec<f32> = Vec::new();
    let voice = [false, true, true, false, true];
    for v in voice {
        for _ in 0..8000 {
            let noise: f32 = rng.gen::<f32>() * 0.1;
            audio.push(if v { 0.9 + noise } else { noise });
        }
    }
    audio.extend_from_slice(&[0.95; 17]);
    let heard: RefCell<Vec<Vec<f32>>> = RefCell::new(Vec::new());
    let recording = |slice: &Vec<f32>| {
        heard.borrow_mut().push(slice.clone());
        Some(Vec::new())
    };
    let mut session = VadSession::new(half());
    let outcomes = session.process_chunk(&audio, 8000, &mean_scorer, &recording).unwrap();
    assert_eq!(outcomes.len(), 2);
    assert_eq!(
        *heard.borrow(),
        vec![audio[8000..24000].to_vec(), audio[32000..40017].to_vec()]
    );
    assert_eq!((outcomes[1].span.start_sample, outcomes[1].span.end_sample), (32000, 40016));
    assert_eq!(outcomes[0].fragments, Ok(Vec::new()));
}

#[test]
fn a_span_that_fails_does_not_stop_the_chunk() {
    let calls = Cell::new(0usize);
    let failing_on_second = |audio: &Vec<f32>| {
        calls.set(calls.get() + 1);
        if calls.get() == 2 {
            None
        } else {
            length_transcriber(audio)
        }
    };
    let mut session = VadSession::new(half());
    let outcomes = session
        .process_chunk(
            &seconds(&[true, false, true, false, true]),
            16000,
            &mean_scorer,
            &failing_on_second,
        )
        .unwrap();
    assert_eq!(outcomes.len(), 3);
    assert!(outcomes[0].fragments.is_ok());
    assert_eq!(outcomes[1].fragments, Err(VadError::TranscriptionFailure { span: 1 }));
    assert_eq!(
        outcomes[2].fragments,
        Ok(vec![TranscribedFragment {
            absolute_start_ts: 200,
            absolute_end_ts: 300,
            text: "16000".to_string()
        }])
    );
    assert_eq!(outcomes[1].span.absolute_start_ts, 100);
    assert_eq!(session.wallclock_offset(), 500);
}

#[test]
fn a_fragment_off_the_clock_fails_its_span() {
    let wild = |_: &Vec<f32>| {
        Some(vec![
            LocalFragment { local_start: 0, local_end: 10, text: "fine".to_string() },
            LocalFragment { local_start: 10, local_end: i64::MAX, text: "wild".to_string() },
        ])
    };
    let mut session = VadSession::new(half());
    let outcomes =
        session.process_chunk(&seconds(&[true, false, true]), 16000, &mean_scorer, &wild).unwrap();
    assert_eq!(
        outcomes[0].fragments,
        Ok(vec![
            TranscribedFragment { absolute_start_ts: 0, absolute_end_ts: 10, text: "fine".to_string() },
            TranscribedFragment {
                absolute_start_ts: 10,
                absolute_end_ts: i64::MAX,
                text: "wild".to_string()
            },
        ])
    );
    assert_eq!(outcomes[1].fragments, Err(VadError::TranscriptionFailure { span: 1 }));
}

#[test]
fn spans_never_go_back_in_time() {
    let mut rng = rand::thread_rng();
    for _ in 0..20 {
        let mut session = VadSession::new(half());
        let mut starts: Vec<i64> = Vec::new();
        let mut last_offset = 0;
        for _ in 0..6 {
            let windows: usize = rng.gen_range(1..8);
            let voice: Vec<bool> = (0..windows).map(|_| rng.gen::<bool>()).collect();
            let mut audio: Vec<f32> = Vec::new();
            for v in voice.iter() {
                audio.extend_from_slice(&[if *v { 1.0 } else { 0.0 }; 8000]);
            }
            let tail: usize = rng.gen_range(0..8000);
            let tail_voice = rng.gen::<bool>();
            audio.extend_from_slice(&vec![if tail_voice { 1.0 } else { 0.0 }; tail]);
            let before = session.wallclock_offset();
            let outcomes =
                session.process_chunk(&audio, 8000, &mean_scorer, &length_transcriber).unwrap();
            let after = session.wallclock_offset();
            assert!(before <= after);
            assert_eq!(after - before, ((audio.len() as f64) * 100.0 / 8000.0).round() as i64);
            for outcome in outcomes.iter() {
                assert!(before <= outcome.span.absolute_start_ts);
                assert!(outcome.span.absolute_start_ts <= outcome.span.absolute_end_ts);
                assert!(outcome.span.absolute_end_ts <= after);
                starts.push(outcome.span.absolute_start_ts);
            }
            assert!(last_offset <= before);
            last_offset = after;
        }
        for pair in starts.windows(2) {
            assert!(pair[0] <= pair[1], "{:?}", starts);
        }
    }
}

#[test]
fn the_same_audio_in_the_same_chunks_gives_the_same() {
    let mut rng = rand::thread_rng();
    let chunks: Vec<Vec<f32>> = (0..5)
        .map(|_| {
            let len: usize = rng.gen_range(1..60000);
            (0..len).map(|_| rng.gen::<f32>()).collect()
        })
        .collect();
    let run = || {
        let mut session = VadSession::new(half());
        let mut all = Vec::new();
        for chunk in chunks.iter() {
            all.push(session.process_chunk(chunk, 16000, &mean_scorer, &length_transcriber));
        }
        (all, session.wallclock_offset(), session.state().clone())
    };
    let first = run();
    let second = run();
    assert_eq!(first, second);
}

#[test]
fn a_session_that_was_reset_runs_as_a_new_one() {
    let mut rng = rand::thread_rng();
    let chunks: Vec<Vec<f32>> = (0..4)
        .map(|_| {
            let len: usize = rng.gen_range(1..50000);
            (0..len).map(|_| if rng.gen::<bool>() { 0.9 } else { 0.1 }).collect()
        })
        .collect();
    let through = |session: &mut VadSession| {
        let mut all = Vec::new();
        for chunk in chunks.iter() {
            all.push(session.process_chunk(chunk, 8000, &mean_scorer, &length_transcriber));
        }
        all
    };
    let mut reused = VadSession::new(0.3f32.to_bits());
    let first_run = through(&mut reused);
    assert!(reused.is_streaming());
    reused.reset();
    assert_eq!(reused.detection_threshold(), 0.3f32.to_bits());
    assert_eq!(reused.wallclock_offset(), 0);
    assert!(!reused.is_streaming());
    assert_eq!(reused.state().hidden(), &vec![0u32; STATE_LEN]);
    assert_eq!(reused.state().cell(), &vec![0u32; STATE_LEN]);
    let second_run = through(&mut reused);

    let mut fresh_one = VadSession::new(0.3f32.to_bits());
    let mut fresh_two = VadSession::new(0.3f32.to_bits());
    assert_eq!(first_run, through(&mut fresh_one));
    assert_eq!(second_run, through(&mut fresh_two));
    assert_eq!(first_run, second_run);
    assert_eq!(reused.state(), fresh_two.state());
    assert_eq!(reused.wallclock_offset(), fresh_two.wallclock_offset());
}

#[test]
fn a_chunk_shorter_than_a_second_is_one_window() {
    let mut session = VadSession::new(half());
    let outcomes =
        session.process_chunk(&vec![1.0f32; 1600], 16000, &mean_scorer, &length_transcriber).unwrap();
    assert_eq!(
        spans_of(&outcomes),
        vec![TimedSpan { start_sample: 0, end_sample: 1599, absolute_start_ts: 0, absolute_end_ts: 10 }]
    );
    assert_eq!(session.wallclock_offset(), 10);
    assert_eq!(session.state().hidden()[0], 1);
}

#[test]
fn offsets_agree_with_counting_the_silence_window_by_window() {
    let mut rng = rand::thread_rng();
    for _ in 0..30 {
        let rate: usize = if rng.gen::<bool>() { 8000 } else { 16000 };
        let windows: usize = rng.gen_range(1..10);
        let mut voice: Vec<bool> = (0..windows).map(|_| rng.gen::<bool>()).collect();
        let mut audio: Vec<f32> = Vec::new();
        for v in voice.iter() {
            audio.extend_from_slice(&vec![if *v { 1.0 } else { 0.0 }; rate]);
        }
        let tail: usize = rng.gen_range(0..rate);
        if tail > 0 {
            let tail_voice = rng.gen::<bool>();
            voice.push(tail_voice);
            audio.extend_from_slice(&vec![if tail_voice { 1.0 } else { 0.0 }; tail]);
        }

        // Walk the windows one by one: silence moves the clock by the length
        // of its window, a span begins where voice follows silence or opens
        // the chunk.
        let mut expected: Vec<(usize, usize, i64)> = Vec::new();
        let mut offset: i64 = 0;
        let mut start = 0usize;
        for (i, v) in voice.iter().enumerate() {
            let end = (start + rate).min(audio.len()) - 1;
            if *v {
                if i > 0 && voice[i - 1] {
                    expected.last_mut().unwrap().1 = end;
                } else {
                    expected.push((start, end, offset));
                }
            } else {
                offset += ((200 * (end - start) + rate) / (2 * rate)) as i64;
            }
            start = end + 1;
        }

        let mut session = VadSession::new(half());
        let outcomes = session
            .process_chunk(&audio, rate as i64, &mean_scorer, &length_transcriber)
            .unwrap();
        let seen: Vec<(usize, usize, i64)> = outcomes
            .iter()
            .map(|o| (o.span.start_sample, o.span.end_sample, o.span.absolute_start_ts))
            .collect();
        assert_eq!(seen, expected, "voice {:?}, tail {}", voice, tail);
    }
}
