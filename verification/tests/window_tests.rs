use rand::Rng;
use silero_rs::error::VadError;
use silero_rs::window::{extract_samples, prepare_audio_data, AudioDetectWindow};

#[test]
fn test_prepre_data() {
    let mut rng = rand::thread_rng();
    let random_vector: Vec<f32> = (0..100000).map(|_| rng.gen::<f32>()).collect();
    let result1 = prepare_audio_data(&random_vector, 8000).unwrap();
    let test_sample = result1.get(0).unwrap().audio_data.clone();
    let test_sample2 = result1.get(12).unwrap().audio_data.clone();
    assert_eq!(result1.len(), 13);
    assert_eq!(test_sample.len(), 8000);
    assert_eq!(test_sample2.len(), 4000);

    let random_vector2: Vec<f32> = (0..100).map(|_| rng.gen::<f32>()).collect();
    let result2 = prepare_audio_data(&random_vector2, 16000).unwrap();
    let test_sample3 = result2.get(0).unwrap().audio_data.clone();
    assert_eq!(test_sample3.len(), 100, "Prepare data is not working correctly");
}

#[test]
fn hundred_thousand_samples_at_sixteen_thousand_give_seven_windows() {
    let samples: Vec<f32> = (0..100000).map(|i| i as f32).collect();
    let windows = prepare_audio_data(&samples, 16000).unwrap();
    let lengths: Vec<usize> = windows.iter().map(|w| w.audio_data.len()).collect();
    assert_eq!(lengths, vec![16000, 16000, 16000, 16000, 16000, 16000, 4000]);
    let bounds: Vec<(usize, usize)> =
        windows.iter().map(|w| (w.start_period, w.end_period)).collect();
    assert_eq!(
        bounds,
        vec![
            (0, 15999),
            (16000, 31999),
            (32000, 47999),
            (48000, 63999),
            (64000, 79999),
            (80000, 95999),
            (96000, 99999),
        ]
    );
}

#[test]
fn windows_join_back_into_the_buffer() {
    let mut rng = rand::thread_rng();
    for _ in 0..50 {
        let len: usize = rng.gen_range(1..400);
        let rate: usize = rng.gen_range(1..50);
        let samples: Vec<u32> = (0..len).map(|_| rng.gen::<u32>()).collect();
        let windows = prepare_audio_data(&samples, rate).unwrap();
        assert_eq!(windows.len(), (len + rate - 1) / rate);
        let mut joined: Vec<u32> = Vec::new();
        let mut next_start = 0;
        for (i, window) in windows.iter().enumerate() {
            assert_eq!(window.start_period, next_start);
            assert_eq!(window.end_period + 1 - window.start_period, window.audio_data.len());
            if i + 1 < windows.len() {
                assert_eq!(window.audio_data.len(), rate);
            } else {
                assert!(1 <= window.audio_data.len() && window.audio_data.len() <= rate);
            }
            next_start = window.end_period + 1;
            joined.extend_from_slice(&window.audio_data);
        }
        assert_eq!(next_start, len);
        assert_eq!(joined, samples);
    }
}

#[test]
fn an_empty_buffer_is_refused() {
    let samples: Vec<f32> = Vec::new();
    assert_eq!(prepare_audio_data(&samples, 16000), Err(VadError::EmptyInput));
    assert_eq!(prepare_audio_data(&samples, 1), Err(VadError::EmptyInput));
}

#[test]
fn a_buffer_shorter_than_a_second_is_one_window() {
    let samples: Vec<f32> = vec![0.25, 0.5, 0.75];
    let windows = prepare_audio_data(&samples, 8000).unwrap();
    assert_eq!(
        windows,
        vec![AudioDetectWindow { audio_data: vec![0.25, 0.5, 0.75], start_period: 0, end_period: 2 }]
    );
}

#[test]
fn a_buffer_of_whole_seconds_has_no_short_window() {
    let samples: Vec<u8> = vec![1, 2, 3, 4, 5, 6];
    let windows = prepare_audio_data(&samples, 3).unwrap();
    assert_eq!(
        windows,
        vec![
            AudioDetectWindow { audio_data: vec![1, 2, 3], start_period: 0, end_period: 2 },
            AudioDetectWindow { audio_data: vec![4, 5, 6], start_period: 3, end_period: 5 },
        ]
    );
    let single = prepare_audio_data(&samples, 6).unwrap();
    assert_eq!(single.len(), 1);
    assert_eq!(single[0].end_period, 5);
}

#[test]
fn a_window_of_one_sample_each() {
    let samples: Vec<u8> = vec![7, 8, 9];
    let windows = prepare_audio_data(&samples, 1).unwrap();
    assert_eq!(windows.len(), 3);
    assert_eq!(windows[1], AudioDetectWindow::new(vec![8], 1, 1));
}

#[test]
fn a_slice_is_copied_with_its_bounds() {
    let samples: Vec<i16> = vec![10, 11, 12, 13, 14];
    assert_eq!(extract_samples(&samples, 1, 4), vec![11, 12, 13]);
    assert_eq!(extract_samples(&samples, 0, 5), samples);
    assert_eq!(extract_samples(&samples, 2, 2), Vec::<i16>::new());
}
