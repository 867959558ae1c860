use solstice::spectrogram::StreamingSpectrogram;

fn ramp(n: usize) -> Vec<i32> {
    (0..n as i32).collect()
}

fn run_chunks(sp: &mut StreamingSpectrogram<i32>, samples: &[i32], chunk: usize) -> Vec<Vec<i32>> {
    let mut out = Vec::new();
    for c in samples.chunks(chunk) {
        out.extend(sp.process_chunk(c));
    }
    out
}

#[test]
fn new_rejects_zero_step() {
    assert!(StreamingSpectrogram::<i32>::new(4, 0).is_none());
}

#[test]
fn new_rejects_step_past_window() {
    assert!(StreamingSpectrogram::<i32>::new(4, 5).is_none());
}

#[test]
fn new_accepts_step_equal_to_window() {
    let sp = StreamingSpectrogram::<i32>::new(4, 4).unwrap();
    assert_eq!(sp.window_size(), 4);
    assert_eq!(sp.step_size(), 4);
    assert_eq!(sp.len(), 0);
    assert!(!sp.has_full_frame());
}

#[test]
fn full_frame_after_one_window() {
    for (w, s) in [(1usize, 1usize), (4, 1), (4, 2), (4, 4), (1024, 512), (7, 3)] {
        let mut sp = StreamingSpectrogram::<i32>::new(w, s).unwrap();
        let samples = ramp(w);
        sp.append_samples(&samples[..w - 1]);
        assert!(!sp.has_full_frame());
        sp.append_samples(&samples[w - 1..]);
        assert!(sp.has_full_frame());
        assert_eq!(sp.current_frame(), samples);
    }
}

#[test]
fn output_size_is_half_window() {
    assert_eq!(StreamingSpectrogram::<i32>::new(1024, 512).unwrap().output_size(), 512);
    assert_eq!(StreamingSpectrogram::<i32>::new(5, 2).unwrap().output_size(), 2);
    assert_eq!(StreamingSpectrogram::<i32>::new(1, 1).unwrap().output_size(), 0);
}

#[test]
fn current_frame_is_read_only() {
    let mut sp = StreamingSpectrogram::<i32>::new(4, 2).unwrap();
    sp.append_samples(&ramp(6));
    let a = sp.current_frame();
    let b = sp.current_frame();
    assert_eq!(a, b);
    assert_eq!(a, vec![0, 1, 2, 3]);
    assert_eq!(sp.len(), 6);
}

#[test]
fn advance_drops_one_step() {
    let mut sp = StreamingSpectrogram::<i32>::new(4, 2).unwrap();
    sp.append_samples(&ramp(6));
    sp.advance();
    assert_eq!(sp.len(), 4);
    assert_eq!(sp.current_frame(), vec![2, 3, 4, 5]);
    sp.advance();
    assert_eq!(sp.len(), 2);
    assert!(!sp.has_full_frame());
}

#[test]
fn process_chunk_takes_overlapping_frames() {
    let mut sp = StreamingSpectrogram::<i32>::new(4, 2).unwrap();
    let frames = sp.process_chunk(&ramp(10));
    assert_eq!(
        frames,
        vec![vec![0, 1, 2, 3], vec![2, 3, 4, 5], vec![4, 5, 6, 7], vec![6, 7, 8, 9]]
    );
    assert_eq!(sp.len(), 2);
}

#[test]
fn process_chunk_with_disjoint_frames() {
    let mut sp = StreamingSpectrogram::<i32>::new(3, 3).unwrap();
    let frames = sp.process_chunk(&ramp(8));
    assert_eq!(frames, vec![vec![0, 1, 2], vec![3, 4, 5]]);
    assert_eq!(sp.len(), 2);
    let more = sp.process_chunk(&[8]);
    assert_eq!(more, vec![vec![6, 7, 8]]);
    assert_eq!(sp.len(), 0);
}

#[test]
fn process_chunk_empty_input_emits_nothing() {
    let mut sp = StreamingSpectrogram::<i32>::new(4, 2).unwrap();
    assert!(sp.process_chunk(&[]).is_empty());
    assert_eq!(sp.len(), 0);
}

#[test]
fn one_chunk_and_single_samples_agree() {
    let samples = ramp(1000);
    let mut whole = StreamingSpectrogram::<i32>::new(64, 16).unwrap();
    let mut single = StreamingSpectrogram::<i32>::new(64, 16).unwrap();
    let a = run_chunks(&mut whole, &samples, samples.len());
    let b = run_chunks(&mut single, &samples, 1);
    assert_eq!(a.len(), (1000 - 64) / 16 + 1);
    assert_eq!(a, b);
    assert_eq!(whole.len(), single.len());
}

#[test]
fn uneven_chunks_agree() {
    let samples = ramp(500);
    let mut a_sp = StreamingSpectrogram::<i32>::new(10, 3).unwrap();
    let mut b_sp = StreamingSpectrogram::<i32>::new(10, 3).unwrap();
    let a = run_chunks(&mut a_sp, &samples, 7);
    let b = run_chunks(&mut b_sp, &samples, 97);
    assert_eq!(a, b);
}

#[test]
fn real_valued_samples() {
    let mut sp = StreamingSpectrogram::<f64>::new(2, 1).unwrap();
    let frames = sp.process_chunk(&[0.5, 1.5, 2.5]);
    assert_eq!(frames, vec![vec![0.5, 1.5], vec![1.5, 2.5]]);
}
