use fixed_dsp::statistics::{absmax_i16, absmax_i32};

#[test]
fn absmax_i16_handles_q15_min_saturation() {
    let data = [0, -5, i16::MIN, 32766, -32767];
    let (max, idx) = absmax_i16(&data, data.len());
    assert_eq!(max, i16::MAX);
    assert_eq!(idx, 2);
}

#[test]
fn absmax_i16_uses_first_index_on_tie() {
    let data = [-7, 7, -7, 3];
    let (max, idx) = absmax_i16(&data, data.len());
    assert_eq!(max, 7);
    assert_eq!(idx, 0);
}

#[test]
fn absmax_i32_handles_q31_min_saturation() {
    let data = [0, -5, i32::MIN, i32::MAX - 1, -(i32::MAX - 1)];
    let (max, idx) = absmax_i32(&data, data.len());
    assert_eq!(max, i32::MAX);
    assert_eq!(idx, 2);
}

#[test]
fn absmax_i32_respects_size_prefix() {
    let data = [10, -20, 30, -40, 1_000_000];
    let (max, idx) = absmax_i32(&data, 4);
    assert_eq!(max, 40);
    assert_eq!(idx, 3);
}

#[test]
fn absmax_with_size_zero_reads_first_sample() {
    let data = [-9_i16, 100];
    assert_eq!(absmax_i16(&data, 0), (9, 0));
    let data = [3_i32, -100];
    assert_eq!(absmax_i32(&data, 0), (3, 0));
}

#[test]
fn absmax_bounds_every_sample() {
    let data = [12_i16, -300, 299, -301, 301];
    let (max, idx) = absmax_i16(&data, data.len());
    assert_eq!((max, idx), (301, 3));
    assert!(data.iter().all(|&x| (x as i32).abs() <= max as i32));
}
