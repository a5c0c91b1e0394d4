use shortener::mixer::mix_to_mono;
use shortener::reducer::reduce_rate;

#[test]
fn mix_two_channels_averages_pairs() {
    let data: Vec<i16> = vec![10, 20, 30, 40, 50, 60, 70, 80];
    let mono = mix_to_mono(&data, 2);
    assert_eq!(mono, vec![15, 35, 55, 75]);
}

#[test]
fn mix_single_channel_is_identity() {
    let data: Vec<i16> = vec![5, -3, 0, 32767, -32768, 12];
    let mono = mix_to_mono(&data, 1);
    assert_eq!(mono, data);
}

#[test]
fn mix_drops_incomplete_trailing_frame() {
    let data: Vec<i16> = vec![1, 3, 5, 7, 9];
    let mono = mix_to_mono(&data, 2);
    assert_eq!(mono, vec![2, 6]);
}

#[test]
fn mix_truncates_toward_zero() {
    assert_eq!(mix_to_mono(&vec![-5, -6], 2), vec![-5]);
    assert_eq!(mix_to_mono(&vec![-3, 4], 2), vec![0]);
    assert_eq!(mix_to_mono(&vec![3, -4], 2), vec![0]);
}

#[test]
fn mix_many_channels() {
    let data: Vec<i16> = vec![1, 2, 3, 4, 5, 6];
    let mono = mix_to_mono(&data, 3);
    assert_eq!(mono, vec![2, 5]);
}

#[test]
fn mix_handles_sample_extremes() {
    assert_eq!(mix_to_mono(&vec![-32768, -32768], 2), vec![-32768]);
    assert_eq!(mix_to_mono(&vec![32767, 32767], 2), vec![32767]);
    assert_eq!(mix_to_mono(&vec![-32768, 32767], 2), vec![0]);
}

#[test]
fn mix_empty_input_gives_empty_output() {
    let data: Vec<i16> = Vec::new();
    assert_eq!(mix_to_mono(&data, 2), Vec::<i16>::new());
}

#[test]
fn reduce_halves_rate_with_leading_silence() {
    let mut data: Vec<i16> = Vec::new();
    data.push(7);
    data.push(9);
    for i in 2..16000u64 {
        data.push((i % 50) as i16);
    }
    let out = reduce_rate(&data, 16000, 8000);
    assert_eq!(out.len(), 8000);
    assert_eq!(out[0], 0, "the first decimated sample is always silence");
    assert_eq!(out[1], 8, "the second sample averages the first two sources");
}

#[test]
fn reduce_matched_rates_keeps_length() {
    let data: Vec<i16> = vec![3, 1, 4, 1, 5];
    let out = reduce_rate(&data, 100, 100);
    assert_eq!(out.len(), data.len());
    assert_eq!(out, vec![0, 3, 1, 4, 1]);
}

#[test]
fn reduce_non_integer_ratio() {
    let data: Vec<i16> = vec![10, 20, 30, 40, 50, 60, 70, 80, 90, 100];
    let out = reduce_rate(&data, 3, 2);
    assert_eq!(out, vec![0, 10, 25, 40, 55, 70]);
}

#[test]
fn reduce_ratio_close_to_one_never_divides_by_zero() {
    let data: Vec<i16> = vec![10, 20, 30, 40, 50, 60, 70, 80, 90, 100];
    let out = reduce_rate(&data, 5, 4);
    assert_eq!(out, vec![0, 10, 20, 30, 45, 60, 70, 80]);
}

#[test]
fn reduce_empty_input_gives_empty_output() {
    let data: Vec<i16> = Vec::new();
    assert_eq!(reduce_rate(&data, 44100, 8000), Vec::<i16>::new());
}

#[test]
fn reduce_output_length_is_floor() {
    let data: Vec<i16> = vec![0; 1001];
    let out = reduce_rate(&data, 44100, 8000);
    assert_eq!(out.len(), 1001 * 8000 / 44100);
}
