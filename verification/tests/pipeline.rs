use shortener::pipeline::{drain_packets, process_samples, DecodedPacket, Error};

fn packet(data: Vec<i16>, channels: u16, rate: u64) -> DecodedPacket {
    DecodedPacket { data, channels, rate }
}

#[test]
fn drain_concatenates_and_keeps_last_metadata() {
    let packets = vec![
        Ok(packet(vec![1, 2], 2, 44100)),
        Ok(packet(vec![3], 2, 44100)),
        Ok(packet(vec![4, 5, 6], 2, 44100)),
    ];
    let (samples, channels, rate) = drain_packets(packets).unwrap();
    assert_eq!(samples, vec![1, 2, 3, 4, 5, 6]);
    assert_eq!(channels, 2);
    assert_eq!(rate, 44100);
}

#[test]
fn drain_empty_stream() {
    let (samples, channels, rate) = drain_packets(Vec::new()).unwrap();
    assert_eq!(samples, Vec::<i16>::new());
    assert_eq!(channels, 0);
    assert_eq!(rate, 0);
}

#[test]
fn drain_aborts_on_first_failed_packet() {
    let packets = vec![
        Ok(packet(vec![1, 2], 2, 44100)),
        Ok(packet(vec![3, 4], 2, 44100)),
        Err(Error::Decode),
        Ok(packet(vec![5, 6], 2, 44100)),
        Ok(packet(vec![7, 8], 2, 44100)),
    ];
    assert_eq!(drain_packets(packets), Err(Error::Decode));
}

#[test]
fn process_rejects_zero_channels() {
    assert_eq!(process_samples(vec![1, 2, 3], 0, 44100), Err(Error::Decode));
}

#[test]
fn process_rejects_upsampling() {
    assert_eq!(process_samples(vec![1, 2, 3], 1, 4000), Err(Error::Decode));
}

#[test]
fn process_mixes_then_reduces() {
    let data: Vec<i16> = vec![10, 20, 30, 40, 50, 60, 70, 80];
    let out = process_samples(data, 2, 16000).unwrap();
    assert_eq!(out, vec![0, 25]);
}

#[test]
fn process_empty_buffer_gives_empty_output() {
    let out = process_samples(Vec::new(), 2, 44100).unwrap();
    assert_eq!(out, Vec::<i16>::new());
}

#[test]
fn process_at_target_rate_keeps_length() {
    let out = process_samples(vec![5, 6, 7], 1, 8000).unwrap();
    assert_eq!(out, vec![0, 5, 6]);
}

#[test]
fn drain_aborts_on_immediate_failure() {
    let packets = vec![Err(Error::Decode), Ok(packet(vec![1, 2], 2, 44100))];
    assert_eq!(drain_packets(packets), Err(Error::Decode));
}

#[test]
fn process_is_deterministic_on_samples() {
    let data: Vec<i16> = (0..4000).map(|i| ((i * 37) % 200 - 100) as i16).collect();
    let a = process_samples(data.clone(), 2, 16000).unwrap();
    let b = process_samples(data, 2, 16000).unwrap();
    assert_eq!(a, b);
}
