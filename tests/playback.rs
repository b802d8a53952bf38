use waved::{refill_pause_micros, PlaybackRing};

#[test]
fn full_ring_rejects_then_accepts_after_pop() {
    let mut ring = PlaybackRing::new(4);
    for s in 1..=4 {
        assert_eq!(ring.push(s), Ok(()));
    }
    assert!(ring.is_full());
    assert_eq!(ring.push(5), Err(5));
    assert_eq!(ring.pop(), Some(1));
    assert_eq!(ring.push(6), Ok(()));
    assert_eq!(ring.len(), 4);
}

#[test]
fn empty_ring_gives_silence() {
    let mut ring = PlaybackRing::new(2);
    assert!(ring.is_empty());
    assert_eq!(ring.pop(), None);
    assert_eq!(ring.pop_or_silence(), 0);
    ring.push(-7).unwrap();
    assert_eq!(ring.pop_or_silence(), -7);
    assert_eq!(ring.capacity(), 2);
}

#[test]
fn fill_stops_when_full() {
    let mut ring = PlaybackRing::new(3);
    let source = vec![10, 20, 30, 40, 50];
    assert_eq!(ring.fill_from(&source, 1), 3);
    assert_eq!(ring.fill_from(&source, 4), 0);
    assert_eq!(ring.pop(), Some(20));
    assert_eq!(ring.fill_from(&source, 4), 1);
    assert_eq!((ring.pop(), ring.pop(), ring.pop()), (Some(30), Some(40), Some(50)));
}

#[test]
fn output_takes_first_channel_and_pads_with_silence() {
    let mut ring = PlaybackRing::new(8);
    ring.fill_from(&vec![1, 2], 0);
    let mut out = vec![9; 7];
    ring.fill_output(&mut out, 2);
    assert_eq!(out, vec![1, 0, 2, 0, 0, 0, 0]);
    assert!(ring.is_empty());
}

#[test]
fn pause_is_half_the_buffer_duration() {
    assert_eq!(refill_pause_micros(512, 44100), 5804);
    assert_eq!(refill_pause_micros(44100, 44100), 500_000);
    assert_eq!(refill_pause_micros(0, 48000), 0);
}

#[test]
fn top_up_fills_from_square_wave() {
    let mut ring = PlaybackRing::new(5);
    let mut wave = waved::square(8, 1);
    assert_eq!(waved::top_up(&mut ring, &mut wave, 1000), 5);
    assert_eq!(waved::top_up(&mut ring, &mut wave, 1000), 0);
    assert_eq!(ring.pop(), Some(-1000));
    assert_eq!(waved::top_up(&mut ring, &mut wave, 1000), 1);
    let rest: Vec<i32> = (0..5).map(|_| ring.pop_or_silence()).collect();
    assert_eq!(rest, vec![-1000, -1000, -1000, 1000, 1000]);
    assert_eq!(wave.next_sample(), 1);
}

#[test]
fn top_up_accepts_negative_amplitude() {
    let mut ring = PlaybackRing::new(2);
    let mut wave = waved::square(4, 1);
    assert_eq!(waved::top_up(&mut ring, &mut wave, -5), 2);
    assert_eq!((ring.pop(), ring.pop()), (Some(5), Some(5)));
}
