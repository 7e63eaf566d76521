use std::time::Duration;

use xavier_robot::utils::{Interpolate, TimeIndexedMap, TimeInterpolatableBuffer};

#[derive(Debug, Clone, Copy, PartialEq)]
struct Scalar(f64);

impl Interpolate for Scalar {
    fn interpolate(low: &Scalar, high: &Scalar, elapsed: u64, span: u64) -> Scalar {
        Scalar(low.0 + (high.0 - low.0) * (elapsed as f64 / span as f64))
    }
}

fn secs(s: f64) -> u64 {
    Duration::from_secs_f64(s).as_nanos() as u64
}

#[test]
fn test_buffer_add() {
    let mut buffer = TimeInterpolatableBuffer::new(secs(10.0));
    buffer.add_sample(secs(0.0), Scalar(1.0));
    buffer.add_sample(secs(1.0), Scalar(2.0));
    buffer.add_sample(secs(2.0), Scalar(3.0));
    assert_eq!(buffer.len(), 3);
}

#[test]
fn test_buffer_cleanup() {
    let mut buffer = TimeInterpolatableBuffer::new(secs(2.0));
    buffer.add_sample(secs(0.0), Scalar(1.0));
    buffer.add_sample(secs(0.1), Scalar(1.0));
    buffer.add_sample(secs(0.2), Scalar(1.0));
    buffer.add_sample(secs(1.0), Scalar(2.0));
    buffer.add_sample(secs(2.0), Scalar(3.0));
    buffer.add_sample(secs(2.9), Scalar(3.0));
    assert_eq!(buffer.len(), 3);
}

#[test]
fn test_buffer_out_of_bounds() {
    let mut buffer = TimeInterpolatableBuffer::new(secs(200.0));
    buffer.add_sample(secs(1.0), Scalar(1.0));
    buffer.add_sample(secs(10.0), Scalar(5.0));
    assert_eq!(buffer.len(), 2);
    assert_eq!(buffer.get_value(secs(0.0)), Some(Scalar(1.0)));
    assert_eq!(buffer.get_value(secs(10000.0)), Some(Scalar(5.0)));
}

#[test]
fn test_interpolate() {
    let mut buffer = TimeInterpolatableBuffer::new(secs(200.0));
    buffer.add_sample(secs(1.0), Scalar(1.0));
    buffer.add_sample(secs(3.0), Scalar(5.0));
    buffer.add_sample(secs(4.0), Scalar(100.0));
    buffer.add_sample(secs(5.0), Scalar(0.0));
    let a = buffer.get_value(secs(2.0)).unwrap().0;
    assert!((a - 3.0).abs() < 1e-6, "{}", a);
    let b = buffer.get_value(secs(4.2)).unwrap().0;
    assert!((b - 80.0).abs() < 1e-6, "{}", b);
}

#[test]
fn buffer_empty_has_no_value() {
    let buffer: TimeInterpolatableBuffer<i32> = TimeInterpolatableBuffer::new(100);
    assert_eq!(buffer.get_value(5), None);
    assert_eq!(buffer.len(), 0);
}

#[test]
fn buffer_integer_interpolation() {
    let mut buffer = TimeInterpolatableBuffer::new(1_000);
    buffer.add_sample(10, 0i32);
    buffer.add_sample(20, 100i32);
    buffer.add_sample(30, -50i32);
    assert_eq!(buffer.get_value(15), Some(50));
    assert_eq!(buffer.get_value(13), Some(30));
    // From 100 toward -50: the blend is rounded toward the lower sample.
    assert_eq!(buffer.get_value(27), Some(-5));
    assert_eq!(buffer.get_value(21), Some(85));
    // At a sample time, the sample itself.
    assert_eq!(buffer.get_value(20), Some(100));
    assert_eq!(buffer.get_value(10), Some(0));
    assert_eq!(buffer.get_value(30), Some(-50));
    // Clamped outside the samples.
    assert_eq!(buffer.get_value(0), Some(0));
    assert_eq!(buffer.get_value(99), Some(-50));
}

#[test]
fn buffer_value_on_segment_between_brackets() {
    let mut buffer = TimeInterpolatableBuffer::new(1_000_000);
    buffer.add_sample(0, -1000i32);
    buffer.add_sample(1000, 1000i32);
    buffer.add_sample(3000, 7i32);
    for t in 0..=3000u64 {
        let v = buffer.get_value(t).unwrap();
        if t <= 1000 {
            assert!((-1000..=1000).contains(&v));
        } else {
            assert!((7..=1000).contains(&v));
        }
    }
}

#[test]
fn buffer_same_time_replaces_sample() {
    let mut buffer = TimeInterpolatableBuffer::new(100);
    buffer.add_sample(5, 1i32);
    buffer.add_sample(5, 9i32);
    assert_eq!(buffer.len(), 1);
    assert_eq!(buffer.get_value(5), Some(9));
}

#[test]
fn buffer_keeps_sample_at_window_edge() {
    let mut buffer = TimeInterpolatableBuffer::new(10);
    buffer.add_sample(0, 1i32);
    buffer.add_sample(10, 2i32);
    assert_eq!(buffer.len(), 2);
    buffer.add_sample(11, 3i32);
    assert_eq!(buffer.len(), 2);
    assert_eq!(buffer.get_value(0), Some(2));
}

#[test]
fn buffer_clean_up_and_clear() {
    let mut buffer = TimeInterpolatableBuffer::new(5);
    buffer.add_sample(0, 1i32);
    buffer.add_sample(3, 2i32);
    buffer.add_sample(6, 3i32);
    assert_eq!(buffer.len(), 2);
    buffer.clean_up(9);
    assert_eq!(buffer.len(), 1);
    assert_eq!(buffer.get_value(0), Some(3));
    // A time before the samples drops nothing.
    buffer.clean_up(1);
    assert_eq!(buffer.len(), 1);
    buffer.clean_up(100);
    assert_eq!(buffer.len(), 0);
    buffer.add_sample(200, 4i32);
    buffer.clear();
    assert_eq!(buffer.len(), 0);
    assert_eq!(buffer.get_value(200), None);
}

#[test]
fn i32_interpolation_rounds_toward_low() {
    assert_eq!(i32::interpolate(&0, &10, 1, 3), 3);
    assert_eq!(i32::interpolate(&0, &-10, 1, 3), -3);
    assert_eq!(i32::interpolate(&i32::MIN, &i32::MAX, u64::MAX - 1, u64::MAX), 2147483646);
    assert_eq!(i32::interpolate(&7, &7, 5, 9), 7);
}

#[test]
fn time_map_latest_at_or_before() {
    let mut map = TimeIndexedMap::new();
    assert_eq!(map.latest_at_or_before(10), None);
    assert_eq!(map.last_time(), None);
    map.insert(20, 'b');
    map.insert(10, 'a');
    map.insert(40, 'd');
    map.insert(30, 'c');
    assert_eq!(map.len(), 4);
    assert_eq!(map.latest_at_or_before(5), None);
    assert_eq!(map.latest_at_or_before(10), Some((10, 'a')));
    assert_eq!(map.latest_at_or_before(29), Some((20, 'b')));
    assert_eq!(map.latest_at_or_before(1000), Some((40, 'd')));
    assert_eq!(map.last_time(), Some(40));
}

#[test]
fn time_map_insert_replaces_and_prunes() {
    let mut map = TimeIndexedMap::new();
    map.insert(1, 10u32);
    map.insert(2, 20u32);
    map.insert(2, 25u32);
    assert_eq!(map.len(), 2);
    assert_eq!(map.latest_at_or_before(2), Some((2, 25)));
    map.insert(5, 50u32);
    map.prune_before(2);
    assert_eq!(map.len(), 2);
    assert_eq!(map.latest_at_or_before(1), None);
    assert_eq!(map.latest_at_or_before(3), Some((2, 25)));
    map.prune_before(6);
    assert_eq!(map.len(), 0);
    assert_eq!(map.last_time(), None);
}

#[test]
fn buffer_latest_time() {
    let mut buffer = TimeInterpolatableBuffer::new(100);
    assert_eq!(buffer.latest_time(), None);
    buffer.add_sample(3, 1i32);
    buffer.add_sample(8, 2i32);
    assert_eq!(buffer.latest_time(), Some(8));
}
