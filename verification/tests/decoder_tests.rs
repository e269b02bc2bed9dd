use rand_distr::Distribution;
use rolling_stats::byte_converter::ByteConverter;

/// Arithmetic mean over the current window, computed as the statistics view
/// does: zero when the window is empty or the running sum is non-positive.
fn mean_of(c: &ByteConverter) -> f32 {
    if *c.get_sum() <= 0 || c.get_buf().is_empty() {
        return 0.0;
    }
    *c.get_sum() as f32 / c.get_buf().len() as f32
}

/// Population standard deviation over the current window, around `mean`.
fn std_deviation_of(c: &ByteConverter, mean: f32) -> f32 {
    if c.get_buf().is_empty() {
        return 0.0;
    }
    let mut square_diffs: f32 = 0.0;
    for value in c.get_buf().iter() {
        let diff = (*value as f32) - mean;
        square_diffs += diff * diff;
    }
    let variance = square_diffs / c.get_buf().len() as f32;
    variance.sqrt()
}

#[test]
fn test_one_write() {
    let mut stats = ByteConverter::init(3);
    stats.ingest(&[0, 0, 0, 1, 0, 0, 0, 2, 0, 0, 0, 3, 0, 0, 0, 4]);
    let mean = mean_of(&stats);
    assert_eq!(mean, 2.0);
    let std_dev = std_deviation_of(&stats, mean);
    assert_eq!(std_dev, 0.816496611);
    let normal = rand_distr::Normal::new(mean, std_dev).unwrap();
    let _sample: f32 = normal.sample(&mut rand::thread_rng());
}

#[test]
fn lib_test_one_write() {
    let mut stats = ByteConverter::init(3);
    stats.ingest(&[0, 0, 0, 1, 0, 0, 0, 2, 0, 0, 0, 3, 0, 0, 0, 4]);
    let mean = mean_of(&stats);
    assert_eq!(mean, 2.0);
    assert_eq!(std_deviation_of(&stats, mean), 0.816496611);
}

#[test]
fn test_one_write_with_less_values() {
    let mut stats = ByteConverter::init(3);
    stats.ingest(&[0, 0, 0, 1, 0, 0, 0, 2]);
    assert_eq!(mean_of(&stats), 1.5);
}

#[test]
fn test_one_byte_reminder() {
    let mut stats = ByteConverter::init(3);
    stats.ingest(&[0, 0, 0, 1, 0, 0, 0, 2, 0]);
    stats.ingest(&[0, 0, 1, 0, 0, 0, 2, 0, 0, 0, 3, 0, 0, 0, 4]);
    assert_eq!(mean_of(&stats), 2.0);
}

#[test]
fn test_one_byte_reminder_second_reminder() {
    let mut stats = ByteConverter::init(3);
    // The split 1 is reassembled; the next value 2 is decoded with trailing
    // bytes 0,0,6 left over; window size 3 is then reached with the first
    // value of the previous window.
    stats.ingest(&[0, 0, 0, 1, 0, 0, 0, 2, 0]);
    stats.ingest(&[0, 0, 1, 0, 0, 0, 2, 0, 0, 6]);
    assert_eq!(mean_of(&stats), 1.33333337);
}

#[test]
fn test_one_byte_reminder_with_bigger_window_size() {
    let mut stats = ByteConverter::init(3);
    stats.ingest(&[0, 0, 0, 1, 0, 0, 0, 2, 0, 0, 0, 3, 7]);
    assert_eq!(mean_of(&stats), 2.0);
    stats.ingest(&[0, 0, 0, 2, 0, 0, 0, 2, 0, 0, 0, 5, 0, 0, 0, 4]);
    assert_eq!(mean_of(&stats), 3.0);
}

#[test]
fn test_two_byte_reminder() {
    let mut stats = ByteConverter::init(3);
    stats.ingest(&[0, 0, 0, 1, 0, 0, 0, 2, 0, 0]);
    stats.ingest(&[0, 1, 0, 0, 0, 2, 0, 0, 0, 3, 0, 0, 0, 4]);
    assert_eq!(mean_of(&stats), 2.0);
}

#[test]
fn test_three_byte_reminder() {
    let mut stats = ByteConverter::init(3);
    stats.ingest(&[0, 0, 0, 1, 0, 0, 0, 2, 0, 0, 0]);
    stats.ingest(&[1, 0, 0, 0, 2, 0, 0, 0, 3, 0, 0, 0, 4]);
    assert_eq!(mean_of(&stats), 2.0);
}

#[test]
fn test_only_one_byte_reminder() {
    let mut stats = ByteConverter::init(3);
    stats.ingest(&[0, 0, 0, 2, 0, 0, 0, 2, 0, 0, 0]);
    stats.ingest(&[2]);
    assert_eq!(mean_of(&stats), 2.0);
}

#[test]
fn test_incomplete_i32() {
    let mut stats = ByteConverter::init(3);
    stats.ingest(&[0, 0, 1]);
    stats.ingest(&[0, 0, 1]);
    assert_eq!(mean_of(&stats), 0.0);
}

#[test]
fn window_size_is_four_bytes_per_integer() {
    assert_eq!(ByteConverter::init(3).get_window_size(), 12);
    assert_eq!(ByteConverter::init(7).get_window_size(), 28);
    assert_eq!(ByteConverter::init(1).get_window_size(), 4);
}

#[test]
fn zero_window_size_defaults_to_three() {
    let mut fallback = ByteConverter::init(0);
    assert_eq!(fallback.get_window_size(), 12);
    let mut regular = ByteConverter::init(3);
    let input = [0, 0, 0, 1, 0, 0, 0, 2, 0, 0, 0, 3, 0, 0, 0, 4];
    fallback.ingest(&input);
    regular.ingest(&input);
    assert_eq!(*fallback.get_sum(), *regular.get_sum());
    assert_eq!(fallback.get_buf().iter(), regular.get_buf().iter());
}

#[test]
fn full_window_decodes_values_and_sum() {
    let mut stats = ByteConverter::init(3);
    stats.ingest(&[0, 0, 0, 1, 0, 0, 0, 2, 0, 0, 0, 3]);
    assert_eq!(*stats.get_sum(), 6);
    assert_eq!(stats.get_buf().iter(), &[1, 2, 3]);
}

#[test]
fn little_endian_detected_from_first_group() {
    // First byte 5 > fourth byte 0, so the call is read least significant
    // byte first.
    let mut stats = ByteConverter::init(3);
    stats.ingest(&[5, 0, 0, 0, 6, 0, 0, 0, 7, 0, 0, 0]);
    assert_eq!(*stats.get_sum(), 18);
    assert_eq!(stats.get_buf().iter(), &[5, 6, 7]);
}

#[test]
fn negative_values_leave_mean_at_zero() {
    // 0xFFFFFFFF decodes to -1 in either byte order; the mean is zero for a
    // non-positive running sum.
    let mut stats = ByteConverter::init(3);
    stats.ingest(&[255, 255, 255, 255, 255, 255, 255, 255, 255, 255, 255, 255]);
    assert_eq!(*stats.get_sum(), -3);
    assert_eq!(stats.get_buf().len(), 3);
    assert_eq!(mean_of(&stats), 0.0);
}

#[test]
fn bytes_beyond_the_window_are_discarded() {
    // Sixteen bytes against a window of twelve: the fourth group is ignored
    // and queues no remainder, so the next call starts afresh.
    let mut stats = ByteConverter::init(3);
    stats.ingest(&[0, 0, 0, 1, 0, 0, 0, 2, 0, 0, 0, 3, 0, 0, 0, 4]);
    stats.ingest(&[0, 0, 0, 9, 0, 0, 0, 9, 0, 0, 0, 9]);
    assert_eq!(*stats.get_sum(), 27);
    assert_eq!(stats.get_buf().iter(), &[9, 9, 9]);
}

#[test]
fn empty_ingest_resets_sum_and_window_only() {
    let mut stats = ByteConverter::init(3);
    stats.ingest(&[0, 0, 0, 1, 0, 0, 0, 2, 0, 0, 0, 3]);
    stats.ingest(&[]);
    assert_eq!(*stats.get_sum(), 0);
    assert!(stats.get_buf().is_empty());
}

#[test]
fn read_big_endians_appends_and_queues_remainder() {
    let mut stats = ByteConverter::init(3);
    stats.read_big_endians(&[0, 0, 0, 5, 0, 0, 0, 6, 9], 0);
    assert_eq!(*stats.get_sum(), 11);
    assert_eq!(stats.get_buf().iter(), &[5, 6]);
    // The trailing 9 is pending now: one more leading byte of the next call
    // completes a group.
    let grp = stats.reconstruct_i32_bytes(&[0, 0, 7]).unwrap();
    assert_eq!(grp.iter(), &[9, 0, 0, 7]);
}

#[test]
fn read_little_endians_appends_values() {
    let mut stats = ByteConverter::init(3);
    stats.read_little_endians(&[5, 0, 0, 0, 6, 0, 0, 0], 0);
    assert_eq!(*stats.get_sum(), 11);
    assert_eq!(stats.get_buf().iter(), &[5, 6]);
}

#[test]
fn reconstruct_needs_a_pending_group() {
    let stats = ByteConverter::init(3);
    assert!(stats.reconstruct_i32_bytes(&[1, 2, 3, 4]).is_none());
}

#[test]
fn reconstruct_needs_enough_leading_bytes() {
    let mut stats = ByteConverter::init(3);
    stats.ingest(&[0, 0, 0, 1, 0, 0, 0, 2, 0]);
    // One byte is pending, so three leading bytes are needed; two are not
    // enough.
    assert!(stats.reconstruct_i32_bytes(&[0, 0]).is_none());
    assert_eq!(stats.reconstruct_i32_bytes(&[0, 0, 9]).unwrap().iter(), &[0, 0, 0, 9]);
}

#[test]
fn split_integer_across_calls_is_reassembled() {
    // 1 = 0x00000001 split as [0] + [0,0,1]: decoded once the second call
    // supplies the missing three bytes. The shortfall of one value is then
    // filled from the front of the previous window.
    let mut stats = ByteConverter::init(3);
    stats.ingest(&[0, 0, 0, 2, 0, 0, 0, 5, 0]);
    stats.ingest(&[0, 0, 1, 0, 0, 0, 3]);
    assert_eq!(stats.get_buf().iter(), &[1, 3, 2]);
    assert_eq!(*stats.get_sum(), 6);
}

#[test]
fn set_sum_and_clear_buf_reset_state() {
    let mut stats = ByteConverter::init(3);
    stats.ingest(&[0, 0, 0, 1, 0, 0, 0, 2, 0, 0, 0, 3]);
    stats.set_sum(0);
    stats.clear_buf();
    assert_eq!(*stats.get_sum(), 0);
    assert!(stats.get_buf().is_empty());
}
