use beatsync::error::CoreError;
use beatsync::raster::{get_chunks, render};

const ON: u32 = u32::MAX;

#[test]
fn chunks_distribute_remainder() {
    let data: [i16; 5] = [10, 20, 30, 40, 50];
    let chunks = get_chunks(&data, 2);
    assert_eq!(chunks.len(), 2);
    assert_eq!(chunks[0], &[10, 20]);
    assert_eq!(chunks[1], &[30, 40, 50]);
}

#[test]
fn chunks_shorter_input_than_count() {
    let data: [i16; 3] = [1, 2, 3];
    let chunks = get_chunks(&data, 5);
    assert_eq!(chunks.len(), 5);
    let lens: Vec<usize> = chunks.iter().map(|c| c.len()).collect();
    assert_eq!(lens, vec![0, 1, 0, 1, 1]);
    assert_eq!(chunks[1], &[1]);
    assert_eq!(chunks[3], &[2]);
    assert_eq!(chunks[4], &[3]);
}

#[test]
fn chunks_exact_division() {
    let data: [i16; 6] = [1, 2, 3, 4, 5, 6];
    let chunks = get_chunks(&data, 3);
    assert_eq!(chunks.len(), 3);
    assert_eq!(chunks[0], &[1, 2]);
    assert_eq!(chunks[1], &[3, 4]);
    assert_eq!(chunks[2], &[5, 6]);
}

#[test]
fn full_scale_bar() {
    // One sample at the maximum amplitude fills its half of the column.
    let c1: [i16; 1] = [i16::MAX];
    let c2: [i16; 1] = [0];
    let mut buffer = vec![0u32; 4];
    let r = render(&mut buffer, &c1, &c2, 1, 4);
    assert_eq!(r, Ok(()));
    assert_eq!(buffer, vec![ON, ON, 0, 0]);
}

#[test]
fn full_scale_bar_min_sample() {
    // The minimum representable sample clamps to the maximum amplitude.
    let c1: [i16; 1] = [i16::MIN];
    let c2: [i16; 1] = [i16::MIN];
    let mut buffer = vec![0u32; 4];
    let r = render(&mut buffer, &c1, &c2, 1, 4);
    assert_eq!(r, Ok(()));
    assert_eq!(buffer, vec![ON, ON, ON, ON]);
}

#[test]
fn silence_renders_no_pixels() {
    let c1: [i16; 2] = [0, 0];
    let c2: [i16; 2] = [0, 0];
    let mut buffer = vec![7u32; 8];
    let r = render(&mut buffer, &c1, &c2, 2, 4);
    assert_eq!(r, Ok(()));
    assert_eq!(buffer, vec![0u32; 8]);
}

#[test]
fn column_peaks_scale_independently() {
    // Two columns: a half-scale peak gives one row, a full-scale peak two.
    let c1: [i16; 4] = [16384, 0, i16::MAX, 0];
    let c2: [i16; 4] = [0, 0, 0, 0];
    let mut buffer = vec![0u32; 8];
    let r = render(&mut buffer, &c1, &c2, 2, 4);
    assert_eq!(r, Ok(()));
    // 16384 * 2 / 32767 == 1 and 32767 * 2 / 32767 == 2.
    assert_eq!(buffer, vec![ON, ON, 0, ON, 0, 0, 0, 0]);
}

#[test]
fn bar_is_vertically_centered() {
    // A bar of 2 rows in a band of 4 sits on rows 1 and 2 of the band.
    let c1: [i16; 1] = [16384];
    let c2: [i16; 1] = [0];
    let mut buffer = vec![0u32; 8];
    let r = render(&mut buffer, &c1, &c2, 1, 8);
    assert_eq!(r, Ok(()));
    assert_eq!(buffer, vec![0, ON, ON, 0, 0, 0, 0, 0]);
}

#[test]
fn odd_height_last_row_stays_clear() {
    let c1: [i16; 1] = [i16::MAX];
    let c2: [i16; 1] = [i16::MAX];
    let mut buffer = vec![9u32; 5];
    let r = render(&mut buffer, &c1, &c2, 1, 5);
    assert_eq!(r, Ok(()));
    assert_eq!(buffer, vec![ON, ON, ON, ON, 0]);
}

#[test]
fn negative_samples_count_by_magnitude() {
    let c1: [i16; 2] = [-16384, 100];
    let c2: [i16; 2] = [0, 0];
    let mut buffer = vec![0u32; 4];
    let r = render(&mut buffer, &c1, &c2, 1, 4);
    assert_eq!(r, Ok(()));
    // The peak of the single chunk is |-16384| == 16384: one row.
    assert_eq!(buffer, vec![ON, 0, 0, 0]);
}

#[test]
fn rendering_twice_is_identical() {
    let c1: [i16; 6] = [300, -4000, 12000, 0, i16::MAX, -2];
    let c2: [i16; 6] = [-300, 4000, -12000, 5, i16::MIN, 2];
    let mut first = vec![123u32; 3 * 6];
    let mut second = vec![987_654u32; 3 * 6];
    assert_eq!(render(&mut first, &c1, &c2, 3, 6), Ok(()));
    assert_eq!(render(&mut second, &c1, &c2, 3, 6), Ok(()));
    assert_eq!(first, second);
    // A third render over the finished frame changes nothing.
    let snapshot = first.clone();
    assert_eq!(render(&mut first, &c1, &c2, 3, 6), Ok(()));
    assert_eq!(first, snapshot);
}

#[test]
fn zero_width_is_degenerate() {
    let c1: [i16; 2] = [1, 2];
    let c2: [i16; 2] = [3, 4];
    let mut buffer: Vec<u32> = vec![];
    let r = render(&mut buffer, &c1, &c2, 0, 4);
    assert_eq!(r, Err(CoreError::DegenerateGeometry));
}

#[test]
fn zero_height_is_degenerate() {
    let c1: [i16; 2] = [1, 2];
    let c2: [i16; 2] = [3, 4];
    let mut buffer: Vec<u32> = vec![];
    let r = render(&mut buffer, &c1, &c2, 2, 0);
    assert_eq!(r, Err(CoreError::DegenerateGeometry));
}

#[test]
fn fewer_samples_than_columns_is_degenerate() {
    let c1: [i16; 2] = [1, 2];
    let c2: [i16; 2] = [3, 4];
    let mut buffer = vec![5u32; 12];
    let r = render(&mut buffer, &c1, &c2, 3, 4);
    assert_eq!(r, Err(CoreError::DegenerateGeometry));
    // The buffer is left untouched on failure.
    assert_eq!(buffer, vec![5u32; 12]);
}

#[test]
fn unequal_channels_are_malformed() {
    let c1: [i16; 3] = [1, 2, 3];
    let c2: [i16; 2] = [3, 4];
    let mut buffer = vec![5u32; 6];
    let r = render(&mut buffer, &c1, &c2, 2, 3);
    assert_eq!(r, Err(CoreError::MalformedInput));
    assert_eq!(buffer, vec![5u32; 6]);
}
