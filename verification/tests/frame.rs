use beatsync::error::CoreError;
use beatsync::frame::frame_tick;
use beatsync::raster::render;
use beatsync::store::{FormatInfo, SampleStore};
use beatsync::view::{ScrollDelta, TickInput, ViewController};

fn stereo16() -> FormatInfo {
    FormatInfo { channels: 2, bits_per_sample: 16, int_encoding: true }
}

fn zoom_in() -> TickInput {
    TickInput { scroll: Some(ScrollDelta { dx: 0, dy: 1 }), precision: false, swap_axes: false }
}

fn quiet() -> TickInput {
    TickInput { scroll: None, precision: false, swap_axes: false }
}

#[test]
fn quiet_tick_skips_the_render() {
    let store = SampleStore::new(stereo16(), vec![5; 100], vec![5; 100]).unwrap();
    let mut ctrl = ViewController::new(store.len());
    let mut buffer = vec![42u32; 2 * 4];
    let r = frame_tick(&mut ctrl, &store, quiet(), &mut buffer, 2, 4);
    assert_eq!(r, Ok(false));
    assert_eq!(buffer, vec![42u32; 8]);
}

#[test]
fn changed_range_renders_the_new_slice() {
    let mut left = vec![0i16; 100];
    let mut right = vec![0i16; 100];
    for i in 0..100 {
        left[i] = (i as i16) * 100;
        right[i] = -(i as i16) * 100;
    }
    let store = SampleStore::new(stereo16(), left.clone(), right.clone()).unwrap();
    let mut ctrl = ViewController::new(store.len());
    let mut buffer = vec![7u32; 4 * 6];
    let r = frame_tick(&mut ctrl, &store, zoom_in(), &mut buffer, 4, 6);
    assert_eq!(r, Ok(true));
    // The controller now shows samples [5, 95); rendering that slice
    // directly gives the same buffer.
    assert_eq!((ctrl.start(), ctrl.length()), (5, 90));
    let mut expected = vec![0u32; 4 * 6];
    assert_eq!(render(&mut expected, &left[5..95], &right[5..95], 4, 6), Ok(()));
    assert_eq!(buffer, expected);
}

#[test]
fn range_narrower_than_width_aborts_the_frame() {
    let store = SampleStore::new(stereo16(), vec![9; 8], vec![9; 8]).unwrap();
    let mut ctrl = ViewController::new(store.len());
    let mut buffer = vec![3u32; 8 * 2];
    // Zoom in until fewer samples than columns are visible.
    let mut r = Ok(true);
    for _ in 0..10 {
        r = frame_tick(&mut ctrl, &store, zoom_in(), &mut buffer, 8, 2);
        if r.is_err() {
            break;
        }
    }
    assert!(ctrl.length() < 8);
    assert_eq!(r, Err(CoreError::DegenerateGeometry));
    // The failed frame leaves the buffer untouched.
    assert_eq!(buffer, vec![3u32; 16]);
}
