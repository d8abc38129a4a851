use raytracer::pixel_data::PixelData;
use raytracer::scalar::Scalar;
use raytracer::schedule::{
    chunk, chunk_count, flipped_row, unit_count, work_unit, WorkUnit, THREAD_CHUNK_SIZE,
};
use raytracer::vec3::Vec3;

fn s(x: f64) -> Scalar {
    Scalar::from_bits(x.to_bits())
}

fn f(x: Scalar) -> f64 {
    f64::from_bits(x.to_bits())
}

fn v(x: f64, y: f64, z: f64) -> Vec3 {
    Vec3::new(s(x), s(y), s(z))
}

fn add(a: Vec3, b: Vec3) -> Vec3 {
    v(f(a.x) + f(b.x), f(a.y) + f(b.y), f(a.z) + f(b.z))
}

#[test]
fn batch_size_is_twenty_thousand() {
    assert_eq!(THREAD_CHUNK_SIZE, 20000);
}

#[test]
fn units_are_counted_or_too_many() {
    assert_eq!(unit_count(128, 800, 1200), Some(122880000));
    assert_eq!(unit_count(0, 800, 1200), Some(0));
    assert_eq!(unit_count(3, 0, 7), Some(0));
    assert_eq!(unit_count(1, 1, 1), Some(1));
    assert_eq!(unit_count(2, usize::MAX, 1), None);
    assert_eq!(unit_count(usize::MAX, usize::MAX, usize::MAX), None);
    assert_eq!(unit_count(0, usize::MAX, usize::MAX), Some(0));
    assert_eq!(unit_count(1, usize::MAX, 1), Some(usize::MAX));
}

#[test]
fn units_run_through_columns_then_rows_then_samples() {
    let (ny, nx) = (3, 4);
    let mut index = 0;
    for sample in 0..5 {
        for y in 0..ny {
            for x in 0..nx {
                assert_eq!(work_unit(index, ny, nx), WorkUnit { sample, y, x });
                index += 1;
            }
        }
    }
    assert_eq!(work_unit(0, 400, 600), WorkUnit { sample: 0, y: 0, x: 0 });
    assert_eq!(work_unit(599, 400, 600), WorkUnit { sample: 0, y: 0, x: 599 });
    assert_eq!(work_unit(600, 400, 600), WorkUnit { sample: 0, y: 1, x: 0 });
    assert_eq!(work_unit(240000, 400, 600), WorkUnit { sample: 1, y: 0, x: 0 });
    assert_eq!(work_unit(240000 * 7 + 600 * 13 + 5, 400, 600), WorkUnit { sample: 7, y: 13, x: 5 });
}

#[test]
fn batches_are_counted_with_the_last_short_one() {
    assert_eq!(chunk_count(0), 0);
    assert_eq!(chunk_count(1), 1);
    assert_eq!(chunk_count(19999), 1);
    assert_eq!(chunk_count(20000), 1);
    assert_eq!(chunk_count(20001), 2);
    assert_eq!(chunk_count(240000), 12);
    assert_eq!(chunk_count(usize::MAX), usize::MAX / 20000 + 1);
}

#[test]
fn batches_hold_every_unit_once_in_order() {
    let (samples, ny, nx) = (3, 150, 200);
    let total = unit_count(samples, ny, nx).unwrap();
    assert_eq!(total, 90000);
    let count = chunk_count(total);
    assert_eq!(count, 5);
    let mut all = Vec::new();
    for k in 0..count {
        let units = chunk(k, total, ny, nx);
        assert_eq!(units.len(), if k < 4 { 20000 } else { 10000 });
        all.extend(units);
    }
    assert_eq!(all.len(), total);
    let mut expected = Vec::new();
    for sample in 0..samples {
        for y in 0..ny {
            for x in 0..nx {
                expected.push(WorkUnit { sample, y, x });
            }
        }
    }
    assert_eq!(all, expected);
}

#[test]
fn single_short_batch() {
    let units = chunk(0, 5, 1, 5);
    let xs: Vec<usize> = units.iter().map(|u| u.x).collect();
    assert_eq!(xs, vec![0, 1, 2, 3, 4]);
    assert!(units.iter().all(|u| u.sample == 0 && u.y == 0));
}

#[test]
fn rows_are_flipped() {
    assert_eq!(flipped_row(0, 400), 399);
    assert_eq!(flipped_row(399, 400), 0);
    assert_eq!(flipped_row(0, 1), 0);
    assert_eq!(flipped_row(17, 100), 82);
}

#[test]
fn new_buffer_is_empty() {
    let data = PixelData::new(4, 3);
    assert_eq!(data.width, 4);
    assert_eq!(data.height, 3);
    assert_eq!(data.buffer.len(), 12);
    for entry in &data.buffer {
        assert_eq!(*entry, (v(0.0, 0.0, 0.0), 0));
    }
    assert_eq!(PixelData::new(0, 7).buffer.len(), 0);
}

#[test]
fn samples_are_summed_and_counted_in_any_order() {
    let mut data = PixelData::new(4, 3);
    data.append_pixel(1, 2, v(0.5, 0.25, 1.0), &add);
    data.append_pixel(3, 0, v(1.0, 1.0, 1.0), &add);
    data.append_pixel(1, 2, v(0.25, 0.5, 2.0), &add);
    assert_eq!(data.sample(1, 2), (v(0.75, 0.75, 3.0), 2));
    assert_eq!(data.sample(3, 0), (v(1.0, 1.0, 1.0), 1));
    assert_eq!(data.sample(0, 0), (v(0.0, 0.0, 0.0), 0));
    assert_eq!(data.buffer[2 * 4 + 1], (v(0.75, 0.75, 3.0), 2));
    assert_eq!(data.buffer[3], (v(1.0, 1.0, 1.0), 1));
    let touched = data.buffer.iter().filter(|e| e.1 > 0).count();
    assert_eq!(touched, 2);

    let mut other = PixelData::new(4, 3);
    other.append_pixel(1, 2, v(0.25, 0.5, 2.0), &add);
    other.append_pixel(1, 2, v(0.5, 0.25, 1.0), &add);
    other.append_pixel(3, 0, v(1.0, 1.0, 1.0), &add);
    assert_eq!(other.buffer, data.buffer);
}

#[test]
fn sample_with_a_nan_is_dropped() {
    let mut data = PixelData::new(2, 2);
    data.append_pixel(1, 1, v(0.5, 0.5, 0.5), &add);
    let before = data.buffer.clone();
    data.append_pixel(1, 1, v(f64::NAN, 0.5, 0.5), &add);
    data.append_pixel(1, 1, v(0.5, f64::NAN, 0.5), &add);
    data.append_pixel(1, 1, v(0.5, 0.5, -f64::NAN), &add);
    data.append_pixel(0, 0, v(f64::NAN, f64::NAN, f64::NAN), &add);
    assert_eq!(data.buffer, before);
    assert_eq!(data.sample(1, 1), (v(0.5, 0.5, 0.5), 1));
    // infinities are numbers and are taken in
    data.append_pixel(0, 1, v(f64::INFINITY, 0.0, 0.0), &add);
    assert_eq!(data.sample(0, 1), (v(f64::INFINITY, 0.0, 0.0), 1));
}

#[test]
fn dropped_sample_leaves_even_a_full_count_alone() {
    let mut data = PixelData::new(1, 1);
    data.buffer[0] = (v(1.0, 1.0, 1.0), usize::MAX);
    data.append_pixel(0, 0, v(f64::NAN, 0.0, 0.0), &add);
    assert_eq!(data.sample(0, 0), (v(1.0, 1.0, 1.0), usize::MAX));
}
