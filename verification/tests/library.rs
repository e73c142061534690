use raytrace::framebuf::{encode_frame, frame_image, row_from_bottom, Rgb8};
use raytrace::naming::frame_file_name_for;
use raytrace::trace::{has_bounces_left, light_square, nearest_hit, trace_step, TraceStep};
use raytrace::track::{track_samples, TrackSample, TrackSection};

fn px(r: u8, g: u8, b: u8) -> Rgb8 {
    Rgb8 { r, g, b }
}

#[test]
fn frame_names_are_zero_padded_to_three_digits() {
    assert_eq!(frame_file_name_for("output/frame_", 0), "output/frame_000.png");
    assert_eq!(frame_file_name_for("output/frame_", 7), "output/frame_007.png");
    assert_eq!(frame_file_name_for("output/frame_", 42), "output/frame_042.png");
    assert_eq!(frame_file_name_for("output/frame_", 599), "output/frame_599.png");
    assert_eq!(frame_file_name_for("output/anim_parallel_", 119), "output/anim_parallel_119.png");
}

#[test]
fn frame_names_match_format_for_every_frame() {
    for frame in 0..1200u32 {
        assert_eq!(
            frame_file_name_for("output/frame_", frame),
            format!("output/frame_{:03}.png", frame)
        );
    }
    for frame in [9999u32, 10_000, 123_456, u32::MAX] {
        assert_eq!(frame_file_name_for("f", frame), format!("f{:03}.png", frame));
    }
}

#[test]
fn wide_frame_numbers_are_written_in_full() {
    assert_eq!(frame_file_name_for("x", 1234), "x1234.png");
    assert_eq!(frame_file_name_for("", u32::MAX), "4294967295.png");
}

#[test]
fn distinct_frames_get_distinct_names() {
    let mut names: Vec<String> = (0..600u32).map(|f| frame_file_name_for("output/frame_", f)).collect();
    names.sort();
    names.dedup();
    assert_eq!(names.len(), 600);
}

#[test]
fn nearest_hit_picks_smallest_key() {
    assert_eq!(nearest_hit(&vec![None, Some(5), Some(3), Some(9)]), Some(2));
    assert_eq!(nearest_hit(&vec![Some(1)]), Some(0));
}

#[test]
fn nearest_hit_keeps_first_of_equal_hits() {
    assert_eq!(nearest_hit(&vec![None, Some(4), Some(3), Some(3)]), Some(2));
    assert_eq!(nearest_hit(&vec![Some(7), Some(7)]), Some(0));
}

#[test]
fn nearest_hit_none_when_everything_missed() {
    assert_eq!(nearest_hit(&vec![None, None, None]), None);
    assert_eq!(nearest_hit(&vec![]), None);
}

#[test]
fn nearer_object_added_later_occludes() {
    let mut hits = vec![Some(10u64), None, Some(20)];
    assert_eq!(nearest_hit(&hits), Some(0));
    hits.push(Some(30));
    assert_eq!(nearest_hit(&hits), Some(0));
    hits.push(Some(10));
    assert_eq!(nearest_hit(&hits), Some(0));
    hits.push(Some(2));
    assert_eq!(nearest_hit(&hits), Some(5));
}

#[test]
fn distance_keys_follow_float_order() {
    let dists = [0.0011f64, 0.5, 1.0, 1.0000001, 3.25, 1e9, f64::INFINITY];
    for a in dists {
        for b in dists {
            assert_eq!(a < b, a.to_bits() < b.to_bits());
        }
    }
    let hits: Vec<Option<u64>> = vec![Some(4.5f64.to_bits()), None, Some(2.25f64.to_bits()), Some(3.0f64.to_bits())];
    assert_eq!(nearest_hit(&hits), Some(2));
}

#[test]
fn rays_without_bounces_are_not_traced() {
    assert!(!has_bounces_left(0));
    assert!(!has_bounces_left(-3));
    assert!(!has_bounces_left(i32::MIN));
    assert!(has_bounces_left(1));
    assert!(has_bounces_left(5));
}

#[test]
fn trace_step_background_on_miss() {
    assert_eq!(trace_step(5, &vec![None, None], &vec![true, false]), TraceStep::Background);
    assert_eq!(trace_step(1, &vec![], &vec![]), TraceStep::Background);
}

#[test]
fn trace_step_reflects_with_one_bounce_fewer() {
    let hits = vec![Some(8), Some(2), None, Some(5)];
    assert_eq!(
        trace_step(5, &hits, &vec![false, true, true, false]),
        TraceStep::Surface { object: 1, bounce_depth: Some(4) }
    );
    assert_eq!(
        trace_step(1, &hits, &vec![false, true, true, false]),
        TraceStep::Surface { object: 1, bounce_depth: Some(0) }
    );
    assert_eq!(
        trace_step(5, &hits, &vec![true, false, true, true]),
        TraceStep::Surface { object: 1, bounce_depth: None }
    );
}

#[test]
fn a_ray_bounces_at_most_depth_times() {
    let hits = vec![Some(1)];
    let reflective = vec![true];
    let mut depth = 5;
    let mut surfaces = 0;
    while has_bounces_left(depth) {
        match trace_step(depth, &hits, &reflective) {
            TraceStep::Surface { bounce_depth: Some(d), .. } => {
                surfaces += 1;
                depth = d;
            }
            TraceStep::Surface { bounce_depth: None, .. } => {
                surfaces += 1;
                break;
            }
            _ => break,
        }
    }
    assert_eq!(surfaces, 5);
}

#[test]
fn checkerboard_parity() {
    assert!(light_square(0));
    assert!(!light_square(1));
    assert!(!light_square(-1));
    assert!(light_square(-2));
    assert!(!light_square(-3));
    assert!(light_square(i32::MIN));
    assert!(!light_square(i32::MAX));
    for c in -50..50 {
        assert_ne!(light_square(c), light_square(c + 1));
    }
}

#[test]
fn encode_frame_is_row_major_rgb() {
    let rows = vec![vec![px(1, 2, 3), px(4, 5, 6)], vec![px(7, 8, 9), px(10, 11, 12)]];
    assert_eq!(encode_frame(2, &rows), vec![1, 2, 3, 4, 5, 6, 7, 8, 9, 10, 11, 12]);
    assert_eq!(encode_frame(0, &vec![vec![], vec![]]), Vec::<u8>::new());
    assert_eq!(encode_frame(3, &vec![]), Vec::<u8>::new());
}

#[test]
fn frame_image_holds_the_encoded_pixels() {
    let rows = vec![
        vec![px(255, 0, 0), px(0, 255, 0), px(0, 0, 255)],
        vec![px(9, 8, 7), px(6, 5, 4), px(3, 2, 1)],
    ];
    let img = frame_image(3, 2, &rows).expect("image");
    assert_eq!(img.dimensions(), (3, 2));
    let samples = img.into_samples();
    assert_eq!(samples, vec![255, 0, 0, 0, 255, 0, 0, 0, 255, 9, 8, 7, 6, 5, 4, 3, 2, 1]);
    let decoded = image::RgbImage::from_raw(3, 2, samples).expect("decodes");
    assert_eq!(decoded.get_pixel(1, 1).0, [6, 5, 4]);
    assert_eq!(decoded.get_pixel(2, 0).0, [0, 0, 255]);
}

#[test]
fn frame_image_refuses_too_few_rows() {
    let rows = vec![vec![px(1, 1, 1), px(2, 2, 2)]];
    assert!(frame_image(2, 2, &rows).is_none());
    assert!(frame_image(2, 1, &rows).is_some());
    assert!(frame_image(2, 0, &rows).is_some());
    assert!(frame_image(0, 5, &vec![]).is_some());
}

#[test]
fn rows_are_flipped_for_the_camera() {
    assert_eq!(row_from_bottom(720, 0), 719);
    assert_eq!(row_from_bottom(720, 719), 0);
    assert_eq!(row_from_bottom(1080, 100), 979);
    for y in 0..10 {
        assert_eq!(row_from_bottom(10, row_from_bottom(10, y)), y);
    }
}

fn s(section: TrackSection, step: u32) -> TrackSample {
    TrackSample { section, step }
}

#[test]
fn track_samples_small() {
    assert_eq!(
        track_samples(2),
        vec![
            s(TrackSection::NearStraight, 0),
            s(TrackSection::NearStraight, 1),
            s(TrackSection::NearStraight, 2),
            s(TrackSection::RightCurve, 1),
            s(TrackSection::RightCurve, 2),
            s(TrackSection::FarStraight, 1),
            s(TrackSection::FarStraight, 2),
            s(TrackSection::LeftCurve, 1),
            s(TrackSection::LeftCurve, 2),
        ]
    );
    assert_eq!(track_samples(0), vec![s(TrackSection::NearStraight, 0)]);
}

#[test]
fn track_of_the_race_scene_has_601_samples() {
    let samples = track_samples(150);
    assert_eq!(samples.len(), 601);
    assert_eq!(samples[0], s(TrackSection::NearStraight, 0));
    assert_eq!(samples[150], s(TrackSection::NearStraight, 150));
    assert_eq!(samples[151], s(TrackSection::RightCurve, 1));
    assert_eq!(samples[451], s(TrackSection::LeftCurve, 1));
    assert_eq!(samples[600], s(TrackSection::LeftCurve, 150));
    for k in 0..600 {
        let (a, b) = (samples[k], samples[k + 1]);
        if a.step < 150 {
            assert_eq!(b, s(a.section, a.step + 1));
        } else {
            assert_eq!(b.step, 1);
            assert_ne!(b.section, a.section);
        }
    }
}
