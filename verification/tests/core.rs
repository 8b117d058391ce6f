use winding::fx::{cos_fx, div_t, mul_div_t, rem_e, sin_fx, SCALE};
use winding::frame::{
    check_frequency_config, derive_frequency, freq_marker_x, tick_xs, trajectory_channels,
    CHANNEL_OFFSET,
};
use winding::graph::{
    centroid, project_1d, project_2d_centered, project_point, sample_points, sample_polar, Rect,
};
use winding::sweep::sweep_centroids;

#[test]
fn truncating_division_matches_machine_semantics() {
    assert_eq!(div_t(7, 2), 3);
    assert_eq!(div_t(-7, 2), -3);
    assert_eq!(div_t(0, 5), 0);
    assert_eq!(div_t(i64::MIN, 1), i64::MIN);
    assert_eq!(mul_div_t(-5, 7, 2), -17);
    assert_eq!(mul_div_t(1_000_000_000, 1_000_000_000, 1_000_000), 1_000_000_000_000);
    assert_eq!(rem_e(-7, 3), 2);
    assert_eq!(rem_e(7, 3), 1);
    assert_eq!(rem_e(-6, 3), 0);
}

#[test]
fn circle_functions_hit_cardinal_points() {
    assert_eq!(sin_fx(0), 0);
    assert_eq!(sin_fx(250_000), SCALE);
    assert_eq!(sin_fx(500_000), 0);
    assert_eq!(sin_fx(750_000), -SCALE);
    assert_eq!(cos_fx(0), SCALE);
    // One full turn changes nothing.
    assert_eq!(sin_fx(1_250_000), sin_fx(250_000));
    assert_eq!(sin_fx(-750_000), sin_fx(250_000));
}

#[test]
fn circle_functions_track_the_real_sine() {
    for k in -20..=20i64 {
        let u = k * 130_000; // a grid of angles over a few turns
        let approx = sin_fx(u) as f64 / SCALE as f64;
        let exact = (u as f64 / SCALE as f64 * 2.0 * std::f64::consts::PI).sin();
        assert!(
            (approx - exact).abs() < 0.002,
            "sin at {u}: {approx} vs {exact}"
        );
    }
}

#[test]
fn sample_points_covers_the_grid_but_never_the_right_end() {
    // The identity signal returns each position it is sampled at.
    let data = sample_points(|x: i64| x, (0, 4_000_000), 1000);
    assert_eq!(data.len(), 1000);
    assert_eq!(data[0], 0);
    assert_eq!(data[1], 4_000);
    assert_eq!(data[999], 3_996_000);
    assert!(data.iter().all(|&t| t < 4_000_000));

    let data = sample_points(|x: i64| x, (1_000_000, 2_000_000), 3);
    assert_eq!(data, vec![1_000_000, 1_333_333, 1_666_666]);
}

#[test]
fn zero_signal_centroid_is_the_origin_at_every_frequency() {
    for &freq in &[0i64, 50_000, 1_000_000, 3_000_000, -1_234_567] {
        let coords = sample_polar(|_x: i64| 0, (0, 4_000_000), freq, 100);
        assert_eq!(coords.len(), 100);
        assert_eq!(centroid(&coords), (0, 0));
    }
}

#[test]
fn constant_signal_at_zero_frequency_winds_to_a_point() {
    let coords = sample_polar(|_x: i64| 1_000_000, (0, 4_000_000), 0, 50);
    for &p in coords.iter() {
        assert_eq!(p, (1_000_000, 0));
    }
    assert_eq!(centroid(&coords), (1_000_000, 0));
}

#[test]
fn centroid_is_the_truncated_mean() {
    assert_eq!(centroid(&vec![(2, 2), (4, 6)]), (3, 4));
    assert_eq!(centroid(&vec![(-3, 5), (0, 0)]), (-1, 2));
    assert_eq!(centroid(&vec![(7, -9)]), (7, -9));
}

#[test]
fn single_point_projects_to_a_degenerate_segment_at_the_bottom() {
    // One value is its own minimum: the flat-line guard puts it on the
    // bottom edge, as a zero-length segment.
    let segs = project_1d(&vec![5], Rect::new(10, 20, 100, 50));
    assert_eq!(segs.len(), 1);
    assert_eq!(segs[0], ((10, 70), (10, 70)));
}

#[test]
fn empty_sequence_projects_to_nothing() {
    let segs = project_1d(&vec![], Rect::new(0, 0, 100, 100));
    assert!(segs.is_empty());
}

#[test]
fn constant_sequence_projects_to_a_flat_bottom_line() {
    let segs = project_1d(&vec![123_456; 4], Rect::new(0, 0, 400, 200));
    assert_eq!(segs.len(), 4);
    for (k, seg) in segs.iter().enumerate() {
        assert_eq!(seg.1, ((100 * k as i64), 200));
    }
    assert_eq!(segs[0].0, segs[0].1);
    assert_eq!(segs[2].0, segs[1].1);
}

#[test]
fn projected_rows_never_pass_the_bottom_edge() {
    let rect = Rect::new(0, 0, 400, 100);
    let data = vec![-1_000_000, 500_000, 2_000_000, -3_000_000, 0];
    let segs = project_1d(&data, rect);
    assert_eq!(segs.len(), data.len());
    for seg in segs.iter() {
        assert!((seg.0).1 <= 100, "start below bottom: {:?}", seg);
        assert!((seg.1).1 <= 100, "end below bottom: {:?}", seg);
    }
    // The polyline is connected and starts degenerate.
    assert_eq!(segs[0].0, segs[0].1);
    for k in 1..segs.len() {
        assert_eq!(segs[k].0, segs[k - 1].1);
    }
}

#[test]
fn winding_projection_scales_the_largest_sample_to_the_radius() {
    let winding = vec![(1_000_000, 0), (0, -2_000_000)];
    let svals = vec![2_000_000, 1_000_000];
    let (segs, ppu) = project_2d_centered(&winding, &svals, (150, 350), 100);
    // 100 px over 2.0 units is 50 px per unit.
    assert_eq!(ppu, 50_000_000);
    assert_eq!(segs.len(), 2);
    assert_eq!(segs[0], ((200, 350), (200, 350)));
    assert_eq!(segs[1], ((200, 350), (150, 250)));
    // The centroid marker uses the same scale.
    assert_eq!(project_point((1_000_000, -1_000_000), (150, 350), ppu), (200, 300));
}

#[test]
fn zero_peak_collapses_the_winding_onto_the_center() {
    let winding = vec![(500_000, -700_000), (-300_000, 200_000)];
    let svals = vec![0, -1_000_000];
    let (segs, ppu) = project_2d_centered(&winding, &svals, (150, 350), 100);
    assert_eq!(ppu, 0);
    for seg in segs.iter() {
        assert_eq!(*seg, ((150, 350), (150, 350)));
    }
}

#[test]
fn derived_frequency_oscillates_inside_the_sweep_range() {
    let amp = 2_000_000;
    let mid = 2_050_000;
    assert!(check_frequency_config(50_000, 4_050_000, amp, mid));
    assert!(!check_frequency_config(50_000, 4_000_000, amp, mid));
    for k in 0..200i64 {
        let t = k * 77_000_000;
        let freq = derive_frequency(t, 2_000_000, amp, mid);
        assert!(freq >= 50_000 && freq <= 4_050_000, "t {t} gave {freq}");
    }
    // At time zero the oscillation sits exactly at its middle.
    assert_eq!(derive_frequency(0, 2_000_000, amp, mid), mid);
}

#[test]
fn tick_marks_stop_at_the_plot_edge() {
    // One tick every 1/1.0 units at 200 px per unit across 800 px.
    let xs = tick_xs(1_000_000, 200_000_000, 800, 50);
    assert_eq!(xs, vec![0, 200, 400, 600, 800]);
    // The tick budget caps the count even when the edge is far.
    let xs = tick_xs(1_000_000, 1, 800, 50);
    assert_eq!(xs.len(), 50);
}

#[test]
fn frequency_marker_lands_proportionally() {
    let rect = Rect::new(400, 270, 350, 350);
    let x = freq_marker_x(rect, (0, 4_000_000), 2_000_000);
    assert_eq!(x, 400 + 175);
}

#[test]
fn trajectory_channels_offset_and_mirror() {
    let (xs, ys) = trajectory_channels(&vec![(100, -300), (0, 0)]);
    assert_eq!(xs, vec![100 + CHANNEL_OFFSET, CHANNEL_OFFSET]);
    assert_eq!(ys, vec![300 + CHANNEL_OFFSET, CHANNEL_OFFSET]);
}

#[test]
fn sweep_of_a_zero_signal_is_all_origins() {
    let trajectory = sweep_centroids(|_x: i64| 0, (0, 4_000_000), (50_000, 4_050_000), 64, 100);
    assert_eq!(trajectory, vec![(0, 0); 64]);
}

#[test]
fn sweep_is_reproducible() {
    let f = |t: i64| -> i64 {
        let x = t as f64 / SCALE as f64;
        (((2.0 * std::f64::consts::PI * 3.0 * x).cos() + 1.0) * SCALE as f64).round() as i64
    };
    let a = sweep_centroids(f, (0, 4_000_000), (50_000, 4_050_000), 200, 200);
    let b = sweep_centroids(f, (0, 4_000_000), (50_000, 4_050_000), 200, 200);
    assert_eq!(a.len(), 200);
    assert_eq!(a, b);
}
