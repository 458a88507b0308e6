use video_encoding_wrapper::config::{Encoder, Metric, Mode, QualityRule};
use video_encoding_wrapper::metrics::{
    key_frame_interval, metric_samples, moving_sum, probe_threads, window_frame_counts,
    ClipMetrics, EncodeStatistics,
};
use video_encoding_wrapper::quality::QualityRange;
use video_encoding_wrapper::scenes::{
    frame_count_warning, scenes_from_changes, sort_scenes_longest_first, split_plan, Scene,
    SplitAction,
};
use video_encoding_wrapper::search::SearchState;

#[test]
fn quality_range_bitrate_axis() {
    let range = QualityRange::new(100, 30000, 100, true);
    assert_eq!(range.minimum(), 1);
    assert_eq!(range.maximum(), 300);
    assert_eq!(range.divisor(), 100);
    assert!(range.integer());
    assert_eq!(range.current(), Some(150));
}

#[test]
fn quality_range_x264_crf_axis() {
    let range = Encoder::X264.quality_range(&Mode::CRF);
    assert_eq!(range.minimum(), -40);
    assert_eq!(range.maximum(), 204);
    assert_eq!(range.divisor(), 4);
    assert!(!range.integer());
    assert_eq!(range.current(), Some(82));
}

#[test]
fn quality_range_shrinks_strictly() {
    let mut range = QualityRange::new(0, 63, 1, false);
    let mut last_width: i64 = 64;
    while let Some(_q) = range.current() {
        range.lower();
        let width = if range.maximum() >= range.minimum() {
            range.maximum() - range.minimum() + 1
        } else {
            0
        };
        assert!(width < last_width);
        assert!(width <= last_width / 2);
        last_width = width;
    }
}

#[test]
fn quality_range_probe_count_is_logarithmic() {
    // Always discarding the lower half takes the most probes; a width of 64
    // is exhausted in at most seven.
    let mut range = QualityRange::new(0, 63, 1, false);
    let mut probes = 0;
    while let Some(_q) = range.current() {
        range.higher();
        probes += 1;
    }
    assert_eq!(probes, 7);

    let mut range = QualityRange::new(0, 63, 1, false);
    let mut probes = 0;
    while let Some(_q) = range.current() {
        range.lower();
        probes += 1;
    }
    assert_eq!(probes, 6);
}

#[test]
fn single_scene_partition() {
    // A one-second, 24-fps source with no scene changes is one scene that
    // covers frames 0 through 23.
    let scenes = scenes_from_changes(&vec![0], 24);
    assert_eq!(scenes.len(), 1);
    assert_eq!(scenes[0].index(), 0);
    assert_eq!(scenes[0].start_frame(), 0);
    assert_eq!(scenes[0].end_frame(), 23);
    assert_eq!(scenes[0].length(), 24);
}

#[test]
fn scene_partition_is_contiguous() {
    let scenes = scenes_from_changes(&vec![0, 10, 17], 30);
    assert_eq!(scenes.len(), 3);
    assert_eq!(scenes[0].start_frame(), 0);
    assert_eq!(scenes[0].end_frame(), 9);
    assert_eq!(scenes[1].start_frame(), 10);
    assert_eq!(scenes[1].end_frame(), 16);
    assert_eq!(scenes[2].start_frame(), 17);
    assert_eq!(scenes[2].end_frame(), 29);
    for i in 1..scenes.len() {
        assert_eq!(scenes[i].start_frame(), scenes[i - 1].end_frame() + 1);
        assert_eq!(scenes[i].index(), i);
    }
}

#[test]
fn scenes_sort_longest_first() {
    let scenes = vec![
        Scene::new(0, 0, 4),
        Scene::new(1, 5, 13),
        Scene::new(2, 14, 22),
        Scene::new(3, 23, 24),
    ];
    let sorted = sort_scenes_longest_first(&scenes);
    let lengths: Vec<usize> = sorted.iter().map(|s| s.length()).collect();
    assert_eq!(lengths, vec![9, 9, 5, 2]);
    assert_eq!(sorted.len(), scenes.len());
    // The sort is stable: the two equal-length scenes keep catalog order.
    assert_eq!(sorted[0].index(), 1);
    assert_eq!(sorted[1].index(), 2);
}

#[test]
fn quality_range_probe_count_bracket() {
    // A width of 201 grid points (0..=50 in quarter steps) sits between
    // 2^7 - 1 and 2^8, so any drive of the bisection makes 7 or 8 probes.
    for drive_higher in [false, true] {
        let mut range = QualityRange::new(0, 50, 4, false);
        let mut probes = 0;
        while let Some(_q) = range.current() {
            if drive_higher {
                range.higher();
            } else {
                range.lower();
            }
            probes += 1;
        }
        assert!(probes >= 7);
        assert!(probes <= 8);
    }
}

#[test]
fn split_plan_skips_existing_clips() {
    let scenes = vec![Scene::new(0, 0, 9), Scene::new(1, 10, 16)];
    let plan = split_plan(&scenes, &vec![true, false]);
    assert_eq!(plan.len(), 2);
    assert_eq!(plan[0], SplitAction::Drain { index: 0, frames: 10 });
    assert_eq!(plan[1], SplitAction::Encode { index: 1, frames: 7 });
}

#[test]
fn frame_count_warning_only_on_mismatch() {
    assert!(frame_count_warning(24, 24).is_none());
    let message = frame_count_warning(25, 24).unwrap();
    assert_eq!(
        message,
        "Source video had 24 frames but 25 were processed by the scene detector."
    );
}

#[test]
fn search_minimum_vmaf_on_crf() {
    // A CRF search for at least VMAF 90 on a metric that loses 0.3 VMAF per
    // grid step: qualities at most 33 pass, and the search settles on 33,
    // the least aggressive passing quality.
    let range = Encoder::X265.quality_range(&Mode::CRF);
    let mut search = SearchState::new(range, QualityRule::Minimum, Mode::CRF, 90_000);
    while let Some(q) = search.current() {
        let v = 100_000 - 300 * q;
        search.observe(v);
    }
    assert_eq!(search.best_quality(), 33);
    let best_score = search.best_score().unwrap();
    assert!(best_score >= 90_000);
    assert_eq!(best_score, 100_000 - 300 * 33);
}

#[test]
fn search_maximum_bitrate() {
    // A bitrate search capped at 2 Mbps on a metric of 10 kbps (in
    // thousandths) per grid step: qualities at most 200 pass, and the search
    // settles on 200, the largest passing quality.
    let range = QualityRange::new(100, 30000, 100, true);
    let mut search = SearchState::new(range, QualityRule::Maximum, Mode::Bitrate, 2_000_000_000);
    while let Some(q) = search.current() {
        let v = q * 10_000_000;
        search.observe(v);
    }
    assert_eq!(search.best_quality(), 200);
    assert!(search.best_score().unwrap() <= 2_000_000_000);
}

#[test]
fn search_target_rule_chases_closest() {
    let range = QualityRange::new(0, 100, 1, false);
    let mut search = SearchState::new(range, QualityRule::Target, Mode::QP, 50_000);
    let mut probes = 0;
    while let Some(q) = search.current() {
        search.observe(q * 1000);
        probes += 1;
    }
    assert_eq!(search.best_quality(), 50);
    assert_eq!(search.best_score(), Some(50_000));
    assert_eq!(probes, 7);
}

#[test]
fn search_never_passes_a_better_quality_than_chosen() {
    // Replay a maximum-rule QP search (the metric falls as the quantizer
    // rises) and record every probe: the chosen quality's probe satisfied
    // the cap, and no probe that satisfied it sat below the chosen quality.
    let range = Encoder::X264.quality_range(&Mode::QP);
    let mut search = SearchState::new(range, QualityRule::Maximum, Mode::QP, 40_000);
    let mut probes: Vec<(i64, i64)> = Vec::new();
    while let Some(q) = search.current() {
        let v = 100_000 - q * 1000;
        probes.push((q, v));
        search.observe(v);
    }
    let best = search.best_quality();
    assert_eq!(best, 60);
    assert!(100_000 - best * 1000 <= 40_000);
    for (q, v) in probes {
        if v <= 40_000 {
            assert!(q >= best);
        }
    }
}

#[test]
fn clip_metrics_vectors_match_frames() {
    let mut m = ClipMetrics::new(
        String::from("out/qp-024.mkv"),
        String::from("source/scene-00000.mkv"),
        None,
    );
    assert!(m.set_sizes(vec![100, 200]));
    assert_eq!(m.frames(), Some(2));
    assert!(m.set_frame_metrics(
        vec![40_000, 41_000],
        vec![990, 991],
        vec![95_000, 96_000]
    ));
    assert_eq!(m.psnr().unwrap().len(), 2);
    assert_eq!(m.ssim().unwrap().len(), 2);
    assert_eq!(m.vmaf().unwrap().len(), 2);
    // A vector of the wrong length is refused and leaves the record alone.
    assert!(!m.set_ssimulacra2(vec![1, 2, 3]));
    assert!(m.ssimulacra2().is_none());
    assert!(m.set_ssimulacra2(vec![70_000, 71_000]));
    assert_eq!(m.ssimulacra2().unwrap().len(), 2);
}

#[test]
fn clip_metrics_refuses_mismatched_sizes() {
    let mut m = ClipMetrics::new(String::from("a"), String::from("b"), None);
    assert!(m.set_frame_metrics(vec![1, 2, 3], vec![1, 2, 3], vec![1, 2, 3]));
    assert!(!m.set_sizes(vec![10, 20]));
    assert!(m.sizes().is_none());
    assert!(m.set_sizes(vec![10, 20, 30]));
    assert_eq!(m.frames(), Some(3));
}

#[test]
fn metric_samples_per_frame_bitrate() {
    let mut m = ClipMetrics::new(String::from("a"), String::from("b"), None);
    assert!(m.set_sizes(vec![1000, 1000]));
    m.set_duration_micros(2_000_000);
    let samples = metric_samples(&m, Metric::Bitrate).unwrap();
    // 1000 bytes per frame over one second each: 8000 bits per second, in
    // thousandths.
    assert_eq!(samples, vec![8_000_000, 8_000_000]);
}

#[test]
fn metric_samples_direct_and_vectors() {
    let mut m = ClipMetrics::new(String::from("a"), String::from("b"), None);
    assert_eq!(metric_samples(&m, Metric::Direct).unwrap(), vec![0]);
    assert!(metric_samples(&m, Metric::VMAF).is_none());
    assert!(m.set_frame_metrics(vec![1], vec![2], vec![3]));
    assert_eq!(metric_samples(&m, Metric::PSNR).unwrap(), vec![1]);
    assert_eq!(metric_samples(&m, Metric::SSIM).unwrap(), vec![2]);
    assert_eq!(metric_samples(&m, Metric::VMAF).unwrap(), vec![3]);
}

#[test]
fn moving_sum_windows() {
    assert_eq!(moving_sum(&vec![1, 2, 3, 4], 2), vec![3, 5, 7]);
    assert_eq!(moving_sum(&vec![1, 2, 3, 4], 4), vec![10]);
    assert_eq!(moving_sum(&vec![1, 2, 3, 4], 5), Vec::<u64>::new());
    assert_eq!(moving_sum(&vec![1, 2, 3, 4], 0), vec![0, 0, 0, 0, 0]);
}

#[test]
fn five_bitrate_windows() {
    // 240 frames over ten seconds: 24 fps, so the one-through-sixty second
    // windows hold 24, 120, 360, 720 and 1440 frames.
    let windows = window_frame_counts(240, 10_000_000);
    assert_eq!(windows, vec![24, 120, 360, 720, 1440]);
}

#[test]
fn key_frame_interval_rounds_to_nearest() {
    // 24 frames over one second: 5 seconds' worth is 120 frames.
    assert_eq!(key_frame_interval(24, 1_000_000), 120);
    // 25 frames over two seconds: 62.5 rounds up to 63.
    assert_eq!(key_frame_interval(25, 2_000_000), 63);
}

#[test]
fn probe_threads_split_evenly() {
    assert_eq!(probe_threads(8, 3), 2);
    assert_eq!(probe_threads(8, 1), 8);
    assert_eq!(probe_threads(0, 4), 0);
}

#[test]
fn statistics_record_in_step() {
    let mut stats = EncodeStatistics::new();
    stats.record(240, 24);
    stats.record(120, 30);
    assert_eq!(stats.scene_lengths(), &vec![240, 120]);
    assert_eq!(stats.qualities(), &vec![24, 30]);
}
