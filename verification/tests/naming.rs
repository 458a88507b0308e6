use video_encoding_wrapper::config::{Config, Encoder, Metric, Mode, QualityRule};
use video_encoding_wrapper::digest::sha256_hex;
use video_encoding_wrapper::merge::{merge_arguments, sort_clips_by_path, str_lex_le};
use video_encoding_wrapper::metrics::ClipMetrics;
use video_encoding_wrapper::paths::{
    base_output_filename, clip_output_filename, clip_temp_filename, crop_filter, decode_arguments,
    metric_filter, replace_extension, scene_directory_name, scene_source_filename,
    scene_temp_filename, stats_filename,
};
use video_encoding_wrapper::sidecar::{parse_sidecar, sidecar_data_json, sidecar_json};
use video_encoding_wrapper::text::{fixed2, i64_dec, milli_string, u64_dec, zero_pad};

fn test_config() -> Config {
    Config {
        encoder: Encoder::X264,
        preset: String::from("ultrafast"),
        workers: 4,
        mode: Mode::QP,
        metric: Metric::Direct,
        rule: QualityRule::Minimum,
        use_mean: false,
        percentile_milli: 50,
        quality_milli: 24_000,
        source: String::from("input.mkv"),
        output_directory: String::from("out"),
    }
}

#[test]
fn decimal_renderings() {
    assert_eq!(u64_dec(0), "0");
    assert_eq!(u64_dec(1234567890), "1234567890");
    assert_eq!(i64_dec(-45), "-45");
    assert_eq!(zero_pad(7, 5), "00007");
    assert_eq!(zero_pad(123456, 5), "123456");
    assert_eq!(fixed2(2325, 5), "23.25");
    assert_eq!(fixed2(-1000, 5), "-10.00");
    assert_eq!(fixed2(550, 5), "05.50");
    assert_eq!(milli_string(24_000), "24");
    assert_eq!(milli_string(90_500), "90.5");
    assert_eq!(milli_string(50), "0.05");
    assert_eq!(milli_string(-1_250), "-1.25");
}

#[test]
fn scene_file_names_embed_padded_indices() {
    assert_eq!(scene_source_filename(3), "scene-00003.mkv");
    assert_eq!(scene_temp_filename(3), "scene-00003.tmp.mkv");
    assert_eq!(scene_directory_name(12), "scene-00012");
}

#[test]
fn clip_names_by_mode_and_quality() {
    // An integer axis renders zero-padded in user units.
    assert_eq!(base_output_filename(&Encoder::X264, Mode::QP, 24), "qp-024");
    assert_eq!(clip_output_filename(&Encoder::X264, Mode::QP, 24), "qp-024.mkv");
    assert_eq!(clip_temp_filename(&Encoder::X264, Mode::QP, 24), "qp-024.tmp.mkv");
    assert_eq!(stats_filename(&Encoder::X264, Mode::QP, 24), "qp-024.stats.log");
    // A fractional axis renders with two decimals; grid 93 on a
    // quarter-step axis is 23.25.
    assert_eq!(base_output_filename(&Encoder::X265, Mode::CRF, 93), "crf-23.25");
    assert_eq!(clip_output_filename(&Encoder::X265, Mode::CRF, 93), "crf-23.25.hevc");
    // Bitrates render in user units, six digits wide.
    assert_eq!(
        base_output_filename(&Encoder::X264, Mode::Bitrate, 20),
        "bitrate-002000"
    );
}

#[test]
fn sidecar_path_replaces_extension() {
    assert_eq!(
        replace_extension("a/b/qp-024.mkv", "metrics.json"),
        "a/b/qp-024.metrics.json"
    );
    assert_eq!(replace_extension("a/b.c/file", "x"), "a/b.c/file.x");
    assert_eq!(
        replace_extension("qp-024.metrics.json", ".tmp.json"),
        "qp-024.metrics..tmp.json"
    );
}

#[test]
fn forbidden_encoder_mode_combination() {
    let mut config = test_config();
    config.encoder = Encoder::Rav1e;
    config.mode = Mode::CRF;
    let error = config.validate().unwrap_err();
    assert_eq!(
        error.message(),
        "rav1e does not currently support CRF mode. Use QP mode instead."
    );
    config.mode = Mode::QP;
    assert!(config.validate().is_ok());
    config.encoder = Encoder::X264;
    config.mode = Mode::CRF;
    assert!(config.validate().is_ok());
}

#[test]
fn identifier_for_direct_metric() {
    let config = test_config();
    // x264 has no tune arguments, so the hash is the digest of the empty
    // string.
    assert_eq!(
        config.encode_identifier(true),
        "x264-ultrafast-qp-24-unconstrained-e3b0c44298fc1c149afbf4c8996fb92427ae41e4649b934ca495991b7852b855"
    );
    assert_eq!(
        config.encode_identifier(false),
        "x264-ultrafast-qp-unconstrained-e3b0c44298fc1c149afbf4c8996fb92427ae41e4649b934ca495991b7852b855"
    );
}

#[test]
fn identifier_for_metric_guided_search() {
    let mut config = test_config();
    config.encoder = Encoder::Aomenc;
    config.mode = Mode::CRF;
    config.metric = Metric::VMAF;
    config.rule = QualityRule::Minimum;
    config.quality_milli = 90_500;
    assert_eq!(
        config.encode_identifier(true),
        "aomenc-ultrafast-crf-vmaf-minimum-90.5-0.05-unconstrained-eaee097e677cdf8eb895181a8d073035050e6c1973ef2c94e397667e067b3d55"
    );
    config.use_mean = true;
    assert_eq!(
        config.encode_identifier(true),
        "aomenc-ultrafast-crf-vmaf-minimum-90.5-mean-unconstrained-eaee097e677cdf8eb895181a8d073035050e6c1973ef2c94e397667e067b3d55"
    );
}

#[test]
fn sha256_matches_known_vector() {
    assert_eq!(
        sha256_hex("abc"),
        "ba7816bf8f01cfea414140de5dae2223b00361a396177a9cb410ff61f20015ad"
    );
    assert_eq!(
        sha256_hex(""),
        "e3b0c44298fc1c149afbf4c8996fb92427ae41e4649b934ca495991b7852b855"
    );
}

#[test]
fn x265_crf_arguments() {
    let mut config = test_config();
    config.encoder = Encoder::X265;
    config.mode = Mode::CRF;
    let args = config.encoder.arguments(
        &config,
        "medium",
        120,
        None,
        "out.hevc",
        None,
        Mode::CRF,
        93,
    );
    assert_eq!(
        args,
        vec![
            "--y4m", "--preset", "medium", "--output-depth", "10", "--pools", "1", "-F", "1",
            "--keyint", "120", "--crf", "23.25", "-o", "out.hevc", "-",
        ]
    );
}

#[test]
fn aomenc_two_pass_arguments() {
    let mut config = test_config();
    config.encoder = Encoder::Aomenc;
    config.mode = Mode::QP;
    let args = config.encoder.arguments(
        &config,
        "6",
        48,
        Some(1),
        "out.ivf",
        Some("qp-030.stats.log"),
        Mode::QP,
        30,
    );
    assert_eq!(
        args,
        vec![
            "--cpu-used=6",
            "--bit-depth=10",
            "--threads=1",
            "--kf-max-dist=48",
            "--tune=ssim",
            "--enable-qm=1",
            "--lag-in-frames=48",
            "--quant-b-adapt=1",
            "--arnr-strength=1",
            "--enable-keyframe-filtering=0",
            "--dist-metric=qm-psnr",
            "--end-usage=q",
            "--cq-level=30",
            "--min-q=30",
            "--max-q=30",
            "-y",
            "--passes=2",
            "--pass=1",
            "--fpf=qp-030.stats.log",
            "-o",
            "out.ivf",
            "-",
        ]
    );
}

#[test]
fn svt_av1_bitrate_arguments() {
    let mut config = test_config();
    config.encoder = Encoder::SvtAv1;
    config.mode = Mode::Bitrate;
    let args = config.encoder.arguments(
        &config,
        "8",
        120,
        None,
        "out.ivf",
        None,
        Mode::Bitrate,
        20,
    );
    assert_eq!(
        args,
        vec![
            "--preset", "8", "--keyint", "120", "--lp", "1", "--progress", "2", "--tune", "0",
            "--rc", "1", "--tbr", "2000", "-b", "out.ivf", "-i", "-",
        ]
    );
}

#[test]
fn decoder_arguments_with_and_without_filter() {
    assert_eq!(
        decode_arguments("in.mkv", Some("crop=1920:800:0:140")),
        vec![
            "-i",
            "in.mkv",
            "-vf",
            "crop=1920:800:0:140",
            "-pix_fmt",
            "yuv420p10le",
            "-f",
            "yuv4mpegpipe",
            "-strict",
            "-1",
            "-",
        ]
    );
    assert_eq!(
        decode_arguments("in.mkv", None),
        vec![
            "-i",
            "in.mkv",
            "-pix_fmt",
            "yuv420p10le",
            "-f",
            "yuv4mpegpipe",
            "-strict",
            "-1",
            "-",
        ]
    );
}

#[test]
fn metric_filter_graph_string() {
    assert_eq!(
        metric_filter(None, "clip.ffmpeg.metrics.json", 4),
        "[0:v]setpts=PTS-STARTPTS[reference];[1:v]setpts=PTS-STARTPTS[distorted];[distorted][reference]libvmaf=log_fmt=json:log_path=clip.ffmpeg.metrics.json:n_threads=4:feature=name=psnr|name=float_ssim"
    );
    assert_eq!(
        metric_filter(Some("crop=100:100:0:0"), "log.json", 1),
        "[0:v]crop=100:100:0:0,setpts=PTS-STARTPTS[reference];[1:v]setpts=PTS-STARTPTS[distorted];[distorted][reference]libvmaf=log_fmt=json:log_path=log.json:n_threads=1:feature=name=psnr|name=float_ssim"
    );
}

#[test]
fn crop_filter_string() {
    assert_eq!(crop_filter(1920, 800, 0, 140), "crop=1920:800:0:140");
}

#[test]
fn lexicographic_path_order() {
    assert!(str_lex_le("scene-00001", "scene-00002"));
    assert!(!str_lex_le("scene-00002", "scene-00001"));
    assert!(str_lex_le("abc", "abd"));
    assert!(str_lex_le("ab", "ab"));
    assert!(str_lex_le("ab", "abc"));
    assert!(!str_lex_le("abc", "ab"));
}

#[test]
fn clips_sort_into_scene_order() {
    let clips = vec![
        ClipMetrics::new(String::from("enc/scene-00002/qp-030.mkv"), String::from("s2"), None),
        ClipMetrics::new(String::from("enc/scene-00000/qp-024.mkv"), String::from("s0"), None),
        ClipMetrics::new(String::from("enc/scene-00001/qp-028.mkv"), String::from("s1"), None),
    ];
    let sorted = sort_clips_by_path(clips);
    let paths: Vec<&str> = sorted.iter().map(|c| c.path().as_str()).collect();
    assert_eq!(
        paths,
        vec![
            "enc/scene-00000/qp-024.mkv",
            "enc/scene-00001/qp-028.mkv",
            "enc/scene-00002/qp-030.mkv",
        ]
    );
}

#[test]
fn muxer_arguments_keep_order_and_prefix() {
    let paths = vec![
        String::from("a/scene-00000.mkv"),
        String::from("a/scene-00001.mkv"),
        String::from("a/scene-00002.mkv"),
    ];
    assert_eq!(
        merge_arguments(&paths),
        vec![
            "a/scene-00000.mkv",
            "+a/scene-00001.mkv",
            "+a/scene-00002.mkv",
        ]
    );
}

#[test]
fn sidecar_text_is_canonical() {
    let mut m = ClipMetrics::new(String::from("clip.mkv"), String::from("src.mkv"), None);
    assert_eq!(
        sidecar_json(&m),
        "{\"duration\":null,\"sizes\":null,\"psnr\":null,\"ssim\":null,\"vmaf\":null,\"ssimulacra2\":null}"
    );
    assert!(m.set_sizes(vec![100, 250]));
    m.set_duration_micros(2_000_000);
    assert!(m.set_frame_metrics(vec![40_000, 41_500], vec![990, 991], vec![95_000, 96_250]));
    assert!(m.set_ssimulacra2(vec![70_000, -1_000]));
    assert_eq!(
        sidecar_json(&m),
        "{\"duration\":2000000,\"sizes\":[100,250],\"psnr\":[40000,41500],\"ssim\":[990,991],\"vmaf\":[95000,96250],\"ssimulacra2\":[70000,-1000]}"
    );
}

#[test]
fn sidecar_round_trip() {
    let mut m = ClipMetrics::new(String::from("clip.mkv"), String::from("src.mkv"), None);
    assert!(m.set_sizes(vec![100, 250]));
    m.set_duration_micros(2_000_000);
    assert!(m.set_frame_metrics(vec![40_000, 41_500], vec![990, 991], vec![95_000, 96_250]));
    assert!(m.set_ssimulacra2(vec![70_000, -1_000]));

    let text = sidecar_json(&m);
    let loaded = parse_sidecar(&text).unwrap();
    assert_eq!(loaded.duration, Some(2_000_000));
    assert_eq!(loaded.sizes.as_deref(), Some(&[100, 250][..]));
    assert_eq!(loaded.psnr.as_deref(), Some(&[40_000, 41_500][..]));
    assert_eq!(loaded.ssim.as_deref(), Some(&[990, 991][..]));
    assert_eq!(loaded.vmaf.as_deref(), Some(&[95_000, 96_250][..]));
    assert_eq!(loaded.ssimulacra2.as_deref(), Some(&[70_000, -1_000][..]));
    assert_eq!(sidecar_data_json(&loaded), text);

    let empty = ClipMetrics::new(String::from("a"), String::from("b"), None);
    let text = sidecar_json(&empty);
    let loaded = parse_sidecar(&text).unwrap();
    assert_eq!(loaded.duration, None);
    assert!(loaded.sizes.is_none());
    assert!(loaded.psnr.is_none());
    assert!(loaded.ssim.is_none());
    assert!(loaded.vmaf.is_none());
    assert!(loaded.ssimulacra2.is_none());
}

#[test]
fn sidecar_rejects_tampered_text() {
    assert!(parse_sidecar("").is_none());
    assert!(parse_sidecar("{}").is_none());
    // Non-canonical spellings of the same data are refused, never half-read.
    assert!(parse_sidecar(
        "{\"duration\":null,\"sizes\":null,\"psnr\":null,\"ssim\":null,\"vmaf\":null,\"ssimulacra2\":null} "
    )
    .is_none());
    assert!(parse_sidecar(
        "{\"duration\":007,\"sizes\":null,\"psnr\":null,\"ssim\":null,\"vmaf\":null,\"ssimulacra2\":null}"
    )
    .is_none());
    // The canonical spelling loads.
    assert!(parse_sidecar(
        "{\"duration\":7,\"sizes\":[1,2],\"psnr\":null,\"ssim\":null,\"vmaf\":null,\"ssimulacra2\":[-5]}"
    )
    .is_some());
}

#[test]
fn mode_descriptions() {
    let mut config = test_config();
    assert_eq!(config.mode_description(), "QP");
    config.mode = Mode::CRF;
    assert_eq!(config.mode_description(), "CRF");
    config.mode = Mode::Bitrate;
    assert_eq!(config.mode_description(), "Bitrate");
    assert_eq!(config.passes(), 2);
}

#[test]
fn encoder_names_and_commands() {
    assert_eq!(Encoder::SvtAv1.name(), "svt-av1");
    assert_eq!(Encoder::SvtAv1.command(), "SvtAv1EncApp");
    assert_eq!(Encoder::X264.command(), "x264");
    assert_eq!(Encoder::Aomenc.extension(), "ivf");
    assert_eq!(Encoder::X264.extension(), "mkv");
    assert_eq!(Encoder::X265.extension(), "hevc");
    assert_eq!(Metric::SSIMULACRA2.name(), "ssimulacra2");
    assert_eq!(QualityRule::Target.name(), "target");
    assert_eq!(Mode::CRF.name(), "crf");
}
