//! User configuration and the per-codec tables derived from it: quality
//! ranges, pass counts, and the exact argument vectors handed to each
//! encoder, plus the cache identifier that names every durable artifact.
//!
//! Fractional user values (target quality, percentile) are held in
//! thousandths, so that contracts and renderings are exact.

use vstd::prelude::*;

use crate::digest::{sha256_digest, sha256_hex, spec_hex_lower};
use crate::quality::{half_div, QualityRange};
use crate::text::{
    fixed2, i64_dec, join_spaces, seq_views, spec_dec, spec_dec_signed, spec_fixed2, spec_join_spaces,
    spec_milli, milli_string, u64_dec,
};

verus! {

#[derive(Copy, Clone, Debug, PartialEq, Eq, Structural)]
pub enum QualityRule {
    Maximum,
    Minimum,
    Target,
}

#[derive(Copy, Clone, Debug, PartialEq, Eq, Structural)]
pub enum Mode {
    QP,
    CRF,
    Bitrate,
}

#[derive(Copy, Clone, Debug, PartialEq, Eq, Structural)]
pub enum Metric {
    Direct,
    PSNR,
    SSIM,
    VMAF,
    SSIMULACRA2,
    Bitrate,
}

#[derive(Copy, Clone, Debug, PartialEq, Eq, Structural)]
pub enum Encoder {
    Aomenc,
    Rav1e,
    SvtAv1,
    Vpxenc,
    X264,
    X265,
}

pub open spec fn spec_quality_rule_name(r: QualityRule) -> Seq<char> {
    match r {
        QualityRule::Maximum => "maximum"@,
        QualityRule::Minimum => "minimum"@,
        QualityRule::Target => "target"@,
    }
}

pub open spec fn spec_mode_name(m: Mode) -> Seq<char> {
    match m {
        Mode::QP => "qp"@,
        Mode::CRF => "crf"@,
        Mode::Bitrate => "bitrate"@,
    }
}

pub open spec fn spec_metric_name(m: Metric) -> Seq<char> {
    match m {
        Metric::Direct => "direct"@,
        Metric::PSNR => "psnr"@,
        Metric::SSIM => "ssim"@,
        Metric::VMAF => "vmaf"@,
        Metric::SSIMULACRA2 => "ssimulacra2"@,
        Metric::Bitrate => "bitrate"@,
    }
}

pub open spec fn spec_encoder_name(e: Encoder) -> Seq<char> {
    match e {
        Encoder::Aomenc => "aomenc"@,
        Encoder::Rav1e => "rav1e"@,
        Encoder::SvtAv1 => "svt-av1"@,
        Encoder::Vpxenc => "vpxenc"@,
        Encoder::X264 => "x264"@,
        Encoder::X265 => "x265"@,
    }
}

impl QualityRule {
    /// The lower-case name shown to the user and put into identifiers.
    pub fn name(&self) -> (r: String)
        ensures
            r@ == spec_quality_rule_name(*self),
    {
        match self {
            QualityRule::Maximum => "maximum".to_owned(),
            QualityRule::Minimum => "minimum".to_owned(),
            QualityRule::Target => "target".to_owned(),
        }
    }
}

impl Mode {
    /// The lower-case name shown to the user and put into identifiers.
    pub fn name(&self) -> (r: String)
        ensures
            r@ == spec_mode_name(*self),
    {
        match self {
            Mode::QP => "qp".to_owned(),
            Mode::CRF => "crf".to_owned(),
            Mode::Bitrate => "bitrate".to_owned(),
        }
    }
}

impl Metric {
    /// The lower-case name shown to the user and put into identifiers.
    pub fn name(&self) -> (r: String)
        ensures
            r@ == spec_metric_name(*self),
    {
        match self {
            Metric::Direct => "direct".to_owned(),
            Metric::PSNR => "psnr".to_owned(),
            Metric::SSIM => "ssim".to_owned(),
            Metric::VMAF => "vmaf".to_owned(),
            Metric::SSIMULACRA2 => "ssimulacra2".to_owned(),
            Metric::Bitrate => "bitrate".to_owned(),
        }
    }
}

/// The divisor of the quality grid for an encoder and mode.
pub open spec fn spec_qr_divisor(e: Encoder, m: Mode) -> int {
    match m {
        Mode::Bitrate => 100,
        Mode::CRF => match e {
            Encoder::X264 | Encoder::X265 => 4,
            _ => 1,
        },
        Mode::QP => 1,
    }
}

/// The low endpoint of the quality grid (already scaled onto the grid).
pub open spec fn spec_qr_min(e: Encoder, m: Mode) -> int {
    match m {
        Mode::Bitrate => 1,
        Mode::CRF => match e {
            Encoder::Aomenc | Encoder::Vpxenc => 0,
            Encoder::Rav1e => 1,
            Encoder::SvtAv1 => 1,
            Encoder::X264 => -40,
            Encoder::X265 => 0,
        },
        Mode::QP => match e {
            Encoder::Aomenc | Encoder::Vpxenc => 0,
            Encoder::Rav1e => 1,
            Encoder::SvtAv1 => 1,
            Encoder::X264 => 1,
            Encoder::X265 => 0,
        },
    }
}

/// The high endpoint of the quality grid (already scaled onto the grid).
pub open spec fn spec_qr_max(e: Encoder, m: Mode) -> int {
    match m {
        Mode::Bitrate => 300,
        Mode::CRF => match e {
            Encoder::Aomenc | Encoder::Vpxenc => 63,
            Encoder::Rav1e => 255,
            Encoder::SvtAv1 => 63,
            Encoder::X264 => 204,
            Encoder::X265 => 204,
        },
        Mode::QP => match e {
            Encoder::Aomenc | Encoder::Vpxenc => 63,
            Encoder::Rav1e => 255,
            Encoder::SvtAv1 => 63,
            Encoder::X264 => 81,
            Encoder::X265 => 51,
        },
    }
}

/// How many encoder passes a mode takes on each codec.
pub open spec fn spec_passes(e: Encoder, m: Mode) -> nat {
    match m {
        Mode::Bitrate => 2,
        Mode::CRF | Mode::QP => match e {
            Encoder::Aomenc | Encoder::Vpxenc => 2,
            _ => 1,
        },
    }
}

impl Encoder {
    /// The lower-case name shown to the user and put into identifiers.
    pub fn name(&self) -> (r: String)
        ensures
            r@ == spec_encoder_name(*self),
    {
        match self {
            Encoder::Aomenc => "aomenc".to_owned(),
            Encoder::Rav1e => "rav1e".to_owned(),
            Encoder::SvtAv1 => "svt-av1".to_owned(),
            Encoder::Vpxenc => "vpxenc".to_owned(),
            Encoder::X264 => "x264".to_owned(),
            Encoder::X265 => "x265".to_owned(),
        }
    }

    /// The container extension of this codec's per-scene output files.
    pub fn extension(&self) -> (r: String)
        ensures
            r@ == spec_extension(*self),
    {
        match self {
            Encoder::Aomenc | Encoder::Rav1e | Encoder::SvtAv1 | Encoder::Vpxenc => "ivf".to_owned(),
            Encoder::X264 => "mkv".to_owned(),
            Encoder::X265 => "hevc".to_owned(),
        }
    }

    /// The name of the executable driving this codec.
    pub fn command(&self) -> (r: String)
        ensures
            r@ == spec_command(*self),
    {
        match self {
            Encoder::SvtAv1 => "SvtAv1EncApp".to_owned(),
            _ => self.name(),
        }
    }

    /// The bisection interval for this codec on the given quality axis.
    pub fn quality_range(&self, mode: &Mode) -> (r: QualityRange)
        ensures
            r.wf(),
            r.spec_divisor() == spec_qr_divisor(*self, *mode),
            r.spec_bitrate() == (*mode == Mode::Bitrate),
            r.spec_minimum() == spec_qr_min(*self, *mode),
            r.spec_maximum() == spec_qr_max(*self, *mode),
    {
        match mode {
            Mode::Bitrate => QualityRange::new(100, 30000, 100, true),
            Mode::CRF => match self {
                Encoder::Aomenc | Encoder::Vpxenc => QualityRange::new(0, 63, 1, false),
                Encoder::Rav1e => QualityRange::new(1, 255, 1, false),
                Encoder::SvtAv1 => QualityRange::new(1, 63, 1, false),
                Encoder::X264 => QualityRange::new(-10, 51, 4, false),
                Encoder::X265 => QualityRange::new(0, 51, 4, false),
            },
            Mode::QP => match self {
                Encoder::Aomenc | Encoder::Vpxenc => QualityRange::new(0, 63, 1, false),
                Encoder::Rav1e => QualityRange::new(1, 255, 1, false),
                Encoder::SvtAv1 => QualityRange::new(1, 63, 1, false),
                Encoder::X264 => QualityRange::new(1, 81, 1, false),
                Encoder::X265 => QualityRange::new(0, 51, 1, false),
            },
        }
    }

    /// How many passes this codec runs under the configured mode.
    pub fn passes(&self, config: &Config) -> (r: usize)
        ensures
            r == spec_passes(*self, config.mode),
    {
        match config.mode {
            Mode::Bitrate => 2,
            Mode::CRF | Mode::QP => match self {
                Encoder::Aomenc | Encoder::Vpxenc => 2,
                _ => 1,
            },
        }
    }

    /// The mode-independent arguments of this codec.
    pub fn base_arguments(&self, preset: &str, key_frame_interval: usize) -> (r: Vec<String>)
        ensures
            seq_views(r@) =~= spec_base_arguments(*self, preset@, key_frame_interval as nat),
    {
        let kfi = u64_dec(key_frame_interval as u64);
        let mut r: Vec<String> = Vec::new();
        match self {
            Encoder::Aomenc => {
                r.push("--cpu-used=".to_owned().concat(preset));
                r.push("--bit-depth=10".to_owned());
                r.push("--threads=1".to_owned());
                r.push("--kf-max-dist=".to_owned().concat(kfi.as_str()));
            },
            Encoder::Rav1e => {
                r.push("--speed".to_owned());
                r.push(preset.to_owned());
                r.push("--threads".to_owned());
                r.push("1".to_owned());
                r.push("--keyint".to_owned());
                r.push(kfi);
            },
            Encoder::SvtAv1 => {
                r.push("--preset".to_owned());
                r.push(preset.to_owned());
                r.push("--keyint".to_owned());
                r.push(kfi);
                r.push("--lp".to_owned());
                r.push("1".to_owned());
                r.push("--progress".to_owned());
                r.push("2".to_owned());
            },
            Encoder::Vpxenc => {
                r.push("--cpu-used=".to_owned().concat(preset));
                r.push("--codec=vp9".to_owned());
                r.push("--bit-depth=10".to_owned());
                r.push("--profile=2".to_owned());
                r.push("--threads=1".to_owned());
                r.push("--kf-max-dist=".to_owned().concat(kfi.as_str()));
            },
            Encoder::X264 => {
                r.push("--stitchable".to_owned());
                r.push("--demuxer".to_owned());
                r.push("y4m".to_owned());
                r.push("--preset".to_owned());
                r.push(preset.to_owned());
                r.push("--output-depth".to_owned());
                r.push("10".to_owned());
                r.push("--threads".to_owned());
                r.push("1".to_owned());
                r.push("--keyint".to_owned());
                r.push(kfi);
            },
            Encoder::X265 => {
                r.push("--y4m".to_owned());
                r.push("--preset".to_owned());
                r.push(preset.to_owned());
                r.push("--output-depth".to_owned());
                r.push("10".to_owned());
                r.push("--pools".to_owned());
                r.push("1".to_owned());
                r.push("-F".to_owned());
                r.push("1".to_owned());
                r.push("--keyint".to_owned());
                r.push(kfi);
            },
        }
        r
    }

    /// The codec-specific tuning arguments; these are also what the cache
    /// identifier hashes.
    pub fn tune_arguments(&self, config: &Config) -> (r: Vec<String>)
        ensures
            seq_views(r@) =~= spec_tune_arguments(*self, spec_passes(*self, config.mode) > 1),
    {
        let multipass = self.passes(config) > 1;
        let mut r: Vec<String> = Vec::new();
        match self {
            Encoder::Aomenc => {
                r.push("--tune=ssim".to_owned());
                r.push("--enable-qm=1".to_owned());
                r.push("--lag-in-frames=48".to_owned());
                r.push("--quant-b-adapt=1".to_owned());
                r.push("--arnr-strength=1".to_owned());
                r.push("--enable-keyframe-filtering=0".to_owned());
                r.push("--dist-metric=qm-psnr".to_owned());
            },
            Encoder::SvtAv1 => {
                r.push("--tune".to_owned());
                r.push("0".to_owned());
                if !multipass {
                    r.push("--enable-overlays".to_owned());
                    r.push("1".to_owned());
                }
            },
            Encoder::Vpxenc => {
                r.push("--tune=ssim".to_owned());
            },
            Encoder::Rav1e | Encoder::X264 | Encoder::X265 => {},
        }
        r
    }
}

pub open spec fn spec_extension(e: Encoder) -> Seq<char> {
    match e {
        Encoder::Aomenc | Encoder::Rav1e | Encoder::SvtAv1 | Encoder::Vpxenc => "ivf"@,
        Encoder::X264 => "mkv"@,
        Encoder::X265 => "hevc"@,
    }
}

pub open spec fn spec_command(e: Encoder) -> Seq<char> {
    match e {
        Encoder::SvtAv1 => "SvtAv1EncApp"@,
        _ => spec_encoder_name(e),
    }
}

pub open spec fn spec_base_arguments(e: Encoder, preset: Seq<char>, kfi: nat) -> Seq<Seq<char>> {
    match e {
        Encoder::Aomenc => seq![
            "--cpu-used="@ + preset,
            "--bit-depth=10"@,
            "--threads=1"@,
            "--kf-max-dist="@ + spec_dec(kfi),
        ],
        Encoder::Rav1e => seq![
            "--speed"@,
            preset,
            "--threads"@,
            "1"@,
            "--keyint"@,
            spec_dec(kfi),
        ],
        Encoder::SvtAv1 => seq![
            "--preset"@,
            preset,
            "--keyint"@,
            spec_dec(kfi),
            "--lp"@,
            "1"@,
            "--progress"@,
            "2"@,
        ],
        Encoder::Vpxenc => seq![
            "--cpu-used="@ + preset,
            "--codec=vp9"@,
            "--bit-depth=10"@,
            "--profile=2"@,
            "--threads=1"@,
            "--kf-max-dist="@ + spec_dec(kfi),
        ],
        Encoder::X264 => seq![
            "--stitchable"@,
            "--demuxer"@,
            "y4m"@,
            "--preset"@,
            preset,
            "--output-depth"@,
            "10"@,
            "--threads"@,
            "1"@,
            "--keyint"@,
            spec_dec(kfi),
        ],
        Encoder::X265 => seq![
            "--y4m"@,
            "--preset"@,
            preset,
            "--output-depth"@,
            "10"@,
            "--pools"@,
            "1"@,
            "-F"@,
            "1"@,
            "--keyint"@,
            spec_dec(kfi),
        ],
    }
}

pub open spec fn spec_tune_arguments(e: Encoder, multipass: bool) -> Seq<Seq<char>> {
    match e {
        Encoder::Aomenc => seq![
            "--tune=ssim"@,
            "--enable-qm=1"@,
            "--lag-in-frames=48"@,
            "--quant-b-adapt=1"@,
            "--arnr-strength=1"@,
            "--enable-keyframe-filtering=0"@,
            "--dist-metric=qm-psnr"@,
        ],
        Encoder::SvtAv1 => if multipass {
            seq!["--tune"@, "0"@]
        } else {
            seq!["--tune"@, "0"@, "--enable-overlays"@, "1"@]
        },
        Encoder::Vpxenc => seq!["--tune=ssim"@],
        Encoder::Rav1e | Encoder::X264 | Encoder::X265 => Seq::empty(),
    }
}

/// The rendering of a probed quality value inside an argument vector:
/// integer axes as a plain integer in user units, fractional axes with two
/// decimal places.
pub open spec fn spec_qp_string(e: Encoder, m: Mode, qp: int) -> Seq<char> {
    let divisor = spec_qr_divisor(e, m);
    if m == Mode::Bitrate {
        spec_dec_signed(qp * divisor)
    } else if divisor == 1 {
        spec_dec_signed(qp)
    } else {
        spec_fixed2(half_div(qp * 100, divisor), 0)
    }
}

/// The quality-selection arguments for one probe.
pub open spec fn spec_quality_args(e: Encoder, m: Mode, qs: Seq<char>) -> Seq<Seq<char>> {
    match e {
        Encoder::Aomenc | Encoder::Vpxenc => match m {
            Mode::Bitrate => seq![
                "--end-usage=vbr"@,
                "--target-bitrate="@ + qs,
                "--bias-pct=100"@,
            ],
            Mode::CRF => seq!["--end-usage=q"@, "--cq-level="@ + qs],
            Mode::QP => seq![
                "--end-usage=q"@,
                "--cq-level="@ + qs,
                "--min-q="@ + qs,
                "--max-q="@ + qs,
                "-y"@,
            ],
        },
        Encoder::Rav1e => match m {
            Mode::Bitrate => seq!["--bitrate"@, qs],
            Mode::CRF => Seq::empty(),
            Mode::QP => seq!["--quantizer"@, qs],
        },
        Encoder::SvtAv1 => match m {
            Mode::Bitrate => seq!["--rc"@, "1"@, "--tbr"@, qs],
            Mode::CRF => seq!["--crf"@, qs],
            Mode::QP => seq!["--rc"@, "0"@, "--aq-mode"@, "0"@, "--qp"@, qs],
        },
        Encoder::X264 | Encoder::X265 => match m {
            Mode::Bitrate => seq!["--bitrate"@, qs],
            Mode::CRF => seq!["--crf"@, qs],
            Mode::QP => seq!["--qp"@, qs],
        },
    }
}

/// The pass bookkeeping arguments: present only for a multi-pass encode
/// with a stats file.
pub open spec fn spec_pass_args(e: Encoder, pass: Option<usize>, stats: Option<Seq<char>>) -> Seq<
    Seq<char>,
> {
    match (pass, stats) {
        (Some(p), Some(sf)) => match e {
            Encoder::Aomenc | Encoder::Vpxenc => seq![
                "--passes=2"@,
                "--pass="@ + spec_dec(p as nat),
                "--fpf="@ + sf,
            ],
            Encoder::Rav1e => seq![
                if p == 1 {
                    "--first-pass"@
                } else {
                    "--second-pass"@
                },
                sf,
            ],
            Encoder::SvtAv1 | Encoder::X264 | Encoder::X265 => seq![
                "--pass"@,
                spec_dec(p as nat),
                "--stats"@,
                sf,
            ],
        },
        _ => Seq::empty(),
    }
}

/// The trailing output/input arguments.
pub open spec fn spec_output_args(e: Encoder, output: Seq<char>) -> Seq<Seq<char>> {
    match e {
        Encoder::SvtAv1 => seq!["-b"@, output, "-i"@, "-"@],
        _ => seq!["-o"@, output, "-"@],
    }
}

/// The whole argument vector for one pass of one probe.
pub open spec fn spec_arguments(
    e: Encoder,
    mode: Mode,
    preset: Seq<char>,
    kfi: nat,
    multipass: bool,
    pass: Option<usize>,
    output: Seq<char>,
    stats: Option<Seq<char>>,
    qp: int,
) -> Seq<Seq<char>> {
    spec_base_arguments(e, preset, kfi) + spec_tune_arguments(e, multipass) + spec_quality_args(
        e,
        mode,
        spec_qp_string(e, mode, qp),
    ) + spec_pass_args(e, pass, stats) + spec_output_args(e, output)
}

impl Encoder {
    /// The full argument vector handed to this codec's executable for one
    /// pass at grid quality `qp`.
    #[verifier::rlimit(100)]
    pub fn arguments(
        &self,
        config: &Config,
        preset: &str,
        key_frame_interval: usize,
        pass: Option<usize>,
        output_file: &str,
        stats_file: Option<&str>,
        mode: Mode,
        qp: i64,
    ) -> (r: Vec<String>)
        requires
            !(*self == Encoder::Rav1e && mode == Mode::CRF),
            -1_000_000_000 <= qp <= 1_000_000_000,
        ensures
            seq_views(r@) =~= spec_arguments(
                *self,
                mode,
                preset@,
                key_frame_interval as nat,
                spec_passes(*self, config.mode) > 1,
                pass,
                output_file@,
                match stats_file {
                    Some(sf) => Some(sf@),
                    None => None,
                },
                qp as int,
            ),
    {
        let mut arguments = self.base_arguments(preset, key_frame_interval);
        let mut tune = self.tune_arguments(config);
        arguments.append(&mut tune);

        // Quality arguments
        let range = self.quality_range(&mode);
        let qp_string: String = if mode == Mode::Bitrate {
            proof {
                assert(-100_000_000_000 <= qp * range.spec_divisor() <= 100_000_000_000)
                    by (nonlinear_arith)
                    requires
                        -1_000_000_000 <= qp <= 1_000_000_000,
                        1 <= range.spec_divisor() <= 100,
                ;
            }
            i64_dec(qp * range.divisor())
        } else if range.divisor() == 1 {
            i64_dec(qp)
        } else {
            proof {
                assert(-100_000_000_000 <= qp * 100 <= 100_000_000_000) by (nonlinear_arith)
                    requires
                        -1_000_000_000 <= qp <= 1_000_000_000,
                ;
            }
            let h = crate::quality::div_trunc(qp * 100, range.divisor());
            fixed2(h, 0)
        };

        match self {
            Encoder::Aomenc | Encoder::Vpxenc => match mode {
                Mode::Bitrate => {
                    arguments.push("--end-usage=vbr".to_owned());
                    arguments.push("--target-bitrate=".to_owned().concat(qp_string.as_str()));
                    arguments.push("--bias-pct=100".to_owned());
                },
                Mode::CRF | Mode::QP => {
                    arguments.push("--end-usage=q".to_owned());
                    arguments.push("--cq-level=".to_owned().concat(qp_string.as_str()));
                    if mode == Mode::QP {
                        arguments.push("--min-q=".to_owned().concat(qp_string.as_str()));
                        arguments.push("--max-q=".to_owned().concat(qp_string.as_str()));
                        arguments.push("-y".to_owned());
                    }
                },
            },
            Encoder::Rav1e => match mode {
                Mode::Bitrate => {
                    arguments.push("--bitrate".to_owned());
                    arguments.push(qp_string.clone());
                },
                Mode::CRF => {},
                Mode::QP => {
                    arguments.push("--quantizer".to_owned());
                    arguments.push(qp_string.clone());
                },
            },
            Encoder::SvtAv1 => {
                match mode {
                    Mode::Bitrate => {
                        arguments.push("--rc".to_owned());
                        arguments.push("1".to_owned());
                        arguments.push("--tbr".to_owned());
                    },
                    Mode::CRF => {
                        arguments.push("--crf".to_owned());
                    },
                    Mode::QP => {
                        arguments.push("--rc".to_owned());
                        arguments.push("0".to_owned());
                        arguments.push("--aq-mode".to_owned());
                        arguments.push("0".to_owned());
                        arguments.push("--qp".to_owned());
                    },
                }
                arguments.push(qp_string.clone());
            },
            Encoder::X264 | Encoder::X265 => {
                match mode {
                    Mode::Bitrate => {
                        arguments.push("--bitrate".to_owned());
                    },
                    Mode::CRF => {
                        arguments.push("--crf".to_owned());
                    },
                    Mode::QP => {
                        arguments.push("--qp".to_owned());
                    },
                }
                arguments.push(qp_string.clone());
            },
        }

        // Pass arguments
        if let Some(pass_number) = pass {
            if let Some(sf) = stats_file {
                match self {
                    Encoder::Aomenc | Encoder::Vpxenc => {
                        arguments.push("--passes=2".to_owned());
                        arguments.push(
                            "--pass=".to_owned().concat(
                                u64_dec(pass_number as u64).as_str(),
                            ),
                        );
                        arguments.push("--fpf=".to_owned().concat(sf));
                    },
                    Encoder::Rav1e => {
                        if pass_number == 1 {
                            arguments.push("--first-pass".to_owned());
                        } else {
                            arguments.push("--second-pass".to_owned());
                        }
                        arguments.push(sf.to_owned());
                    },
                    Encoder::SvtAv1 | Encoder::X264 | Encoder::X265 => {
                        arguments.push("--pass".to_owned());
                        arguments.push(u64_dec(pass_number as u64));
                        arguments.push("--stats".to_owned());
                        arguments.push(sf.to_owned());
                    },
                }
            }
        }

        // Output arguments
        match self {
            Encoder::SvtAv1 => {
                arguments.push("-b".to_owned());
                arguments.push(output_file.to_owned());
                arguments.push("-i".to_owned());
                arguments.push("-".to_owned());
            },
            _ => {
                arguments.push("-o".to_owned());
                arguments.push(output_file.to_owned());
                arguments.push("-".to_owned());
            },
        }

        arguments
    }
}

/// The immutable user configuration, shared by every component. Fractional
/// inputs (the quality target and the percentile) are held in thousandths.
#[derive(Clone)]
pub struct Config {
    pub encoder: Encoder,
    pub preset: String,
    pub workers: usize,
    pub mode: Mode,
    pub metric: Metric,
    pub rule: QualityRule,
    pub use_mean: bool,
    pub percentile_milli: i64,
    pub quality_milli: i64,
    pub source: String,
    pub output_directory: String,
}

/// A configuration the driver refuses before doing any work.
#[derive(Copy, Clone, Debug, PartialEq, Eq, Structural)]
pub enum ConfigError {
    Rav1eCrfUnsupported,
}

impl ConfigError {
    /// The message shown to the user.
    pub fn message(&self) -> (r: String)
        ensures
            r@ == "rav1e does not currently support CRF mode. Use QP mode instead."@,
    {
        "rav1e does not currently support CRF mode. Use QP mode instead.".to_owned()
    }
}

/// The hash inside the cache identifier.
pub open spec fn spec_args_hash(c: Config) -> Seq<char> {
    spec_hex_lower(
        sha256_digest(
            vstd::utf8::encode_utf8(
                spec_join_spaces(
                    spec_tune_arguments(c.encoder, spec_passes(c.encoder, c.mode) > 1),
                ),
            ),
        ),
    )
}

/// The quality discriminator inside an identifier: the percentile as a
/// number, or the word "mean".
pub open spec fn spec_percentile_part(c: Config) -> Seq<char> {
    if c.use_mean {
        "mean"@
    } else {
        spec_milli(c.percentile_milli as int)
    }
}

/// The cache identifier: every durable artifact of a run is named by it.
pub open spec fn spec_encode_identifier(c: Config, include_quality: bool) -> Seq<char> {
    let head = spec_encoder_name(c.encoder) + "-"@ + c.preset@ + "-"@ + spec_mode_name(c.mode);
    let tail = "unconstrained-"@ + spec_args_hash(c);
    if include_quality {
        if c.metric == Metric::Direct {
            head + "-"@ + spec_milli(c.quality_milli as int) + "-"@ + tail
        } else {
            head + "-"@ + spec_metric_name(c.metric) + "-"@ + spec_quality_rule_name(c.rule)
                + "-"@ + spec_milli(c.quality_milli as int) + "-"@ + spec_percentile_part(c)
                + "-"@ + tail
        }
    } else {
        head + "-"@ + tail
    }
}

impl Config {
    /// Rejects the configurations the driver cannot serve, before any work.
    pub fn validate(&self) -> (r: Result<(), ConfigError>)
        ensures
            r is Err <==> (self.encoder == Encoder::Rav1e && self.mode == Mode::CRF),
            r matches Err(e) ==> e == ConfigError::Rav1eCrfUnsupported,
    {
        if self.encoder == Encoder::Rav1e && self.mode == Mode::CRF {
            Err(ConfigError::Rav1eCrfUnsupported)
        } else {
            Ok(())
        }
    }

    /// How many passes each probe runs.
    pub fn passes(&self) -> (r: usize)
        ensures
            r == spec_passes(self.encoder, self.mode),
    {
        self.encoder.passes(self)
    }

    /// The hash of the tune arguments, as it appears inside identifiers.
    fn encode_arguments_hash(&self) -> (r: String)
        ensures
            r@ == spec_args_hash(*self),
    {
        let tune = self.encoder.tune_arguments(self);
        let joined = join_spaces(&tune);
        sha256_hex(joined.as_str())
    }

    /// The identifier naming this configuration's artifacts, with or without
    /// the quality discriminator.
    pub fn encode_identifier(&self, include_quality: bool) -> (r: String)
        requires
            self.quality_milli > i64::MIN,
            self.percentile_milli > i64::MIN,
        ensures
            r@ == spec_encode_identifier(*self, include_quality),
    {
        let mut s = self.encoder.name();
        s.append("-");
        s.append(self.preset.as_str());
        s.append("-");
        let mode = self.mode.name();
        s.append(mode.as_str());
        if include_quality {
            if !(self.metric == Metric::Direct) {
                s.append("-");
                let metric = self.metric.name();
                s.append(metric.as_str());
                s.append("-");
                let rule = self.rule.name();
                s.append(rule.as_str());
            }
            s.append("-");
            let quality = milli_string(self.quality_milli);
            s.append(quality.as_str());
            if !(self.metric == Metric::Direct) {
                s.append("-");
                if self.use_mean {
                    s.append("mean");
                } else {
                    let pct = milli_string(self.percentile_milli);
                    s.append(pct.as_str());
                }
            }
        }
        s.append("-");
        s.append("unconstrained-");
        let hash = self.encode_arguments_hash();
        s.append(hash.as_str());
        proof {
            assert(s@ =~= spec_encode_identifier(*self, include_quality));
        }
        s
    }

    /// The capitalised name of the quality axis, for reports.
    pub fn mode_description(&self) -> (r: String)
        ensures
            r@ == match self.mode {
                Mode::Bitrate => "Bitrate"@,
                Mode::CRF => "CRF"@,
                Mode::QP => "QP"@,
            },
    {
        match self.mode {
            Mode::Bitrate => "Bitrate".to_owned(),
            Mode::CRF => "CRF".to_owned(),
            Mode::QP => "QP".to_owned(),
        }
    }
}

} // verus!
