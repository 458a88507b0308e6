//! The exact names of the driver's durable artifacts and the argument
//! strings of its helper processes: per-scene clip names with zero-padded
//! indices, per-quality output names, metric sidecar paths, the raw-frame
//! decoder's argument vector, the metric filter graph, and the crop filter.

use vstd::prelude::*;

use crate::config::{spec_extension, spec_mode_name, spec_qr_divisor, Encoder, Mode};
use crate::quality::{div_trunc, half_div};
use crate::text::{fixed2, spec_dec, spec_fixed2, spec_zero_pad, u64_dec, zero_pad};

verus! {

/// The name of scene `index`'s lossless source clip.
pub open spec fn spec_scene_source_filename(index: nat) -> Seq<char> {
    "scene-"@ + spec_zero_pad(index, 5) + ".mkv"@
}

/// Builds `scene-NNNNN.mkv`, the lossless clip of one scene.
pub fn scene_source_filename(index: usize) -> (r: String)
    ensures
        r@ == spec_scene_source_filename(index as nat),
{
    let mut s = String::new();
    s.append("scene-");
    let pad = zero_pad(index as u64, 5);
    s.append(pad.as_str());
    s.append(".mkv");
    proof {
        assert(s@ =~= spec_scene_source_filename(index as nat));
    }
    s
}

/// Builds `scene-NNNNN.tmp.mkv`, the in-flight name the splitter renames
/// from once a scene's clip is complete.
pub fn scene_temp_filename(index: usize) -> (r: String)
    ensures
        r@ == "scene-"@ + spec_zero_pad(index as nat, 5) + ".tmp.mkv"@,
{
    let mut s = String::new();
    s.append("scene-");
    let pad = zero_pad(index as u64, 5);
    s.append(pad.as_str());
    s.append(".tmp.mkv");
    proof {
        assert(s@ =~= "scene-"@ + spec_zero_pad(index as nat, 5) + ".tmp.mkv"@);
    }
    s
}

/// Builds `scene-NNNNN`, the per-scene directory under the encode root.
pub fn scene_directory_name(index: usize) -> (r: String)
    ensures
        r@ == "scene-"@ + spec_zero_pad(index as nat, 5),
{
    let mut s = String::new();
    s.append("scene-");
    let pad = zero_pad(index as u64, 5);
    s.append(pad.as_str());
    proof {
        assert(s@ =~= "scene-"@ + spec_zero_pad(index as nat, 5));
    }
    s
}

/// The rendering of a grid quality value inside a file name: integer axes
/// zero-padded to three digits (six for bitrates) in user units, fractional
/// axes with two decimals padded to five characters.
pub open spec fn spec_quality_file_value(e: Encoder, m: Mode, qp: int) -> Seq<char> {
    let divisor = spec_qr_divisor(e, m);
    if m == Mode::Bitrate || divisor == 1 {
        let user = if m == Mode::Bitrate {
            qp * divisor
        } else {
            qp
        };
        let digits: nat = if m == Mode::Bitrate {
            6
        } else {
            3
        };
        if user < 0 {
            seq!['-'] + spec_zero_pad((-user) as nat, (digits - 1) as nat)
        } else {
            spec_zero_pad(user as nat, digits)
        }
    } else {
        spec_fixed2(half_div(qp * 100, divisor), 5)
    }
}

/// The base name (no extension) of the clip encoded at grid quality `qp`:
/// the mode's name, a dash, and the quality value.
pub open spec fn spec_base_output_filename(e: Encoder, m: Mode, qp: int) -> Seq<char> {
    spec_mode_name(m) + "-"@ + spec_quality_file_value(e, m, qp)
}

/// Builds the base output name, for example `qp-024` or `crf-23.25`.
pub fn base_output_filename(encoder: &Encoder, mode: Mode, qp: i64) -> (r: String)
    requires
        -1_000_000_000 <= qp <= 1_000_000_000,
    ensures
        r@ == spec_base_output_filename(*encoder, mode, qp as int),
{
    let range = encoder.quality_range(&mode);
    let mut s = mode.name();
    s.append("-");
    if mode == Mode::Bitrate || range.divisor() == 1 {
        let user: i64 = if mode == Mode::Bitrate {
            proof {
                assert(-100_000_000_000 <= qp * range.spec_divisor() <= 100_000_000_000)
                    by (nonlinear_arith)
                    requires
                        -1_000_000_000 <= qp <= 1_000_000_000,
                        1 <= range.spec_divisor() <= 100,
                ;
            }
            qp * range.divisor()
        } else {
            qp
        };
        let digits: usize = if mode == Mode::Bitrate {
            6
        } else {
            3
        };
        if user < 0 {
            s.append("-");
            let pad = zero_pad((-user) as u64, digits - 1);
            s.append(pad.as_str());
        } else {
            let pad = zero_pad(user as u64, digits);
            s.append(pad.as_str());
        }
    } else {
        proof {
            assert(-100_000_000_000 <= qp * 100 <= 100_000_000_000) by (nonlinear_arith)
                requires
                    -1_000_000_000 <= qp <= 1_000_000_000,
            ;
        }
        let h = div_trunc(qp * 100, range.divisor());
        let f = fixed2(h, 5);
        s.append(f.as_str());
    }
    proof {
        reveal_strlit("-");
        assert(s@ =~= spec_base_output_filename(*encoder, mode, qp as int));
    }
    s
}

/// Builds the final clip name: the base name with the codec's extension.
pub fn clip_output_filename(encoder: &Encoder, mode: Mode, qp: i64) -> (r: String)
    requires
        -1_000_000_000 <= qp <= 1_000_000_000,
    ensures
        r@ == spec_base_output_filename(*encoder, mode, qp as int) + "."@ + spec_extension(
            *encoder,
        ),
{
    let mut s = base_output_filename(encoder, mode, qp);
    s.append(".");
    let ext = encoder.extension();
    s.append(ext.as_str());
    proof {
        assert(s@ =~= spec_base_output_filename(*encoder, mode, qp as int) + "."@ + spec_extension(
            *encoder,
        ));
    }
    s
}

/// Builds the in-flight clip name the encoder writes before the atomic
/// rename: the base name, `.tmp.`, and the codec's extension.
pub fn clip_temp_filename(encoder: &Encoder, mode: Mode, qp: i64) -> (r: String)
    requires
        -1_000_000_000 <= qp <= 1_000_000_000,
    ensures
        r@ == spec_base_output_filename(*encoder, mode, qp as int) + ".tmp."@ + spec_extension(
            *encoder,
        ),
{
    let mut s = base_output_filename(encoder, mode, qp);
    s.append(".tmp.");
    let ext = encoder.extension();
    s.append(ext.as_str());
    proof {
        assert(s@ =~= spec_base_output_filename(*encoder, mode, qp as int) + ".tmp."@
            + spec_extension(*encoder));
    }
    s
}

/// Builds the multi-pass stats file name shared by both passes.
pub fn stats_filename(encoder: &Encoder, mode: Mode, qp: i64) -> (r: String)
    requires
        -1_000_000_000 <= qp <= 1_000_000_000,
    ensures
        r@ == spec_base_output_filename(*encoder, mode, qp as int) + ".stats.log"@,
{
    let mut s = base_output_filename(encoder, mode, qp);
    s.append(".stats.log");
    proof {
        assert(s@ =~= spec_base_output_filename(*encoder, mode, qp as int) + ".stats.log"@);
    }
    s
}

/// The characters before the final component's extension dot, or `None`
/// when the final path component has no extension.
pub open spec fn spec_stem_opt(s: Seq<char>) -> Option<Seq<char>>
    decreases s.len(),
{
    if s.len() == 0 {
        None
    } else if s.last() == '.' {
        Some(s.drop_last())
    } else if s.last() == '/' {
        None
    } else {
        spec_stem_opt(s.drop_last())
    }
}

/// A path with its final extension replaced by `ext` (or `ext` appended when
/// the final component has none): how a clip's sidecar names are derived
/// from the clip's own name.
pub open spec fn spec_replace_extension(s: Seq<char>, ext: Seq<char>) -> Seq<char> {
    match spec_stem_opt(s) {
        Some(stem) => stem + seq!['.'] + ext,
        None => s + seq!['.'] + ext,
    }
}

/// Finds where the final component's extension starts, scanning backwards
/// from `j`.
fn find_stem_end_from(path: &str, j: usize) -> (r: Option<usize>)
    requires
        j <= path@.len(),
        spec_stem_opt(path@) == spec_stem_opt(path@.take(j as int)),
    ensures
        match r {
            Some(k) => k < path@.len() && spec_stem_opt(path@) == Some(path@.take(k as int)),
            None => spec_stem_opt(path@) is None,
        },
    decreases j,
{
    if j == 0 {
        proof {
            assert(path@.take(0) =~= Seq::<char>::empty());
        }
        None
    } else {
        let c = path.get_char(j - 1);
        proof {
            assert(path@.take(j as int).last() == path@[j - 1]);
            assert(path@.take(j as int).drop_last() =~= path@.take(j - 1));
        }
        if c == '.' {
            Some(j - 1)
        } else if c == '/' {
            None
        } else {
            find_stem_end_from(path, j - 1)
        }
    }
}

/// Replaces the path's final extension with `ext` (or appends one): the
/// metric sidecar of `qp-024.mkv` is `qp-024.metrics.json`.
pub fn replace_extension(path: &str, ext: &str) -> (r: String)
    ensures
        r@ == spec_replace_extension(path@, ext@),
{
    proof {
        assert(path@.take(path@.len() as int) =~= path@);
    }
    let n = path.unicode_len();
    let stem_end = find_stem_end_from(path, n);
    let mut s: String = match stem_end {
        Some(k) => {
            let stem = path.substring_char(0, k);
            proof {
                assert(stem@ =~= path@.take(k as int));
            }
            stem.to_owned()
        },
        None => path.to_owned(),
    };
    s.append(".");
    s.append(ext);
    proof {
        reveal_strlit(".");
        assert(s@ =~= spec_replace_extension(path@, ext@));
    }
    s
}

/// The raw-frame decoder's argument vector: decode `source` (optionally
/// through a filter chain) to ten-bit 4:2:0 frames in a streaming pipe
/// format on its standard output.
pub open spec fn spec_decode_arguments(source: Seq<char>, filter: Option<Seq<char>>) -> Seq<
    Seq<char>,
> {
    let head = seq!["-i"@, source];
    let mid = match filter {
        Some(f) => seq!["-vf"@, f],
        None => Seq::empty(),
    };
    let tail = seq![
        "-pix_fmt"@,
        "yuv420p10le"@,
        "-f"@,
        "yuv4mpegpipe"@,
        "-strict"@,
        "-1"@,
        "-"@,
    ];
    head + mid + tail
}

/// Builds the raw-frame decoder's argument vector.
pub fn decode_arguments(source: &str, filter: Option<&str>) -> (r: Vec<String>)
    ensures
        crate::text::seq_views(r@) =~= spec_decode_arguments(
            source@,
            match filter {
                Some(f) => Some(f@),
                None => None,
            },
        ),
{
    let mut r: Vec<String> = Vec::new();
    r.push("-i".to_owned());
    r.push(source.to_owned());
    if let Some(f) = filter {
        r.push("-vf".to_owned());
        r.push(f.to_owned());
    }
    r.push("-pix_fmt".to_owned());
    r.push("yuv420p10le".to_owned());
    r.push("-f".to_owned());
    r.push("yuv4mpegpipe".to_owned());
    r.push("-strict".to_owned());
    r.push("-1".to_owned());
    r.push("-".to_owned());
    r
}

/// The filter-graph string of one reference/distorted metric run: align both
/// streams (applying the crop filter to the reference when one was
/// detected), then measure them into a JSON log.
pub open spec fn spec_metric_filter(
    original_filter: Option<Seq<char>>,
    log_path: Seq<char>,
    threads: nat,
) -> Seq<char> {
    let reference = match original_filter {
        Some(f) => "[0:v]"@ + f + ",setpts=PTS-STARTPTS[reference]"@,
        None => "[0:v]"@ + "setpts=PTS-STARTPTS[reference]"@,
    };
    reference + ";"@ + "[1:v]setpts=PTS-STARTPTS[distorted]"@ + ";"@
        + "[distorted][reference]libvmaf=log_fmt=json:log_path="@ + log_path + ":n_threads="@
        + spec_dec(threads) + ":feature=name=psnr|name=float_ssim"@
}

/// Builds the metric run's filter-graph string.
pub fn metric_filter(original_filter: Option<&str>, log_path: &str, threads: usize) -> (r: String)
    ensures
        r@ == spec_metric_filter(
            match original_filter {
                Some(f) => Some(f@),
                None => None,
            },
            log_path@,
            threads as nat,
        ),
{
    let mut s = String::new();
    s.append("[0:v]");
    if let Some(f) = original_filter {
        s.append(f);
        s.append(",setpts=PTS-STARTPTS[reference]");
    } else {
        s.append("setpts=PTS-STARTPTS[reference]");
    }
    s.append(";");
    s.append("[1:v]setpts=PTS-STARTPTS[distorted]");
    s.append(";");
    s.append("[distorted][reference]libvmaf=log_fmt=json:log_path=");
    s.append(log_path);
    s.append(":n_threads=");
    let t = u64_dec(threads as u64);
    s.append(t.as_str());
    s.append(":feature=name=psnr|name=float_ssim");
    proof {
        assert(s@ =~= spec_metric_filter(
            match original_filter {
                Some(f) => Some(f@),
                None => None,
            },
            log_path@,
            threads as nat,
        ));
    }
    s
}

/// The crop filter recorded by the metadata probe: `crop=W:H:X:Y`.
pub open spec fn spec_crop_filter(w: nat, h: nat, x: nat, y: nat) -> Seq<char> {
    "crop="@ + spec_dec(w) + ":"@ + spec_dec(h) + ":"@ + spec_dec(x) + ":"@ + spec_dec(y)
}

/// Builds the crop filter string from the detected rectangle.
pub fn crop_filter(w: u64, h: u64, x: u64, y: u64) -> (r: String)
    ensures
        r@ == spec_crop_filter(w as nat, h as nat, x as nat, y as nat),
{
    let mut s = String::new();
    s.append("crop=");
    let ws = u64_dec(w);
    s.append(ws.as_str());
    s.append(":");
    let hs = u64_dec(h);
    s.append(hs.as_str());
    s.append(":");
    let xs = u64_dec(x);
    s.append(xs.as_str());
    s.append(":");
    let ys = u64_dec(y);
    s.append(ys.as_str());
    proof {
        assert(s@ =~= spec_crop_filter(w as nat, h as nat, x as nat, y as nat));
    }
    s
}

} // verus!
