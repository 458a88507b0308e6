//! The per-clip metric record and the numeric reductions reporting needs:
//! packet sizes, duration, per-frame metric vectors (held in thousandths of
//! a metric unit), moving sums for bitrate analysis, and the small pieces of
//! arithmetic the engine shares between workers.
//!
//! The record's invariant is the metric-store contract: every per-frame
//! vector it holds is exactly one value per frame of the clip.

use vstd::prelude::*;

use crate::config::Metric;

verus! {

/// A lazily populated record for one encoded clip. Fields are `None` until
/// the corresponding probe has run; present fields can be trusted.
pub struct ClipMetrics {
    path: String,
    original_path: String,
    original_filter: Option<String>,
    duration_micros: Option<u64>,
    sizes: Option<Vec<u64>>,
    psnr: Option<Vec<i64>>,
    ssim: Option<Vec<i64>>,
    vmaf: Option<Vec<i64>>,
    ssimulacra2: Option<Vec<i64>>,
}

impl ClipMetrics {
    pub closed spec fn spec_path(self) -> Seq<char> {
        self.path@
    }

    pub closed spec fn spec_original_path(self) -> Seq<char> {
        self.original_path@
    }

    pub closed spec fn spec_duration_micros(self) -> Option<u64> {
        self.duration_micros
    }

    pub closed spec fn spec_sizes(self) -> Option<Seq<u64>> {
        match self.sizes {
            Some(v) => Some(v@),
            None => None,
        }
    }

    pub closed spec fn spec_psnr(self) -> Option<Seq<i64>> {
        match self.psnr {
            Some(v) => Some(v@),
            None => None,
        }
    }

    pub closed spec fn spec_ssim(self) -> Option<Seq<i64>> {
        match self.ssim {
            Some(v) => Some(v@),
            None => None,
        }
    }

    pub closed spec fn spec_vmaf(self) -> Option<Seq<i64>> {
        match self.vmaf {
            Some(v) => Some(v@),
            None => None,
        }
    }

    pub closed spec fn spec_ssimulacra2(self) -> Option<Seq<i64>> {
        match self.ssimulacra2 {
            Some(v) => Some(v@),
            None => None,
        }
    }

    /// The number of frames of the clip, once the sizes are known: one
    /// packet per frame.
    pub open spec fn spec_frames(self) -> Option<int> {
        match self.spec_sizes() {
            Some(s) => Some(s.len() as int),
            None => None,
        }
    }

    /// The metric-store invariant: whenever both the packet sizes and a
    /// per-frame metric vector are present, the vector holds exactly one
    /// value per frame.
    pub open spec fn wf(self) -> bool {
        match self.spec_sizes() {
            Some(s) => {
                &&& (self.spec_psnr() matches Some(v) ==> v.len() == s.len())
                &&& (self.spec_ssim() matches Some(v) ==> v.len() == s.len())
                &&& (self.spec_vmaf() matches Some(v) ==> v.len() == s.len())
                &&& (self.spec_ssimulacra2() matches Some(v) ==> v.len() == s.len())
            },
            None => true,
        }
    }

    /// An empty record for the clip at `path`, measured against the source
    /// clip at `original_path` (optionally pre-filtered for crop alignment).
    pub fn new(path: String, original_path: String, original_filter: Option<String>) -> (r: Self)
        ensures
            r.wf(),
            r.spec_path() == path@,
            r.spec_original_path() == original_path@,
            r.spec_duration_micros() is None,
            r.spec_sizes() is None,
            r.spec_psnr() is None,
            r.spec_ssim() is None,
            r.spec_vmaf() is None,
            r.spec_ssimulacra2() is None,
    {
        ClipMetrics {
            path,
            original_path,
            original_filter,
            duration_micros: None,
            sizes: None,
            psnr: None,
            ssim: None,
            vmaf: None,
            ssimulacra2: None,
        }
    }

    /// The clip's path: also the sort key that restores scene order.
    pub fn path(&self) -> (r: &String)
        ensures
            r@ == self.spec_path(),
    {
        &self.path
    }

    /// The source clip's path.
    pub fn original_path(&self) -> (r: &String)
        ensures
            r@ == self.spec_original_path(),
    {
        &self.original_path
    }

    /// The clip's duration in microseconds, if probed.
    pub fn duration_micros(&self) -> (r: Option<u64>)
        ensures
            r == self.spec_duration_micros(),
    {
        self.duration_micros
    }

    /// The per-packet byte sizes, if probed.
    pub fn sizes(&self) -> (r: Option<&Vec<u64>>)
        ensures
            r is Some <==> self.spec_sizes() is Some,
            r matches Some(v) ==> Some(v@) == self.spec_sizes(),
    {
        self.sizes.as_ref()
    }

    /// The number of frames, once the sizes are known.
    pub fn frames(&self) -> (r: Option<usize>)
        ensures
            r is Some <==> self.spec_frames() is Some,
            r matches Some(n) ==> Some(n as int) == self.spec_frames(),
    {
        match self.sizes.as_ref() {
            Some(v) => Some(v.len()),
            None => None,
        }
    }

    /// Per-frame PSNR in thousandths, if probed.
    pub fn psnr(&self) -> (r: Option<&Vec<i64>>)
        ensures
            r is Some <==> self.spec_psnr() is Some,
            r matches Some(v) ==> Some(v@) == self.spec_psnr(),
    {
        self.psnr.as_ref()
    }

    /// Per-frame SSIM in thousandths, if probed.
    pub fn ssim(&self) -> (r: Option<&Vec<i64>>)
        ensures
            r is Some <==> self.spec_ssim() is Some,
            r matches Some(v) ==> Some(v@) == self.spec_ssim(),
    {
        self.ssim.as_ref()
    }

    /// Per-frame VMAF in thousandths, if probed.
    pub fn vmaf(&self) -> (r: Option<&Vec<i64>>)
        ensures
            r is Some <==> self.spec_vmaf() is Some,
            r matches Some(v) ==> Some(v@) == self.spec_vmaf(),
    {
        self.vmaf.as_ref()
    }

    /// Per-frame SSIMULACRA2 in thousandths, if probed.
    pub fn ssimulacra2(&self) -> (r: Option<&Vec<i64>>)
        ensures
            r is Some <==> self.spec_ssimulacra2() is Some,
            r matches Some(v) ==> Some(v@) == self.spec_ssimulacra2(),
    {
        self.ssimulacra2.as_ref()
    }

    /// Records the duration probe's result.
    pub fn set_duration_micros(&mut self, duration: u64)
        requires
            old(self).wf(),
        ensures
            final(self).wf(),
            final(self).spec_duration_micros() == Some(duration),
            final(self).spec_path() == old(self).spec_path(),
            final(self).spec_original_path() == old(self).spec_original_path(),
            final(self).spec_sizes() == old(self).spec_sizes(),
            final(self).spec_psnr() == old(self).spec_psnr(),
            final(self).spec_ssim() == old(self).spec_ssim(),
            final(self).spec_vmaf() == old(self).spec_vmaf(),
            final(self).spec_ssimulacra2() == old(self).spec_ssimulacra2(),
    {
        self.duration_micros = Some(duration);
    }

    /// Whether a vector of `len` values would be one value per frame.
    fn accepts_len(&self, len: usize) -> (r: bool)
        ensures
            r == match self.spec_sizes() {
                Some(s) => len == s.len(),
                None => true,
            },
    {
        match self.sizes.as_ref() {
            Some(s) => len == s.len(),
            None => true,
        }
    }

    /// Records the packet sizes. Refused (leaving the record unchanged) if a
    /// metric vector already present disagrees with the frame count.
    pub fn set_sizes(&mut self, sizes: Vec<u64>) -> (accepted: bool)
        requires
            old(self).wf(),
        ensures
            final(self).wf(),
            accepted <==> {
                &&& (old(self).spec_psnr() matches Some(v) ==> v.len() == sizes@.len())
                &&& (old(self).spec_ssim() matches Some(v) ==> v.len() == sizes@.len())
                &&& (old(self).spec_vmaf() matches Some(v) ==> v.len() == sizes@.len())
                &&& (old(self).spec_ssimulacra2() matches Some(v) ==> v.len() == sizes@.len())
            },
            accepted ==> final(self).spec_sizes() == Some(sizes@),
            !accepted ==> *final(self) == *old(self),
            final(self).spec_path() == old(self).spec_path(),
            final(self).spec_original_path() == old(self).spec_original_path(),
            final(self).spec_duration_micros() == old(self).spec_duration_micros(),
            final(self).spec_psnr() == old(self).spec_psnr(),
            final(self).spec_ssim() == old(self).spec_ssim(),
            final(self).spec_vmaf() == old(self).spec_vmaf(),
            final(self).spec_ssimulacra2() == old(self).spec_ssimulacra2(),
    {
        let n = sizes.len();
        let ok = (match self.psnr.as_ref() {
            Some(v) => v.len() == n,
            None => true,
        }) && (match self.ssim.as_ref() {
            Some(v) => v.len() == n,
            None => true,
        }) && (match self.vmaf.as_ref() {
            Some(v) => v.len() == n,
            None => true,
        }) && (match self.ssimulacra2.as_ref() {
            Some(v) => v.len() == n,
            None => true,
        });
        if ok {
            self.sizes = Some(sizes);
            true
        } else {
            false
        }
    }

    /// Records the per-frame PSNR, SSIM and VMAF vectors one metric probe
    /// produces together. Refused if the frame count disagrees with the
    /// sizes already present.
    pub fn set_frame_metrics(&mut self, psnr: Vec<i64>, ssim: Vec<i64>, vmaf: Vec<i64>) -> (accepted:
        bool)
        requires
            old(self).wf(),
        ensures
            final(self).wf(),
            accepted <==> (psnr@.len() == ssim@.len() == vmaf@.len() && match old(
                self,
            ).spec_sizes() {
                Some(s) => psnr@.len() == s.len(),
                None => true,
            }),
            accepted ==> final(self).spec_psnr() == Some(psnr@) && final(self).spec_ssim() == Some(
                ssim@,
            ) && final(self).spec_vmaf() == Some(vmaf@),
            !accepted ==> *final(self) == *old(self),
            final(self).spec_path() == old(self).spec_path(),
            final(self).spec_original_path() == old(self).spec_original_path(),
            final(self).spec_duration_micros() == old(self).spec_duration_micros(),
            final(self).spec_sizes() == old(self).spec_sizes(),
            final(self).spec_ssimulacra2() == old(self).spec_ssimulacra2(),
    {
        let n = psnr.len();
        if ssim.len() == n && vmaf.len() == n && self.accepts_len(n) {
            self.psnr = Some(psnr);
            self.ssim = Some(ssim);
            self.vmaf = Some(vmaf);
            true
        } else {
            false
        }
    }

    /// Records the per-frame SSIMULACRA2 vector. Refused if the frame count
    /// disagrees with the sizes already present.
    pub fn set_ssimulacra2(&mut self, values: Vec<i64>) -> (accepted: bool)
        requires
            old(self).wf(),
        ensures
            final(self).wf(),
            accepted <==> match old(self).spec_sizes() {
                Some(s) => values@.len() == s.len(),
                None => true,
            },
            accepted ==> final(self).spec_ssimulacra2() == Some(values@),
            !accepted ==> *final(self) == *old(self),
            final(self).spec_path() == old(self).spec_path(),
            final(self).spec_original_path() == old(self).spec_original_path(),
            final(self).spec_duration_micros() == old(self).spec_duration_micros(),
            final(self).spec_sizes() == old(self).spec_sizes(),
            final(self).spec_psnr() == old(self).spec_psnr(),
            final(self).spec_ssim() == old(self).spec_ssim(),
            final(self).spec_vmaf() == old(self).spec_vmaf(),
    {
        if self.accepts_len(values.len()) {
            self.ssimulacra2 = Some(values);
            true
        } else {
            false
        }
    }
}

/// What one run accumulates for the final report: one entry per completed
/// scene.
pub struct EncodeStatistics {
    scene_lengths: Vec<u64>,
    qualities: Vec<i64>,
}

impl EncodeStatistics {
    pub closed spec fn spec_scene_lengths(self) -> Seq<u64> {
        self.scene_lengths@
    }

    pub closed spec fn spec_qualities(self) -> Seq<i64> {
        self.qualities@
    }

    /// Both series grow in step: one scene, one length, one chosen quality.
    pub open spec fn wf(self) -> bool {
        self.spec_scene_lengths().len() == self.spec_qualities().len()
    }

    /// An empty record.
    pub fn new() -> (r: Self)
        ensures
            r.wf(),
            r.spec_scene_lengths().len() == 0,
            r.spec_qualities().len() == 0,
    {
        EncodeStatistics { scene_lengths: Vec::new(), qualities: Vec::new() }
    }

    /// Appends one completed scene's length and chosen grid quality.
    pub fn record(&mut self, scene_length: u64, quality: i64)
        requires
            old(self).wf(),
        ensures
            final(self).wf(),
            final(self).spec_scene_lengths() == old(self).spec_scene_lengths().push(scene_length),
            final(self).spec_qualities() == old(self).spec_qualities().push(quality),
    {
        self.scene_lengths.push(scene_length);
        self.qualities.push(quality);
    }

    /// The recorded scene lengths.
    pub fn scene_lengths(&self) -> (r: &Vec<u64>)
        ensures
            r@ == self.spec_scene_lengths(),
    {
        &self.scene_lengths
    }

    /// The recorded chosen qualities, on the grid.
    pub fn qualities(&self) -> (r: &Vec<i64>)
        ensures
            r@ == self.spec_qualities(),
    {
        &self.qualities
    }
}

/// The sum of `data[from .. to]`.
pub open spec fn spec_range_sum(data: Seq<u64>, from: int, to: int) -> int
    decreases to - from,
{
    if from >= to {
        0
    } else {
        data[from] + spec_range_sum(data, from + 1, to)
    }
}

/// A sum of at most `count` values each at most `bound` stays small.
proof fn lemma_range_sum_bound(data: Seq<u64>, from: int, to: int, bound: int)
    requires
        0 <= from,
        to <= data.len(),
        forall|i: int| 0 <= i < data.len() ==> (#[trigger] data[i]) as int <= bound,
        bound >= 0,
    ensures
        0 <= spec_range_sum(data, from, to),
        spec_range_sum(data, from, to) <= (if to >= from {
            (to - from) * bound
        } else {
            0
        }),
    decreases to - from,
{
    if from < to {
        lemma_range_sum_bound(data, from + 1, to, bound);
        assert((to - from) * bound == (to - from - 1) * bound + bound) by (nonlinear_arith);
    }
}

/// The sliding sums over every full window of `window` consecutive values:
/// entry `j` is the sum of `data[j .. j + window]`. Empty when the window is
/// longer than the data.
pub fn moving_sum(data: &Vec<u64>, window: usize) -> (r: Vec<u64>)
    requires
        data@.len() <= 0x7fff_ffff,
        forall|i: int| 0 <= i < data@.len() ==> (#[trigger] data@[i]) <= 0xffff_ffff,
    ensures
        window <= data@.len() ==> r@.len() == data@.len() - window + 1,
        window > data@.len() ==> r@.len() == 0,
        forall|j: int|
            0 <= j < r@.len() ==> (#[trigger] r@[j]) as int == spec_range_sum(
                data@,
                j,
                j + window,
            ),
{
    let mut r: Vec<u64> = Vec::new();
    if window > data.len() {
        return r;
    }
    let count = data.len() - window + 1;
    let mut j: usize = 0;
    while j < count
        invariant
            data@.len() <= 0x7fff_ffff,
            forall|i: int| 0 <= i < data@.len() ==> (#[trigger] data@[i]) <= 0xffff_ffff,
            window <= data@.len(),
            count == data@.len() - window + 1,
            j <= count,
            r@.len() == j,
            forall|k: int|
                0 <= k < j ==> (#[trigger] r@[k]) as int == spec_range_sum(data@, k, k + window),
        decreases count - j,
    {
        let mut acc: u64 = 0;
        let mut k: usize = j;
        proof {
            lemma_range_sum_bound(data@, j as int, (j + window) as int, 0xffff_ffff);
        }
        while k < j + window
            invariant
                data@.len() <= 0x7fff_ffff,
                forall|i: int| 0 <= i < data@.len() ==> (#[trigger] data@[i]) <= 0xffff_ffff,
                j + window <= data@.len(),
                j <= k <= j + window,
                acc as int == spec_range_sum(data@, j as int, k as int),
            decreases j + window - k,
        {
            proof {
                lemma_range_sum_prefix(data@, j as int, k as int, (j + window) as int);
                lemma_range_sum_bound(data@, j as int, (k + 1) as int, 0xffff_ffff);
                assert((k + 1 - j) * 0xffff_ffff <= 0x7fff_ffff * 0xffff_ffff)
                    by (nonlinear_arith)
                    requires
                        0 <= k + 1 - j <= 0x7fff_ffff,
                ;
            }
            acc = acc + data[k];
            k += 1;
        }
        r.push(acc);
        j += 1;
    }
    r
}

/// Extending a range sum by one element adds that element.
proof fn lemma_range_sum_prefix(data: Seq<u64>, from: int, mid: int, to: int)
    requires
        0 <= from <= mid < to <= data.len(),
    ensures
        spec_range_sum(data, from, mid + 1) == spec_range_sum(data, from, mid) + data[mid],
    decreases mid - from,
{
    if from < mid {
        lemma_range_sum_prefix(data, from + 1, mid, to);
    } else {
        assert(spec_range_sum(data, mid + 1, mid + 1) == 0);
        assert(spec_range_sum(data, mid, mid) == 0);
    }
}

/// The five moving-average window lengths of the bitrate report, in frames:
/// one, five, fifteen, thirty and sixty seconds at the source's average
/// frame rate (`frames / (duration_micros / 1_000_000)`), each rounded to
/// the nearest whole frame.
pub fn window_frame_counts(frames: u64, duration_micros: u64) -> (r: Vec<u64>)
    requires
        1 <= duration_micros <= 0x38d7ea4c68000,
        frames <= 1_000_000_000,
    ensures
        r@.len() == 5,
        forall|i: int|
            0 <= i < 5 ==> (#[trigger] r@[i]) as int == spec_window_frames(
                seq![1u64, 5u64, 15u64, 30u64, 60u64][i] as int,
                frames as int,
                duration_micros as int,
            ),
{
    let mut r: Vec<u64> = Vec::new();
    r.push(window_frames(1, frames, duration_micros));
    r.push(window_frames(5, frames, duration_micros));
    r.push(window_frames(15, frames, duration_micros));
    r.push(window_frames(30, frames, duration_micros));
    r.push(window_frames(60, frames, duration_micros));
    proof {
        assert(seq![1u64, 5u64, 15u64, 30u64, 60u64][0] == 1u64);
        assert(seq![1u64, 5u64, 15u64, 30u64, 60u64][1] == 5u64);
        assert(seq![1u64, 5u64, 15u64, 30u64, 60u64][2] == 15u64);
        assert(seq![1u64, 5u64, 15u64, 30u64, 60u64][3] == 30u64);
        assert(seq![1u64, 5u64, 15u64, 30u64, 60u64][4] == 60u64);
    }
    r
}

/// `seconds` seconds of source at the average frame rate, rounded to the
/// nearest whole frame (half rounds up).
pub open spec fn spec_window_frames(seconds: int, frames: int, duration_micros: int) -> int {
    (2 * seconds * frames * 1_000_000 + duration_micros) / (2 * duration_micros)
}

/// One moving-average window in frames.
pub fn window_frames(seconds: u64, frames: u64, duration_micros: u64) -> (r: u64)
    requires
        1 <= duration_micros <= 0x38d7ea4c68000,
        frames <= 1_000_000_000,
        seconds <= 60,
    ensures
        r as int == spec_window_frames(seconds as int, frames as int, duration_micros as int),
{
    proof {
        assert((2 * seconds as int) * frames as int <= 120_000_000_000) by (nonlinear_arith)
            requires
                seconds <= 60,
                frames <= 1_000_000_000,
        ;
    }
    let numerator: u64 = 2 * seconds * frames;
    proof {
        assert(numerator as int * 1_000_000 == 2 * (seconds as int) * (frames as int) * 1_000_000)
            by (nonlinear_arith)
            requires
                numerator as int == 2 * (seconds as int) * (frames as int),
        ;
    }
    (numerator * 1_000_000 + duration_micros) / (2 * duration_micros)
}

/// How many metric-computation threads one probe may use: the worker budget
/// split evenly over the workers still alive; the last worker gets the whole
/// budget.
pub fn probe_threads(workers: usize, active_workers: usize) -> (r: usize)
    requires
        active_workers >= 1,
    ensures
        r == workers as int / active_workers as int,
{
    workers / active_workers
}

/// The key-frame interval handed to every encoder: one key frame roughly
/// every five seconds of source, rounded to the nearest frame (half rounds
/// up): `round(frame_count * 5 / duration_seconds)`.
pub fn key_frame_interval(frame_count: u64, duration_micros: u64) -> (r: u64)
    requires
        1 <= duration_micros <= 0x38d7ea4c68000,
        frame_count <= 1_000_000_000,
    ensures
        r as int == (frame_count as int * 10_000_000 + duration_micros as int) / (2
            * duration_micros as int),
{
    (frame_count * 10_000_000 + duration_micros) / (2 * duration_micros)
}

/// The per-frame bitrate of one packet, in thousandths of a bit per second:
/// the packet's bits divided by one frame's share of the clip's duration.
pub open spec fn spec_frame_bitrate_milli(size: int, frames: int, duration_micros: int) -> int {
    size * 8_000_000_000 * frames / duration_micros
}

/// The per-frame sample vector one probe reduces to a scalar: the requested
/// metric's vector, a single zero for the direct metric (whose searches
/// never probe), or the per-frame bitrates computed from packet sizes and
/// duration. `None` when the record does not hold what the metric needs
/// yet.
pub fn metric_samples(m: &ClipMetrics, metric: Metric) -> (r: Option<Vec<i64>>)
    requires
        m.wf(),
        match m.spec_sizes() {
            Some(s) => s.len() <= 0x7fff_ffff && forall|i: int|
                0 <= i < s.len() ==> (#[trigger] s[i]) <= 0xffff_ffff,
            None => true,
        },
        match m.spec_duration_micros() {
            Some(d) => d >= 1 && match m.spec_sizes() {
                Some(s) => d >= s.len() * 100,
                None => true,
            },
            None => true,
        },
    ensures
        match metric {
            Metric::Direct => r matches Some(v) && v@ =~= seq![0i64],
            Metric::PSNR => (r is Some <==> m.spec_psnr() is Some) && (r matches Some(v)
                ==> Some(v@) == m.spec_psnr()),
            Metric::SSIM => (r is Some <==> m.spec_ssim() is Some) && (r matches Some(v)
                ==> Some(v@) == m.spec_ssim()),
            Metric::VMAF => (r is Some <==> m.spec_vmaf() is Some) && (r matches Some(v)
                ==> Some(v@) == m.spec_vmaf()),
            Metric::SSIMULACRA2 => (r is Some <==> m.spec_ssimulacra2() is Some) && (r matches Some(
                v,
            ) ==> Some(v@) == m.spec_ssimulacra2()),
            Metric::Bitrate => (r is Some <==> (m.spec_sizes() is Some
                && m.spec_duration_micros() is Some)) && (r matches Some(v)
                ==> m.spec_sizes() matches Some(sz) && m.spec_duration_micros() matches Some(d)
                && v@.len() == sz.len() && forall|i: int|
                0 <= i < v@.len() ==> (#[trigger] v@[i]) as int == spec_frame_bitrate_milli(
                    sz[i] as int,
                    sz.len() as int,
                    d as int,
                )),
        },
{
    match metric {
        Metric::Direct => {
            let mut v: Vec<i64> = Vec::new();
            v.push(0);
            proof {
                assert(v@ =~= seq![0i64]);
            }
            Some(v)
        },
        Metric::PSNR => match m.psnr() {
            Some(v) => Some(v.clone()),
            None => None,
        },
        Metric::SSIM => match m.ssim() {
            Some(v) => Some(v.clone()),
            None => None,
        },
        Metric::VMAF => match m.vmaf() {
            Some(v) => Some(v.clone()),
            None => None,
        },
        Metric::SSIMULACRA2 => match m.ssimulacra2() {
            Some(v) => Some(v.clone()),
            None => None,
        },
        Metric::Bitrate => {
            let duration = match m.duration_micros() {
                Some(d) => d,
                None => {
                    return None;
                },
            };
            let sizes = match m.sizes() {
                Some(s) => s,
                None => {
                    return None;
                },
            };
            let frames = sizes.len();
            let mut v: Vec<i64> = Vec::new();
            let mut i: usize = 0;
            while i < sizes.len()
                invariant
                    Some(sizes@) == m.spec_sizes(),
                    m.spec_duration_micros() == Some(duration),
                    frames == sizes@.len(),
                    frames <= 0x7fff_ffff,
                    forall|k: int| 0 <= k < sizes@.len() ==> (#[trigger] sizes@[k]) <= 0xffff_ffff,
                    duration >= 1,
                    duration >= frames * 100,
                    i <= sizes@.len(),
                    v@.len() == i,
                    forall|k: int|
                        0 <= k < i ==> (#[trigger] v@[k]) as int == spec_frame_bitrate_milli(
                            sizes@[k] as int,
                            frames as int,
                            duration as int,
                        ),
                decreases sizes@.len() - i,
            {
                let size = sizes[i];
                proof {
                    assert(size as int * 8_000_000_000 * (frames as int) <= 0xffff_ffff
                        * 8_000_000_000 * 0x7fff_ffff) by (nonlinear_arith)
                        requires
                            0 <= size as int <= 0xffff_ffff,
                            0 <= frames as int <= 0x7fff_ffff,
                    ;
                    assert(size as int * 8_000_000_000 * (frames as int) >= 0) by (nonlinear_arith)
                        requires
                            size as int >= 0,
                            frames as int >= 0,
                    ;
                    assert(size as int * 8_000_000_000 * (frames as int) / (duration as int)
                        <= 0xffff_ffff * 80_000_000) by (nonlinear_arith)
                        requires
                            duration as int >= (frames as int) * 100,
                            duration as int >= 1,
                            0 <= size as int <= 0xffff_ffff,
                            1 <= frames as int <= 0x7fff_ffff,
                            size as int * 8_000_000_000 * (frames as int) >= 0,
                    ;
                }
                let wide: u128 = (size as u128) * 8_000_000_000u128 * (frames as u128);
                let value: u128 = wide / (duration as u128);
                v.push(value as i64);
                i += 1;
            }
            Some(v)
        },
    }
}

} // verus!
