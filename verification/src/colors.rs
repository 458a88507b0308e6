//! Color-space bookkeeping for the metric pipelines: the heuristics that
//! fill in unspecified matrix coefficients and primaries from the frame
//! size, and the mapping from a streamed clip's raw color space to the
//! sampling layout the per-frame metric computation expects.

use vstd::prelude::*;

verus! {

/// The matrix-coefficient families the metric pipeline distinguishes.
#[derive(Copy, Clone, Debug, PartialEq, Eq, Structural)]
pub enum MatrixCoefficients {
    Unspecified,
    BT709,
    BT470BG,
    ST170M,
    BT2020NonConstantLuminance,
    BT2020ConstantLuminance,
}

/// The color-primary families the metric pipeline distinguishes.
#[derive(Copy, Clone, Debug, PartialEq, Eq, Structural)]
pub enum ColorPrimaries {
    Unspecified,
    BT709,
    BT470BG,
    ST170M,
    BT2020,
}

/// Chroma subsampling layouts of the raw pipe formats.
#[derive(Copy, Clone, Debug, PartialEq, Eq, Structural)]
pub enum ChromaSampling {
    Cs400,
    Cs420,
    Cs422,
    Cs444,
}

/// Chroma sample siting.
#[derive(Copy, Clone, Debug, PartialEq, Eq, Structural)]
pub enum ChromaSamplePosition {
    Unknown,
    Bilateral,
    Interpolated,
    Vertical,
    Colocated,
}

/// The raw-pipe color spaces a streamed clip can declare.
#[derive(Copy, Clone, Debug, PartialEq, Eq, Structural)]
pub enum Colorspace {
    Cmono,
    Cmono12,
    C420jpeg,
    C420paldv,
    C420mpeg2,
    C420,
    C420p10,
    C420p12,
    C422,
    C422p10,
    C422p12,
    C444,
    C444p10,
    C444p12,
}

/// The matrix coefficients assumed for a clip that does not declare any:
/// high definition implies BT.709, PAL-height standard definition BT.470BG,
/// anything else ST.170M.
pub fn guess_matrix_coefficients(width: usize, height: usize) -> (r: MatrixCoefficients)
    ensures
        r == (if width >= 1280 || height > 576 {
            MatrixCoefficients::BT709
        } else if height == 576 {
            MatrixCoefficients::BT470BG
        } else {
            MatrixCoefficients::ST170M
        }),
{
    if width >= 1280 || height > 576 {
        MatrixCoefficients::BT709
    } else if height == 576 {
        MatrixCoefficients::BT470BG
    } else {
        MatrixCoefficients::ST170M
    }
}

/// The color primaries assumed for a clip that does not declare any,
/// following the matrix family first and the frame size after.
pub fn guess_color_primaries(matrix: MatrixCoefficients, width: usize, height: usize) -> (r:
    ColorPrimaries)
    ensures
        r == (if matrix == MatrixCoefficients::BT2020NonConstantLuminance || matrix
            == MatrixCoefficients::BT2020ConstantLuminance {
            ColorPrimaries::BT2020
        } else if matrix == MatrixCoefficients::BT709 || width >= 1280 || height > 576 {
            ColorPrimaries::BT709
        } else if height == 576 {
            ColorPrimaries::BT470BG
        } else if height == 480 || height == 488 {
            ColorPrimaries::ST170M
        } else {
            ColorPrimaries::BT709
        }),
{
    if matrix == MatrixCoefficients::BT2020NonConstantLuminance || matrix
        == MatrixCoefficients::BT2020ConstantLuminance {
        ColorPrimaries::BT2020
    } else if matrix == MatrixCoefficients::BT709 || width >= 1280 || height > 576 {
        ColorPrimaries::BT709
    } else if height == 576 {
        ColorPrimaries::BT470BG
    } else if height == 480 || height == 488 {
        ColorPrimaries::ST170M
    } else {
        ColorPrimaries::BT709
    }
}

/// The sampling layout and chroma siting of each raw-pipe color space.
pub open spec fn spec_map_color_space(c: Colorspace) -> (ChromaSampling, ChromaSamplePosition) {
    match c {
        Colorspace::Cmono | Colorspace::Cmono12 => (
            ChromaSampling::Cs400,
            ChromaSamplePosition::Unknown,
        ),
        Colorspace::C420jpeg => (ChromaSampling::Cs420, ChromaSamplePosition::Bilateral),
        Colorspace::C420paldv => (ChromaSampling::Cs420, ChromaSamplePosition::Interpolated),
        Colorspace::C420mpeg2 => (ChromaSampling::Cs420, ChromaSamplePosition::Vertical),
        Colorspace::C420 | Colorspace::C420p10 | Colorspace::C420p12 => (
            ChromaSampling::Cs420,
            ChromaSamplePosition::Colocated,
        ),
        Colorspace::C422 | Colorspace::C422p10 | Colorspace::C422p12 => (
            ChromaSampling::Cs422,
            ChromaSamplePosition::Vertical,
        ),
        Colorspace::C444 | Colorspace::C444p10 | Colorspace::C444p12 => (
            ChromaSampling::Cs444,
            ChromaSamplePosition::Colocated,
        ),
    }
}

/// Maps a raw-pipe color space to its sampling layout and chroma siting.
pub fn map_y4m_color_space(color_space: Colorspace) -> (r: (ChromaSampling, ChromaSamplePosition))
    ensures
        r == spec_map_color_space(color_space),
{
    match color_space {
        Colorspace::Cmono | Colorspace::Cmono12 => (
            ChromaSampling::Cs400,
            ChromaSamplePosition::Unknown,
        ),
        Colorspace::C420jpeg => (ChromaSampling::Cs420, ChromaSamplePosition::Bilateral),
        Colorspace::C420paldv => (ChromaSampling::Cs420, ChromaSamplePosition::Interpolated),
        Colorspace::C420mpeg2 => (ChromaSampling::Cs420, ChromaSamplePosition::Vertical),
        Colorspace::C420 | Colorspace::C420p10 | Colorspace::C420p12 => (
            ChromaSampling::Cs420,
            ChromaSamplePosition::Colocated,
        ),
        Colorspace::C422 | Colorspace::C422p10 | Colorspace::C422p12 => (
            ChromaSampling::Cs422,
            ChromaSamplePosition::Vertical,
        ),
        Colorspace::C444 | Colorspace::C444p10 | Colorspace::C444p12 => (
            ChromaSampling::Cs444,
            ChromaSamplePosition::Colocated,
        ),
    }
}

} // verus!
