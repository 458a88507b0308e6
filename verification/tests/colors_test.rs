use video_encoding_wrapper::colors::{
    guess_color_primaries, guess_matrix_coefficients, map_y4m_color_space, ChromaSamplePosition,
    ChromaSampling, ColorPrimaries, Colorspace, MatrixCoefficients,
};

#[test]
fn matrix_guess_by_frame_size() {
    assert_eq!(guess_matrix_coefficients(1920, 1080), MatrixCoefficients::BT709);
    assert_eq!(guess_matrix_coefficients(1280, 540), MatrixCoefficients::BT709);
    assert_eq!(guess_matrix_coefficients(720, 576), MatrixCoefficients::BT470BG);
    assert_eq!(guess_matrix_coefficients(720, 480), MatrixCoefficients::ST170M);
}

#[test]
fn primaries_guess_by_matrix_then_size() {
    assert_eq!(
        guess_color_primaries(MatrixCoefficients::BT2020NonConstantLuminance, 3840, 2160),
        ColorPrimaries::BT2020
    );
    assert_eq!(
        guess_color_primaries(MatrixCoefficients::BT709, 720, 480),
        ColorPrimaries::BT709
    );
    assert_eq!(
        guess_color_primaries(MatrixCoefficients::ST170M, 720, 576),
        ColorPrimaries::BT470BG
    );
    assert_eq!(
        guess_color_primaries(MatrixCoefficients::ST170M, 720, 480),
        ColorPrimaries::ST170M
    );
    assert_eq!(
        guess_color_primaries(MatrixCoefficients::ST170M, 640, 360),
        ColorPrimaries::BT709
    );
}

#[test]
fn color_space_sampling_layout() {
    assert_eq!(
        map_y4m_color_space(Colorspace::Cmono),
        (ChromaSampling::Cs400, ChromaSamplePosition::Unknown)
    );
    assert_eq!(
        map_y4m_color_space(Colorspace::C420jpeg),
        (ChromaSampling::Cs420, ChromaSamplePosition::Bilateral)
    );
    assert_eq!(
        map_y4m_color_space(Colorspace::C420mpeg2),
        (ChromaSampling::Cs420, ChromaSamplePosition::Vertical)
    );
    assert_eq!(
        map_y4m_color_space(Colorspace::C420p10),
        (ChromaSampling::Cs420, ChromaSamplePosition::Colocated)
    );
    assert_eq!(
        map_y4m_color_space(Colorspace::C422),
        (ChromaSampling::Cs422, ChromaSamplePosition::Vertical)
    );
    assert_eq!(
        map_y4m_color_space(Colorspace::C444p12),
        (ChromaSampling::Cs444, ChromaSamplePosition::Colocated)
    );
}
