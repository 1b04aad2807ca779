use pixel_renderer::camera::{Camera, Canvas, FitStrategy, Rat};

#[test]
fn default_camera_has_spec_parameters() {
    let c = Camera::default();
    assert_eq!(c.aperture, (35, 24));
    assert_eq!(c.focal_length, Rat { num: 10, den: 1 });
    assert_eq!(c.near, Rat { num: 1, den: 10 });
    assert_eq!(c.far, Rat { num: 10, den: 1 });
    assert!(matches!(c.fit_strategy, FitStrategy::Overscan));
}

#[test]
fn overscan_square_output_canvas_extent() {
    // aperture 35x24, focal 10, near 1/10, square output: the aperture is
    // wider than the output, overscan expands the canvas vertically, so both
    // sides come out at 35/100 = 0.35 camera units.
    let c = Camera::default();
    let canvas = c.canvas((512, 512));
    assert_eq!(canvas.width.num as f64 / canvas.width.den as f64, 0.35);
    assert_eq!(canvas.height.num as f64 / canvas.height.den as f64, 0.35);
}

#[test]
fn fill_square_output_keeps_aperture_ratio() {
    // under Fill with a wider aperture, the width is cropped and the canvas
    // keeps the aperture's aspect ratio
    let canvas = Canvas::from_camera_parameters(
        (35, 24),
        Rat { num: 10, den: 1 },
        Rat { num: 1, den: 10 },
        FitStrategy::Fill,
        (512, 512),
    );
    // aspect ratio = 35 / 24, exactly (cross multiplication)
    let lhs = canvas.width.num * canvas.height.den * 24;
    let rhs = 35 * canvas.width.den * canvas.height.num;
    assert_eq!(lhs, rhs);
    // width scaled down by outputAR / apertureAR = 24/35: 0.35 * 24/35 = 6/25
    assert_eq!(canvas.width.num * 25, 6 * canvas.width.den);
    // height = width / apertureAR: 6/25 * 24/35
    assert_eq!(canvas.height.num * 25 * 35, 6 * 24 * canvas.height.den);
}

#[test]
fn fill_wide_output_matches_output_ratio() {
    // output wider than the aperture: Fill hugs the output ratio exactly
    let canvas = Canvas::from_camera_parameters(
        (35, 24),
        Rat { num: 10, den: 1 },
        Rat { num: 1, den: 10 },
        FitStrategy::Fill,
        (1024, 512),
    );
    // cross multiplication: width / height == 1024 / 512
    let lhs = canvas.width.num as i128 * canvas.height.den as i128 * 512;
    let rhs = 1024 * canvas.width.den as i128 * canvas.height.num as i128;
    assert_eq!(lhs, rhs);
}

#[test]
fn overscan_narrow_output_matches_output_ratio() {
    // aperture wider than output: Overscan hugs the output ratio exactly
    let canvas = Canvas::from_camera_parameters(
        (35, 24),
        Rat { num: 10, den: 1 },
        Rat { num: 1, den: 10 },
        FitStrategy::Overscan,
        (512, 512),
    );
    let lhs = canvas.width.num as i128 * canvas.height.den as i128 * 512;
    let rhs = 512 * canvas.width.den as i128 * canvas.height.num as i128;
    assert_eq!(lhs, rhs);
}

#[test]
fn fill_crops_within_and_overscan_covers_the_aperture_extent() {
    // unscaled aperture extent at the near plane: W0 = 35/(10*10) = 35/100,
    // H0 = W0 * 24/35 = 24/100
    let w0 = (35i128, 100i128);
    let h0 = (24i128, 100i128);
    let frac_le = |a: (i128, i128), b: (i128, i128)| a.0 * b.1 <= b.0 * a.1;
    for dims in [(512u32, 512u32), (1024, 512), (100, 3000)] {
        let fill = Canvas::from_camera_parameters(
            (35, 24),
            Rat { num: 10, den: 1 },
            Rat { num: 1, den: 10 },
            FitStrategy::Fill,
            dims,
        );
        assert!(frac_le((fill.width.num, fill.width.den), w0));
        assert!(frac_le((fill.height.num, fill.height.den), h0));
        let over = Canvas::from_camera_parameters(
            (35, 24),
            Rat { num: 10, den: 1 },
            Rat { num: 1, den: 10 },
            FitStrategy::Overscan,
            dims,
        );
        assert!(frac_le(w0, (over.width.num, over.width.den)));
        assert!(frac_le(h0, (over.height.num, over.height.den)));
    }
}

#[test]
fn canvas_width_exact_fraction() {
    // width = aperture_w / focal * near * x_scale, all exact
    let canvas = Canvas::from_camera_parameters(
        (35, 24),
        Rat { num: 10, den: 1 },
        Rat { num: 1, den: 10 },
        FitStrategy::Overscan,
        (512, 512),
    );
    // overscan + wide aperture: x scale is 1, width = 35 * 1 * 1 * 1 / (10 * 10 * 1)
    assert_eq!(canvas.width.num, 35);
    assert_eq!(canvas.width.den, 100);
}
