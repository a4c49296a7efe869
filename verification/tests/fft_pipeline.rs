//! End-to-end spectral reconstruction through a real FFT: the library does
//! the exact spectral surgery, this harness does the numeric transforms
//! around it, exactly as a caller would.

use fd_recon::complex_to_curve;
use fd_recon::curve_to_complex;
use fd_recon::symmetrize;
use fd_recon::truncate_and_resample;
use fd_recon::Cpx;
use fd_recon::FdError;
use fd_recon::Point;
use rustfft::num_complex::Complex;
use rustfft::FftPlanner;

fn to_points(curve: &[[f64; 2]]) -> Vec<Point> {
    curve
        .iter()
        .map(|&[x, y]| Point { x: x.to_bits(), y: y.to_bits() })
        .collect()
}

fn to_floats(curve: &[Point]) -> Vec<[f64; 2]> {
    curve
        .iter()
        .map(|p| [f64::from_bits(p.x), f64::from_bits(p.y)])
        .collect()
}

fn to_buffer(z: &[Cpx]) -> Vec<Complex<f64>> {
    z.iter()
        .map(|c| Complex { re: f64::from_bits(c.re), im: f64::from_bits(c.im) })
        .collect()
}

fn to_words(buf: &[Complex<f64>]) -> Vec<Cpx> {
    buf.iter()
        .map(|c| Cpx { re: c.re.to_bits(), im: c.im.to_bits() })
        .collect()
}

/// The full reconstruction pipeline: forward FFT, the library's verified
/// truncation and resampling, inverse FFT, and the explicit 1/n scaling.
fn fft_reconstruct(
    curve: &[[f64; 2]],
    harmonic: usize,
    out_len: usize,
) -> Result<Vec<[f64; 2]>, FdError> {
    let n = curve.len();
    let z = curve_to_complex(&to_points(curve));
    let mut buf = to_buffer(&z);
    let mut planner = FftPlanner::new();
    planner.plan_fft_forward(n).process(&mut buf);
    let cut = truncate_and_resample(&to_words(&buf), harmonic, out_len)?;
    let mut buf = to_buffer(&cut);
    planner.plan_fft_inverse(out_len).process(&mut buf);
    let scaled: Vec<Cpx> = to_words(
        &buf.into_iter().map(|c| c / n as f64).collect::<Vec<_>>(),
    );
    Ok(to_floats(&complex_to_curve(&scaled)))
}

fn forward_spectrum(curve: &[[f64; 2]]) -> Vec<Complex<f64>> {
    let mut buf: Vec<Complex<f64>> = curve
        .iter()
        .map(|&[x, y]| Complex { re: x, im: y })
        .collect();
    FftPlanner::new().plan_fft_forward(buf.len()).process(&mut buf);
    buf
}

fn wavy_curve(n: usize) -> Vec<[f64; 2]> {
    let pi = std::f64::consts::PI;
    (0..n)
        .map(|i| {
            let t = 2.0 * pi * i as f64 / n as f64;
            [
                t.cos() + 0.5 * (2.0 * t).cos() + 0.25 * (3.0 * t).sin(),
                t.sin() - 0.3 * (2.0 * t).sin() + 0.1 * (3.0 * t).cos(),
            ]
        })
        .collect()
}

#[test]
fn identity_at_full_bandwidth() {
    // Full bandwidth, unchanged length: the reconstruction is the input.
    let curve = wavy_curve(16);
    let out = fft_reconstruct(&curve, 16, 16).unwrap();
    for (p, q) in curve.iter().zip(out.iter()) {
        assert!((p[0] - q[0]).abs() < 1e-9);
        assert!((p[1] - q[1]).abs() < 1e-9);
    }
}

#[test]
fn resampling_preserves_low_frequency_bins() {
    // Even h at or below n/2: the first h bins of the resampled output's
    // spectrum match the truncated spectrum of the input after rescaling.
    let n = 16usize;
    let m = 32usize;
    let h = 6usize;
    let curve = wavy_curve(n);
    let out = fft_reconstruct(&curve, h, m).unwrap();
    let out_spec = forward_spectrum(&out);
    let in_spec = forward_spectrum(&curve);
    // Truncated input spectrum: h = 6 keeps bins 0..3 and 13..16.
    for k in 0..h {
        let kept = if k < 3 { in_spec[k] } else { Complex { re: 0.0, im: 0.0 } };
        // The inverse transform of m bins scaled by 1/n turns bin k into
        // (m/n) * bin k after a forward pass of length m.
        let got = out_spec[k] * (n as f64) / (m as f64);
        assert!((got - kept).norm() < 1e-9);
    }
}

#[test]
fn sample_at_parameter_zero_is_stable_across_output_lengths() {
    let curve = wavy_curve(16);
    let h = 5usize;
    let base = fft_reconstruct(&curve, h, 16).unwrap()[0];
    for &m in &[20usize, 24, 40, 64] {
        let out = fft_reconstruct(&curve, h, m).unwrap();
        assert!((out[0][0] - base[0]).abs() < 1e-9);
        assert!((out[0][1] - base[1]).abs() < 1e-9);
    }
}

#[test]
fn circle_is_recovered_from_three_harmonics() {
    let pi = std::f64::consts::PI;
    let circle: Vec<[f64; 2]> = (0..360)
        .map(|i| {
            let t = 2.0 * pi * i as f64 / 360.0;
            [t.cos(), t.sin()]
        })
        .collect();
    let out = fft_reconstruct(&circle, 3, 360).unwrap();
    for (p, q) in circle.iter().zip(out.iter()) {
        assert!((p[0] - q[0]).abs() < 1e-6);
        assert!((p[1] - q[1]).abs() < 1e-6);
    }
}

#[test]
fn circle_collapses_to_dc_with_one_harmonic() {
    let pi = std::f64::consts::PI;
    let circle: Vec<[f64; 2]> = (0..360)
        .map(|i| {
            let t = 2.0 * pi * i as f64 / 360.0;
            [t.cos(), t.sin()]
        })
        .collect();
    let out = fft_reconstruct(&circle, 1, 360).unwrap();
    let mean_radius = out
        .iter()
        .map(|p| (p[0] * p[0] + p[1] * p[1]).sqrt())
        .sum::<f64>()
        / 360.0;
    assert!(mean_radius < 1e-6);
}

fn square_curve(n: usize) -> Vec<[f64; 2]> {
    // Perimeter walk of the square with vertices (+-1, +-1), starting at
    // (1, 1), total length 8.
    (0..n)
        .map(|i| {
            let d = 8.0 * i as f64 / n as f64;
            if d < 2.0 {
                [1.0 - d, 1.0]
            } else if d < 4.0 {
                [-1.0, 1.0 - (d - 2.0)]
            } else if d < 6.0 {
                [-1.0 + (d - 4.0), -1.0]
            } else {
                [1.0, -1.0 + (d - 6.0)]
            }
        })
        .collect()
}

#[test]
fn square_reconstruction_tracks_the_perimeter() {
    // Eleven harmonics of a square leave visible corner ringing: the
    // truncation tail of the arc-length square series puts the worst
    // radial error just under 0.1 at the matching samples.
    let square = square_curve(100);
    let out = fft_reconstruct(&square, 11, 400).unwrap();
    assert_eq!(out.len(), 400);
    let mut worst: f64 = 0.0;
    for (i, p) in square.iter().enumerate() {
        let q = out[4 * i];
        let err = ((p[0] - q[0]).powi(2) + (p[1] - q[1]).powi(2)).sqrt();
        if err > worst {
            worst = err;
        }
    }
    assert!(worst <= 0.1, "max radial error {worst}");
}

#[test]
fn symmetrized_open_curve_is_reconstructed() {
    let pi = std::f64::consts::PI;
    let open_curve: Vec<[f64; 2]> = (0..100)
        .map(|i| {
            let s = i as f64 / 99.0;
            [s, (pi * s).sin()]
        })
        .collect();
    let sym = to_floats(&symmetrize(&to_points(&open_curve)));
    assert_eq!(sym.len(), 198);
    // An even harmonic count keeps a clean low band; the reflected
    // extension has corners at the fold points, where six harmonics still
    // leave an error of about 0.22.
    let out = fft_reconstruct(&sym, 6, 400).unwrap();
    // Output index j sits at parameter j * 198 / 400 of the symmetrized
    // cycle, i.e. at s = j / 200 of the open domain for j < 200.
    let mut worst: f64 = 0.0;
    for (j, q) in out.iter().take(200).enumerate() {
        let s = j as f64 / 200.0;
        let err = ((q[0] - s).powi(2) + (q[1] - (pi * s).sin()).powi(2)).sqrt();
        if err > worst {
            worst = err;
        }
    }
    assert!(worst <= 0.25, "max error {worst}");
}
