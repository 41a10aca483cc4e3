use contrasting_colors::palette::{Palette, Step};
use contrasting_colors::rgb::{sRGB, GAMUT_SIZE};
use contrasting_colors::selection::{Best, Goal};

/// Gamma-decoded value of each 8-bit channel level.
fn linear_table() -> Vec<f64> {
    (0..=255u32)
        .map(|v| {
            let u = v as f64 / 255.0;
            if u >= 0.040_45 {
                ((u + 0.055) / 1.055).powf(2.4)
            } else {
                u / 12.92
            }
        })
        .collect()
}

/// Oklab (l, a, b) of a color, from the published matrices.
fn oklab(lin: &[f64], c: sRGB) -> (f64, f64, f64) {
    let (r, g, b) = (lin[c.r as usize], lin[c.g as usize], lin[c.b as usize]);
    let l = (0.4122214708 * r + 0.5363325363 * g + 0.0514459929 * b).cbrt();
    let m = (0.2119034982 * r + 0.6806995451 * g + 0.1073969566 * b).cbrt();
    let s = (0.0883024619 * r + 0.2817188376 * g + 0.6299787005 * b).cbrt();
    (
        0.2104542553 * l + 0.793617785 * m - 0.0040720468 * s,
        1.9779984951 * l - 2.428592205 * m + 0.4505937099 * s,
        0.0259040371 * l + 0.7827717662 * m - 0.808675766 * s,
    )
}

fn delta_e_hyab(x: (f64, f64, f64), y: (f64, f64, f64)) -> f64 {
    (x.0 - y.0).abs() + ((x.1 - y.1).powi(2) + (x.2 - y.2).powi(2)).sqrt()
}

#[test]
fn black_seed_first_round_picks_yellow() {
    let lin = linear_table();
    let mut palette = Palette::new(vec![sRGB::new(0, 0, 0)], 1);
    let black = oklab(&lin, sRGB::new(0, 0, 0));
    let mut best = Best::new(Goal::Farthest);
    let mut keys: Vec<u64> = Vec::with_capacity(1);
    for i in 0..GAMUT_SIZE {
        let c = sRGB::from_index(i);
        keys.clear();
        keys.push((delta_e_hyab(oklab(&lin, c), black) + 0.0).to_bits());
        if let Some(cand) = palette.candidate(c, &keys) {
            best.offer(cand);
        }
    }
    let winner = best.found.unwrap();
    assert_eq!(winner.color, sRGB::new(255, 255, 0));
    assert!((f64::from_bits(winner.key) - 1.178988628052311).abs() < 1e-6);
    assert_eq!(palette.advance(Some(winner)), Step::Added(winner));
    assert_eq!(palette.colors(), &vec![sRGB::new(0, 0, 0), sRGB::new(255, 255, 0)]);
    assert!(palette.finished());
}
