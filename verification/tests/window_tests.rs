use pitch::window::Window;

#[test]
fn coefficients_have_window_length() {
    for kind in Window::ALL {
        for width in [0usize, 1, 2, 7, 64, 2048] {
            assert_eq!(kind.coefficients(width).len(), width);
        }
    }
}

#[test]
fn leading_edge_values() {
    for width in [2usize, 16, 1000, 16384] {
        // Hann and Bartlett start at zero, Hamming and rectangular do not.
        assert_eq!(Window::Hann.coefficient(0, width), 0);
        assert_eq!(Window::Bartlett.coefficient(0, width), 0);
        // 4/46 rounded to the nearest millionth.
        assert_eq!(Window::Hamming.coefficient(0, width), 86_957);
        assert_eq!(Window::Rectangular.coefficient(0, width), 1_000_000);
    }
}

#[test]
fn centre_values() {
    // At n = N/2 every shape reaches one: Hann and Bartlett exactly,
    // Hamming as (4 + 42) / 46.
    assert_eq!(Window::Hann.coefficient(1024, 2048), 1_000_000);
    assert_eq!(Window::Bartlett.coefficient(1024, 2048), 1_000_000);
    assert_eq!(Window::Hamming.coefficient(1024, 2048), 1_000_000);
}

#[test]
fn quarter_period_values() {
    // At n = N/4 the cosine vanishes: Hann is exactly one half and
    // Hamming 25/46, on the millionth grid.
    assert_eq!(Window::Hann.coefficient(1, 4), 500_000);
    assert_eq!(Window::Hamming.coefficient(1, 4), 543_478);
    assert_eq!(Window::Hann.coefficient(512, 2048), 500_000);
    assert_eq!(Window::Hamming.coefficient(512, 2048), 543_478);
}

#[test]
fn sixth_period_values() {
    // cos(2 pi / 6) = 1/2: Hann is 1/4; cos(2 pi / 3) = -1/2: 3/4.
    // The second point exercises the folded half of the evaluation.
    assert_eq!(Window::Hann.coefficient(1, 6), 250_000);
    assert_eq!(Window::Hann.coefficient(2, 6), 750_000);
    // Hamming there: (25 - 21/2) / 46 and (25 + 21/2) / 46.
    assert_eq!(Window::Hamming.coefficient(1, 6), 315_217);
    assert_eq!(Window::Hamming.coefficient(2, 6), 771_739);
}

#[test]
fn bartlett_is_triangular() {
    // Quarter of the way in, the triangle is at one half.
    assert_eq!(Window::Bartlett.coefficient(512, 2048), 500_000);
    assert_eq!(Window::Bartlett.coefficient(1536, 2048), 500_000);
}

#[test]
fn iterator_walks_all_coefficients() {
    let mut iter = Window::Hann.into_iter(4);
    let mut got = Vec::new();
    while let Some(c) = iter.next() {
        got.push(c);
    }
    assert_eq!(got, Window::Hann.coefficients(4));
    assert_eq!(iter.next(), None);
}

#[test]
fn coefficients_stay_in_range() {
    for kind in Window::ALL {
        for (n, c) in kind.coefficients(100).iter().enumerate() {
            assert!(*c <= 1_000_000, "kind {:?} n {} -> {}", kind, n, c);
        }
    }
}
