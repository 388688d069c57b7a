use distore::progress::{progress_event, progress_fraction};

#[test]
fn fractions_are_exact_and_clamped() {
    assert_eq!(progress_fraction(0, 10), (0, 10));
    assert_eq!(progress_fraction(5, 10), (5, 10));
    assert_eq!(progress_fraction(10, 10), (10, 10));
    // More work than promised clamps to 1.
    assert_eq!(progress_fraction(15, 10), (10, 10));
    // An empty phase is complete from the start.
    assert_eq!(progress_fraction(0, 0), (1, 1));
    assert_eq!(progress_fraction(5, 0), (1, 1));
}

#[test]
fn a_phase_is_non_decreasing_and_ends_at_one() {
    let total = 7u64;
    let mut last = 0.0f64;
    for done in 1..=total {
        let (num, den) = progress_fraction(done, total);
        let f = num as f64 / den as f64;
        assert!(f >= last, "fraction went down within one phase");
        last = f;
    }
    assert_eq!(last, 1.0);
}

#[test]
fn byte_progress_is_non_decreasing_and_ends_at_one() {
    let size = 95u64;
    let written = [10u64, 30, 30, 60, 95];
    let mut last = 0.0f64;
    for w in written {
        let (num, den) = progress_fraction(w, size);
        let f = num as f64 / den as f64;
        assert!(f >= last);
        last = f;
    }
    assert_eq!(last, 1.0);
}

#[test]
fn events_carry_the_label_and_the_fraction() {
    let e = progress_event("Uploading f.bin".to_string(), 2, 4);
    assert_eq!(e.label, "Uploading f.bin");
    assert_eq!(e.numerator, 2);
    assert_eq!(e.denominator, 4);
}
