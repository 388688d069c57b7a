//! Progress reporting: a phase's progress is the exact fraction
//! `done / total`, clamped to `[0, 1]`, with an empty phase complete from
//! the start.  Fractions are kept as integer pairs; whoever displays them
//! may divide.

use vstd::prelude::*;

verus! {

/// Numerator of the clamped fraction `done / total`.
pub open spec fn frac_num(done: u64, total: u64) -> int {
    if total == 0 {
        1
    } else if done > total {
        total as int
    } else {
        done as int
    }
}

/// Denominator of the clamped fraction.
pub open spec fn frac_den(total: u64) -> int {
    if total == 0 {
        1
    } else {
        total as int
    }
}

/// `n1 / d1 <= n2 / d2`, for positive denominators.
pub open spec fn frac_le(n1: int, d1: int, n2: int, d2: int) -> bool {
    n1 * d2 <= n2 * d1
}

/// One progress report: a phase label and a fraction in `[0, 1]`.
pub struct TransferProgress {
    pub label: String,
    pub numerator: u64,
    pub denominator: u64,
}

impl TransferProgress {
    /// The fraction is well formed and within `[0, 1]`.
    pub open spec fn wf(&self) -> bool {
        self.numerator <= self.denominator && self.denominator >= 1
    }
}

/// The clamped fraction after `done` of `total` steps of a phase.
pub fn progress_fraction(done: u64, total: u64) -> (r: (u64, u64))
    ensures
        r.0 == frac_num(done, total),
        r.1 == frac_den(total),
        r.0 <= r.1,
        r.1 >= 1,
{
    if total == 0 {
        (1, 1)
    } else if done > total {
        (total, total)
    } else {
        (done, total)
    }
}

/// One progress report for a phase of `total` steps, `done` of them done.
pub fn progress_event(label: String, done: u64, total: u64) -> (e: TransferProgress)
    ensures
        e.wf(),
        e.label@ == label@,
        e.numerator == frac_num(done, total),
        e.denominator == frac_den(total),
{
    let (numerator, denominator) = progress_fraction(done, total);
    TransferProgress { label, numerator, denominator }
}

/// More work done never lowers the reported fraction.
pub proof fn lemma_fraction_monotone(d1: u64, d2: u64, total: u64)
    requires
        d1 <= d2,
    ensures
        frac_le(frac_num(d1, total), frac_den(total), frac_num(d2, total), frac_den(total)),
{
    assert(frac_num(d1, total) <= frac_num(d2, total));
    assert(frac_num(d1, total) * frac_den(total) <= frac_num(d2, total) * frac_den(total))
        by (nonlinear_arith)
        requires
            frac_num(d1, total) <= frac_num(d2, total),
            frac_den(total) >= 1,
    ;
}

/// The fraction reaches exactly 1 once all of a phase's work is done.
pub proof fn lemma_fraction_complete(done: u64, total: u64)
    requires
        done >= total,
    ensures
        frac_num(done, total) == frac_den(total),
{
}

/// Within one phase, a non-decreasing sequence of work counts that ends
/// with all work done yields a non-decreasing fraction sequence that ends
/// at exactly 1.
pub proof fn lemma_phase_fractions(dones: Seq<u64>, total: u64)
    requires
        dones.len() > 0,
        forall|i: int, j: int| 0 <= i <= j < dones.len() ==> dones[i] <= dones[j],
        dones.last() >= total,
    ensures
        forall|i: int, j: int|
            0 <= i <= j < dones.len() ==> frac_le(
                frac_num(dones[i], total),
                frac_den(total),
                frac_num(dones[j], total),
                frac_den(total),
            ),
        frac_num(dones.last(), total) == frac_den(total),
{
    assert forall|i: int, j: int| 0 <= i <= j < dones.len() implies frac_le(
        frac_num(dones[i], total),
        frac_den(total),
        frac_num(dones[j], total),
        frac_den(total),
    ) by {
        lemma_fraction_monotone(dones[i], dones[j], total);
    }
    lemma_fraction_complete(dones.last(), total);
}

} // verus!
