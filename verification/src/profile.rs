//! Bounded per-frame diagnostics: the latest samples and a nearest-rank
//! summary of them. Durations are whole nanoseconds.
use vstd::prelude::*;

use crate::sorting::{insert_position, insert_sorted, insertion_sorted};
use crate::text::{decimal, digit, digit_char, push_char, push_decimal, push_str};

verus! {

/// One frame's measurements.
#[derive(Debug, Clone, Copy, Default, PartialEq, Eq, Structural)]
pub struct FrameSample {
    pub scheduler_delay_ns: u64,
    pub update_ns: u64,
    pub render_ns: u64,
    pub draw_ns: u64,
    pub flush_ns: u64,
    pub total_ns: u64,
    pub changed_cells: u64,
    pub emitted_bytes: u64,
    pub cache_rebuilds: u64,
    pub cache_patches: u64,
    pub materialized_rows: u64,
    pub preview_rebuilds: u64,
    pub preview_patches: u64,
    pub preview_materialized_rows: u64,
}

/// The measurement a report reads: 0 total, 1 scheduler delay, 2 render,
/// 3 draw, 4 changed cells, 5 emitted bytes, 6 cache rebuilds, 7 cache
/// patches, 8 visible rows, 9 preview rebuilds, 10 preview patches, 11
/// preview rows.
pub open spec fn field_of(s: FrameSample, k: u8) -> u64 {
    if k == 0 {
        s.total_ns
    } else if k == 1 {
        s.scheduler_delay_ns
    } else if k == 2 {
        s.render_ns
    } else if k == 3 {
        s.draw_ns
    } else if k == 4 {
        s.changed_cells
    } else if k == 5 {
        s.emitted_bytes
    } else if k == 6 {
        s.cache_rebuilds
    } else if k == 7 {
        s.cache_patches
    } else if k == 8 {
        s.materialized_rows
    } else if k == 9 {
        s.preview_rebuilds
    } else if k == 10 {
        s.preview_patches
    } else {
        s.preview_materialized_rows
    }
}

fn field(s: &FrameSample, k: u8) -> (r: u64)
    ensures
        r == field_of(*s, k),
{
    if k == 0 {
        s.total_ns
    } else if k == 1 {
        s.scheduler_delay_ns
    } else if k == 2 {
        s.render_ns
    } else if k == 3 {
        s.draw_ns
    } else if k == 4 {
        s.changed_cells
    } else if k == 5 {
        s.emitted_bytes
    } else if k == 6 {
        s.cache_rebuilds
    } else if k == 7 {
        s.cache_patches
    } else if k == 8 {
        s.materialized_rows
    } else if k == 9 {
        s.preview_rebuilds
    } else if k == 10 {
        s.preview_patches
    } else {
        s.preview_materialized_rows
    }
}

pub open spec fn values_of(samples: Seq<FrameSample>, k: u8) -> Seq<u64> {
    samples.map_values(|s: FrameSample| field_of(s, k))
}

/// Ascending order: a value comes after a smaller one.
pub open spec fn larger() -> spec_fn(u64, u64) -> bool {
    |a: u64, b: u64| a > b
}

/// Nearest rank `ceil(n * percent / 100)`, at least 1.
pub open spec fn nearest_rank(n: nat, percent: nat) -> int {
    let r = (n * percent + 99) / 100;
    if r < 1 {
        1
    } else {
        r as int
    }
}

/// The nearest-rank percentile of some values; 0 without values.
pub open spec fn percentile_of(values: Seq<u64>, percent: nat) -> u64 {
    let sorted = insertion_sorted(values, larger());
    if sorted.len() == 0 {
        0
    } else {
        let r = nearest_rank(sorted.len(), percent);
        sorted[(if r <= sorted.len() { r } else { sorted.len() as int }) - 1]
    }
}

/// The largest value; 0 without values.
pub open spec fn max_of(values: Seq<u64>) -> u64 {
    let sorted = insertion_sorted(values, larger());
    if sorted.len() == 0 {
        0
    } else {
        sorted.last()
    }
}

pub open spec fn sum_of(values: Seq<u64>) -> nat
    decreases values.len(),
{
    if values.len() == 0 {
        0
    } else {
        sum_of(values.drop_last()) + values.last() as nat
    }
}

/// Nanoseconds as milliseconds with two decimals, rounded half up.
pub open spec fn millis_text(ns: u64) -> Seq<char> {
    let q = (ns + 5000) / 10000;
    decimal((q / 100) as nat) + "."@ + seq![digit_char(((q % 100) / 10) as nat), digit_char((q % 10) as nat)]
}

/// The summary line of a window of samples.
pub open spec fn report_text(samples: Seq<FrameSample>) -> Seq<char> {
    let total = values_of(samples, 0);
    "[e frames] n="@ + decimal(samples.len()) + " total_ms p50="@ + millis_text(percentile_of(total, 50))
        + " p95="@ + millis_text(percentile_of(total, 95)) + " p99="@ + millis_text(percentile_of(total, 99))
        + " max="@ + millis_text(max_of(total)) + "; scheduler_p95="@ + millis_text(
        percentile_of(values_of(samples, 1), 95),
    ) + "; render_p95="@ + millis_text(percentile_of(values_of(samples, 2), 95)) + "; draw_p95="@
        + millis_text(percentile_of(values_of(samples, 3), 95)) + "; cells_p95="@ + decimal(
        percentile_of(values_of(samples, 4), 95) as nat,
    ) + "; bytes_p95="@ + decimal(percentile_of(values_of(samples, 5), 95) as nat) + "; rebuilds="@
        + decimal(sum_of(values_of(samples, 6))) + "; patches="@ + decimal(sum_of(values_of(samples, 7)))
        + "; visible_rows="@ + decimal(sum_of(values_of(samples, 8))) + "; preview_rebuilds="@ + decimal(
        sum_of(values_of(samples, 9)),
    ) + "; preview_patches="@ + decimal(sum_of(values_of(samples, 10))) + "; preview_rows="@ + decimal(
        sum_of(values_of(samples, 11)),
    )
}

fn insert_value(v: &mut Vec<u64>, x: u64)
    ensures
        final(v)@ == insert_sorted(old(v)@, x, larger()),
{
    let ghost s = v@;
    let mut p: usize = 0;
    proof {
        assert(s.skip(0) =~= s);
    }
    while p < v.len() && !(v[p] > x)
        invariant
            p <= v@.len(),
            v@ == s,
            insert_position(s, x, larger()) == p + insert_position(s.skip(p as int), x, larger()),
        decreases v.len() - p,
    {
        proof {
            assert(s.skip(p as int).drop_first() =~= s.skip(p + 1));
            assert(s.skip(p as int)[0] == s[p as int]);
        }
        p = p + 1;
    }
    proof {
        if p < s.len() {
            assert(s.skip(p as int)[0] == s[p as int]);
        }
    }
    v.insert(p, x);
}

/// The values of one measurement over the samples, in ascending order.
fn sorted_values(samples: &Vec<FrameSample>, k: u8) -> (r: Vec<u64>)
    ensures
        r@ == insertion_sorted(values_of(samples@, k), larger()),
{
    let mut out: Vec<u64> = Vec::new();
    let mut i: usize = 0;
    while i < samples.len()
        invariant
            i <= samples@.len(),
            out@ == insertion_sorted(values_of(samples@, k).take(i as int), larger()),
        decreases samples.len() - i,
    {
        proof {
            let vs = values_of(samples@, k);
            assert(vs.take(i + 1).drop_last() =~= vs.take(i as int));
            assert(vs.take(i + 1).last() == field_of(samples@[i as int], k));
        }
        let x = field(&samples[i], k);
        insert_value(&mut out, x);
        i = i + 1;
    }
    proof {
        assert(values_of(samples@, k).take(i as int) =~= values_of(samples@, k));
    }
    out
}

fn percentile_sorted(sorted: &Vec<u64>, percent: u128) -> (r: u64)
    requires
        percent <= 100,
    ensures
        sorted@.len() == 0 ==> r == 0,
        sorted@.len() > 0 ==> ({
            let rk = nearest_rank(sorted@.len(), percent as nat);
            r == sorted@[(if rk <= sorted@.len() { rk } else { sorted@.len() as int }) - 1]
        }),
{
    let n = sorted.len();
    if n == 0 {
        return 0;
    }
    let wide = n as u128;
    proof {
        assert(wide * percent <= wide * 100) by (nonlinear_arith)
            requires
                percent <= 100,
        ;
    }
    let mut rank = (wide * percent + 99) / 100;
    if rank < 1 {
        rank = 1;
    }
    if rank > wide {
        rank = wide;
    }
    let idx = (rank - 1) as usize;
    sorted[idx]
}

fn push_millis(s: &mut String, ns: u64)
    ensures
        final(s)@ == old(s)@ + millis_text(ns),
{
    let q = (ns as u128 + 5000) / 10000;
    let whole = (q / 100) as u64;
    push_decimal(s, whole);
    push_str(s, ".");
    push_char(s, digit(((q % 100) / 10) as u64));
    push_char(s, digit((q % 10) as u64));
    proof {
        reveal_strlit(".");
        assert(final(s)@ =~= old(s)@ + millis_text(ns));
    }
}

/// The sum of one measurement over the samples, which fits in 128 bits.
fn sum_values(samples: &Vec<FrameSample>, k: u8) -> (r: u128)
    ensures
        r == sum_of(values_of(samples@, k)),
{
    let mut total: u128 = 0;
    let mut i: usize = 0;
    while i < samples.len()
        invariant
            i <= samples@.len(),
            total == sum_of(values_of(samples@, k).take(i as int)),
            total <= i * 0xffff_ffff_ffff_ffffu128,
        decreases samples.len() - i,
    {
        proof {
            let vs = values_of(samples@, k);
            assert(vs.take(i + 1).drop_last() =~= vs.take(i as int));
            assert(vs.take(i + 1).last() == field_of(samples@[i as int], k));
            assert((i + 1) * 0xffff_ffff_ffff_ffffu128 <= 0xffff_ffff_ffff_ffff_ffff_ffff_ffff_ffffu128) by (nonlinear_arith)
                requires
                    i < 0x1_0000_0000_0000_0000,
            ;
        }
        total = total + field(&samples[i], k) as u128;
        i = i + 1;
    }
    proof {
        assert(values_of(samples@, k).take(i as int) =~= values_of(samples@, k));
    }
    total
}

/// Appends the decimal rendering of a 128-bit count.
fn push_wide_decimal(s: &mut String, n: u128)
    ensures
        final(s)@ == old(s)@ + decimal(n as nat),
    decreases n,
{
    if n < 10 {
        push_char(s, digit(n as u64));
        proof {
            assert(old(s)@ + decimal(n as nat) =~= old(s)@.push(digit_char(n as nat)));
        }
    } else {
        push_wide_decimal(s, n / 10);
        push_char(s, digit((n % 10) as u64));
        proof {
            assert(old(s)@ + decimal(n as nat) =~= old(s)@ + decimal((n / 10) as nat) + seq![
                digit_char((n % 10) as nat),
            ]);
        }
    }
}

/// Bounded aggregate frame diagnostics. A disabled collector stores
/// nothing; an enabled one keeps only the latest `capacity` samples.
pub struct FrameMetrics {
    enabled: bool,
    capacity: usize,
    report_every: usize,
    seen: usize,
    samples: Vec<FrameSample>,
}

impl FrameMetrics {
    pub closed spec fn enabled_spec(&self) -> bool {
        self.enabled
    }

    pub closed spec fn capacity_spec(&self) -> usize {
        self.capacity
    }

    pub closed spec fn every_spec(&self) -> usize {
        self.report_every
    }

    pub closed spec fn seen_spec(&self) -> usize {
        self.seen
    }

    pub closed spec fn samples_spec(&self) -> Seq<FrameSample> {
        self.samples@
    }

    /// The window holds at most `capacity` samples, and both limits are
    /// positive.
    pub closed spec fn wf(&self) -> bool {
        self.capacity >= 1 && self.report_every >= 1 && self.samples@.len() <= self.capacity
    }

    /// A collector keeping `capacity` samples (at least one) and reporting
    /// every `report_every` recorded frames (at least every one).
    pub fn new(enabled: bool, capacity: usize, report_every: usize) -> (r: FrameMetrics)
        ensures
            r.wf(),
            r.enabled_spec() == enabled,
            r.capacity_spec() == if capacity >= 1 { capacity } else { 1 },
            r.every_spec() == if report_every >= 1 { report_every } else { 1 },
            r.seen_spec() == 0,
            r.samples_spec().len() == 0,
    {
        FrameMetrics {
            enabled,
            capacity: if capacity >= 1 { capacity } else { 1 },
            report_every: if report_every >= 1 { report_every } else { 1 },
            seen: 0,
            samples: Vec::new(),
        }
    }

    pub fn enabled(&self) -> (r: bool)
        ensures
            r == self.enabled_spec(),
    {
        self.enabled
    }

    pub fn len(&self) -> (r: usize)
        ensures
            r == self.samples_spec().len(),
    {
        self.samples.len()
    }

    pub fn is_empty(&self) -> (r: bool)
        ensures
            r == (self.samples_spec().len() == 0),
    {
        self.samples.len() == 0
    }

    /// Record a frame. A disabled collector ignores it; otherwise the oldest
    /// sample leaves a full window, and every `report_every`th frame yields
    /// the summary of the window.
    pub fn record(&mut self, sample: FrameSample) -> (r: Option<String>)
        requires
            old(self).wf(),
            old(self).seen_spec() < usize::MAX,
        ensures
            final(self).wf(),
            final(self).enabled_spec() == old(self).enabled_spec(),
            final(self).capacity_spec() == old(self).capacity_spec(),
            final(self).every_spec() == old(self).every_spec(),
            if !old(self).enabled_spec() {
                r is None && final(self).samples_spec() == old(self).samples_spec() && final(self).seen_spec()
                    == old(self).seen_spec()
            } else {
                &&& final(self).seen_spec() == old(self).seen_spec() + 1
                &&& final(self).samples_spec() == if old(self).samples_spec().len() == old(self).capacity_spec() {
                    old(self).samples_spec().drop_first().push(sample)
                } else {
                    old(self).samples_spec().push(sample)
                }
                &&& match r {
                    Some(text) => final(self).seen_spec() % final(self).every_spec() == 0 && text@ == report_text(
                        final(self).samples_spec(),
                    ),
                    None => final(self).seen_spec() % final(self).every_spec() != 0,
                }
            },
    {
        if !self.enabled {
            return None;
        }
        self.seen = self.seen + 1;
        if self.samples.len() == self.capacity {
            self.samples.remove(0);
            proof {
                assert(self.samples@ =~= old(self).samples@.drop_first());
            }
        }
        self.samples.push(sample);
        if self.seen % self.report_every == 0 {
            Some(self.report())
        } else {
            None
        }
    }

    /// The summary of the window: sample count; total frame time at the
    /// 50th, 95th and 99th nearest-rank percentiles and its maximum, in
    /// milliseconds; 95th percentiles of scheduler delay, render and draw
    /// time, changed cells and emitted bytes; summed cache and preview
    /// counters.
    pub fn report(&self) -> (r: String)
        ensures
            r@ == report_text(self.samples_spec()),
    {
        let total = sorted_values(&self.samples, 0);
        let mut s = String::new();
        push_str(&mut s, "[e frames] n=");
        push_decimal(&mut s, self.samples.len() as u64);
        push_str(&mut s, " total_ms p50=");
        push_millis(&mut s, percentile_sorted(&total, 50));
        push_str(&mut s, " p95=");
        push_millis(&mut s, percentile_sorted(&total, 95));
        push_str(&mut s, " p99=");
        push_millis(&mut s, percentile_sorted(&total, 99));
        push_str(&mut s, " max=");
        let max = if total.len() == 0 {
            0
        } else {
            total[total.len() - 1]
        };
        push_millis(&mut s, max);
        push_str(&mut s, "; scheduler_p95=");
        push_millis(&mut s, percentile_sorted(&sorted_values(&self.samples, 1), 95));
        push_str(&mut s, "; render_p95=");
        push_millis(&mut s, percentile_sorted(&sorted_values(&self.samples, 2), 95));
        push_str(&mut s, "; draw_p95=");
        push_millis(&mut s, percentile_sorted(&sorted_values(&self.samples, 3), 95));
        push_str(&mut s, "; cells_p95=");
        push_decimal(&mut s, percentile_sorted(&sorted_values(&self.samples, 4), 95));
        push_str(&mut s, "; bytes_p95=");
        push_decimal(&mut s, percentile_sorted(&sorted_values(&self.samples, 5), 95));
        push_str(&mut s, "; rebuilds=");
        push_wide_decimal(&mut s, sum_values(&self.samples, 6));
        push_str(&mut s, "; patches=");
        push_wide_decimal(&mut s, sum_values(&self.samples, 7));
        push_str(&mut s, "; visible_rows=");
        push_wide_decimal(&mut s, sum_values(&self.samples, 8));
        push_str(&mut s, "; preview_rebuilds=");
        push_wide_decimal(&mut s, sum_values(&self.samples, 9));
        push_str(&mut s, "; preview_patches=");
        push_wide_decimal(&mut s, sum_values(&self.samples, 10));
        push_str(&mut s, "; preview_rows=");
        push_wide_decimal(&mut s, sum_values(&self.samples, 11));
        proof {
            assert(s@ =~= report_text(self.samples@));
        }
        s
    }
}

} // verus!
