use vstd::prelude::*;
use crate::decode::RequestRecord;
use crate::decode::record_of;
use crate::hist::lemma_bucket_of_range;
use crate::hist::spec_observe;
use crate::ingest::LineInput;
use crate::ingest::spec_ingest;
use crate::ingest::spec_line_step;
use crate::stats::LabelKey;
use crate::stats::LabelStats;
use crate::stats::LabelStatsModel;
use crate::stats::Stats;
use crate::stats::StatsModel;
use crate::stats::find_label;
use crate::stats::spec_apply_record;
use crate::stats::spec_note_parse_error;
use crate::stats::stats_wf;
use crate::stats::status_bounds;
use crate::stats::time_bounds_micros;
use crate::stats::zero_counts;

verus! {

/// Pointwise order on counter runs of equal length.
pub open spec fn counts_le(a: Seq<u64>, b: Seq<u64>) -> bool {
    a.len() == b.len() && forall|i: int| 0 <= i < a.len() ==> a[i] <= b[i]
}

/// Order on one label's counters: nothing decreased.
pub open spec fn label_le(a: LabelStatsModel, b: LabelStatsModel) -> bool {
    &&& a.requests <= b.requests
    &&& a.bytes_sent <= b.bytes_sent
    &&& a.request_bytes <= b.request_bytes
    &&& counts_le(a.time_counts, b.time_counts)
    &&& a.time_sum <= b.time_sum
}

/// Order on whole store images: no counter anywhere decreased.
pub open spec fn stats_le(a: StatsModel, b: StatsModel) -> bool {
    &&& forall|k: LabelKey| label_le(#[trigger] a.labels[k], b.labels[k])
    &&& counts_le(a.status_counts, b.status_counts)
    &&& a.status_sum <= b.status_sum
    &&& a.parse_errors <= b.parse_errors
}

/// Shape of a store image: the bucket runs have the fixed widths of their
/// kinds.
pub open spec fn model_wf(m: StatsModel) -> bool {
    &&& m.status_counts.len() == 5
    &&& forall|k: LabelKey| (#[trigger] m.labels[k]).time_counts.len() == 12
}

proof fn lemma_find_label_mem(s: Seq<(LabelKey, LabelStats)>, k: LabelKey)
    requires
        find_label(s, k) is Some,
    ensures
        exists|i: int|
            0 <= i < s.len() && (#[trigger] s[i]).0 == k && s[i].1 == find_label(s, k).unwrap(),
    decreases s.len(),
{
    if s[0].0 == k {
        assert(s[0].0 == k && s[0].1 == find_label(s, k).unwrap());
    } else {
        lemma_find_label_mem(s.drop_first(), k);
        let i = choose|i: int|
            0 <= i < s.drop_first().len() && (#[trigger] s.drop_first()[i]).0 == k
                && s.drop_first()[i].1 == find_label(s.drop_first(), k).unwrap();
        assert(s[i + 1] == s.drop_first()[i]);
    }
}

/// A well-formed store's image is well-shaped.
pub proof fn lemma_view_model_wf(s: Stats)
    requires
        stats_wf(s),
    ensures
        model_wf(s@),
{
    assert forall|k: LabelKey| (#[trigger] s@.labels[k]).time_counts.len() == 12 by {
        if find_label(s.entries@, k) is Some {
            lemma_find_label_mem(s.entries@, k);
        } else {
            assert(s@.labels[k] == crate::stats::zero_label());
            assert(zero_counts(12).len() == 12);
        }
    }
}

proof fn lemma_observe_le(counts: Seq<u64>, sum: u64, bounds: Seq<u64>, v: u64)
    requires
        counts.len() == bounds.len() + 1,
    ensures
        counts_le(counts, spec_observe(counts, sum, bounds, v).0),
        sum <= spec_observe(counts, sum, bounds, v).1,
        spec_observe(counts, sum, bounds, v).0.len() == counts.len(),
{
    lemma_bucket_of_range(bounds, v);
}

proof fn lemma_apply_record_le(m: StatsModel, r: RequestRecord)
    requires
        model_wf(m),
    ensures
        model_wf(spec_apply_record(m, r)),
        stats_le(m, spec_apply_record(m, r)),
{
    let k = LabelKey { method: r.method, status: r.status };
    let m2 = spec_apply_record(m, r);
    lemma_observe_le(m.labels[k].time_counts, m.labels[k].time_sum, time_bounds_micros(), r.resp_time_micros);
    lemma_observe_le(m.status_counts, m.status_sum, status_bounds(), r.status);
    assert forall|k2: LabelKey| label_le(#[trigger] m.labels[k2], m2.labels[k2]) by {
        if k2 != k {
            assert(m2.labels[k2] == m.labels[k2]);
        }
    }
    assert forall|k2: LabelKey| (#[trigger] m2.labels[k2]).time_counts.len() == 12 by {
        if k2 != k {
            assert(m2.labels[k2] == m.labels[k2]);
        }
    }
}

proof fn lemma_line_step_le(m: StatsModel, l: LineInput)
    requires
        model_wf(m),
    ensures
        model_wf(spec_line_step(m, l)),
        stats_le(m, spec_line_step(m, l)),
{
    match l {
        LineInput::Unreadable => {
        },
        LineInput::Text(s) => {
            match record_of(s@) {
                Some(r) => {
                    lemma_apply_record_le(m, r);
                },
                None => {
                },
            }
        },
    }
}

proof fn lemma_stats_le_trans(a: StatsModel, b: StatsModel, c: StatsModel)
    requires
        stats_le(a, b),
        stats_le(b, c),
    ensures
        stats_le(a, c),
{
    assert forall|k: LabelKey| label_le(#[trigger] a.labels[k], c.labels[k]) by {
        assert(label_le(a.labels[k], b.labels[k]));
        assert(label_le(b.labels[k], c.labels[k]));
    }
}

/// Monotonicity: over any run of ingested lines, no counter of the store
/// ever decreases — not a request, byte or parse-error counter, not a
/// histogram bucket, not a histogram sum.
pub proof fn lemma_ingest_monotone(m: StatsModel, lines: Seq<LineInput>)
    requires
        model_wf(m),
    ensures
        model_wf(spec_ingest(m, lines)),
        stats_le(m, spec_ingest(m, lines)),
    decreases lines.len(),
{
    if lines.len() == 0 {
    } else {
        lemma_ingest_monotone(m, lines.drop_last());
        let mid = spec_ingest(m, lines.drop_last());
        lemma_line_step_le(mid, lines.last());
        lemma_stats_le_trans(m, mid, spec_line_step(mid, lines.last()));
    }
}

/// Parse-error isolation: a line that cannot be read or does not decode
/// adds one to the parse-error counter — exactly one, short of saturation —
/// and touches nothing else: every label's counters, the status histogram
/// and its sum stay as they were, and the pass goes on.
pub proof fn lemma_parse_error_isolation(m: StatsModel, l: LineInput)
    requires
        (match l {
            LineInput::Text(s) => record_of(s@) is None,
            LineInput::Unreadable => true,
        }),
    ensures
        spec_line_step(m, l) == spec_note_parse_error(m),
        spec_line_step(m, l).labels == m.labels,
        spec_line_step(m, l).status_counts == m.status_counts,
        spec_line_step(m, l).status_sum == m.status_sum,
        m.parse_errors < u64::MAX ==> spec_line_step(m, l).parse_errors == m.parse_errors + 1,
{
}

} // verus!
