use vstd::prelude::*;
use crate::decode::Method;
use crate::decode::RequestRecord;
use crate::hist::Hist;
use crate::hist::hist_wf;
use crate::hist::spec_observe;

verus! {

/// The label pair a request is counted under.
#[derive(Clone, Copy, Debug, PartialEq, Eq, Hash, Structural)]
pub struct LabelKey {
    pub method: Method,
    pub status: u64,
}

/// The per-label counters: requests, bytes sent, request bytes, and the
/// response-time histogram.
pub struct LabelStats {
    pub requests: u64,
    pub bytes_sent: u64,
    pub request_bytes: u64,
    pub time_hist: Hist,
}

/// The aggregate store: per-label counters materialized on first sight of a
/// label pair, a global status histogram, and a global parse-error counter.
/// Every counter is monotonically non-decreasing for the life of the value.
pub struct Stats {
    pub entries: Vec<(LabelKey, LabelStats)>,
    pub status_hist: Hist,
    pub parse_errors: u64,
}

/// Mathematical image of one label's counters.
#[verifier::ext_equal]
pub struct LabelStatsModel {
    pub requests: u64,
    pub bytes_sent: u64,
    pub request_bytes: u64,
    pub time_counts: Seq<u64>,
    pub time_sum: u64,
}

/// Mathematical image of the whole store. The label map is total: a label
/// pair never seen reads as all-zero counters, which is how lazily
/// materialized entries look from outside.
#[verifier::ext_equal]
pub struct StatsModel {
    pub labels: Map<LabelKey, LabelStatsModel>,
    pub status_counts: Seq<u64>,
    pub status_sum: u64,
    pub parse_errors: u64,
}

/// Upper bounds of the response-time buckets, in microseconds: 5ms, 10ms,
/// 25ms, 50ms, 100ms, 250ms, 500ms, 1s, 2.5s, 5s, 10s.
pub open spec fn time_bounds_micros() -> Seq<u64> {
    seq![
        5000u64,
        10000u64,
        25000u64,
        50000u64,
        100000u64,
        250000u64,
        500000u64,
        1000000u64,
        2500000u64,
        5000000u64,
        10000000u64,
    ]
}

/// Upper bounds of the status buckets.
pub open spec fn status_bounds() -> Seq<u64> {
    seq![200u64, 300u64, 400u64, 500u64]
}

/// A run of `n` zeroed counters.
pub open spec fn zero_counts(n: nat) -> Seq<u64> {
    Seq::new(n, |i: int| 0u64)
}

/// The all-zero counters a label pair shows before it is first seen.
pub open spec fn zero_label() -> LabelStatsModel {
    LabelStatsModel {
        requests: 0,
        bytes_sent: 0,
        request_bytes: 0,
        time_counts: zero_counts(12),
        time_sum: 0,
    }
}

/// The counters stored for `k`, if `k` has an entry.
pub open spec fn find_label(s: Seq<(LabelKey, LabelStats)>, k: LabelKey) -> Option<LabelStats>
    decreases s.len(),
{
    if s.len() == 0 {
        None
    } else if s[0].0 == k {
        Some(s[0].1)
    } else {
        find_label(s.drop_first(), k)
    }
}

/// Image of one stored label entry.
pub open spec fn label_model(ls: LabelStats) -> LabelStatsModel {
    LabelStatsModel {
        requests: ls.requests,
        bytes_sent: ls.bytes_sent,
        request_bytes: ls.request_bytes,
        time_counts: ls.time_hist.counts@,
        time_sum: ls.time_hist.sum,
    }
}

impl View for Stats {
    type V = StatsModel;

    open spec fn view(&self) -> StatsModel {
        StatsModel {
            labels: Map::new(
                |k: LabelKey| true,
                |k: LabelKey|
                    match find_label(self.entries@, k) {
                        Some(ls) => label_model(ls),
                        None => zero_label(),
                    },
            ),
            status_counts: self.status_hist.counts@,
            status_sum: self.status_hist.sum,
            parse_errors: self.parse_errors,
        }
    }
}

/// Well-formedness: label keys are unique, every histogram carries the
/// fixed bounds of its kind and one counter per bucket.
pub open spec fn stats_wf(s: Stats) -> bool {
    &&& forall|i: int, j: int|
        0 <= i < j < s.entries@.len() ==> (#[trigger] s.entries@[i]).0 != (
        #[trigger] s.entries@[j]).0
    &&& forall|i: int|
        0 <= i < s.entries@.len() ==> hist_wf((#[trigger] s.entries@[i]).1.time_hist)
            && s.entries@[i].1.time_hist.bounds@ == time_bounds_micros()
    &&& hist_wf(s.status_hist)
    &&& s.status_hist.bounds@ == status_bounds()
}

/// The image of a fresh store: every counter zero.
pub open spec fn spec_empty_stats() -> StatsModel {
    StatsModel {
        labels: Map::new(|k: LabelKey| true, |k: LabelKey| zero_label()),
        status_counts: zero_counts(5),
        status_sum: 0,
        parse_errors: 0,
    }
}

/// Folding one decoded record into the store: the record's label pair gains
/// one request, the byte counters grow by the record's sizes, its response
/// time is observed into the label's time histogram, and its status into
/// the global status histogram. Nothing else changes.
pub open spec fn spec_apply_record(m: StatsModel, r: RequestRecord) -> StatsModel {
    let k = LabelKey { method: r.method, status: r.status };
    let ls = m.labels[k];
    let t = spec_observe(ls.time_counts, ls.time_sum, time_bounds_micros(), r.resp_time_micros);
    let s = spec_observe(m.status_counts, m.status_sum, status_bounds(), r.status);
    StatsModel {
        labels: m.labels.insert(
            k,
            LabelStatsModel {
                requests: ls.requests.saturating_add(1),
                bytes_sent: ls.bytes_sent.saturating_add(r.resp_body_size),
                request_bytes: ls.request_bytes.saturating_add(r.request_length),
                time_counts: t.0,
                time_sum: t.1,
            },
        ),
        status_counts: s.0,
        status_sum: s.1,
        parse_errors: m.parse_errors,
    }
}

/// Counting one undecodable line: the parse-error counter gains one and
/// nothing else changes.
pub open spec fn spec_note_parse_error(m: StatsModel) -> StatsModel {
    StatsModel {
        labels: m.labels,
        status_counts: m.status_counts,
        status_sum: m.status_sum,
        parse_errors: m.parse_errors.saturating_add(1),
    }
}

/// Two entry lists that agree key for key and counter for counter.
pub open spec fn entries_model_eq(
    a: Seq<(LabelKey, LabelStats)>,
    b: Seq<(LabelKey, LabelStats)>,
) -> bool {
    a.len() == b.len() && forall|i: int|
        0 <= i < a.len() ==> (#[trigger] a[i]).0 == (#[trigger] b[i]).0 && label_model(a[i].1)
            == label_model(b[i].1)
}

proof fn lemma_find_label_model_eq(
    a: Seq<(LabelKey, LabelStats)>,
    b: Seq<(LabelKey, LabelStats)>,
    k: LabelKey,
)
    requires
        entries_model_eq(a, b),
    ensures
        find_label(a, k) is Some <==> find_label(b, k) is Some,
        find_label(a, k) is Some ==> label_model(find_label(a, k).unwrap()) == label_model(
            find_label(b, k).unwrap(),
        ),
    decreases a.len(),
{
    if a.len() > 0 {
        assert(a[0].0 == b[0].0);
        if a[0].0 != k {
            assert(entries_model_eq(a.drop_first(), b.drop_first())) by {
                assert forall|i: int| 0 <= i < a.drop_first().len() implies (#[trigger] a.drop_first()[i]).0
                    == (#[trigger] b.drop_first()[i]).0 && label_model(a.drop_first()[i].1)
                    == label_model(b.drop_first()[i].1) by {
                    assert(a.drop_first()[i] == a[i + 1]);
                    assert(b.drop_first()[i] == b[i + 1]);
                    assert(a[i + 1].0 == b[i + 1].0 && label_model(a[i + 1].1) == label_model(
                        b[i + 1].1,
                    ));
                }
            }
            lemma_find_label_model_eq(a.drop_first(), b.drop_first(), k);
        }
    }
}

proof fn lemma_find_label_skip(s: Seq<(LabelKey, LabelStats)>, k: LabelKey, i: int)
    requires
        0 <= i <= s.len(),
        forall|j: int| 0 <= j < i ==> (#[trigger] s[j]).0 != k,
    ensures
        find_label(s, k) == find_label(s.skip(i), k),
    decreases i,
{
    if i > 0 {
        assert(s.drop_first() =~= s.skip(1));
        assert(s.skip(1).skip(i - 1) =~= s.skip(i));
        lemma_find_label_skip(s.skip(1), k, i - 1);
    } else {
        assert(s.skip(0) =~= s);
    }
}

proof fn lemma_find_label_update(
    s: Seq<(LabelKey, LabelStats)>,
    i: int,
    ls2: LabelStats,
    k2: LabelKey,
)
    requires
        0 <= i < s.len(),
        forall|a: int, b: int| 0 <= a < b < s.len() ==> (#[trigger] s[a]).0 != (#[trigger] s[b]).0,
    ensures
        find_label(s.update(i, (s[i].0, ls2)), k2) == (if k2 == s[i].0 {
            Some(ls2)
        } else {
            find_label(s, k2)
        }),
    decreases i,
{
    let t = s.update(i, (s[i].0, ls2));
    if i == 0 {
        assert(t.drop_first() =~= s.drop_first());
    } else {
        assert(t[0] == s[0]);
        if s[0].0 == k2 {
            assert(s[i].0 != k2);
        } else {
            assert(t.drop_first() =~= s.drop_first().update(i - 1, (s.drop_first()[i - 1].0, ls2)));
            assert(forall|a: int, b: int|
                0 <= a < b < s.drop_first().len() ==> (#[trigger] s.drop_first()[a]).0 != (
                #[trigger] s.drop_first()[b]).0);
            lemma_find_label_update(s.drop_first(), i - 1, ls2, k2);
        }
    }
}

proof fn lemma_find_label_push(
    s: Seq<(LabelKey, LabelStats)>,
    k: LabelKey,
    ls: LabelStats,
    k2: LabelKey,
)
    requires
        find_label(s, k) is None,
    ensures
        find_label(s.push((k, ls)), k2) == (if k2 == k {
            Some(ls)
        } else {
            find_label(s, k2)
        }),
    decreases s.len(),
{
    let t = s.push((k, ls));
    assert(t.len() == s.len() + 1);
    if s.len() == 0 {
        assert(t[0] == (k, ls));
        assert(t[0].0 == k);
        if k2 != k {
            assert(t.drop_first() =~= Seq::<(LabelKey, LabelStats)>::empty());
            assert(find_label(t, k2) is None);
            assert(find_label(s, k2) is None);
        }
    } else {
        assert(t[0] == s[0]);
        assert(s[0].0 != k);
        if s[0].0 == k2 {
            assert(k2 != k);
            assert(find_label(t, k2) == Some(s[0].1));
            assert(find_label(s, k2) == Some(s[0].1));
        } else {
            assert(find_label(s.drop_first(), k) is None);
            assert(t.drop_first() =~= s.drop_first().push((k, ls)));
            lemma_find_label_push(s.drop_first(), k, ls, k2);
            assert(find_label(t, k2) == find_label(t.drop_first(), k2));
            assert(find_label(s, k2) == find_label(s.drop_first(), k2));
        }
    }
}

/// The fixed response-time bounds, in microseconds.
pub fn make_time_bounds() -> (b: Vec<u64>)
    ensures
        b@ == time_bounds_micros(),
{
    let mut b: Vec<u64> = Vec::new();
    b.push(5000);
    b.push(10000);
    b.push(25000);
    b.push(50000);
    b.push(100000);
    b.push(250000);
    b.push(500000);
    b.push(1000000);
    b.push(2500000);
    b.push(5000000);
    b.push(10000000);
    proof {
        assert(b@ =~= time_bounds_micros());
    }
    b
}

/// The fixed status bounds.
pub fn make_status_bounds() -> (b: Vec<u64>)
    ensures
        b@ == status_bounds(),
{
    let mut b: Vec<u64> = Vec::new();
    b.push(200);
    b.push(300);
    b.push(400);
    b.push(500);
    proof {
        assert(b@ =~= status_bounds());
    }
    b
}

impl Stats {
    /// A fresh store with every counter zero.
    pub fn new() -> (s: Stats)
        ensures
            stats_wf(s),
            s@ == spec_empty_stats(),
    {
        let s = Stats {
            entries: Vec::new(),
            status_hist: Hist::new(make_status_bounds()),
            parse_errors: 0,
        };
        proof {
            assert(s@.labels =~= spec_empty_stats().labels);
            assert(s@.status_counts =~= zero_counts(5));
            assert(s@ =~= spec_empty_stats());
        }
        s
    }

    /// Index of the entry for `k`, if one exists.
    fn find_entry(&self, k: &LabelKey) -> (idx: Option<usize>)
        ensures
            match idx {
                Some(i) => i < self.entries@.len() && self.entries@[i as int].0 == *k && find_label(
                    self.entries@,
                    *k,
                ) == Some(self.entries@[i as int].1),
                None => find_label(self.entries@, *k) is None,
            },
    {
        let ghost s = self.entries@;
        let n: usize = self.entries.len();
        let mut i: usize = 0;
        while i < n
            invariant
                i <= n,
                n == s.len(),
                s == self.entries@,
                forall|j: int| 0 <= j < i ==> (#[trigger] s[j]).0 != *k,
            decreases n - i,
        {
            let hit = self.entries[i].0 == *k;
            if hit {
                proof {
                    lemma_find_label_skip(s, *k, i as int);
                    assert(s.skip(i as int)[0] == s[i as int]);
                }
                return Some(i);
            }
            i = i + 1;
        }
        proof {
            lemma_find_label_skip(s, *k, n as int);
            assert(s.skip(n as int).len() == 0);
        }
        None
    }

    /// Fold one decoded record into the store.
    pub fn record(&mut self, r: &RequestRecord)
        requires
            stats_wf(*old(self)),
        ensures
            stats_wf(*final(self)),
            final(self)@ == spec_apply_record(old(self)@, *r),
    {
        let ghost m0 = self@;
        let k = LabelKey { method: r.method, status: r.status };
        let ghost s0 = self.entries@;
        match self.find_entry(&k) {
            Some(i) => {
                proof {
                    assert(hist_wf((s0[i as int]).1.time_hist));
                }
                let e = &mut self.entries[i];
                e.1.requests = e.1.requests.saturating_add(1);
                e.1.bytes_sent = e.1.bytes_sent.saturating_add(r.resp_body_size);
                e.1.request_bytes = e.1.request_bytes.saturating_add(r.request_length);
                e.1.time_hist.observe(r.resp_time_micros);
                proof {
                    let s1 = self.entries@;
                    assert(s1 =~= s0.update(i as int, (s0[i as int].0, s1[i as int].1)));
                    assert forall|k2: LabelKey| #[trigger]
                        find_label(s1, k2) == (if k2 == k {
                            Some(s1[i as int].1)
                        } else {
                            find_label(s0, k2)
                        }) by {
                        lemma_find_label_update(s0, i as int, s1[i as int].1, k2);
                    }
                    assert(label_model(s1[i as int].1) == spec_apply_record(m0, *r).labels[k]);
                }
            },
            None => {
                let mut h = Hist::new(make_time_bounds());
                let ghost hc0 = h.counts@;
                h.observe(r.resp_time_micros);
                proof {
                    assert(hc0 =~= zero_counts(12));
                }
                let ls = LabelStats {
                    requests: 1,
                    bytes_sent: r.resp_body_size,
                    request_bytes: r.request_length,
                    time_hist: h,
                };
                self.entries.push((k, ls));
                proof {
                    let s1 = self.entries@;
                    assert forall|k2: LabelKey| #[trigger]
                        find_label(s1, k2) == (if k2 == k {
                            Some(ls)
                        } else {
                            find_label(s0, k2)
                        }) by {
                        lemma_find_label_push(s0, k, ls, k2);
                    }
                    assert(m0.labels[k] == zero_label());
                    assert(label_model(ls) == spec_apply_record(m0, *r).labels[k]);
                    assert forall|j: int| 0 <= j < s1.len() implies hist_wf(
                        (#[trigger] s1[j]).1.time_hist,
                    ) && s1[j].1.time_hist.bounds@ == time_bounds_micros() by {
                        if j < s0.len() {
                            assert(s1[j] == s0[j]);
                        } else {
                            assert(s1[j] == (k, ls));
                        }
                    }
                    assert forall|a: int, b: int| 0 <= a < b < s1.len() implies (
                    #[trigger] s1[a]).0 != (#[trigger] s1[b]).0 by {
                        if b < s0.len() {
                            assert(s1[a] == s0[a] && s1[b] == s0[b]);
                        } else {
                            assert(s1[b] == (k, ls));
                            assert(s1[a] == s0[a]);
                            if s0[a].0 == k {
                                lemma_find_label_skip(s0, k, a);
                                assert(s0.skip(a)[0] == s0[a]);
                                assert(find_label(s0, k) is Some);
                            }
                        }
                    }
                }
            },
        }
        self.status_hist.observe(r.status);
        proof {
            assert(self@.labels =~= spec_apply_record(m0, *r).labels);
            assert(self@ =~= spec_apply_record(m0, *r));
        }
    }

    /// Count one undecodable line.
    pub fn record_parse_error(&mut self)
        requires
            stats_wf(*old(self)),
        ensures
            stats_wf(*final(self)),
            final(self)@ == spec_note_parse_error(old(self)@),
    {
        let ghost m0 = self@;
        self.parse_errors = self.parse_errors.saturating_add(1);
        proof {
            assert(self@.labels =~= spec_note_parse_error(m0).labels);
            assert(self@ =~= spec_note_parse_error(m0));
        }
    }

    /// A consistent, independent copy of the whole store, for the
    /// exposition encoder to read while ingestion goes on with the
    /// original.
    pub fn snapshot(&self) -> (s: Stats)
        requires
            stats_wf(*self),
        ensures
            stats_wf(s),
            s@ == self@,
    {
        let n: usize = self.entries.len();
        let mut entries: Vec<(LabelKey, LabelStats)> = Vec::new();
        let mut i: usize = 0;
        while i < n
            invariant
                i <= n,
                n == self.entries@.len(),
                stats_wf(*self),
                entries@.len() == i,
                forall|j: int|
                    0 <= j < i ==> (#[trigger] entries@[j]).0 == (#[trigger] self.entries@[j]).0
                        && label_model(entries@[j].1) == label_model(self.entries@[j].1) && hist_wf(
                        entries@[j].1.time_hist,
                    ) && entries@[j].1.time_hist.bounds@ == time_bounds_micros(),
            decreases n - i,
        {
            let e = &self.entries[i];
            let ls = LabelStats {
                requests: e.1.requests,
                bytes_sent: e.1.bytes_sent,
                request_bytes: e.1.request_bytes,
                time_hist: e.1.time_hist.duplicate(),
            };
            entries.push((e.0, ls));
            i = i + 1;
        }
        let s = Stats {
            entries,
            status_hist: self.status_hist.duplicate(),
            parse_errors: self.parse_errors,
        };
        proof {
            assert forall|a: int, b: int| 0 <= a < b < s.entries@.len() implies (
            #[trigger] s.entries@[a]).0 != (#[trigger] s.entries@[b]).0 by {
                assert(s.entries@[a].0 == self.entries@[a].0);
                assert(s.entries@[b].0 == self.entries@[b].0);
            }
            assert forall|j: int| 0 <= j < s.entries@.len() implies hist_wf(
                (#[trigger] s.entries@[j]).1.time_hist,
            ) && s.entries@[j].1.time_hist.bounds@ == time_bounds_micros() by {
                assert(label_model(s.entries@[j].1) == label_model(self.entries@[j].1));
            }
            assert forall|k: LabelKey| #[trigger] s@.labels[k] == self@.labels[k] by {
                lemma_find_label_model_eq(s.entries@, self.entries@, k);
            }
            assert(s@.labels =~= self@.labels);
            assert(s@ =~= self@);
        }
        s
    }

    /// The parse-error counter.
    pub fn parse_error_count(&self) -> (n: u64)
        ensures
            n == self@.parse_errors,
    {
        self.parse_errors
    }

    /// The request counter of one label pair.
    pub fn requests_for(&self, method: Method, status: u64) -> (n: u64)
        ensures
            n == self@.labels[LabelKey { method, status }].requests,
    {
        match self.find_entry(&LabelKey { method, status }) {
            Some(i) => self.entries[i].1.requests,
            None => 0,
        }
    }

    /// The bytes-sent counter of one label pair.
    pub fn bytes_sent_for(&self, method: Method, status: u64) -> (n: u64)
        ensures
            n == self@.labels[LabelKey { method, status }].bytes_sent,
    {
        match self.find_entry(&LabelKey { method, status }) {
            Some(i) => self.entries[i].1.bytes_sent,
            None => 0,
        }
    }

    /// The request-bytes counter of one label pair.
    pub fn request_bytes_for(&self, method: Method, status: u64) -> (n: u64)
        ensures
            n == self@.labels[LabelKey { method, status }].request_bytes,
    {
        match self.find_entry(&LabelKey { method, status }) {
            Some(i) => self.entries[i].1.request_bytes,
            None => 0,
        }
    }

    /// One bucket of one label pair's response-time histogram.
    pub fn time_bucket_for(&self, method: Method, status: u64, bucket: usize) -> (n: u64)
        requires
            stats_wf(*self),
            bucket < 12,
        ensures
            n == self@.labels[LabelKey { method, status }].time_counts[bucket as int],
    {
        match self.find_entry(&LabelKey { method, status }) {
            Some(i) => self.entries[i].1.time_hist.counts[bucket],
            None => 0,
        }
    }

    /// The saturating sum of one label pair's observed response times.
    pub fn time_sum_for(&self, method: Method, status: u64) -> (n: u64)
        ensures
            n == self@.labels[LabelKey { method, status }].time_sum,
    {
        match self.find_entry(&LabelKey { method, status }) {
            Some(i) => self.entries[i].1.time_hist.sum,
            None => 0,
        }
    }

    /// One bucket of the global status histogram.
    pub fn status_bucket(&self, bucket: usize) -> (n: u64)
        requires
            stats_wf(*self),
            bucket < 5,
        ensures
            n == self@.status_counts[bucket as int],
    {
        self.status_hist.counts[bucket]
    }

    /// The saturating sum of all observed status values.
    pub fn status_observed_sum(&self) -> (n: u64)
        ensures
            n == self@.status_sum,
    {
        self.status_hist.sum
    }
}

} // verus!
