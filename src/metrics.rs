//! Request counters and a bounded latency reservoir.
use crate::text::{chars_of, decimal, decimal_of, eq_chars, push_all, string_of};
use vstd::pervasive::VecAdditionalExecFns;
use vstd::prelude::*;

verus! {

/// The reservoir holds at most this many latency samples ...
pub const MAX_SAMPLES: usize = 10000;

/// ... and drops this many of the oldest when it overflows.
pub const DROPPED_SAMPLES: usize = 5000;

pub open spec fn sat_add(a: u64, b: u64) -> u64 {
    if a + b <= u64::MAX {
        (a + b) as u64
    } else {
        u64::MAX
    }
}

/// The reservoir after one more sample: the oldest half goes when it overflows.
pub open spec fn reservoir_push(s: Seq<u64>, x: u64) -> Seq<u64> {
    let t = s.push(x);
    if t.len() > MAX_SAMPLES {
        t.skip(DROPPED_SAMPLES as int)
    } else {
        t
    }
}

/// `counts` with one more occurrence of `key` (a new entry at the end for a new key).
pub open spec fn bump<K>(counts: Seq<(K, u64)>, key: K) -> Seq<(K, u64)>
    decreases counts.len(),
{
    if counts.len() == 0 {
        seq![(key, 1u64)]
    } else if counts[0].0 == key {
        seq![(key, sat_add(counts[0].1, 1))] + counts.skip(1)
    } else {
        seq![counts[0]] + bump(counts.skip(1), key)
    }
}

/// The monotone counters: requests, bytes received, bytes sent.
pub ghost struct Counters {
    pub requests: u64,
    pub bytes_in: u64,
    pub bytes_out: u64,
}

pub open spec fn record_counters(c: Counters, bytes_in: u64, bytes_out: u64) -> Counters {
    Counters {
        requests: sat_add(c.requests, 1),
        bytes_in: sat_add(c.bytes_in, bytes_in),
        bytes_out: sat_add(c.bytes_out, bytes_out),
    }
}

/// The counters after recording requests with the given byte counts, in order.
pub open spec fn counters_after(c: Counters, reqs: Seq<(u64, u64)>) -> Counters
    decreases reqs.len(),
{
    if reqs.len() == 0 {
        c
    } else {
        let p = counters_after(c, reqs.drop_last());
        record_counters(p, reqs.last().0, reqs.last().1)
    }
}

pub open spec fn counters_le(a: Counters, b: Counters) -> bool {
    a.requests <= b.requests && a.bytes_in <= b.bytes_in && a.bytes_out <= b.bytes_out
}

/// Recording requests never lowers `requests_total` or the byte counters:
/// after any sequence of requests, each later state is at least each earlier one.
pub proof fn lemma_counters_monotone(c: Counters, reqs: Seq<(u64, u64)>, i: int, j: int)
    requires
        0 <= i <= j <= reqs.len(),
    ensures
        counters_le(counters_after(c, reqs.take(i)), counters_after(c, reqs.take(j))),
    decreases j - i,
{
    if i < j {
        lemma_counters_monotone(c, reqs, i, j - 1);
        assert(reqs.take(j).drop_last() =~= reqs.take(j - 1));
    }
}

pub struct MetricsCollector {
    requests_total: u64,
    requests_by_method: Vec<(String, u64)>,
    requests_by_status: Vec<(u16, u64)>,
    response_times_us: Vec<u64>,
    active_connections: u64,
    bytes_sent: u64,
    bytes_received: u64,
    errors: u64,
}

pub open spec fn method_view(v: Seq<(String, u64)>) -> Seq<(Seq<char>, u64)> {
    v.map_values(|p: (String, u64)| (p.0@, p.1))
}

impl MetricsCollector {
    pub closed spec fn counters(&self) -> Counters {
        Counters {
            requests: self.requests_total,
            bytes_in: self.bytes_received,
            bytes_out: self.bytes_sent,
        }
    }

    pub closed spec fn errors(&self) -> u64 {
        self.errors
    }

    pub closed spec fn active(&self) -> u64 {
        self.active_connections
    }

    pub closed spec fn samples(&self) -> Seq<u64> {
        self.response_times_us@
    }

    pub closed spec fn by_method(&self) -> Seq<(Seq<char>, u64)> {
        method_view(self.requests_by_method@)
    }

    pub closed spec fn by_status(&self) -> Seq<(u16, u64)> {
        self.requests_by_status@
    }

    pub closed spec fn wf(&self) -> bool {
        self.response_times_us@.len() <= MAX_SAMPLES
    }

    pub fn new() -> (r: Self)
        ensures
            r.wf(),
            r.counters() == (Counters { requests: 0, bytes_in: 0, bytes_out: 0 }),
            r.errors() == 0,
            r.active() == 0,
            r.samples().len() == 0,
            r.samples().len() <= MAX_SAMPLES,
            r.by_method().len() == 0,
            r.by_status().len() == 0,
    {
        MetricsCollector {
            requests_total: 0,
            requests_by_method: Vec::new(),
            requests_by_status: Vec::new(),
            response_times_us: Vec::new(),
            active_connections: 0,
            bytes_sent: 0,
            bytes_received: 0,
            errors: 0,
        }
    }

    /// Records one finished request; a status of 500 or more counts as an error.
    pub fn record_request(&mut self, method: &str, status: u16, duration_us: u64, bytes_in: u64, bytes_out: u64)
        requires
            old(self).wf(),
        ensures
            final(self).wf(),
            final(self).counters() == record_counters(old(self).counters(), bytes_in, bytes_out),
            final(self).errors() == if status >= 500 {
                sat_add(old(self).errors(), 1)
            } else {
                old(self).errors()
            },
            final(self).samples() == reservoir_push(old(self).samples(), duration_us),
            final(self).samples().len() <= MAX_SAMPLES,
            final(self).by_method() == bump(old(self).by_method(), method@),
            final(self).by_status() == bump(old(self).by_status(), status),
            final(self).active() == old(self).active(),
    {
        self.requests_total = self.requests_total.saturating_add(1);
        bump_method(&mut self.requests_by_method, method);
        bump_status(&mut self.requests_by_status, status);
        self.response_times_us.push(duration_us);
        if self.response_times_us.len() > MAX_SAMPLES {
            let kept = self.response_times_us.split_off(DROPPED_SAMPLES);
            self.response_times_us = kept;
        }
        self.bytes_received = self.bytes_received.saturating_add(bytes_in);
        self.bytes_sent = self.bytes_sent.saturating_add(bytes_out);
        if status >= 500 {
            self.errors = self.errors.saturating_add(1);
        }
    }

    pub fn increment_connections(&mut self)
        ensures
            final(self).active() == sat_add(old(self).active(), 1),
            final(self).counters() == old(self).counters(),
            final(self).samples() == old(self).samples(),
            final(self).errors() == old(self).errors(),
            final(self).by_method() == old(self).by_method(),
            final(self).by_status() == old(self).by_status(),
            old(self).wf() ==> final(self).wf(),
    {
        self.active_connections = self.active_connections.saturating_add(1);
    }

    pub fn decrement_connections(&mut self)
        ensures
            final(self).active() == if old(self).active() > 0 {
                (old(self).active() - 1) as u64
            } else {
                0
            },
            final(self).counters() == old(self).counters(),
            final(self).samples() == old(self).samples(),
            final(self).errors() == old(self).errors(),
            final(self).by_method() == old(self).by_method(),
            final(self).by_status() == old(self).by_status(),
            old(self).wf() ==> final(self).wf(),
    {
        if self.active_connections > 0 {
            self.active_connections = self.active_connections - 1;
        }
    }
}

proof fn lemma_bump_at<K>(s: Seq<(K, u64)>, key: K, i: int)
    requires
        0 <= i < s.len(),
        s[i].0 == key,
        forall|j: int| 0 <= j < i ==> s[j].0 != key,
    ensures
        bump(s, key) == s.update(i, (key, sat_add(s[i].1, 1))),
    decreases s.len(),
{
    if i == 0 {
        assert(bump(s, key) =~= s.update(i, (key, sat_add(s[i].1, 1))));
    } else {
        let t = s.skip(1);
        assert forall|j: int| 0 <= j < i - 1 implies t[j].0 != key by {
            assert(t[j] == s[j + 1]);
        }
        lemma_bump_at(t, key, i - 1);
        assert(bump(s, key) =~= s.update(i, (key, sat_add(s[i].1, 1))));
    }
}

proof fn lemma_bump_absent<K>(s: Seq<(K, u64)>, key: K)
    requires
        forall|j: int| 0 <= j < s.len() ==> s[j].0 != key,
    ensures
        bump(s, key) == s.push((key, 1u64)),
    decreases s.len(),
{
    if s.len() == 0 {
        assert(bump(s, key) =~= s.push((key, 1u64)));
    } else {
        let t = s.skip(1);
        assert forall|j: int| 0 <= j < t.len() implies t[j].0 != key by {
            assert(t[j] == s[j + 1]);
        }
        lemma_bump_absent(t, key);
        assert(bump(s, key) =~= s.push((key, 1u64)));
    }
}

fn bump_method(counts: &mut Vec<(String, u64)>, method: &str)
    ensures
        method_view(final(counts)@) == bump(method_view(old(counts)@), method@),
{
    let ghost s = method_view(counts@);
    let m = chars_of(method);
    let mut i: usize = 0;
    while i < counts.len()
        invariant
            s == method_view(counts@),
            counts@ == old(counts)@,
            m@ == method@,
            i <= counts@.len(),
            forall|j: int| 0 <= j < i ==> s[j].0 != method@,
        decreases counts@.len() - i,
    {
        if eq_chars(&chars_of(counts[i].0.as_str()), &m) {
            proof {
                lemma_bump_at(s, method@, i as int);
            }
            let n = counts[i].1.saturating_add(1);
            let name = counts[i].0.clone();
            counts.set(i, (name, n));
            assert(method_view(counts@) =~= s.update(i as int, (method@, sat_add(s[i as int].1, 1))));
            return;
        }
        i = i + 1;
    }
    proof {
        lemma_bump_absent(s, method@);
    }
    counts.push((method.to_owned(), 1));
    assert(method_view(counts@) =~= s.push((method@, 1u64)));
}

fn bump_status(counts: &mut Vec<(u16, u64)>, status: u16)
    ensures
        final(counts)@ == bump(old(counts)@, status),
{
    let mut i: usize = 0;
    while i < counts.len()
        invariant
            counts@ == old(counts)@,
            i <= counts@.len(),
            forall|j: int| 0 <= j < i ==> counts@[j].0 != status,
        decreases counts@.len() - i,
    {
        if counts[i].0 == status {
            proof {
                lemma_bump_at(counts@, status, i as int);
            }
            let n = counts[i].1.saturating_add(1);
            counts.set(i, (status, n));
            return;
        }
        i = i + 1;
    }
    proof {
        lemma_bump_absent(counts@, status);
    }
    counts.push((status, 1));
}

/// `n` written as days, hours, minutes and seconds, leaving out leading zero units.
pub open spec fn duration_text(n: nat) -> Seq<char> {
    let days = n / 86400;
    let hours = (n % 86400) / 3600;
    let minutes = (n % 3600) / 60;
    let secs = n % 60;
    if days > 0 {
        decimal(days) + "d "@ + decimal(hours) + "h "@ + decimal(minutes) + "m "@ + decimal(secs) + "s"@
    } else if hours > 0 {
        decimal(hours) + "h "@ + decimal(minutes) + "m "@ + decimal(secs) + "s"@
    } else if minutes > 0 {
        decimal(minutes) + "m "@ + decimal(secs) + "s"@
    } else {
        decimal(secs) + "s"@
    }
}

fn push_unit(out: &mut Vec<char>, n: u64, unit: &str)
    ensures
        final(out)@ == old(out)@ + decimal(n as nat) + unit@,
{
    push_all(out, &decimal_of(n));
    push_all(out, &chars_of(unit));
}

/// A duration in whole seconds, for people: `1d 2h 3m 4s`, `5m 0s`, `7s`.
pub fn format_duration(seconds: u64) -> (r: String)
    ensures
        r@ == duration_text(seconds as nat),
{
    let days = seconds / 86400;
    let hours = (seconds % 86400) / 3600;
    let minutes = (seconds % 3600) / 60;
    let secs = seconds % 60;
    let mut out: Vec<char> = Vec::new();
    if days > 0 {
        push_unit(&mut out, days, "d ");
    }
    if days > 0 || hours > 0 {
        push_unit(&mut out, hours, "h ");
    }
    if days > 0 || hours > 0 || minutes > 0 {
        push_unit(&mut out, minutes, "m ");
    }
    push_unit(&mut out, secs, "s");
    assert(out@ =~= duration_text(seconds as nat));
    string_of(&out)
}

/// Timing of one request: when it started, in microseconds, its method and
/// how many bytes it brought.
#[derive(Clone, Debug)]
pub struct RequestMetrics {
    pub start_us: u64,
    pub method: String,
    pub bytes_in: u64,
}

/// Microseconds from `start` to `now`; zero for a clock that went back.
pub open spec fn elapsed_us(start: u64, now: u64) -> u64 {
    if now >= start { (now - start) as u64 } else { 0 }
}

/// Relies on `std::time::SystemTime::now`: microseconds since the Unix
/// epoch; nothing is promised of the value.
#[verifier::external_body]
fn clock_us() -> u64 {
    std::time::SystemTime::now().duration_since(std::time::UNIX_EPOCH).map(|d| d.as_micros() as u64).unwrap_or(0)
}

impl RequestMetrics {
    /// Starts timing a request now.
    pub fn new(method: String, bytes_in: u64) -> (r: Self)
        ensures
            r.method == method,
            r.bytes_in == bytes_in,
    {
        Self::started_at(method, bytes_in, clock_us())
    }

    /// Starts timing a request at `now_us`.
    pub fn started_at(method: String, bytes_in: u64, now_us: u64) -> (r: Self)
        ensures
            r.start_us == now_us,
            r.method == method,
            r.bytes_in == bytes_in,
    {
        RequestMetrics { start_us: now_us, method, bytes_in }
    }

    /// Microseconds from the start until now.
    pub fn duration(&self) -> (r: u64)
        ensures
            exists|now: u64| r == elapsed_us(self.start_us, now),
    {
        self.duration_at(clock_us())
    }

    /// Microseconds from the start until `now_us`; zero for a clock that went back.
    pub fn duration_at(&self, now_us: u64) -> (r: u64)
        ensures
            r == elapsed_us(self.start_us, now_us),
    {
        if now_us >= self.start_us {
            now_us - self.start_us
        } else {
            0
        }
    }
}

pub open spec fn is_sorted(s: Seq<u64>) -> bool {
    forall|i: int, j: int| 0 <= i < j < s.len() ==> s[i] <= s[j]
}

/// Relies on `slice::sort_unstable`: the same values in ascending order.
#[verifier::external_body]
fn sort_samples(v: &Vec<u64>) -> (r: Vec<u64>)
    ensures
        r@.to_multiset() == v@.to_multiset(),
        r@.len() == v@.len(),
        is_sorted(r@),
{
    let mut r = v.clone();
    r.sort_unstable();
    r
}

/// Upper bounds of the latency histogram, in microseconds, and their labels.
pub open spec fn bucket_bounds() -> Seq<u64> {
    seq![5000, 10000, 25000, 50000, 100000, 250000, 500000, 1000000, 2500000, 5000000, 10000000]
}

pub open spec fn bucket_label(i: int) -> Seq<char> {
    if i == 0 { "0.005"@ } else if i == 1 { "0.01"@ } else if i == 2 { "0.025"@ } else if i == 3 {
        "0.05"@
    } else if i == 4 { "0.1"@ } else if i == 5 { "0.25"@ } else if i == 6 { "0.5"@ } else if i == 7 {
        "1"@
    } else if i == 8 { "2.5"@ } else if i == 9 { "5"@ } else { "10"@ }
}

pub open spec fn count_le(s: Seq<u64>, b: u64) -> nat
    decreases s.len(),
{
    if s.len() == 0 {
        0
    } else {
        (count_le(s.drop_last(), b) + if s.last() <= b { 1int } else { 0int }) as nat
    }
}

pub open spec fn total_of(s: Seq<u64>) -> nat
    decreases s.len(),
{
    if s.len() == 0 { 0 } else { (total_of(s.drop_last()) + s.last()) as nat }
}

/// Microseconds as seconds with three decimals, rounded to the nearest millisecond.
/// The sum of the samples, capped so that it stays within `u64` when rounded.
pub open spec fn capped_total(s: Seq<u64>) -> nat {
    if total_of(s) <= u64::MAX - 500 { total_of(s) } else { (u64::MAX - 500) as nat }
}

pub open spec fn seconds_text(us: nat) -> Seq<char> {
    let ms = (us + 500) / 1000;
    decimal(ms / 1000) + seq!['.'] + decimal((ms % 1000) / 100) + decimal((ms % 100) / 10) + decimal(ms % 10)
}

#[verifier::opaque]
pub open spec fn metric_line(name: Seq<char>, value: Seq<char>) -> Seq<char> {
    name + seq![' '] + value + seq!['\n']
}

#[verifier::opaque]
pub open spec fn header_lines(name: Seq<char>, help: Seq<char>, kind: Seq<char>) -> Seq<char> {
    "# HELP "@ + name + seq![' '] + help + "\n# TYPE "@ + name + seq![' '] + kind + seq!['\n']
}

/// The per-method, per-status lines.
pub open spec fn request_lines(methods: Seq<(Seq<char>, u64)>, statuses: Seq<(u16, u64)>, total: u64) -> Seq<char>
    decreases methods.len(),
{
    if methods.len() == 0 {
        Seq::empty()
    } else {
        request_lines(methods.drop_last(), statuses, total) + status_lines(methods.last(), statuses, total)
    }
}

pub open spec fn status_lines(m: (Seq<char>, u64), statuses: Seq<(u16, u64)>, total: u64) -> Seq<char>
    decreases statuses.len(),
{
    if statuses.len() == 0 {
        Seq::empty()
    } else {
        let st = statuses.last();
        let prev = status_lines(m, statuses.drop_last(), total);
        if st.1 > 0 {
            prev + metric_line(
                "http_requests_total{method=\""@ + m.0 + "\",status=\""@ + decimal(st.0 as nat) + "\"}"@,
                decimal(sat_mul(m.1, st.1) / (if total > 0 { total as nat } else { 1 })),
            )
        } else {
            prev
        }
    }
}

pub open spec fn sat_mul(a: u64, b: u64) -> nat {
    if a * b <= u64::MAX { (a * b) as nat } else { u64::MAX as nat }
}

pub open spec fn bucket_lines(sorted: Seq<u64>, n: int) -> Seq<char>
    decreases n,
{
    if n <= 0 {
        Seq::empty()
    } else {
        bucket_lines(sorted, n - 1) + metric_line(
            "http_request_duration_seconds_bucket{le=\""@ + bucket_label(n - 1) + "\"}"@,
            decimal(count_le(sorted, bucket_bounds()[n - 1])),
        )
    }
}

/// The value at the given per-mille rank of the sorted samples.
pub open spec fn rank_value(sorted: Seq<u64>, permille: nat) -> nat {
    let v = sorted[((sorted.len() - 1) * permille / 1000) as int] as nat;
    if v <= u64::MAX - 500 { v } else { (u64::MAX - 500) as nat }
}

/// The `+Inf` bucket, the sum and the count.
pub open spec fn summary_lines(sorted: Seq<u64>) -> Seq<char> {
    metric_line("http_request_duration_seconds_bucket{le=\"+Inf\"}"@, decimal(sorted.len())) + metric_line(
        "http_request_duration_seconds_sum"@,
        seconds_text(capped_total(sorted)),
    ) + metric_line("http_request_duration_seconds_count"@, decimal(sorted.len()))
}

/// The median, 95th and 99th percentile.
pub open spec fn quantile_lines(sorted: Seq<u64>) -> Seq<char> {
    seq!['\n'] + header_lines("http_request_duration_quantile"@, "Response time quantiles"@, "gauge"@)
        + metric_line("http_request_duration_quantile{quantile=\"0.5\"}"@, seconds_text(rank_value(sorted, 500)))
        + metric_line("http_request_duration_quantile{quantile=\"0.95\"}"@, seconds_text(rank_value(sorted, 950)))
        + metric_line("http_request_duration_quantile{quantile=\"0.99\"}"@, seconds_text(rank_value(sorted, 990)))
}

pub open spec fn latency_section(sorted: Seq<u64>) -> Seq<char> {
    if sorted.len() == 0 {
        Seq::empty()
    } else {
        seq!['\n'] + header_lines("http_request_duration_seconds"@, "HTTP request latency"@, "histogram"@)
            + bucket_lines(sorted, 11) + summary_lines(sorted) + quantile_lines(sorted)
    }
}

/// The Prometheus exposition of the collector, given its samples in order.
pub open spec fn prometheus_text(
    methods: Seq<(Seq<char>, u64)>,
    statuses: Seq<(u16, u64)>,
    c: Counters,
    errors: u64,
    active: u64,
    sorted: Seq<u64>,
    uptime: u64,
    mem_used_kb: Option<u64>,
) -> Seq<char> {
    header_lines("http_requests_total"@, "Total number of HTTP requests"@, "counter"@) + request_lines(
        methods,
        statuses,
        c.requests,
    ) + latency_section(sorted) + tail_text(c, errors, active, uptime, mem_used_kb)
}

/// One gauge or counter, after a blank line.
#[verifier::opaque]
pub open spec fn block(name: Seq<char>, help: Seq<char>, kind: Seq<char>, value: Seq<char>) -> Seq<char> {
    seq!['\n'] + header_lines(name, help, kind) + metric_line(name, value)
}

/// The gauges and counters after the latency section.
pub open spec fn tail_text(c: Counters, errors: u64, active: u64, uptime: u64, mem_used_kb: Option<u64>) -> Seq<char> {
    let b1 = block("http_connections_active"@, "Current number of active connections"@, "gauge"@, decimal(active as nat));
    let b2 = block("http_bytes_received_total"@, "Total bytes received"@, "counter"@, decimal(c.bytes_in as nat));
    let b3 = block("http_bytes_sent_total"@, "Total bytes sent"@, "counter"@, decimal(c.bytes_out as nat));
    let b4 = block("http_errors_total"@, "Total number of HTTP errors (5xx)"@, "counter"@, decimal(errors as nat));
    let b5 = block("process_uptime_seconds"@, "Time since server start"@, "gauge"@, decimal(uptime as nat));
    let b6 = match mem_used_kb {
        Some(kb) => block(
            "process_resident_memory_bytes"@,
            "Resident memory size"@,
            "gauge"@,
            decimal(sat_mul(kb, 1024)),
        ),
        None => Seq::empty(),
    };
    b1 + b2 + b3 + b4 + b5 + b6
}

fn push_str(out: &mut Vec<char>, s: &str)
    ensures
        final(out)@ == old(out)@ + s@,
{
    push_all(out, &chars_of(s));
}

fn push_header(out: &mut Vec<char>, name: &str, help: &str, kind: &str)
    ensures
        final(out)@ == old(out)@ + header_lines(name@, help@, kind@),
{
    let ghost o = out@;
    reveal(header_lines);
    push_str(out, "# HELP ");
    push_str(out, name);
    out.push(' ');
    push_str(out, help);
    push_str(out, "\n# TYPE ");
    push_str(out, name);
    out.push(' ');
    push_str(out, kind);
    out.push('\n');
    assert(out@ =~= o + header_lines(name@, help@, kind@));
}

fn push_line(out: &mut Vec<char>, name: &Vec<char>, value: &Vec<char>)
    ensures
        final(out)@ == old(out)@ + metric_line(name@, value@),
{
    let ghost o = out@;
    reveal(metric_line);
    push_all(out, name);
    out.push(' ');
    push_all(out, value);
    out.push('\n');
    assert(out@ =~= o + metric_line(name@, value@));
}

fn seconds_of(us: u64) -> (r: Vec<char>)
    requires
        us <= u64::MAX - 500,
    ensures
        r@ == seconds_text(us as nat),
{
    let ms = (us + 500) / 1000;
    let mut v = decimal_of(ms / 1000);
    v.push('.');
    push_all(&mut v, &decimal_of((ms % 1000) / 100));
    push_all(&mut v, &decimal_of((ms % 100) / 10));
    push_all(&mut v, &decimal_of(ms % 10));
    assert(v@ =~= seconds_text(us as nat));
    v
}

fn count_le_of(s: &Vec<u64>, b: u64) -> (r: u64)
    requires
        s@.len() <= MAX_SAMPLES,
    ensures
        r as nat == count_le(s@, b),
{
    let mut n: u64 = 0;
    let mut i: usize = 0;
    while i < s.len()
        invariant
            s@.len() <= MAX_SAMPLES,
            i <= s@.len(),
            n as nat == count_le(s@.take(i as int), b),
            n <= i,
        decreases s@.len() - i,
    {
        assert(s@.take(i + 1).drop_last() =~= s@.take(i as int));
        if s[i] <= b {
            n = n + 1;
        }
        i = i + 1;
    }
    assert(s@.take(i as int) =~= s@);
    n
}

fn capped_total_of(s: &Vec<u64>) -> (r: u64)
    ensures
        r as nat == capped_total(s@),
        r <= u64::MAX - 500,
{
    let cap: u64 = u64::MAX - 500;
    let mut t: u64 = 0;
    let mut capped = false;
    let mut i: usize = 0;
    while i < s.len()
        invariant
            cap == u64::MAX - 500,
            i <= s@.len(),
            !capped ==> t as nat == total_of(s@.take(i as int)) && t <= cap,
            capped ==> total_of(s@.take(i as int)) > cap && t == cap,
        decreases s@.len() - i,
    {
        assert(s@.take(i + 1).drop_last() =~= s@.take(i as int));
        if !capped {
            if s[i] > cap - t {
                capped = true;
                t = cap;
            } else {
                t = t + s[i];
            }
        }
        i = i + 1;
    }
    assert(s@.take(i as int) =~= s@);
    t
}

fn bound_at(i: usize) -> (r: (u64, &'static str))
    requires
        i < 11,
    ensures
        r.0 == bucket_bounds()[i as int],
        r.1@ == bucket_label(i as int),
{
    let bounds: [u64; 11] = [5000, 10000, 25000, 50000, 100000, 250000, 500000, 1000000, 2500000, 5000000, 10000000];
    let labels: [&'static str; 11] = ["0.005", "0.01", "0.025", "0.05", "0.1", "0.25", "0.5", "1", "2.5", "5", "10"];
    let r = (bounds[i], labels[i]);
    assert(r.0 == bucket_bounds()[i as int]) by {
        assert(bounds@ =~= bucket_bounds());
    }
    assert(r.1@ == bucket_label(i as int)) by {
        assert(labels@[i as int] == r.1);
    }
    r
}

fn push_status_lines(out: &mut Vec<char>, m: &(String, u64), statuses: &Vec<(u16, u64)>, total: u64)
    ensures
        final(out)@ == old(out)@ + status_lines((m.0@, m.1), statuses@, total),
{
    let mut j: usize = 0;
    let ghost o = out@;
    while j < statuses.len()
        invariant
            j <= statuses@.len(),
            out@ == o + status_lines((m.0@, m.1), statuses@.take(j as int), total),
        decreases statuses@.len() - j,
    {
        assert(statuses@.take(j + 1).drop_last() =~= statuses@.take(j as int));
        let (code, n) = statuses[j];
        if n > 0 {
            let mut name = chars_of("http_requests_total{method=\"");
            push_all(&mut name, &chars_of(m.0.as_str()));
            push_all(&mut name, &chars_of("\",status=\""));
            push_all(&mut name, &decimal_of(code as u64));
            push_all(&mut name, &chars_of("\"}"));
            let prod: u64 = if m.1 == 0 || n <= u64::MAX / m.1 {
                proof {
                    if m.1 > 0 {
                        assert(m.1 * n <= u64::MAX) by (nonlinear_arith)
                            requires
                                m.1 > 0,
                                n <= u64::MAX / m.1,
                        ;
                    }
                }
                m.1 * n
            } else {
                proof {
                    assert(m.1 * n > u64::MAX) by (nonlinear_arith)
                        requires
                            m.1 > 0,
                            n > u64::MAX / m.1,
                    ;
                }
                u64::MAX
            };
            let div = if total > 0 { total } else { 1 };
            let ghost before = out@;
            push_line(out, &name, &decimal_of(prod / div));
            assert(out@ =~= o + status_lines((m.0@, m.1), statuses@.take(j + 1), total));
        }
        j = j + 1;
    }
    assert(statuses@.take(j as int) =~= statuses@);
}

fn push_summary(out: &mut Vec<char>, sorted: &Vec<u64>)
    ensures
        final(out)@ == old(out)@ + summary_lines(sorted@),
{
    let ghost o = out@;
    let n = sorted.len();
    push_line(out, &chars_of("http_request_duration_seconds_bucket{le=\"+Inf\"}"), &decimal_of(n as u64));
    let ghost o1 = out@;
    push_line(out, &chars_of("http_request_duration_seconds_sum"), &seconds_of(capped_total_of(sorted)));
    let ghost o2 = out@;
    push_line(out, &chars_of("http_request_duration_seconds_count"), &decimal_of(n as u64));
    assert(out@ =~= o + summary_lines(sorted@));
}

fn push_quantile(out: &mut Vec<char>, name: &str, sorted: &Vec<u64>, permille: usize)
    requires
        0 < sorted@.len() <= MAX_SAMPLES,
        permille <= 1000,
    ensures
        final(out)@ == old(out)@ + metric_line(name@, seconds_text(rank_value(sorted@, permille as nat))),
{
    let n = sorted.len();
    assert((n - 1) * permille / 1000 < n) by (nonlinear_arith)
        requires
            0 < n <= 10000,
            permille <= 1000,
    ;
    assert((n - 1) * permille <= 10000000) by (nonlinear_arith)
        requires
            0 < n <= 10000,
            permille <= 1000,
    ;
    let idx = (n - 1) * permille / 1000;
    let v = clamp_us(sorted[idx]);
    assert(v as nat == rank_value(sorted@, permille as nat));
    push_line(out, &chars_of(name), &seconds_of(v));
}

fn push_quantiles(out: &mut Vec<char>, sorted: &Vec<u64>)
    requires
        0 < sorted@.len() <= MAX_SAMPLES,
    ensures
        final(out)@ == old(out)@ + quantile_lines(sorted@),
{
    let ghost o = out@;
    out.push('\n');
    push_header(out, "http_request_duration_quantile", "Response time quantiles", "gauge");
    push_quantile(out, "http_request_duration_quantile{quantile=\"0.5\"}", sorted, 500);
    push_quantile(out, "http_request_duration_quantile{quantile=\"0.95\"}", sorted, 950);
    push_quantile(out, "http_request_duration_quantile{quantile=\"0.99\"}", sorted, 990);
    assert(out@ =~= o + quantile_lines(sorted@));
}

fn push_buckets(out: &mut Vec<char>, sorted: &Vec<u64>)
    requires
        sorted@.len() <= MAX_SAMPLES,
    ensures
        final(out)@ == old(out)@ + bucket_lines(sorted@, 11),
{
    let ghost o3 = out@;
    let mut k: usize = 0;
    assert(out@ =~= o3 + bucket_lines(sorted@, 0));
    while k < 11
        invariant
            k <= 11,
            sorted@.len() <= MAX_SAMPLES,
            out@ == o3 + bucket_lines(sorted@, k as int),
        decreases 11 - k,
    {
        let (bound, label) = bound_at(k);
        let mut name = chars_of("http_request_duration_seconds_bucket{le=\"");
        push_str(&mut name, label);
        push_str(&mut name, "\"}");
        let ghost before = out@;
        push_line(out, &name, &decimal_of(count_le_of(sorted, bound)));
        k = k + 1;
        assert(out@ =~= o3 + bucket_lines(sorted@, k as int));
    }
}

fn push_latency(out: &mut Vec<char>, sorted: &Vec<u64>)
    requires
        sorted@.len() <= MAX_SAMPLES,
    ensures
        final(out)@ == old(out)@ + latency_section(sorted@),
{
    let ghost o = out@;
    if sorted.len() > 0 {
        out.push('\n');
        push_header(out, "http_request_duration_seconds", "HTTP request latency", "histogram");
        let ghost h = out@;
        push_buckets(out, sorted);
        let ghost b = out@;
        push_summary(out, sorted);
        let ghost m = out@;
        push_quantiles(out, sorted);
        assert(out@ =~= o + latency_section(sorted@));
    } else {
        assert(out@ =~= o + latency_section(sorted@));
    }
}

fn push_block(out: &mut Vec<char>, name: &str, help: &str, kind: &str, value: &Vec<char>)
    ensures
        final(out)@ == old(out)@ + block(name@, help@, kind@, value@),
{
    let ghost o = out@;
    reveal(block);
    out.push('\n');
    push_header(out, name, help, kind);
    push_line(out, &chars_of(name), value);
    assert(out@ =~= o + block(name@, help@, kind@, value@));
}

fn push_tail(out: &mut Vec<char>, requests: u64, bytes_in: u64, bytes_out: u64, errors: u64, active: u64, uptime_secs: u64, mem_used_kb: Option<u64>)
    ensures
        final(out)@ == old(out)@ + tail_text(
            Counters { requests, bytes_in, bytes_out },
            errors,
            active,
            uptime_secs,
            mem_used_kb,
        ),
{
    let ghost o = out@;
    let ghost b1 = block("http_connections_active"@, "Current number of active connections"@, "gauge"@, decimal(active as nat));
    let ghost b2 = block("http_bytes_received_total"@, "Total bytes received"@, "counter"@, decimal(bytes_in as nat));
    let ghost b3 = block("http_bytes_sent_total"@, "Total bytes sent"@, "counter"@, decimal(bytes_out as nat));
    let ghost b4 = block("http_errors_total"@, "Total number of HTTP errors (5xx)"@, "counter"@, decimal(errors as nat));
    let ghost b5 = block("process_uptime_seconds"@, "Time since server start"@, "gauge"@, decimal(uptime_secs as nat));
    push_block(out, "http_connections_active", "Current number of active connections", "gauge", &decimal_of(active));
    push_block(out, "http_bytes_received_total", "Total bytes received", "counter", &decimal_of(bytes_in));
    assert(out@ =~= o + (b1 + b2));
    push_block(out, "http_bytes_sent_total", "Total bytes sent", "counter", &decimal_of(bytes_out));
    assert(out@ =~= o + (b1 + b2 + b3));
    push_block(out, "http_errors_total", "Total number of HTTP errors (5xx)", "counter", &decimal_of(errors));
    assert(out@ =~= o + (b1 + b2 + b3 + b4));
    push_block(out, "process_uptime_seconds", "Time since server start", "gauge", &decimal_of(uptime_secs));
    assert(out@ =~= o + (b1 + b2 + b3 + b4 + b5));
    let ghost o5 = out@;
    match mem_used_kb {
        Some(kb) => {
            let bytes: u64 = if kb <= u64::MAX / 1024 {
                proof {
                    assert(kb * 1024 <= u64::MAX) by (nonlinear_arith)
                        requires
                            kb <= u64::MAX / 1024,
                    ;
                }
                kb * 1024
            } else {
                proof {
                    assert(kb * 1024 > u64::MAX) by (nonlinear_arith)
                        requires
                            kb > u64::MAX / 1024,
                    ;
                }
                u64::MAX
            };
            push_block(out, "process_resident_memory_bytes", "Resident memory size", "gauge", &decimal_of(bytes));
        },
        None => {},
    }
    assert(out@ =~= o + tail_text(Counters { requests, bytes_in, bytes_out }, errors, active, uptime_secs, mem_used_kb));
}

impl MetricsCollector {
    /// The Prometheus text exposition: request counts by method and status,
    /// the latency histogram and quantiles, connections, bytes, errors,
    /// uptime, and memory when it is known.
    pub fn get_prometheus_metrics(&self, uptime_secs: u64, mem_used_kb: Option<u64>) -> (r: String)
        requires
            self.wf(),
        ensures
            exists|sorted: Seq<u64>|
                sorted.to_multiset() == self.samples().to_multiset() && is_sorted(sorted) && r@ == prometheus_text(
                    self.by_method(),
                    self.by_status(),
                    self.counters(),
                    self.errors(),
                    self.active(),
                    sorted,
                    uptime_secs,
                    mem_used_kb,
                ),
    {
        let sorted = sort_samples(&self.response_times_us);
        let mut out: Vec<char> = Vec::new();
        push_header(&mut out, "http_requests_total", "Total number of HTTP requests", "counter");
        let ghost mv = method_view(self.requests_by_method@);
        let ghost o1 = out@;
        let mut i: usize = 0;
        while i < self.requests_by_method.len()
            invariant
                mv == method_view(self.requests_by_method@),
                i <= mv.len(),
                out@ == o1 + request_lines(mv.take(i as int), self.requests_by_status@, self.requests_total),
            decreases mv.len() - i,
        {
            assert(mv.take(i + 1).drop_last() =~= mv.take(i as int));
            push_status_lines(&mut out, &self.requests_by_method[i], &self.requests_by_status, self.requests_total);
            i = i + 1;
            assert(out@ =~= o1 + request_lines(mv.take(i as int), self.requests_by_status@, self.requests_total));
        }
        assert(mv.take(i as int) =~= mv);
        push_latency(&mut out, &sorted);
        push_tail(&mut out, self.requests_total, self.bytes_received, self.bytes_sent, self.errors, self.active_connections, uptime_secs, mem_used_kb);
        assert(out@ =~= prometheus_text(
            self.by_method(),
            self.by_status(),
            self.counters(),
            self.errors(),
            self.active(),
            sorted@,
            uptime_secs,
            mem_used_kb,
        ));
        string_of(&out)
    }
}

fn clamp_us(v: u64) -> (r: u64)
    ensures
        r as nat == if v <= u64::MAX - 500 { v as nat } else { (u64::MAX - 500) as nat },
        r <= u64::MAX - 500,
{
    if v <= u64::MAX - 500 { v } else { u64::MAX - 500 }
}

/// The figures of the JSON metrics view, as integers; latencies in milliseconds.
#[derive(Clone, Debug)]
pub struct MetricsSnapshot {
    pub total: u64,
    pub per_second: u64,
    pub errors: u64,
    pub p50_ms: u64,
    pub p95_ms: u64,
    pub p99_ms: u64,
    pub avg_ms: u64,
    pub active: u64,
    pub bytes_in: u64,
    pub bytes_out: u64,
    pub in_rate: u64,
    pub out_rate: u64,
    pub uptime_secs: u64,
    pub uptime_text: String,
}

pub open spec fn per_sec(n: u64, secs: u64) -> u64 {
    if secs > 0 { (n / secs) as u64 } else { 0 }
}

/// The sample at a per-mille rank, in milliseconds; zero without samples.
pub open spec fn rank_ms(sorted: Seq<u64>, permille: nat) -> nat {
    if sorted.len() == 0 {
        0
    } else {
        sorted[((sorted.len() - 1) * permille / 1000) as int] as nat / 1000
    }
}

pub open spec fn avg_ms(sorted: Seq<u64>) -> nat {
    if sorted.len() == 0 { 0 } else { capped_total(sorted) / sorted.len() / 1000 }
}

fn rank_ms_of(sorted: &Vec<u64>, permille: usize) -> (r: u64)
    requires
        sorted@.len() <= MAX_SAMPLES,
        permille <= 1000,
    ensures
        r as nat == rank_ms(sorted@, permille as nat),
{
    let n = sorted.len();
    if n == 0 {
        return 0;
    }
    assert((n - 1) * permille / 1000 < n) by (nonlinear_arith)
        requires
            0 < n <= 10000,
            permille <= 1000,
    ;
    assert((n - 1) * permille <= 10000000) by (nonlinear_arith)
        requires
            0 < n <= 10000,
            permille <= 1000,
    ;
    sorted[(n - 1) * permille / 1000] / 1000
}

impl MetricsCollector {
    /// The figures of the JSON view, `uptime_secs` after start.
    pub fn get_json_metrics(&self, uptime_secs: u64) -> (r: MetricsSnapshot)
        requires
            self.wf(),
        ensures
            r.total == self.counters().requests,
            r.per_second == per_sec(self.counters().requests, uptime_secs),
            r.errors == self.errors(),
            r.active == self.active(),
            r.bytes_in == self.counters().bytes_in,
            r.bytes_out == self.counters().bytes_out,
            r.in_rate == per_sec(self.counters().bytes_in, uptime_secs),
            r.out_rate == per_sec(self.counters().bytes_out, uptime_secs),
            r.uptime_secs == uptime_secs,
            r.uptime_text@ == duration_text(uptime_secs as nat),
            exists|sorted: Seq<u64>|
                sorted.to_multiset() == self.samples().to_multiset() && is_sorted(sorted) && r.p50_ms as nat
                    == rank_ms(sorted, 500) && r.p95_ms as nat == rank_ms(sorted, 950) && r.p99_ms as nat
                    == rank_ms(sorted, 990) && r.avg_ms as nat == avg_ms(sorted),
    {
        let sorted = sort_samples(&self.response_times_us);
        let n = sorted.len();
        let avg = if n == 0 {
            0
        } else {
            capped_total_of(&sorted) / (n as u64) / 1000
        };
        let rate = |x: u64| -> (r: u64)
            ensures
                r == per_sec(x, uptime_secs),
            {
                if uptime_secs > 0 {
                    x / uptime_secs
                } else {
                    0
                }
            };
        MetricsSnapshot {
            total: self.requests_total,
            per_second: rate(self.requests_total),
            errors: self.errors,
            p50_ms: rank_ms_of(&sorted, 500),
            p95_ms: rank_ms_of(&sorted, 950),
            p99_ms: rank_ms_of(&sorted, 990),
            avg_ms: avg,
            active: self.active_connections,
            bytes_in: self.bytes_received,
            bytes_out: self.bytes_sent,
            in_rate: rate(self.bytes_received),
            out_rate: rate(self.bytes_sent),
            uptime_secs,
            uptime_text: format_duration(uptime_secs),
        }
    }
}

} // verus!
