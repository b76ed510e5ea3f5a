//! Metric history: where it is read, and how a workload's series become points.
use vstd::prelude::*;
use vstd::string::*;

use crate::clock::{Timestamp, MAX_SECS, MIN_SECS};
use crate::domain::MetricPoint;
#[allow(unused_imports)]
use crate::forecast::{groups_of, positions};
use crate::forecast::grouped;
#[allow(unused_imports)]
use crate::json::{items_view, member, member_of, number_view, opt_view, JsonView};
use crate::json::{member_in, Json, JsonNumber};
use crate::sample::{Sample, INFINITY_MAGNITUDE};
#[allow(unused_imports)]
use crate::text::{decimal, has_prefix, replaced, signed_decimal, trim_end_char, trimmed};
use crate::text::{decimal_text, replace_all, signed_text, trim, trim_end_of};

verus! {

// ---------------------------------------------------------------------------------------------
// The source and its queries

/// Default PromQL for cpu utilization (0..1) of a deployment's pods, against kube-state-metrics +
/// cAdvisor. `{ns}` / `{deploy}` are interpolated per workload. The `or` is applied to the whole
/// usage/requests ratio so the usage/limits ratio is used ONLY when no requests series exists - a
/// requests-preferred fallback for workloads without CPU requests, never a blend of the two.
pub open spec fn default_cpu_query_text() -> Seq<char> {
    "avg(rate(container_cpu_usage_seconds_total{namespace=\"{ns}\",pod=~\"{deploy}-.*\"}[5m])) / avg(kube_pod_container_resource_requests{namespace=\"{ns}\",pod=~\"{deploy}-.*\",resource=\"cpu\"}) or avg(rate(container_cpu_usage_seconds_total{namespace=\"{ns}\",pod=~\"{deploy}-.*\"}[5m])) / avg(kube_pod_container_resource_limits{namespace=\"{ns}\",pod=~\"{deploy}-.*\",resource=\"cpu\"})"@
}

/// The default CPU query.
pub fn default_cpu_query() -> (q: String)
    ensures
        q@ == default_cpu_query_text(),
{
    "avg(rate(container_cpu_usage_seconds_total{namespace=\"{ns}\",pod=~\"{deploy}-.*\"}[5m])) / avg(kube_pod_container_resource_requests{namespace=\"{ns}\",pod=~\"{deploy}-.*\",resource=\"cpu\"}) or avg(rate(container_cpu_usage_seconds_total{namespace=\"{ns}\",pod=~\"{deploy}-.*\"}[5m])) / avg(kube_pod_container_resource_limits{namespace=\"{ns}\",pod=~\"{deploy}-.*\",resource=\"cpu\"})".to_owned()
}

/// Default PromQL for the replicas of a deployment.
pub open spec fn default_replicas_query_text() -> Seq<char> {
    "kube_deployment_status_replicas{namespace=\"{ns}\",deployment=\"{deploy}\"}"@
}

/// The default replicas query.
pub fn default_replicas_query() -> (q: String)
    ensures
        q@ == default_replicas_query_text(),
{
    "kube_deployment_status_replicas{namespace=\"{ns}\",deployment=\"{deploy}\"}".to_owned()
}

/// PromQL templates with `{ns}` / `{deploy}` placeholders. `queue` is optional (no default).
#[derive(Debug)]
pub struct PromQlTemplates {
    pub cpu: String,
    pub replicas: String,
    pub queue: Option<String>,
}

impl PromQlTemplates {
    pub fn from_overrides(
        cpu: Option<String>,
        replicas: Option<String>,
        queue: Option<String>,
    ) -> (t: Self)
        ensures
            t.cpu@ == match cpu {
                Some(q) => q@,
                None => default_cpu_query_text(),
            },
            t.replicas@ == match replicas {
                Some(q) => q@,
                None => default_replicas_query_text(),
            },
            t.queue == queue,
    {
        PromQlTemplates {
            cpu: match cpu {
                Some(q) => q,
                None => default_cpu_query(),
            },
            replicas: match replicas {
                Some(q) => q,
                None => default_replicas_query(),
            },
            queue,
        }
    }
}

/// A Prometheus server and the queries it is asked.
#[derive(Debug)]
pub struct PrometheusSource {
    pub base_url: String,
    pub templates: PromQlTemplates,
}

/// Where the operator reads workload metric history. `Prometheus` backfills weeks of real history
/// on every tick (survives restart); `HpaStatus` is the degraded fallback that accumulates one
/// point per tick from the live HPA status (history rebuilds slowly).
#[derive(Debug)]
pub enum MetricsSource {
    Prometheus(PrometheusSource),
    HpaStatus,
}

impl MetricsSource {
    /// Build the source from config: a non-empty Prometheus URL selects `Prometheus`, otherwise
    /// the `HpaStatus` fallback. PromQL overrides fall back to the kube-state-metrics defaults.
    pub fn from_config(
        prometheus_url: &str,
        cpu: Option<String>,
        replicas: Option<String>,
        queue: Option<String>,
    ) -> (s: Self)
        ensures
            match s {
                MetricsSource::HpaStatus => trimmed(prometheus_url@).len() == 0,
                MetricsSource::Prometheus(source) => {
                    &&& trimmed(prometheus_url@).len() > 0
                    &&& source.base_url@ == trim_end_char(trimmed(prometheus_url@), '/')
                    &&& source.templates.cpu@ == match cpu {
                        Some(q) => q@,
                        None => default_cpu_query_text(),
                    }
                    &&& source.templates.replicas@ == match replicas {
                        Some(q) => q@,
                        None => default_replicas_query_text(),
                    }
                    &&& source.templates.queue == queue
                },
            },
    {
        let url = trim(prometheus_url);
        if url.as_str().unicode_len() == 0 {
            MetricsSource::HpaStatus
        } else {
            MetricsSource::Prometheus(
                PrometheusSource {
                    base_url: trim_end_of(url.as_str(), '/'),
                    templates: PromQlTemplates::from_overrides(cpu, replicas, queue),
                },
            )
        }
    }

    pub fn is_prometheus(&self) -> (b: bool)
        ensures
            b == (self is Prometheus),
    {
        match self {
            MetricsSource::Prometheus(_) => true,
            MetricsSource::HpaStatus => false,
        }
    }
}

/// A template with its placeholders filled in.
pub open spec fn filled(template: Seq<char>, namespace: Seq<char>, deployment: Seq<char>) -> Seq<
    char,
> {
    replaced(replaced(template, "{ns}"@, namespace), "{deploy}"@, deployment)
}

pub fn interpolate(template: &str, namespace: &str, deployment: &str) -> (q: String)
    ensures
        q@ == filled(template@, namespace@, deployment@),
{
    proof {
        reveal_strlit("{ns}");
        reveal_strlit("{deploy}");
    }
    replace_all(
        replace_all(template, "{ns}", namespace).as_str(),
        "{deploy}",
        deployment,
    )
}

/// A `query_range` request: the URL, and its query parameters.
#[derive(Debug)]
pub struct RangeQuery {
    pub url: String,
    pub query: String,
    pub start: String,
    pub end: String,
    pub step: String,
}

/// The queries for a workload's history: CPU, replicas, and the queue where there is a template.
#[derive(Debug)]
pub struct HistoryQueries {
    pub cpu: RangeQuery,
    pub replicas: RangeQuery,
    pub queue: Option<RangeQuery>,
}

/// Whether `q` asks `base_url` for `template`, filled in, over a range.
pub open spec fn range_of(
    q: RangeQuery,
    base_url: Seq<char>,
    template: Seq<char>,
    namespace: Seq<char>,
    deployment: Seq<char>,
    start: Timestamp,
    end: Timestamp,
    step_s: u64,
) -> bool {
    &&& q.url@ == base_url + "/api/v1/query_range"@
    &&& q.query@ == filled(template, namespace, deployment)
    &&& q.start@ == signed_decimal(start.secs as int)
    &&& q.end@ == signed_decimal(end.secs as int)
    &&& q.step@ == decimal(step_s as nat)
}

impl PrometheusSource {
    fn query_range(
        &self,
        template: &str,
        namespace: &str,
        deployment: &str,
        start: Timestamp,
        end: Timestamp,
        step_s: u64,
    ) -> (q: RangeQuery)
        ensures
            range_of(
                q,
                self.base_url@,
                template@,
                namespace@,
                deployment@,
                start,
                end,
                step_s,
            ),
    {
        let mut url = self.base_url.clone();
        url.append("/api/v1/query_range");
        RangeQuery {
            url,
            query: interpolate(template, namespace, deployment),
            start: signed_text(start.secs),
            end: signed_text(end.secs),
            step: decimal_text(step_s),
        }
    }

    /// The queries for one workload's history from `since` to `end`, sampled every `step_s`
    /// seconds.
    pub fn history(
        &self,
        namespace: &str,
        deployment: &str,
        since: Timestamp,
        end: Timestamp,
        step_s: u64,
    ) -> (h: HistoryQueries)
        ensures
            range_of(
                h.cpu,
                self.base_url@,
                self.templates.cpu@,
                namespace@,
                deployment@,
                since,
                end,
                step_s,
            ),
            range_of(
                h.replicas,
                self.base_url@,
                self.templates.replicas@,
                namespace@,
                deployment@,
                since,
                end,
                step_s,
            ),
            match (h.queue, self.templates.queue) {
                (Some(q), Some(template)) => range_of(
                    q,
                    self.base_url@,
                    template@,
                    namespace@,
                    deployment@,
                    since,
                    end,
                    step_s,
                ),
                (None, None) => true,
                _ => false,
            },
    {
        let cpu = self.query_range(
            self.templates.cpu.as_str(),
            namespace,
            deployment,
            since,
            end,
            step_s,
        );
        let replicas = self.query_range(
            self.templates.replicas.as_str(),
            namespace,
            deployment,
            since,
            end,
            step_s,
        );
        let queue = match &self.templates.queue {
            Some(template) => Some(
                self.query_range(template.as_str(), namespace, deployment, since, end, step_s),
            ),
            None => None,
        };
        HistoryQueries { cpu, replicas, queue }
    }
}

// ---------------------------------------------------------------------------------------------
// Reading a matrix response

/// Why a matrix response could not be read.
#[derive(Debug, PartialEq, Eq)]
pub enum MatrixError {
    MissingResult,
    MissingValues,
    PairNotAnArray,
    MissingTimestamp,
    MissingSample,
    NotAFloat(String),
}

impl MatrixError {
    /// The error as it is shown.
    pub fn message(&self) -> (m: String)
        ensures
            m@ == match *self {
                MatrixError::MissingResult => "prometheus response missing data.result array"@,
                MatrixError::MissingValues => "prometheus series missing values"@,
                MatrixError::PairNotAnArray => "prometheus value pair is not an array"@,
                MatrixError::MissingTimestamp => "prometheus value missing timestamp"@,
                MatrixError::MissingSample => "prometheus value missing sample"@,
                MatrixError::NotAFloat(raw) => "prometheus sample is not a float: "@ + raw@,
            },
    {
        match self {
            MatrixError::MissingResult => "prometheus response missing data.result array".to_owned(),
            MatrixError::MissingValues => "prometheus series missing values".to_owned(),
            MatrixError::PairNotAnArray => "prometheus value pair is not an array".to_owned(),
            MatrixError::MissingTimestamp => "prometheus value missing timestamp".to_owned(),
            MatrixError::MissingSample => "prometheus value missing sample".to_owned(),
            MatrixError::NotAFloat(raw) => {
                let mut m = "prometheus sample is not a float: ".to_owned();
                m.append(raw.as_str());
                m
            },
        }
    }
}

/// One `[timestamp, "sample"]` pair as it stands in the response.
#[derive(Debug)]
pub struct RawPair {
    pub timestamp: JsonNumber,
    pub sample: String,
}

/// What stands in a pair: the number, and the sample's text.
pub ghost struct PairView {
    pub timestamp: JsonView,
    pub sample: Seq<char>,
}

impl View for RawPair {
    type V = PairView;

    open spec fn view(&self) -> PairView {
        PairView { timestamp: number_view(self.timestamp), sample: self.sample@ }
    }
}

/// What a list of pairs holds.
pub open spec fn pair_views(pairs: Seq<RawPair>) -> Seq<PairView> {
    pairs.map_values(|p: RawPair| p@)
}

/// The pairs of a response in order, up to the first malformed place, and what is wrong there.
#[derive(Debug)]
pub struct MatrixScan {
    pub pairs: Vec<RawPair>,
    pub error: Option<MatrixError>,
}

/// Pairs, and what stopped the reading.
pub ghost struct ScanView {
    pub pairs: Seq<PairView>,
    pub error: Option<MatrixError>,
}

/// The series of a response: the array `data.result`.
pub open spec fn matrix_result(body: JsonView) -> Option<Seq<JsonView>> {
    match member_of(member(body, "data"@), "result"@) {
        Some(JsonView::Array(result)) => Some(result),
        _ => None,
    }
}

/// One pair: an array that begins with a number and a text.
pub open spec fn pair_of(v: JsonView) -> Result<PairView, MatrixError> {
    match v {
        JsonView::Array(items) => if items.len() > 0 && (items[0] is Whole || items[0] is Float) {
            if items.len() > 1 && items[1] is Str {
                Ok(PairView { timestamp: items[0], sample: items[1]->Str_0 })
            } else {
                Err(MatrixError::MissingSample)
            }
        } else {
            Err(MatrixError::MissingTimestamp)
        },
        _ => Err(MatrixError::PairNotAnArray),
    }
}

/// The pairs of one series.
pub open spec fn scan_values(values: Seq<JsonView>) -> ScanView
    decreases values.len(),
{
    if values.len() == 0 {
        ScanView { pairs: Seq::empty(), error: None }
    } else {
        match pair_of(values[0]) {
            Ok(pair) => {
                let rest = scan_values(values.drop_first());
                ScanView { pairs: seq![pair] + rest.pairs, error: rest.error }
            },
            Err(e) => ScanView { pairs: Seq::empty(), error: Some(e) },
        }
    }
}

/// The pairs of all series.
pub open spec fn scan_series(result: Seq<JsonView>) -> ScanView
    decreases result.len(),
{
    if result.len() == 0 {
        ScanView { pairs: Seq::empty(), error: None }
    } else {
        match member(result[0], "values"@) {
            Some(JsonView::Array(values)) => {
                let here = scan_values(values);
                if here.error is Some {
                    here
                } else {
                    let rest = scan_series(result.drop_first());
                    ScanView { pairs: here.pairs + rest.pairs, error: rest.error }
                }
            },
            _ => ScanView { pairs: Seq::empty(), error: Some(MatrixError::MissingValues) },
        }
    }
}

/// The pairs of a response.
pub open spec fn scan_view(body: JsonView) -> ScanView {
    match matrix_result(body) {
        Some(result) => scan_series(result),
        None => ScanView { pairs: Seq::empty(), error: Some(MatrixError::MissingResult) },
    }
}

/// Parse one `[timestamp, "sample"]` pair.
fn parse_pair(pair: &Json) -> (r: Result<RawPair, MatrixError>)
    ensures
        match r {
            Ok(p) => pair_of(pair@) == Ok::<PairView, MatrixError>(p@),
            Err(e) => pair_of(pair@) == Err::<PairView, MatrixError>(e),
        },
{
    let items: &Vec<Json> = match pair.as_array() {
        Some(items) => items,
        None => return Err(MatrixError::PairNotAnArray),
    };
    proof {
        crate::json::lemma_items(items@);
    }
    if items.len() == 0 {
        return Err(MatrixError::MissingTimestamp);
    }
    assert(items_view(items@)[0] == items@[0]@);
    let timestamp: JsonNumber = match &items[0] {
        Json::Number(n) => *n,
        _ => return Err(MatrixError::MissingTimestamp),
    };
    if items.len() == 1 {
        return Err(MatrixError::MissingSample);
    }
    assert(items_view(items@)[1] == items@[1]@);
    match items[1].as_str() {
        Some(s) => Ok(RawPair { timestamp, sample: s.clone() }),
        None => Err(MatrixError::MissingSample),
    }
}

/// Reads the pairs of one series onto `pairs`; the error is what is wrong with the first pair that
/// is malformed.
fn read_values(pairs: &mut Vec<RawPair>, values: &Vec<Json>) -> (error: Option<MatrixError>)
    ensures
        pair_views(final(pairs)@) == pair_views(old(pairs)@) + scan_values(
            items_view(values@),
        ).pairs,
        error == scan_values(items_view(values@)).error,
{
    let ghost all = items_view(values@);
    proof {
        crate::json::lemma_items(values@);
    }
    let mut i: usize = 0;
    assert(all.skip(0) == all);
    while i < values.len()
        invariant
            i <= values@.len(),
            all == items_view(values@),
            all.len() == values@.len(),
            forall|k: int| 0 <= k < all.len() ==> #[trigger] all[k] == values@[k]@,
            pair_views(pairs@) + scan_values(all.skip(i as int)).pairs == pair_views(old(pairs)@)
                + scan_values(all).pairs,
            scan_values(all.skip(i as int)).error == scan_values(all).error,
        decreases values@.len() - i,
    {
        let ghost rest = all.skip(i as int);
        assert(rest[0] == values@[i as int]@);
        assert(rest.drop_first() == all.skip(i + 1));
        match parse_pair(&values[i]) {
            Ok(p) => {
                let ghost before = pairs@;
                pairs.push(p);
                assert(pair_views(pairs@) =~= pair_views(before).push(p@));
                assert(pair_views(before) + scan_values(rest).pairs =~= pair_views(pairs@)
                    + scan_values(rest.drop_first()).pairs);
            },
            Err(e) => {
                assert(pair_views(pairs@) + scan_values(rest).pairs =~= pair_views(pairs@));
                return Some(e);
            },
        }
        i += 1;
    }
    assert(pair_views(pairs@) + scan_values(all.skip(i as int)).pairs =~= pair_views(pairs@));
    None
}

/// Reads the pairs of a Prometheus `query_range` matrix response. An empty result set is not an
/// error.
pub fn scan_matrix(body: &Json) -> (scan: MatrixScan)
    ensures
        (ScanView { pairs: pair_views(scan.pairs@), error: scan.error }) == scan_view(body@),
{
    let mut pairs: Vec<RawPair> = Vec::new();
    assert(pair_views(pairs@) =~= Seq::<PairView>::empty());
    let result: &Vec<Json> = match member_in(body.get("data"), "result") {
        Some(j) => match j.as_array() {
            Some(items) => items,
            None => return MatrixScan { pairs, error: Some(MatrixError::MissingResult) },
        },
        None => return MatrixScan { pairs, error: Some(MatrixError::MissingResult) },
    };
    let ghost all = items_view(result@);
    proof {
        crate::json::lemma_items(result@);
    }
    let mut i: usize = 0;
    assert(all.skip(0) == all);
    assert(pair_views(pairs@) + scan_series(all.skip(0)).pairs =~= scan_series(all).pairs);
    while i < result.len()
        invariant
            i <= result@.len(),
            matrix_result(body@) == Some(all),
            all == items_view(result@),
            all.len() == result@.len(),
            forall|k: int| 0 <= k < all.len() ==> #[trigger] all[k] == result@[k]@,
            pair_views(pairs@) + scan_series(all.skip(i as int)).pairs == scan_series(all).pairs,
            scan_series(all.skip(i as int)).error == scan_series(all).error,
        decreases result@.len() - i,
    {
        let ghost rest = all.skip(i as int);
        assert(rest[0] == result@[i as int]@);
        assert(rest.drop_first() == all.skip(i + 1));
        let values: &Vec<Json> = match result[i].get("values") {
            Some(j) => match j.as_array() {
                Some(items) => items,
                None => {
                    assert(pair_views(pairs@) + scan_series(rest).pairs =~= pair_views(pairs@));
                    return MatrixScan { pairs, error: Some(MatrixError::MissingValues) };
                },
            },
            None => {
                assert(pair_views(pairs@) + scan_series(rest).pairs =~= pair_views(pairs@));
                return MatrixScan { pairs, error: Some(MatrixError::MissingValues) };
            },
        };
        let ghost before = pairs@;
        let error = read_values(&mut pairs, values);
        if error.is_some() {
            return MatrixScan { pairs, error };
        }
        assert(pair_views(before) + scan_series(rest).pairs =~= pair_views(pairs@) + scan_series(
            rest.drop_first(),
        ).pairs);
        i += 1;
    }
    assert(pair_views(pairs@) + scan_series(all.skip(i as int)).pairs =~= pair_views(pairs@));
    MatrixScan { pairs, error: None }
}

/// The number of series in a matrix response.
pub fn matrix_series_count(body: &Json) -> (n: usize)
    ensures
        n == match matrix_result(body@) {
            Some(result) => result.len(),
            None => 0,
        },
{
    match member_in(body.get("data"), "result") {
        Some(j) => match j.as_array() {
            Some(items) => {
                proof {
                    crate::json::lemma_items(items@);
                }
                items.len()
            },
            None => 0,
        },
        None => 0,
    }
}

/// A pair with its number cut to whole seconds and its text read as a number (`None` where it is
/// none).
#[derive(Debug, Clone, Copy, PartialEq, Eq)]
pub struct Decoded {
    pub timestamp: i64,
    pub sample: Option<Sample>,
}

/// The samples of one timestamp, in the order of the response. Their sum is the series' value.
#[derive(Debug)]
pub struct SeriesPoint {
    pub timestamp: i64,
    pub samples: Vec<Sample>,
}

/// Whether a sample is a finite number.
pub open spec fn finite(s: Sample) -> bool {
    s.magnitude() < INFINITY_MAGNITUDE
}

/// The finite samples of the decoded pairs, with their timestamps. Non-finite samples (Prometheus
/// emits the string `"NaN"`, e.g. when a CPU request is unset and the ratio divides by zero) are
/// skipped so they never poison the utilization.
pub open spec fn usable(decoded: Seq<Decoded>) -> Seq<(i64, Sample)>
    decreases decoded.len(),
{
    if decoded.len() == 0 {
        Seq::empty()
    } else {
        let before = usable(decoded.drop_last());
        match decoded.last().sample {
            Some(s) => if finite(s) {
                before.push((decoded.last().timestamp, s))
            } else {
                before
            },
            None => before,
        }
    }
}

/// The samples at a timestamp, in order.
pub open spec fn samples_at(usable: Seq<(i64, Sample)>, t: i64) -> Seq<Sample>
    decreases usable.len(),
{
    if usable.len() == 0 {
        Seq::empty()
    } else {
        let before = samples_at(usable.drop_last(), t);
        if usable.last().0 == t {
            before.push(usable.last().1)
        } else {
            before
        }
    }
}

/// Whether `t` is a timestamp of a series.
pub open spec fn has_time<V>(series: Seq<(i64, V)>, t: i64) -> bool {
    exists|i: int| 0 <= i < series.len() && (#[trigger] series[i]).0 == t
}

/// Whether `points` lists every timestamp of `usable` once, ascending, each with its samples.
pub open spec fn series_of(points: Seq<SeriesPoint>, usable: Seq<(i64, Sample)>) -> bool {
    &&& forall|i: int, j: int|
        0 <= i < j < points.len() ==> points[i].timestamp < points[j].timestamp
    &&& forall|i: int|
        0 <= i < points.len() ==> has_time(usable, (#[trigger] points[i]).timestamp)
            && points[i].samples@ == samples_at(usable, points[i].timestamp)
    &&& forall|t: i64| #[trigger]
        has_time(usable, t) ==> exists|i: int|
            0 <= i < points.len() && (#[trigger] points[i]).timestamp == t
}

/// The first pair whose text is no number.
pub open spec fn first_bad(decoded: Seq<Decoded>) -> Option<int>
    decreases decoded.len(),
{
    if decoded.len() == 0 {
        None
    } else {
        match first_bad(decoded.drop_last()) {
            Some(i) => Some(i),
            None => if decoded.last().sample is None {
                Some(decoded.len() - 1)
            } else {
                None
            },
        }
    }
}

proof fn lemma_first_bad_stays(decoded: Seq<Decoded>, n: int)
    requires
        0 <= n <= decoded.len(),
        first_bad(decoded.take(n)) is Some,
    ensures
        first_bad(decoded) == first_bad(decoded.take(n)),
    decreases decoded.len() - n,
{
    if n < decoded.len() {
        assert(decoded.take(n + 1).drop_last() == decoded.take(n));
        lemma_first_bad_stays(decoded, n + 1);
    } else {
        assert(decoded.take(n) == decoded);
    }
}

proof fn lemma_samples_at(usable: Seq<(i64, Sample)>, keys: Seq<i64>, t: i64)
    requires
        keys == usable.map_values(|p: (i64, Sample)| p.0),
        usable.len() <= usize::MAX,
    ensures
        positions(keys, t).len() == samples_at(usable, t).len(),
        forall|k: int|
            0 <= k < positions(keys, t).len() ==> (#[trigger] positions(keys, t)[k]) < usable.len()
                && samples_at(usable, t)[k] == usable[positions(keys, t)[k] as int].1,
    decreases usable.len(),
{
    if usable.len() > 0 {
        let rest = usable.drop_last();
        assert(keys.drop_last() =~= rest.map_values(|p: (i64, Sample)| p.0));
        lemma_samples_at(rest, keys.drop_last(), t);
        let before = positions(keys.drop_last(), t);
        assert forall|k: int| 0 <= k < positions(keys, t).len() implies (#[trigger] positions(
            keys,
            t,
        )[k]) < usable.len() && samples_at(usable, t)[k] == usable[positions(
            keys,
            t,
        )[k] as int].1 by {
            if k < before.len() {
                assert(positions(keys, t)[k] == before[k]);
                assert(rest[before[k] as int] == usable[before[k] as int]);
            }
        }
    }
}

/// Group the decoded pairs of a response by timestamp, ascending - a single-series result is
/// unchanged, while sharded kube-state-metrics / per-partition metrics are aggregated rather than
/// silently reduced to one arbitrary series. Only a genuinely malformed response is an error: the
/// first place that is malformed says which.
pub fn parse_matrix_series(scan: MatrixScan, decoded: &Vec<Decoded>) -> (r: Result<
    Vec<SeriesPoint>,
    MatrixError,
>)
    requires
        decoded@.len() == scan.pairs@.len(),
    ensures
        match first_bad(decoded@) {
            Some(i) => r matches Err(MatrixError::NotAFloat(raw)) && raw@
                == scan.pairs@[i].sample@,
            None => match scan.error {
                Some(e) => r == Err::<Vec<SeriesPoint>, MatrixError>(e),
                None => r matches Ok(points) && series_of(points@, usable(decoded@)),
            },
        },
{
    let mut keys: Vec<i64> = Vec::new();
    let mut kept: Vec<(i64, Sample)> = Vec::new();
    let mut i: usize = 0;
    while i < decoded.len()
        invariant
            i <= decoded@.len(),
            decoded@.len() == scan.pairs@.len(),
            first_bad(decoded@.take(i as int)) is None,
            kept@ == usable(decoded@.take(i as int)),
            keys@ == kept@.map_values(|p: (i64, Sample)| p.0),
        decreases decoded@.len() - i,
    {
        assert(decoded@.take(i + 1).drop_last() == decoded@.take(i as int));
        match decoded[i].sample {
            Some(s) => {
                if s.finite_number() {
                    let ghost before = kept@;
                    kept.push((decoded[i].timestamp, s));
                    keys.push(decoded[i].timestamp);
                    assert(keys@ =~= kept@.map_values(|p: (i64, Sample)| p.0));
                }
            },
            None => {
                proof {
                    lemma_first_bad_stays(decoded@, i + 1);
                }
                return Err(MatrixError::NotAFloat(scan.pairs[i].sample.clone()));
            },
        }
        i += 1;
    }
    assert(decoded@.take(decoded@.len() as int) == decoded@);
    if let Some(e) = scan.error {
        return Err(e);
    }
    let groups = grouped(&keys);
    let mut points: Vec<SeriesPoint> = Vec::new();
    let count: usize = kept.len();
    let mut g: usize = 0;
    while g < groups.len()
        invariant
            g <= groups@.len(),
            groups_of(groups@, keys@),
            keys@ == kept@.map_values(|p: (i64, Sample)| p.0),
            count == kept@.len(),
            points@.len() == g,
            forall|k: int|
                0 <= k < g ==> (#[trigger] points@[k]).timestamp == groups@[k].key
                    && points@[k].samples@ == samples_at(kept@, groups@[k].key),
        decreases groups@.len() - g,
    {
        let key: i64 = groups[g].key;
        proof {
            lemma_samples_at(kept@, keys@, key);
        }
        let ghost wanted = samples_at(kept@, key);
        let ghost places = positions(keys@, key);
        assert(groups@[g as int].members@ == places);
        let mut samples: Vec<Sample> = Vec::new();
        let mut m: usize = 0;
        while m < groups[g].members.len()
            invariant
                g < groups@.len(),
                m <= places.len(),
                groups@[g as int].members@ == places,
                places.len() == wanted.len(),
                forall|k: int|
                    0 <= k < places.len() ==> (#[trigger] places[k]) < kept@.len() && wanted[k]
                        == kept@[places[k] as int].1,
                samples@ == wanted.take(m as int),
            decreases places.len() - m,
        {
            let at: usize = groups[g].members[m];
            assert(places[m as int] == at);
            samples.push(kept[at].1);
            assert(wanted.take(m + 1) =~= wanted.take(m as int).push(wanted[m as int]));
            m += 1;
        }
        assert(wanted.take(wanted.len() as int) == wanted);
        points.push(SeriesPoint { timestamp: key, samples });
        g += 1;
    }
    proof {
        assert forall|i: int| 0 <= i < points@.len() implies has_time(
            kept@,
            (#[trigger] points@[i]).timestamp,
        ) by {
            let key = groups@[i].key;
            assert(keys@.contains(groups@[i].key));
            let k = choose|k: int| 0 <= k < keys@.len() && keys@[k] == key;
            assert(kept@[k].0 == key);
        }
        assert forall|t: i64| #[trigger] has_time(kept@, t) implies exists|i: int|
            0 <= i < points@.len() && (#[trigger] points@[i]).timestamp == t by {
            let k = choose|k: int| 0 <= k < kept@.len() && (#[trigger] kept@[k]).0 == t;
            assert(keys@[k] == t);
            let i = choose|i: int| 0 <= i < groups@.len() && #[trigger] groups@[i].key == keys@[k];
            assert(points@[i].timestamp == t);
        }
    }
    Ok(points)
}

// ---------------------------------------------------------------------------------------------
// Joining the series

/// The value at a timestamp: the last one given for it.
pub open spec fn value_at<V>(series: Seq<(i64, V)>, t: i64) -> Option<V>
    decreases series.len(),
{
    if series.len() == 0 {
        None
    } else if series.last().0 == t {
        Some(series.last().1)
    } else {
        value_at(series.drop_last(), t)
    }
}

/// The latest timestamp of a series that does not lie after `t`.
pub open spec fn latest_time<V>(series: Seq<(i64, V)>, t: i64) -> Option<i64>
    decreases series.len(),
{
    if series.len() == 0 {
        None
    } else {
        let before = latest_time(series.drop_last(), t);
        let last = series.last().0;
        if last <= t && (before is None || before->0 < last) {
            Some(last)
        } else {
            before
        }
    }
}

/// The value known at `t`: the one at the latest timestamp that does not lie after it.
pub open spec fn known_at<V>(series: Seq<(i64, V)>, t: i64) -> Option<V> {
    match latest_time(series, t) {
        Some(at) => value_at(series, at),
        None => None,
    }
}

fn lookup<V: Copy>(series: &Vec<(i64, V)>, t: i64) -> (r: Option<V>)
    ensures
        r == value_at(series@, t),
{
    let mut n: usize = series.len();
    assert(series@.take(n as int) == series@);
    while n > 0
        invariant
            n <= series@.len(),
            value_at(series@.take(n as int), t) == value_at(series@, t),
        decreases n,
    {
        assert(series@.take(n as int).drop_last() == series@.take(n - 1));
        if series[n - 1].0 == t {
            return Some(series[n - 1].1);
        }
        n -= 1;
    }
    None
}

fn known<V: Copy>(series: &Vec<(i64, V)>, t: i64) -> (r: Option<V>)
    ensures
        r == known_at(series@, t),
{
    let mut at: Option<i64> = None;
    let mut i: usize = 0;
    while i < series.len()
        invariant
            i <= series@.len(),
            at == latest_time(series@.take(i as int), t),
        decreases series@.len() - i,
    {
        assert(series@.take(i + 1).drop_last() == series@.take(i as int));
        let here: i64 = series[i].0;
        if here <= t {
            at = match at {
                Some(before) => if before < here {
                    Some(here)
                } else {
                    Some(before)
                },
                None => Some(here),
            };
        }
        i += 1;
    }
    assert(series@.take(series@.len() as int) == series@);
    match at {
        Some(at) => lookup(series, at),
        None => None,
    }
}

/// Whether `t` is a timestamp of one of the series.
pub open spec fn on_timeline(
    cpu: Seq<(i64, Sample)>,
    replicas: Seq<(i64, i32)>,
    queue: Seq<(i64, Sample)>,
    t: i64,
) -> bool {
    has_time(cpu, t) || has_time(replicas, t) || has_time(queue, t)
}

/// The point at `t`, where a replica count is known and the calendar holds the instant. Before
/// the first CPU sample the utilization is zero.
pub open spec fn point_at(
    cpu: Seq<(i64, Sample)>,
    replicas: Seq<(i64, i32)>,
    queue: Seq<(i64, Sample)>,
    t: i64,
) -> Option<MetricPoint> {
    match known_at(replicas, t) {
        Some(count) => if MIN_SECS <= t <= MAX_SECS {
            Some(
                MetricPoint {
                    timestamp: Timestamp { secs: t, nanos: 0 },
                    cpu_util: match known_at(cpu, t) {
                        Some(util) => util,
                        None => Sample { bits: 0 },
                    },
                    replicas: count,
                    queue_depth: value_at(queue, t),
                },
            )
        } else {
            None
        },
        None => None,
    }
}

/// Whether `points` are the points of the series: ascending, one for each timestamp of the series
/// that has one.
pub open spec fn timeline(
    points: Seq<MetricPoint>,
    cpu: Seq<(i64, Sample)>,
    replicas: Seq<(i64, i32)>,
    queue: Seq<(i64, Sample)>,
) -> bool {
    &&& forall|i: int, j: int|
        0 <= i < j < points.len() ==> points[i].timestamp.secs < points[j].timestamp.secs
    &&& forall|i: int|
        0 <= i < points.len() ==> on_timeline(
            cpu,
            replicas,
            queue,
            (#[trigger] points[i]).timestamp.secs,
        ) && point_at(cpu, replicas, queue, points[i].timestamp.secs) == Some(points[i])
    &&& forall|t: i64| #[trigger]
        on_timeline(cpu, replicas, queue, t) && point_at(cpu, replicas, queue, t) is Some
            ==> points.contains(point_at(cpu, replicas, queue, t)->0)
}

fn push_times<V: Copy>(keys: &mut Vec<i64>, series: &Vec<(i64, V)>)
    ensures
        final(keys)@ == old(keys)@ + series@.map_values(|p: (i64, V)| p.0),
{
    let ghost times = series@.map_values(|p: (i64, V)| p.0);
    let mut i: usize = 0;
    assert(keys@ =~= old(keys)@ + times.take(0));
    while i < series.len()
        invariant
            i <= series@.len(),
            times == series@.map_values(|p: (i64, V)| p.0),
            keys@ == old(keys)@ + times.take(i as int),
        decreases series@.len() - i,
    {
        keys.push(series[i].0);
        assert(keys@ =~= old(keys)@ + times.take(i + 1));
        i += 1;
    }
    assert(times.take(times.len() as int) == times);
}

proof fn lemma_times<V>(series: Seq<(i64, V)>, t: i64)
    ensures
        series.map_values(|p: (i64, V)| p.0).contains(t) <==> has_time(series, t),
{
    let times = series.map_values(|p: (i64, V)| p.0);
    if times.contains(t) {
        let i = choose|i: int| 0 <= i < times.len() && times[i] == t;
        assert(series[i].0 == t);
    }
    if has_time(series, t) {
        let i = choose|i: int| 0 <= i < series.len() && (#[trigger] series[i]).0 == t;
        assert(times[i] == t);
    }
}

proof fn lemma_all_times(
    cpu: Seq<(i64, Sample)>,
    replicas: Seq<(i64, i32)>,
    queue: Seq<(i64, Sample)>,
    keys: Seq<i64>,
)
    requires
        keys == cpu.map_values(|p: (i64, Sample)| p.0) + replicas.map_values(|p: (i64, i32)| p.0)
            + queue.map_values(|p: (i64, Sample)| p.0),
    ensures
        forall|t: i64| #[trigger] keys.contains(t) <==> on_timeline(cpu, replicas, queue, t),
{
    let a = cpu.map_values(|p: (i64, Sample)| p.0);
    let b = replicas.map_values(|p: (i64, i32)| p.0);
    let c = queue.map_values(|p: (i64, Sample)| p.0);
    assert forall|t: i64| #[trigger] keys.contains(t) <==> on_timeline(
        cpu,
        replicas,
        queue,
        t,
    ) by {
        lemma_times(cpu, t);
        lemma_times(replicas, t);
        lemma_times(queue, t);
        if keys.contains(t) {
            let i = choose|i: int| 0 <= i < keys.len() && keys[i] == t;
            if i < a.len() {
                assert(a[i] == t);
            } else if i < a.len() + b.len() {
                assert(b[i - a.len()] == t);
            } else {
                assert(c[i - a.len() - b.len()] == t);
            }
        }
        if a.contains(t) {
            let i = choose|i: int| 0 <= i < a.len() && a[i] == t;
            assert(keys[i] == t);
        }
        if b.contains(t) {
            let i = choose|i: int| 0 <= i < b.len() && b[i] == t;
            assert(keys[a.len() + i] == t);
        }
        if c.contains(t) {
            let i = choose|i: int| 0 <= i < c.len() && c[i] == t;
            assert(keys[a.len() + b.len() + i] == t);
        }
    }
}

/// Join the three series into time-sorted points over the UNION of their timestamps, so an empty
/// or partial cpu series does not collapse the whole timeline and a replicas gap does not
/// fabricate `replicas=0` against live cpu. cpu and replicas are carried forward from their last
/// known sample (cpu is zero until first seen); points before the first known replicas count are
/// dropped, since a point needs a real replica count. `replicas` holds whole counts.
pub fn assemble_points(
    cpu: &Vec<(i64, Sample)>,
    replicas: &Vec<(i64, i32)>,
    queue: &Vec<(i64, Sample)>,
) -> (points: Vec<MetricPoint>)
    ensures
        timeline(points@, cpu@, replicas@, queue@),
{
    let mut keys: Vec<i64> = Vec::new();
    push_times(&mut keys, cpu);
    push_times(&mut keys, replicas);
    push_times(&mut keys, queue);
    assert(keys@ =~= cpu@.map_values(|p: (i64, Sample)| p.0) + replicas@.map_values(
        |p: (i64, i32)| p.0,
    ) + queue@.map_values(|p: (i64, Sample)| p.0));
    proof {
        lemma_all_times(cpu@, replicas@, queue@, keys@);
    }
    let groups = grouped(&keys);
    let mut points: Vec<MetricPoint> = Vec::new();
    let mut g: usize = 0;
    while g < groups.len()
        invariant
            g <= groups@.len(),
            groups_of(groups@, keys@),
            forall|t: i64| #[trigger]
                keys@.contains(t) <==> on_timeline(cpu@, replicas@, queue@, t),
            forall|i: int, j: int|
                0 <= i < j < points@.len() ==> points@[i].timestamp.secs
                    < points@[j].timestamp.secs,
            forall|i: int|
                0 <= i < points@.len() ==> on_timeline(
                    cpu@,
                    replicas@,
                    queue@,
                    (#[trigger] points@[i]).timestamp.secs,
                ) && point_at(cpu@, replicas@, queue@, points@[i].timestamp.secs) == Some(
                    points@[i],
                ),
            forall|i: int|
                0 <= i < points@.len() && g < groups@.len() ==> (
                #[trigger] points@[i]).timestamp.secs < groups@[g as int].key,
            forall|k: int|
                0 <= k < g && point_at(
                    cpu@,
                    replicas@,
                    queue@,
                    #[trigger] groups@[k].key,
                ) is Some ==> points@.contains(
                    point_at(cpu@, replicas@, queue@, groups@[k].key)->0,
                ),
        decreases groups@.len() - g,
    {
        let t: i64 = groups[g].key;
        let ghost before = points@;
        let ghost p = point_at(cpu@, replicas@, queue@, t);
        assert(keys@.contains(groups@[g as int].key));
        let count = known(replicas, t);
        if let Some(count) = count {
            if MIN_SECS <= t && t <= MAX_SECS {
                let cpu_util = match known(cpu, t) {
                    Some(util) => util,
                    None => Sample { bits: 0 },
                };
                points.push(
                    MetricPoint {
                        timestamp: Timestamp { secs: t, nanos: 0 },
                        cpu_util,
                        replicas: count,
                        queue_depth: lookup(queue, t),
                    },
                );
                assert(p == Some(points@.last()));
                assert(points@ == before.push(points@.last()));
            }
        }
        proof {
            assert forall|k: int|
                0 <= k < g + 1 && point_at(
                    cpu@,
                    replicas@,
                    queue@,
                    #[trigger] groups@[k].key,
                ) is Some implies points@.contains(
                point_at(cpu@, replicas@, queue@, groups@[k].key)->0,
            ) by {
                let q = point_at(cpu@, replicas@, queue@, groups@[k].key)->0;
                if k < g {
                    assert(before.contains(q));
                    let i = choose|i: int| 0 <= i < before.len() && before[i] == q;
                    assert(points@[i] == q);
                } else {
                    assert(points@[points@.len() - 1] == q);
                }
            }
            assert forall|i: int| 0 <= i < points@.len() && g + 1 < groups@.len() implies (
            #[trigger] points@[i]).timestamp.secs < groups@[g + 1].key by {
                assert(groups@[g as int].key < groups@[g + 1].key);
            }
        }
        g += 1;
    }
    proof {
        assert forall|t: i64| #[trigger]
            on_timeline(cpu@, replicas@, queue@, t) && point_at(
                cpu@,
                replicas@,
                queue@,
                t,
            ) is Some implies points@.contains(
            point_at(cpu@, replicas@, queue@, t)->0,
        ) by {
            assert(keys@.contains(t));
            let k = choose|k: int| 0 <= k < keys@.len() && keys@[k] == t;
            let i = choose|i: int| 0 <= i < groups@.len() && #[trigger] groups@[i].key == keys@[k];
            assert(groups@[i].key == t);
        }
    }
    points
}

// ---------------------------------------------------------------------------------------------
// Laws

proof fn lemma_latest_time<V>(series: Seq<(i64, V)>, t: i64)
    ensures
        match latest_time(series, t) {
            Some(at) => at <= t && has_time(series, at) && forall|i: int|
                0 <= i < series.len() && (#[trigger] series[i]).0 <= t ==> series[i].0 <= at,
            None => forall|i: int| 0 <= i < series.len() ==> (#[trigger] series[i]).0 > t,
        },
    decreases series.len(),
{
    if series.len() > 0 {
        let rest = series.drop_last();
        lemma_latest_time(rest, t);
        if let Some(at) = latest_time(series, t) {
            if at == series.last().0 {
                assert(series[series.len() - 1].0 == at);
            } else {
                let i = choose|i: int| 0 <= i < rest.len() && (#[trigger] rest[i]).0 == at;
                assert(series[i].0 == at);
            }
            assert forall|i: int|
                0 <= i < series.len() && (#[trigger] series[i]).0 <= t implies series[i].0
                <= at by {
                if i < rest.len() {
                    assert(rest[i].0 == series[i].0);
                }
            }
        } else {
            assert forall|i: int| 0 <= i < series.len() implies (#[trigger] series[i]).0 > t by {
                if i < rest.len() {
                    assert(rest[i].0 == series[i].0);
                }
            }
        }
    }
}

proof fn lemma_value_at<V>(series: Seq<(i64, V)>, t: i64)
    ensures
        value_at(series, t) is Some <==> has_time(series, t),
        value_at(series, t) matches Some(v) ==> series.contains((t, v)),
    decreases series.len(),
{
    if series.len() > 0 {
        let rest = series.drop_last();
        lemma_value_at(rest, t);
        if series.last().0 == t {
            assert(series[series.len() - 1].0 == t);
            assert(series[series.len() - 1] == (t, series.last().1));
        } else {
            if has_time(series, t) {
                let i = choose|i: int| 0 <= i < series.len() && (#[trigger] series[i]).0 == t;
                assert(rest[i].0 == t);
            }
            if has_time(rest, t) {
                let i = choose|i: int| 0 <= i < rest.len() && (#[trigger] rest[i]).0 == t;
                assert(series[i].0 == t);
            }
            if let Some(v) = value_at(rest, t) {
                let i = choose|i: int| 0 <= i < rest.len() && rest[i] == (t, v);
                assert(series[i] == (t, v));
            }
        }
    }
}

proof fn lemma_same_times(points: Seq<SeriesPoint>, usable: Seq<(i64, Sample)>, n: int)
    requires
        series_of(points, usable),
        forall|i: int, j: int| 0 <= i < j < usable.len() ==> usable[i].0 < usable[j].0,
        0 <= n <= points.len(),
    ensures
        n <= usable.len(),
        forall|i: int| 0 <= i < n ==> (#[trigger] points[i]).timestamp == usable[i].0,
    decreases n,
{
    if n > 0 {
        lemma_same_times(points, usable, n - 1);
        let here = points[n - 1].timestamp;
        assert(has_time(usable, here));
        let k = choose|k: int| 0 <= k < usable.len() && (#[trigger] usable[k]).0 == here;
        if k < n - 1 {
            assert(points[k].timestamp == usable[k].0);
        }
        if k > n - 1 {
            assert(has_time(usable, usable[n - 1].0));
            let m = choose|m: int|
                0 <= m < points.len() && (#[trigger] points[m]).timestamp == usable[n - 1].0;
            if m < n - 1 {
                assert(points[m].timestamp == usable[m].0);
            }
        }
    }
}

proof fn lemma_one_sample(usable: Seq<(i64, Sample)>, k: int)
    requires
        forall|i: int, j: int| 0 <= i < j < usable.len() ==> usable[i].0 < usable[j].0,
        0 <= k < usable.len(),
    ensures
        samples_at(usable, usable[k].0) == seq![usable[k].1],
    decreases usable.len(),
{
    let rest = usable.drop_last();
    let t = usable[k].0;
    if k == usable.len() - 1 {
        lemma_no_sample(rest, t);
        assert(samples_at(usable, t) =~= seq![usable[k].1]);
    } else {
        lemma_one_sample(rest, k);
    }
}

proof fn lemma_no_sample(usable: Seq<(i64, Sample)>, t: i64)
    requires
        forall|i: int| 0 <= i < usable.len() ==> (#[trigger] usable[i]).0 < t,
    ensures
        samples_at(usable, t) == Seq::<Sample>::empty(),
    decreases usable.len(),
{
    if usable.len() > 0 {
        let rest = usable.drop_last();
        assert(usable[usable.len() - 1].0 < t);
        assert forall|i: int| 0 <= i < rest.len() implies (#[trigger] rest[i]).0 < t by {
            assert(usable[i].0 < t);
        }
        lemma_no_sample(rest, t);
    }
}

/// A single series comes through unchanged: where the timestamps ascend, each keeps its one
/// sample.
pub proof fn law_single_series_is_unchanged(points: Seq<SeriesPoint>, usable: Seq<(i64, Sample)>)
    requires
        series_of(points, usable),
        forall|i: int, j: int| 0 <= i < j < usable.len() ==> usable[i].0 < usable[j].0,
    ensures
        points.len() == usable.len(),
        forall|i: int|
            0 <= i < points.len() ==> (#[trigger] points[i]).timestamp == usable[i].0
                && points[i].samples@ == seq![usable[i].1],
{
    lemma_same_times(points, usable, points.len() as int);
    if points.len() < usable.len() {
        let t = usable[points.len() as int].0;
        assert(has_time(usable, t));
        let m = choose|m: int| 0 <= m < points.len() && (#[trigger] points[m]).timestamp == t;
        assert(points[m].timestamp == usable[m].0);
    }
    assert forall|i: int| 0 <= i < points.len() implies (#[trigger] points[i]).timestamp
        == usable[i].0 && points[i].samples@ == seq![usable[i].1] by {
        lemma_one_sample(usable, i);
    }
}

/// A replica count is never made up: every point's count was reported at the point's time or
/// before.
pub proof fn law_replicas_were_reported(
    points: Seq<MetricPoint>,
    cpu: Seq<(i64, Sample)>,
    replicas: Seq<(i64, i32)>,
    queue: Seq<(i64, Sample)>,
    i: int,
)
    requires
        timeline(points, cpu, replicas, queue),
        0 <= i < points.len(),
    ensures
        exists|t: i64|
            t <= points[i].timestamp.secs && #[trigger] replicas.contains((t, points[i].replicas)),
{
    let t = points[i].timestamp.secs;
    assert(point_at(cpu, replicas, queue, t) == Some(points[i]));
    lemma_latest_time(replicas, t);
    let at = latest_time(replicas, t)->0;
    lemma_value_at(replicas, at);
    assert(replicas.contains((at, points[i].replicas)));
}

/// The timeline keeps advancing while any series does: from the first reported count on, every
/// timestamp of any series has its point, whatever the other series lack.
pub proof fn law_timeline_keeps_advancing(
    points: Seq<MetricPoint>,
    cpu: Seq<(i64, Sample)>,
    replicas: Seq<(i64, i32)>,
    queue: Seq<(i64, Sample)>,
    first: i64,
    t: i64,
)
    requires
        timeline(points, cpu, replicas, queue),
        has_time(replicas, first),
        first <= t,
        on_timeline(cpu, replicas, queue, t),
        MIN_SECS <= t <= MAX_SECS,
    ensures
        exists|i: int| 0 <= i < points.len() && (#[trigger] points[i]).timestamp.secs == t,
{
    lemma_latest_time(replicas, t);
    let k = choose|k: int| 0 <= k < replicas.len() && (#[trigger] replicas[k]).0 == first;
    assert(replicas[k].0 <= t);
    let at = latest_time(replicas, t)->0;
    lemma_value_at(replicas, at);
    let p = point_at(cpu, replicas, queue, t)->0;
    assert(points.contains(p));
    let i = choose|i: int| 0 <= i < points.len() && points[i] == p;
    assert(points[i].timestamp.secs == t);
}

/// A point's replicas are the count known at its time: the one given last among those of the
/// latest time that does not lie after it.
pub proof fn law_replicas_are_carried_forward(
    points: Seq<MetricPoint>,
    cpu: Seq<(i64, Sample)>,
    replicas: Seq<(i64, i32)>,
    queue: Seq<(i64, Sample)>,
    i: int,
    j: int,
)
    requires
        timeline(points, cpu, replicas, queue),
        0 <= i < points.len(),
        0 <= j < replicas.len(),
        replicas[j].0 <= points[i].timestamp.secs,
        forall|k: int|
            0 <= k < replicas.len() ==> (#[trigger] replicas[k]).0 <= replicas[j].0
                || replicas[k].0 > points[i].timestamp.secs,
        forall|k: int| j < k < replicas.len() ==> (#[trigger] replicas[k]).0 != replicas[j].0,
    ensures
        points[i].replicas == replicas[j].1,
{
    let t = points[i].timestamp.secs;
    assert(point_at(cpu, replicas, queue, t) == Some(points[i]));
    lemma_known(replicas, t, j);
}

proof fn lemma_known<V>(series: Seq<(i64, V)>, t: i64, j: int)
    requires
        0 <= j < series.len(),
        series[j].0 <= t,
        forall|k: int|
            0 <= k < series.len() ==> (#[trigger] series[k]).0 <= series[j].0 || series[k].0 > t,
        forall|k: int| j < k < series.len() ==> (#[trigger] series[k]).0 != series[j].0,
    ensures
        known_at(series, t) == Some(series[j].1),
{
    lemma_latest_time(series, t);
    let at = latest_time(series, t)->0;
    let k = choose|k: int| 0 <= k < series.len() && (#[trigger] series[k]).0 == at;
    assert(series[k].0 <= series[j].0);
    lemma_last_value(series, series[j].0, j);
}

proof fn lemma_last_value<V>(series: Seq<(i64, V)>, t: i64, j: int)
    requires
        0 <= j < series.len(),
        series[j].0 == t,
        forall|k: int| j < k < series.len() ==> (#[trigger] series[k]).0 != t,
    ensures
        value_at(series, t) == Some(series[j].1),
    decreases series.len(),
{
    if j < series.len() - 1 {
        assert(series[series.len() - 1].0 != t);
        lemma_last_value(series.drop_last(), t, j);
    }
}

/// A point's utilization is the one known at its time, in the same way, and zero before the first.
pub proof fn law_utilization_is_carried_forward(
    points: Seq<MetricPoint>,
    cpu: Seq<(i64, Sample)>,
    replicas: Seq<(i64, i32)>,
    queue: Seq<(i64, Sample)>,
    i: int,
    j: int,
)
    requires
        timeline(points, cpu, replicas, queue),
        0 <= i < points.len(),
    ensures
        0 <= j < cpu.len() && cpu[j].0 <= points[i].timestamp.secs && (forall|k: int|
            0 <= k < cpu.len() ==> (#[trigger] cpu[k]).0 <= cpu[j].0 || cpu[k].0
                > points[i].timestamp.secs) && (forall|k: int|
            j < k < cpu.len() ==> (#[trigger] cpu[k]).0 != cpu[j].0) ==> points[i].cpu_util
            == cpu[j].1,
        (forall|k: int| 0 <= k < cpu.len() ==> (#[trigger] cpu[k]).0 > points[i].timestamp.secs)
            ==> points[i].cpu_util == (Sample { bits: 0 }),
{
    let t = points[i].timestamp.secs;
    assert(point_at(cpu, replicas, queue, t) == Some(points[i]));
    if 0 <= j < cpu.len() && cpu[j].0 <= t && (forall|k: int|
        0 <= k < cpu.len() ==> (#[trigger] cpu[k]).0 <= cpu[j].0 || cpu[k].0 > t) && (forall|k: int|
        j < k < cpu.len() ==> (#[trigger] cpu[k]).0 != cpu[j].0) {
        lemma_known(cpu, t, j);
    }
    lemma_latest_time(cpu, t);
    if let Some(at) = latest_time(cpu, t) {
        let k = choose|k: int| 0 <= k < cpu.len() && (#[trigger] cpu[k]).0 == at;
        assert(cpu[k].0 <= t);
    }
}

/// A point's queue depth is the one given for its very time, the last one of several, and absent
/// where none is given: it is not carried forward.
pub proof fn law_queue_depth_is_not_carried_forward(
    points: Seq<MetricPoint>,
    cpu: Seq<(i64, Sample)>,
    replicas: Seq<(i64, i32)>,
    queue: Seq<(i64, Sample)>,
    i: int,
    j: int,
)
    requires
        timeline(points, cpu, replicas, queue),
        0 <= i < points.len(),
    ensures
        0 <= j < queue.len() && queue[j].0 == points[i].timestamp.secs && (forall|k: int|
            j < k < queue.len() ==> (#[trigger] queue[k]).0 != queue[j].0)
            ==> points[i].queue_depth == Some(queue[j].1),
        (forall|k: int| 0 <= k < queue.len() ==> (#[trigger] queue[k]).0 != points[i].timestamp.secs)
            ==> points[i].queue_depth is None,
{
    let t = points[i].timestamp.secs;
    assert(point_at(cpu, replicas, queue, t) == Some(points[i]));
    if 0 <= j < queue.len() && queue[j].0 == t && (forall|k: int|
        j < k < queue.len() ==> (#[trigger] queue[k]).0 != queue[j].0) {
        lemma_last_value(queue, t, j);
    }
    lemma_value_at(queue, t);
}

/// The points ascend in time, without fractions of a second, each at a time that some series names;
/// every time of a series has its point from the first reported count on.
pub proof fn law_points_are_the_times_of_the_series(
    points: Seq<MetricPoint>,
    cpu: Seq<(i64, Sample)>,
    replicas: Seq<(i64, i32)>,
    queue: Seq<(i64, Sample)>,
    i: int,
)
    requires
        timeline(points, cpu, replicas, queue),
        0 <= i < points.len(),
    ensures
        points[i].timestamp.nanos == 0,
        -8_334_601_228_800 <= points[i].timestamp.secs <= 8_210_266_876_799,
        i > 0 ==> points[i - 1].timestamp.secs < points[i].timestamp.secs,
        (exists|k: int| 0 <= k < cpu.len() && (#[trigger] cpu[k]).0 == points[i].timestamp.secs) || (
        exists|k: int|
            0 <= k < replicas.len() && (#[trigger] replicas[k]).0 == points[i].timestamp.secs) || (
        exists|k: int|
            0 <= k < queue.len() && (#[trigger] queue[k]).0 == points[i].timestamp.secs),
{
    assert(on_timeline(cpu, replicas, queue, points[i].timestamp.secs));
    assert(point_at(cpu, replicas, queue, points[i].timestamp.secs) == Some(points[i]));
}

/// A time that a series names has its point, once a count has been reported.
pub proof fn law_no_time_is_lost(
    points: Seq<MetricPoint>,
    cpu: Seq<(i64, Sample)>,
    replicas: Seq<(i64, i32)>,
    queue: Seq<(i64, Sample)>,
    k: int,
    first: int,
    t: i64,
)
    requires
        timeline(points, cpu, replicas, queue),
        0 <= first < replicas.len(),
        replicas[first].0 <= t,
        -8_334_601_228_800 <= t <= 8_210_266_876_799,
        (0 <= k < cpu.len() && cpu[k].0 == t) || (0 <= k < replicas.len() && replicas[k].0 == t)
            || (0 <= k < queue.len() && queue[k].0 == t),
    ensures
        exists|i: int| 0 <= i < points.len() && (#[trigger] points[i]).timestamp.secs == t,
{
    assert(has_time(replicas, replicas[first].0));
    assert(on_timeline(cpu, replicas, queue, t));
    law_timeline_keeps_advancing(points, cpu, replicas, queue, replicas[first].0, t);
}

/// Samples that are no finite numbers are skipped, and all others are kept in order.
pub proof fn law_finite_samples_are_kept(decoded: Seq<Decoded>)
    ensures
        usable(decoded) == decoded.filter(
            |d: Decoded| d.sample is Some && d.sample->0.magnitude() < 0x7FF0_0000_0000_0000,
        ).map_values(|d: Decoded| (d.timestamp, d.sample->0)),
    decreases decoded.len(),
{
    reveal(Seq::filter);
    let keep = |d: Decoded| d.sample is Some && d.sample->0.magnitude() < 0x7FF0_0000_0000_0000;
    let pair = |d: Decoded| (d.timestamp, d.sample->0);
    if decoded.len() > 0 {
        law_finite_samples_are_kept(decoded.drop_last());
        let rest = decoded.drop_last().filter(keep);
        assert(rest.push(decoded.last()).map_values(pair) =~= rest.map_values(pair).push(
            pair(decoded.last()),
        ));
    } else {
        assert(usable(decoded) =~= decoded.filter(keep).map_values(pair));
    }
}

/// A timestamp's samples are all those of its time, in the order of the response.
pub proof fn law_samples_of_a_time_are_summed_whole(usable: Seq<(i64, Sample)>, t: i64)
    ensures
        samples_at(usable, t) == usable.filter(|p: (i64, Sample)| p.0 == t).map_values(
            |p: (i64, Sample)| p.1,
        ),
    decreases usable.len(),
{
    reveal(Seq::filter);
    let keep = |p: (i64, Sample)| p.0 == t;
    let value = |p: (i64, Sample)| p.1;
    if usable.len() > 0 {
        law_samples_of_a_time_are_summed_whole(usable.drop_last(), t);
        let rest = usable.drop_last().filter(keep);
        assert(rest.push(usable.last()).map_values(value) =~= rest.map_values(value).push(
            value(usable.last()),
        ));
    } else {
        assert(samples_at(usable, t) =~= usable.filter(keep).map_values(value));
    }
}

/// Every usable sample is in the series, at its time, and times ascend.
pub proof fn law_no_sample_is_lost(
    points: Seq<SeriesPoint>,
    usable: Seq<(i64, Sample)>,
    k: int,
    t: i64,
) -> (i: int)
    requires
        series_of(points, usable),
        0 <= k < usable.len(),
        usable[k].0 == t,
    ensures
        0 <= i < points.len(),
        points[i].timestamp == t,
        points[i].samples@ == usable.filter(|p: (i64, Sample)| p.0 == t).map_values(
            |p: (i64, Sample)| p.1,
        ),
        i > 0 ==> points[i - 1].timestamp < points[i].timestamp,
{
    assert(has_time(usable, t));
    let i = choose|i: int| 0 <= i < points.len() && (#[trigger] points[i]).timestamp == t;
    law_samples_of_a_time_are_summed_whole(usable, t);
    i
}

/// No time is made up either: every point of a series has a usable sample of its time.
pub proof fn law_no_time_is_made_up(
    points: Seq<SeriesPoint>,
    usable: Seq<(i64, Sample)>,
    i: int,
) -> (k: int)
    requires
        series_of(points, usable),
        0 <= i < points.len(),
    ensures
        0 <= k < usable.len(),
        usable[k].0 == points[i].timestamp,
{
    assert(has_time(usable, points[i].timestamp));
    choose|k: int| 0 <= k < usable.len() && (#[trigger] usable[k]).0 == points[i].timestamp
}

/// The reading stops at the first text that is no number.
pub proof fn law_first_bad_sample_is_reported(decoded: Seq<Decoded>, k: int)
    requires
        0 <= k <= decoded.len(),
        forall|j: int| 0 <= j < k ==> (#[trigger] decoded[j]).sample is Some,
    ensures
        k < decoded.len() && decoded[k].sample is None ==> first_bad(decoded) == Some(k),
        k == decoded.len() ==> first_bad(decoded) is None,
    decreases decoded.len(),
{
    if decoded.len() > 0 {
        let rest = decoded.drop_last();
        if k < rest.len() {
            law_first_bad_sample_is_reported(rest, k);
        } else {
            law_first_bad_sample_is_reported(rest, rest.len() as int);
        }
    }
}

/// A pair is a number and a text at the head of an array; each other shape is told by what is
/// missing.
pub proof fn law_pairs_are_a_number_and_a_text(items: Seq<JsonView>, other: JsonView)
    requires
        !(other is Array),
    ensures
        ({
            let read = pair_of(JsonView::Array(items));
            let number = items.len() >= 1 && (items[0] is Whole || items[0] is Float);
            &&& number && items.len() >= 2 && items[1] is Str ==> read == Ok::<PairView, MatrixError>(
                PairView { timestamp: items[0], sample: items[1]->Str_0 },
            )
            &&& number && (items.len() == 1 || !(items[1] is Str)) ==> read == Err::<
                PairView,
                MatrixError,
            >(MatrixError::MissingSample)
            &&& !number ==> read == Err::<PairView, MatrixError>(MatrixError::MissingTimestamp)
            &&& pair_of(other) == Err::<PairView, MatrixError>(MatrixError::PairNotAnArray)
        }),
{
}

/// The pairs of a series are read in order up to the first malformed one.
pub proof fn law_values_are_read_in_order(values: Seq<JsonView>, k: int, i: int)
    requires
        0 <= k <= values.len(),
        forall|j: int| 0 <= j < k ==> pair_of(#[trigger] values[j]) is Ok,
        k < values.len() ==> pair_of(values[k]) is Err,
    ensures
        scan_values(values).pairs.len() == k,
        0 <= i < k ==> scan_values(values).pairs[i] == pair_of(values[i])->Ok_0,
        k < values.len() ==> scan_values(values).error == Some(pair_of(values[k])->Err_0),
        k == values.len() ==> scan_values(values).error is None,
    decreases values.len(),
{
    if k > 0 {
        let rest = values.drop_first();
        assert(pair_of(values[0]) is Ok);
        assert forall|j: int| 0 <= j < k - 1 implies pair_of(#[trigger] rest[j]) is Ok by {
            assert(rest[j] == values[j + 1]);
        }
        if k < values.len() {
            assert(rest[k - 1] == values[k]);
        }
        law_values_are_read_in_order(rest, k - 1, i - 1);
        if 0 < i < k {
            assert(rest[i - 1] == values[i]);
        }
    }
}

/// The series of a response are read one after the other: those of a longer response come after
/// those of its beginning, unless that is malformed; a series without values ends the reading.
pub proof fn law_series_are_read_one_by_one(some: Seq<JsonView>, more: Seq<JsonView>)
    ensures
        scan_series(some).error is Some ==> scan_series(some + more) == scan_series(some),
        scan_series(some).error is None ==> scan_series(some + more) == (ScanView {
            pairs: scan_series(some).pairs + scan_series(more).pairs,
            error: scan_series(more).error,
        }),
        some.len() == 1 ==> match member(some[0], "values"@) {
            Some(JsonView::Array(values)) => scan_series(some) == scan_values(values),
            _ => scan_series(some).pairs.len() == 0 && scan_series(some).error == Some(
                MatrixError::MissingValues,
            ),
        },
    decreases some.len(),
{
    if some.len() == 0 {
        assert(some + more =~= more);
        assert(scan_series(some).pairs + scan_series(more).pairs =~= scan_series(more).pairs);
    } else {
        assert((some + more).drop_first() =~= some.drop_first() + more);
        assert((some + more)[0] == some[0]);
        law_series_are_read_one_by_one(some.drop_first(), more);
        if let Some(JsonView::Array(values)) = member(some[0], "values"@) {
            let here = scan_values(values);
            let rest = scan_series(some.drop_first());
            assert(here.pairs + (rest.pairs + scan_series(more).pairs) =~= here.pairs + rest.pairs
                + scan_series(more).pairs);
            if some.len() == 1 {
                assert(some.drop_first() =~= Seq::<JsonView>::empty());
                assert(here.pairs + rest.pairs =~= here.pairs);
            }
        }
    }
}

/// A query asks the server's range endpoint for the filled-in template, from the start to the end,
/// at the step.
pub proof fn law_range_query_asks_for_the_range(
    q: RangeQuery,
    base_url: Seq<char>,
    template: Seq<char>,
    namespace: Seq<char>,
    deployment: Seq<char>,
    start: Timestamp,
    end: Timestamp,
    step_s: u64,
)
    requires
        range_of(q, base_url, template, namespace, deployment, start, end, step_s),
    ensures
        q.url@ == base_url + "/api/v1/query_range"@,
        q.query@ == replaced(replaced(template, "{ns}"@, namespace), "{deploy}"@, deployment),
        q.start@ == signed_decimal(start.secs as int),
        q.end@ == signed_decimal(end.secs as int),
        q.step@ == signed_decimal(step_s as int),
{
}

/// A response is read where `data.result` is an array, and nowhere else.
pub proof fn law_response_is_read_at_its_result(
    members: Map<Seq<char>, JsonView>,
    data: Map<Seq<char>, JsonView>,
    series: Seq<JsonView>,
)
    requires
        members.dom().contains("data"@),
        members["data"@] == JsonView::Object(data),
    ensures
        data.dom().contains("result"@) && data["result"@] == JsonView::Array(series) ==> scan_view(
            JsonView::Object(members),
        ) == scan_series(series),
        !data.dom().contains("result"@) || !(data["result"@] is Array) ==> scan_view(
            JsonView::Object(members),
        ).error == Some(MatrixError::MissingResult) && scan_view(
            JsonView::Object(members),
        ).pairs.len() == 0,
        !(scan_view(JsonView::Object(members.remove("data"@))).error is None),
{
}

/// A text without an opening brace has no placeholder in it.
proof fn lemma_no_placeholder(s: Seq<char>, pat: Seq<char>, i: int)
    requires
        pat.len() > 0,
        pat[0] == '{',
        0 <= i < s.len(),
        s[i] != '{',
    ensures
        !has_prefix(s.skip(i), pat),
{
    if has_prefix(s.skip(i), pat) {
        assert(s.skip(i).take(pat.len() as int)[0] == s[i]);
    }
}

/// The namespace stands where a template has `{ns}` and the deployment where it has `{deploy}`;
/// the rest of the template is kept.
pub proof fn law_template_is_filled_in(
    head: Seq<char>,
    middle: Seq<char>,
    tail: Seq<char>,
    namespace: Seq<char>,
    deployment: Seq<char>,
)
    requires
        !head.contains('{'),
        !middle.contains('{'),
        !tail.contains('{'),
        !namespace.contains('{'),
    ensures
        filled(head + "{ns}"@ + middle + "{deploy}"@ + tail, namespace, deployment) == head
            + namespace + middle + deployment + tail,
        filled(head, namespace, deployment) == head,
{
    reveal_strlit("{ns}");
    reveal_strlit("{deploy}");
    let ns = "{ns}"@;
    let deploy = "{deploy}"@;
    let rest = middle + deploy + tail;
    let template = head + ns + rest;
    assert(head + ns + middle + deploy + tail =~= template);
    assert forall|i: int| 0 <= i < head.len() implies !has_prefix(
        #[trigger] template.skip(i),
        ns,
    ) by {
        assert(template[i] == head[i]);
        lemma_no_placeholder(template, ns, i);
    }
    crate::text::law_occurrences_are_replaced(head, rest, ns, namespace);
    assert forall|i: int| 0 <= i < rest.len() implies !has_prefix(#[trigger] rest.skip(i), ns) by {
        if i == middle.len() {
            if has_prefix(rest.skip(i), ns) {
                assert(rest.skip(i).take(4)[1] == rest[i + 1]);
                assert(rest[i + 1] == deploy[1]);
            }
        } else {
            if i < middle.len() {
                assert(rest[i] == middle[i]);
            } else if i < middle.len() + deploy.len() {
                assert(rest[i] == deploy[i - middle.len()]);
            } else {
                assert(rest[i] == tail[i - middle.len() - deploy.len()]);
            }
            lemma_no_placeholder(rest, ns, i);
        }
    }
    crate::text::law_other_text_is_kept(rest, ns, namespace);
    let front = head + namespace + middle;
    let named = front + deploy + tail;
    assert(replaced(template, ns, namespace) == head + namespace + rest);
    assert(head + namespace + rest =~= named);
    assert forall|i: int| 0 <= i < front.len() implies !has_prefix(
        #[trigger] named.skip(i),
        deploy,
    ) by {
        assert(named[i] == front[i]);
        if i < head.len() {
            assert(front[i] == head[i]);
        } else if i < head.len() + namespace.len() {
            assert(front[i] == namespace[i - head.len()]);
        } else {
            assert(front[i] == middle[i - head.len() - namespace.len()]);
        }
        lemma_no_placeholder(named, deploy, i);
    }
    crate::text::law_occurrences_are_replaced(front, tail, deploy, deployment);
    assert forall|i: int| 0 <= i < tail.len() implies !has_prefix(
        #[trigger] tail.skip(i),
        deploy,
    ) by {
        lemma_no_placeholder(tail, deploy, i);
    }
    crate::text::law_other_text_is_kept(tail, deploy, deployment);
    assert forall|i: int| 0 <= i < head.len() implies !has_prefix(#[trigger] head.skip(i), ns)
        && !has_prefix(head.skip(i), deploy) by {
        lemma_no_placeholder(head, ns, i);
        lemma_no_placeholder(head, deploy, i);
    }
    crate::text::law_other_text_is_kept(head, ns, namespace);
    crate::text::law_other_text_is_kept(head, deploy, deployment);
    assert(front + deployment + tail =~= head + namespace + middle + deployment + tail);
}

/// The pairs of a list are kept one for one.
pub proof fn law_pairs_are_kept(pairs: Seq<RawPair>, i: int)
    requires
        0 <= i < pairs.len(),
    ensures
        pair_views(pairs).len() == pairs.len(),
        pair_views(pairs)[i].sample == pairs[i].sample@,
        pairs[i].timestamp matches crate::json::JsonNumber::Unsigned(n)
            ==> pair_views(pairs)[i].timestamp == JsonView::Whole(n as int),
        pairs[i].timestamp matches crate::json::JsonNumber::Negative(n)
            ==> pair_views(pairs)[i].timestamp == JsonView::Whole(n as int),
        pairs[i].timestamp matches crate::json::JsonNumber::Float(x)
            ==> pair_views(pairs)[i].timestamp == JsonView::Float(x.key()),
{
}

/// The default CPU query is the usage per requested core and, only where there is none, the usage
/// per core of the limit; both read the pods of the one deployment.
pub proof fn law_default_cpu_query_prefers_requests()
    ensures
        ({
            let usage =
                "avg(rate(container_cpu_usage_seconds_total{namespace=\"{ns}\",pod=~\"{deploy}-.*\"}[5m])) / "@;
            let pods = "{namespace=\"{ns}\",pod=~\"{deploy}-.*\",resource=\"cpu\"})"@;
            default_cpu_query_text() == usage + "avg(kube_pod_container_resource_requests"@ + pods
                + " or "@ + usage + "avg(kube_pod_container_resource_limits"@ + pods
        }),
{
    reveal_strlit(
        "avg(rate(container_cpu_usage_seconds_total{namespace=\"{ns}\",pod=~\"{deploy}-.*\"}[5m])) / ",
    );
    reveal_strlit("{namespace=\"{ns}\",pod=~\"{deploy}-.*\",resource=\"cpu\"})");
    reveal_strlit("avg(kube_pod_container_resource_requests");
    reveal_strlit("avg(kube_pod_container_resource_limits");
    reveal_strlit(" or ");
    reveal_strlit(
        "avg(rate(container_cpu_usage_seconds_total{namespace=\"{ns}\",pod=~\"{deploy}-.*\"}[5m])) / avg(kube_pod_container_resource_requests{namespace=\"{ns}\",pod=~\"{deploy}-.*\",resource=\"cpu\"}) or avg(rate(container_cpu_usage_seconds_total{namespace=\"{ns}\",pod=~\"{deploy}-.*\"}[5m])) / avg(kube_pod_container_resource_limits{namespace=\"{ns}\",pod=~\"{deploy}-.*\",resource=\"cpu\"})",
    );
    let usage =
        "avg(rate(container_cpu_usage_seconds_total{namespace=\"{ns}\",pod=~\"{deploy}-.*\"}[5m])) / "@;
    let pods = "{namespace=\"{ns}\",pod=~\"{deploy}-.*\",resource=\"cpu\"})"@;
    assert(default_cpu_query_text() =~= usage + "avg(kube_pod_container_resource_requests"@ + pods
        + " or "@ + usage + "avg(kube_pod_container_resource_limits"@ + pods);
}

/// The default replicas query reads the replicas in a deployment's status, of the one deployment
/// in the one namespace.
pub proof fn law_default_replicas_query_names_the_deployment()
    ensures
        default_replicas_query_text() == "kube_deployment_status_replicas"@
            + "{namespace=\"{ns}\",deployment=\"{deploy}\"}"@,
{
    reveal_strlit("kube_deployment_status_replicas");
    reveal_strlit("{namespace=\"{ns}\",deployment=\"{deploy}\"}");
    reveal_strlit("kube_deployment_status_replicas{namespace=\"{ns}\",deployment=\"{deploy}\"}");
    assert(default_replicas_query_text() =~= "kube_deployment_status_replicas"@
        + "{namespace=\"{ns}\",deployment=\"{deploy}\"}"@);
}

} // verus!
