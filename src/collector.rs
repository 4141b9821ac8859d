use crate::errors::{duration_from_secs, text_message, MetricsError, MetricsResult};
use crate::quantity::{
    cpu_amount, cpu_error_text, format_mebibytes, format_millicores, mebibytes_text,
    memory_amount, memory_error_text, millicores_text, parse_cpu, parse_memory,
};
use crate::types::{
    ContainerMetrics, ContainerMetricsResource, MetricsResponse, PodInfo, PodMetrics,
    PodMetricsResource, PodVolume, VolumeMetrics,
};
use std::time::{Duration, SystemTime};
use vstd::prelude::*;

verus! {

/// The wall-clock time type of std, carried through unchanged.
#[verifier::external_type_specification]
#[verifier::external_body]
pub struct ExSystemTime(SystemTime);

/// Relies on `SystemTime::now`: the current time, of which nothing is assumed.
#[verifier::external_body]
fn clock_now() -> (r: SystemTime) {
    SystemTime::now()
}

/// Relies on `SystemTime::duration_since`: the time elapsed since the Unix epoch,
/// `None` where the clock stands before it.
#[verifier::external_body]
fn since_unix_epoch(t: SystemTime) -> (r: Option<Duration>) {
    t.duration_since(std::time::UNIX_EPOCH).ok()
}

/// Relies on `Duration::as_secs`: the whole seconds of a duration, so that a duration
/// built from a number of seconds gives that number back.
pub assume_specification[ core::time::Duration::as_secs ](d: &Duration) -> (r: u64)
    ensures
        forall|x: u64| *d == duration_from_secs(x) ==> r == x,
;

/// The report's name for the kind of a declared volume: the first kind set, in a
/// fixed order.
pub open spec fn volume_kind(v: PodVolume) -> Seq<char> {
    if v.empty_dir {
        "emptyDir"@
    } else if v.persistent_volume_claim {
        "persistentVolumeClaim"@
    } else if v.config_map {
        "configMap"@
    } else if v.secret {
        "secret"@
    } else if v.host_path {
        "hostPath"@
    } else {
        "unknown"@
    }
}

pub open spec fn volume_reported(v: PodVolume, m: VolumeMetrics) -> bool {
    &&& m.name@ == v.name@
    &&& m.capacity_bytes is None
    &&& m.used_bytes is None
    &&& m.volume_type@ == volume_kind(v)
}

pub open spec fn volumes_reported(vs: Seq<PodVolume>, ms: Seq<VolumeMetrics>) -> bool {
    &&& ms.len() == vs.len()
    &&& forall|i: int| 0 <= i < vs.len() ==> volume_reported(#[trigger] vs[i], ms[i])
}

pub open spec fn container_parses(c: ContainerMetricsResource) -> bool {
    cpu_amount(c.usage.cpu@) is Some && memory_amount(c.usage.memory@) is Some
}

/// The message of the first failure met in a container: CPU is read before memory.
pub open spec fn container_error_text(c: ContainerMetricsResource) -> Seq<char> {
    if cpu_amount(c.usage.cpu@) is None {
        cpu_error_text(c.usage.cpu@)
    } else {
        memory_error_text(c.usage.memory@)
    }
}

pub open spec fn total_cpu(cs: Seq<ContainerMetricsResource>) -> nat
    decreases cs.len(),
{
    if cs.len() == 0 {
        0
    } else {
        total_cpu(cs.drop_last()) + cpu_amount(cs.last().usage.cpu@)->0
    }
}

pub open spec fn total_memory(cs: Seq<ContainerMetricsResource>) -> nat
    decreases cs.len(),
{
    if cs.len() == 0 {
        0
    } else {
        total_memory(cs.drop_last()) + memory_amount(cs.last().usage.memory@)->0
    }
}

pub open spec fn all_parse(cs: Seq<ContainerMetricsResource>) -> bool {
    forall|i: int| 0 <= i < cs.len() ==> container_parses(#[trigger] cs[i])
}

/// Every container reads, and both totals fit the report's counters.
pub open spec fn containers_fine(cs: Seq<ContainerMetricsResource>) -> bool {
    &&& all_parse(cs)
    &&& total_cpu(cs) <= u128::MAX
    &&& total_memory(cs) <= u128::MAX
}

pub open spec fn container_reported(pod: PodInfo, c: ContainerMetricsResource, m: ContainerMetrics) -> bool {
    &&& m.container_name@ == c.name@
    &&& m.cpu_usage matches Some(v) && cpu_amount(c.usage.cpu@) == Some(v as nat)
    &&& m.cpu_usage_millicores matches Some(t) && t@ == millicores_text(m.cpu_usage->0 as nat)
    &&& m.memory_usage matches Some(v) && memory_amount(c.usage.memory@) == Some(v as nat)
    &&& m.memory_usage_formatted matches Some(t) && t@ == mebibytes_text(
        m.memory_usage->0 as nat,
    )
    &&& volumes_reported(pod.volumes@, m.volumes@)
}

/// `p` reports `pod` with usage `cs`, whatever its timestamp.
pub open spec fn pod_reported(pod: PodInfo, cs: Seq<ContainerMetricsResource>, p: PodMetrics) -> bool {
    &&& p.pod_name@ == pod.name@
    &&& p.namespace@ == pod.namespace@
    &&& p.total_cpu_usage == total_cpu(cs)
    &&& p.total_cpu_usage_millicores@ == millicores_text(total_cpu(cs))
    &&& p.total_memory_usage == total_memory(cs)
    &&& p.total_memory_usage_formatted@ == mebibytes_text(total_memory(cs))
    &&& p.containers@.len() == cs.len()
    &&& forall|i: int| 0 <= i < cs.len() ==> container_reported(pod, #[trigger] cs[i], p.containers@[i])
}

/// `e` is the error owed for usage `cs` that is not fine: the parse error of the first
/// container that does not read, else a format error for totals out of range.
pub open spec fn pod_failure(cs: Seq<ContainerMetricsResource>, e: MetricsError) -> bool {
    &&& !all_parse(cs) ==> exists|i: int|
        0 <= i < cs.len() && !container_parses(#[trigger] cs[i]) && (forall|j: int|
            0 <= j < i ==> container_parses(cs[j])) && (e matches MetricsError::ParseError(msg)
            && msg@ == container_error_text(cs[i]))
    &&& all_parse(cs) ==> (e matches MetricsError::InvalidMetricFormat(m) && m@ == out_of_range_text())
}

pub open spec fn out_of_range_text() -> Seq<char> {
    "usage total out of range"@
}

/// The index of the snapshot entry for the pod named `name`: the last one that carries it.
pub open spec fn entry_index(items: Seq<PodMetricsResource>, name: Seq<char>) -> Option<int>
    decreases items.len(),
{
    if items.len() == 0 {
        None
    } else if items.last().name matches Some(n) && n@ == name {
        Some(items.len() - 1)
    } else {
        entry_index(items.drop_last(), name)
    }
}

pub proof fn lemma_entry_index_in_range(items: Seq<PodMetricsResource>, name: Seq<char>)
    ensures
        entry_index(items, name) matches Some(i) ==> (0 <= i < items.len() && (items[i].name matches Some(n) && n@ == name)),
    decreases items.len(),
{
    if items.len() > 0 {
        lemma_entry_index_in_range(items.drop_last(), name);
    }
}

/// The usage that the snapshot holds for `pod`; empty where it has no entry.
pub open spec fn usage_of(pod: PodInfo, items: Seq<PodMetricsResource>) -> Seq<ContainerMetricsResource> {
    match entry_index(items, pod.name@) {
        Some(i) => items[i].containers@,
        None => Seq::empty(),
    }
}

/// The positions of the pods that the snapshot has an entry for, in order.
pub open spec fn present_pods(pods: Seq<PodInfo>, items: Seq<PodMetricsResource>) -> Seq<int>
    decreases pods.len(),
{
    if pods.len() == 0 {
        Seq::empty()
    } else {
        let before = present_pods(pods.drop_last(), items);
        if entry_index(items, pods.last().name@) is Some {
            before.push(pods.len() - 1)
        } else {
            before
        }
    }
}

fn volume_kind_str(v: &PodVolume) -> (r: &'static str)
    ensures
        r@ == volume_kind(*v),
{
    if v.empty_dir {
        "emptyDir"
    } else if v.persistent_volume_claim {
        "persistentVolumeClaim"
    } else if v.config_map {
        "configMap"
    } else if v.secret {
        "secret"
    } else if v.host_path {
        "hostPath"
    } else {
        "unknown"
    }
}

/// The report's entry for each volume that `pod` declares, in order.
pub fn collect_volume_metrics(pod: &PodInfo) -> (r: Vec<VolumeMetrics>)
    ensures
        volumes_reported(pod.volumes@, r@),
{
    let mut volumes: Vec<VolumeMetrics> = Vec::new();
    let mut i: usize = 0;
    while i < pod.volumes.len()
        invariant
            i <= pod.volumes@.len(),
            volumes@.len() == i,
            forall|j: int| 0 <= j < i ==> volume_reported(#[trigger] pod.volumes@[j], volumes@[j]),
        decreases pod.volumes@.len() - i,
    {
        let v = &pod.volumes[i];
        volumes.push(
            VolumeMetrics {
                name: v.name.clone(),
                capacity_bytes: None,
                used_bytes: None,
                volume_type: String::from_str(volume_kind_str(v)),
            },
        );
        i = i + 1;
    }
    volumes
}

fn out_of_range_error() -> (r: MetricsError)
    ensures
        r matches MetricsError::InvalidMetricFormat(m) && m@ == out_of_range_text(),
{
    MetricsError::InvalidMetricFormat(String::from_str("usage total out of range"))
}

/// The report for `pod` with usage `containers`, stamped with `timestamp`.
pub fn pod_metrics_at(pod: &PodInfo, containers: &Vec<ContainerMetricsResource>, timestamp: u64) -> (r: MetricsResult<PodMetrics>)
    ensures
        r is Ok <==> containers_fine(containers@),
        r matches Ok(p) ==> pod_reported(*pod, containers@, p) && p.timestamp == timestamp,
        r matches Err(e) ==> pod_failure(containers@, e),
{
    let mut cpu_sum: u128 = 0;
    let mut memory_sum: u128 = 0;
    let mut overflow = false;
    let mut reported: Vec<ContainerMetrics> = Vec::new();
    let mut i: usize = 0;
    while i < containers.len()
        invariant
            i <= containers@.len(),
            all_parse(containers@.take(i as int)),
            overflow ==> total_cpu(containers@.take(i as int)) > u128::MAX || total_memory(
                containers@.take(i as int),
            ) > u128::MAX,
            !overflow ==> cpu_sum == total_cpu(containers@.take(i as int)) && memory_sum
                == total_memory(containers@.take(i as int)),
            reported@.len() == i,
            forall|j: int|
                0 <= j < i ==> container_reported(*pod, #[trigger] containers@[j], reported@[j]),
        decreases containers@.len() - i,
    {
        let c = &containers[i];
        let ghost prev = containers@.take(i as int);
        let ghost next = containers@.take(i + 1);
        assert(next.drop_last() =~= prev);
        assert(forall|j: int| 0 <= j < i ==> prev[j] == containers@[j]);
        let cpu = match parse_cpu(c.usage.cpu.as_str()) {
            Ok(v) => v,
            Err(e) => {
                assert(!container_parses(containers@[i as int]));
                return Err(e);
            },
        };
        let memory = match parse_memory(c.usage.memory.as_str()) {
            Ok(v) => v,
            Err(e) => {
                assert(!container_parses(containers@[i as int]));
                return Err(e);
            },
        };
        if !overflow {
            match (cpu_sum.checked_add(cpu), memory_sum.checked_add(memory)) {
                (Some(a), Some(b)) => {
                    cpu_sum = a;
                    memory_sum = b;
                },
                _ => {
                    overflow = true;
                },
            }
        }
        reported.push(
            ContainerMetrics {
                container_name: c.name.clone(),
                cpu_usage: Some(cpu),
                cpu_usage_millicores: Some(format_millicores(cpu)),
                memory_usage: Some(memory),
                memory_usage_formatted: Some(format_mebibytes(memory)),
                volumes: collect_volume_metrics(pod),
            },
        );
        assert(forall|j: int| 0 <= j <= i ==> next[j] == containers@[j]);
        assert(all_parse(next));
        i = i + 1;
    }
    assert(containers@.take(i as int) =~= containers@);
    if overflow {
        return Err(out_of_range_error());
    }
    Ok(
        PodMetrics {
            timestamp,
            pod_name: pod.name.clone(),
            namespace: pod.namespace.clone(),
            total_cpu_usage: cpu_sum,
            total_cpu_usage_millicores: format_millicores(cpu_sum),
            total_memory_usage: memory_sum,
            total_memory_usage_formatted: format_mebibytes(memory_sum),
            containers: reported,
        },
    )
}

/// The position of the snapshot entry for the pod named `name`.
pub fn find_entry(items: &Vec<PodMetricsResource>, name: &String) -> (r: Option<usize>)
    ensures
        r matches Some(i) ==> entry_index(items@, name@) == Some(i as int),
        r is None ==> entry_index(items@, name@) is None,
{
    let mut found: Option<usize> = None;
    let mut i: usize = 0;
    while i < items.len()
        invariant
            i <= items@.len(),
            found matches Some(k) ==> entry_index(items@.take(i as int), name@) == Some(k as int),
            found is None ==> entry_index(items@.take(i as int), name@) is None,
        decreases items@.len() - i,
    {
        let ghost next = items@.take(i + 1);
        assert(next.drop_last() =~= items@.take(i as int));
        assert(next.last() == items@[i as int]);
        match &items[i].name {
            Some(n) => {
                let same: bool = n.eq(name);
                if same {
                    found = Some(i);
                }
            },
            None => {},
        }
        i = i + 1;
    }
    assert(items@.take(i as int) =~= items@);
    found
}

/// Whole seconds since the Unix epoch; `None` where the clock stands before it.
fn unix_time_secs() -> (r: Option<u64>) {
    match since_unix_epoch(clock_now()) {
        Some(d) => Some(d.as_secs()),
        None => None,
    }
}

pub open spec fn clock_error_text() -> Seq<char> {
    "system clock is before the Unix epoch"@
}

/// The error that a failed clock read gives.
pub open spec fn is_clock_error(e: MetricsError) -> bool {
    e matches MetricsError::InternalError(m) && m@ == clock_error_text()
}

fn clock_error() -> (r: MetricsError)
    ensures
        is_clock_error(r),
{
    MetricsError::InternalError(String::from_str("system clock is before the Unix epoch"))
}

/// What processing `pod` against snapshot `items` gives, where `reading` is what the
/// clock read (`None`: the read failed). The clock is read only for a pod with an entry.
pub open spec fn pod_outcome(
    pod: PodInfo,
    items: Seq<PodMetricsResource>,
    reading: Option<u64>,
    r: MetricsResult<Option<PodMetrics>>,
) -> bool {
    match entry_index(items, pod.name@) {
        None => r matches Ok(None),
        Some(_) => match reading {
            None => r matches Err(e) && is_clock_error(e),
            Some(t) => {
                let cs = usage_of(pod, items);
                &&& (r is Ok <==> containers_fine(cs))
                &&& (r matches Ok(o) ==> (o matches Some(p) && pod_reported(pod, cs, p)
                    && p.timestamp == t))
                &&& (r matches Err(e) ==> pod_failure(cs, e))
            },
        },
    }
}

/// A pod lets the pass go on: it has no entry, or the clock was read and its usage is fine.
pub open spec fn pod_passes(pod: PodInfo, items: Seq<PodMetricsResource>, reading: Option<u64>) -> bool {
    entry_index(items, pod.name@) is Some ==> (reading is Some && containers_fine(
        usage_of(pod, items),
    ))
}

/// The report for `pod` from `response`, given what the clock read.
pub fn report_pod(pod: &PodInfo, response: &MetricsResponse, reading: Option<u64>) -> (r: MetricsResult<Option<PodMetrics>>)
    ensures
        pod_outcome(*pod, response.items@, reading, r),
{
    proof {
        lemma_entry_index_in_range(response.items@, pod.name@);
    }
    match find_entry(&response.items, &pod.name) {
        Some(k) => {
            let timestamp = match reading {
                Some(t) => t,
                None => return Err(clock_error()),
            };
            match pod_metrics_at(pod, &response.items[k].containers, timestamp) {
                Ok(p) => Ok(Some(p)),
                Err(e) => Err(e),
            }
        },
        None => Ok(None),
    }
}

/// Reads the clock where `pod` has an entry in `response`; `None` where it has none.
fn reading_for(pod: &PodInfo, response: &MetricsResponse) -> (r: Option<u64>) {
    match find_entry(&response.items, &pod.name) {
        Some(_) => unix_time_secs(),
        None => None,
    }
}

/// The report for `pod` from `response`, stamped with the time at which it is made;
/// `None` where the snapshot has no entry for the pod.
pub fn process_pod_metrics(pod: &PodInfo, response: &MetricsResponse) -> (r: MetricsResult<Option<PodMetrics>>)
    ensures
        entry_index(response.items@, pod.name@) is None ==> r matches Ok(None),
        exists|reading: Option<u64>| pod_outcome(*pod, response.items@, reading, r),
{
    let reading = reading_for(pod, response);
    report_pod(pod, response, reading)
}

/// What a whole pass gives, where `readings[i]` is what the clock read for `pods[i]`:
/// success exactly when every pod passes, the reports in the order of `pods`, else the
/// error of the first pod that does not pass.
pub open spec fn aggregate_outcome(
    pods: Seq<PodInfo>,
    items: Seq<PodMetricsResource>,
    readings: Seq<Option<u64>>,
    r: MetricsResult<Vec<PodMetrics>>,
) -> bool {
    &&& readings.len() == pods.len()
    &&& (r is Ok <==> forall|i: int| 0 <= i < pods.len() ==> pod_passes(#[trigger] pods[i], items, readings[i]))
    &&& (r matches Ok(out) ==> reports_in_order(pods, items, pods.len() as int, out@)
        && stamped_by(pods, items, pods.len() as int, readings, out@))
    &&& (r matches Err(e) ==> exists|i: int|
        0 <= i < pods.len() && (forall|j: int| 0 <= j < i ==> pod_passes(#[trigger] pods[j], items, readings[j]))
            && !pod_passes(pods[i], items, readings[i]) && pod_error(pods[i], items, readings[i], e))
}

/// `e` is what a pod that does not pass gives: the clock error where the read failed,
/// else the error that its usage is owed.
pub open spec fn pod_error(pod: PodInfo, items: Seq<PodMetricsResource>, reading: Option<u64>, e: MetricsError) -> bool {
    match reading {
        None => is_clock_error(e),
        Some(_) => pod_failure(usage_of(pod, items), e),
    }
}

/// Each report carries the clock reading taken for its pod.
pub open spec fn stamped_by(
    pods: Seq<PodInfo>,
    items: Seq<PodMetricsResource>,
    n: int,
    readings: Seq<Option<u64>>,
    out: Seq<PodMetrics>,
) -> bool {
    let present = present_pods(pods.take(n), items);
    forall|k: int| 0 <= k < out.len() ==> readings[#[trigger] present[k]] == Some(out[k].timestamp)
}

/// `out` reports, in order, the pods among the first `n` that have an entry.
pub open spec fn reports_in_order(
    pods: Seq<PodInfo>,
    items: Seq<PodMetricsResource>,
    n: int,
    out: Seq<PodMetrics>,
) -> bool {
    let present = present_pods(pods.take(n), items);
    &&& out.len() == present.len()
    &&& forall|k: int|
        0 <= k < out.len() ==> 0 <= #[trigger] present[k] < n && pod_reported(
            pods[present[k]],
            usage_of(pods[present[k]], items),
            out[k],
        )
}

/// The report for a whole snapshot: one entry per pod that the snapshot covers, in the
/// order of `pods`, taken `batch_size` pods at a time, each stamped with a clock reading
/// taken when it is processed. Any failure discards the whole report.
pub fn aggregate_metrics(pods: &Vec<PodInfo>, response: &MetricsResponse, batch_size: usize) -> (r: MetricsResult<Vec<PodMetrics>>)
    requires
        batch_size > 0,
    ensures
        exists|readings: Seq<Option<u64>>| aggregate_outcome(pods@, response.items@, readings, r),
        (forall|i: int| 0 <= i < pods@.len() ==> entry_index(response.items@, #[trigger] pods@[i].name@) is None)
            ==> (r matches Ok(out) && out@.len() == 0),
{
    let ghost items = response.items@;
    let ghost mut readings: Seq<Option<u64>> = Seq::empty();
    let mut results: Vec<PodMetrics> = Vec::new();
    let n = pods.len();
    let mut start: usize = 0;
    while start < n
        invariant
            n == pods@.len(),
            start <= n,
            batch_size > 0,
            items == response.items@,
            readings.len() == start,
            forall|j: int| 0 <= j < start ==> pod_passes(#[trigger] pods@[j], items, readings[j]),
            reports_in_order(pods@, items, start as int, results@),
            stamped_by(pods@, items, start as int, readings, results@),
            (forall|j: int| 0 <= j < start ==> entry_index(items, #[trigger] pods@[j].name@) is None)
                ==> results@.len() == 0,
        decreases n - start,
    {
        let end: usize = if n - start < batch_size {
            n
        } else {
            start + batch_size
        };
        let mut i: usize = start;
        while i < end
            invariant
                n == pods@.len(),
                start <= i <= end <= n,
                items == response.items@,
                readings.len() == i,
                forall|j: int| 0 <= j < i ==> pod_passes(#[trigger] pods@[j], items, readings[j]),
                reports_in_order(pods@, items, i as int, results@),
                stamped_by(pods@, items, i as int, readings, results@),
                (forall|j: int| 0 <= j < i ==> entry_index(items, #[trigger] pods@[j].name@) is None)
                    ==> results@.len() == 0,
            decreases end - i,
        {
            let pod = &pods[i];
            let ghost before = present_pods(pods@.take(i as int), items);
            let ghost next = pods@.take(i + 1);
            assert(next.drop_last() =~= pods@.take(i as int));
            assert(next.last() == pods@[i as int]);
            let reading = reading_for(pod, response);
            let ghost old_readings = readings;
            proof {
                readings = readings.push(reading);
                assert forall|j: int| 0 <= j < i implies readings[j] == old_readings[j] by {}
            }
            match report_pod(pod, response, reading) {
                Ok(Some(p)) => {
                    results.push(p);
                    assert(present_pods(next, items) == before.push(i as int));
                },
                Ok(None) => {
                    assert(present_pods(next, items) == before);
                },
                Err(e) => {
                    let ghost full = readings + Seq::new((n - i - 1) as nat, |k: int| None::<u64>);
                    proof {
                        assert(forall|j: int| 0 <= j <= i ==> full[j] == readings[j]);
                        assert(!pod_passes(pods@[i as int], items, full[i as int]));
                        assert(pod_error(pods@[i as int], items, full[i as int], e));
                        assert(aggregate_outcome(pods@, items, full, Err(e)));
                    }
                    return Err(e);
                },
            }
            i = i + 1;
        }
        start = end;
    }
    assert(pods@.take(n as int) =~= pods@);
    assert(aggregate_outcome(pods@, items, readings, Ok(results)));
    Ok(results)
}

/// Two reports that agree in every field that the report's contract fixes.
pub open spec fn same_report(a: PodMetrics, b: PodMetrics) -> bool {
    &&& a.timestamp == b.timestamp
    &&& a.pod_name@ == b.pod_name@
    &&& a.namespace@ == b.namespace@
    &&& a.total_cpu_usage == b.total_cpu_usage
    &&& a.total_cpu_usage_millicores@ == b.total_cpu_usage_millicores@
    &&& a.total_memory_usage == b.total_memory_usage
    &&& a.total_memory_usage_formatted@ == b.total_memory_usage_formatted@
    &&& a.containers@.len() == b.containers@.len()
    &&& forall|i: int|
        0 <= i < a.containers@.len() ==> {
            let x = #[trigger] a.containers@[i];
            let y = b.containers@[i];
            &&& x.container_name@ == y.container_name@
            &&& x.cpu_usage == y.cpu_usage
            &&& x.memory_usage == y.memory_usage
        }
}

/// Given the same clock readings, a pass over the same pods and snapshot has one outcome,
/// whatever else differs (the batch size in particular): both succeed with the same
/// reports, or both fail with the same message.
pub proof fn lemma_outcome_is_determined(
    pods: Seq<PodInfo>,
    items: Seq<PodMetricsResource>,
    readings: Seq<Option<u64>>,
    r1: MetricsResult<Vec<PodMetrics>>,
    r2: MetricsResult<Vec<PodMetrics>>,
)
    requires
        aggregate_outcome(pods, items, readings, r1),
        aggregate_outcome(pods, items, readings, r2),
    ensures
        r1 is Ok <==> r2 is Ok,
        r1 matches Ok(a) ==> (r2 matches Ok(b) && a@.len() == b@.len() && forall|k: int|
            0 <= k < a@.len() ==> same_report(#[trigger] a@[k], b@[k])),
        r1 matches Err(e1) ==> (r2 matches Err(e2) && text_message(e1) == text_message(e2)
            && text_message(e1) is Some),
{
    if let Ok(a) = r1 {
        if let Ok(b) = r2 {
            let present = present_pods(pods.take(pods.len() as int), items);
            assert forall|k: int| 0 <= k < a@.len() implies same_report(#[trigger] a@[k], b@[k]) by {
                let pod = pods[present[k]];
                let cs = usage_of(pod, items);
                assert(pod_reported(pod, cs, a@[k]));
                assert(pod_reported(pod, cs, b@[k]));
                assert forall|i: int| 0 <= i < a@[k].containers@.len() implies {
                    let x = #[trigger] a@[k].containers@[i];
                    let y = b@[k].containers@[i];
                    &&& x.container_name@ == y.container_name@
                    &&& x.cpu_usage == y.cpu_usage
                    &&& x.memory_usage == y.memory_usage
                } by {
                    assert(container_reported(pod, cs[i], a@[k].containers@[i]));
                    assert(container_reported(pod, cs[i], b@[k].containers@[i]));
                }
            }
        }
    }
    if let Err(e1) = r1 {
        if let Err(e2) = r2 {
            let i1 = choose|i: int|
                0 <= i < pods.len() && (forall|j: int| 0 <= j < i ==> pod_passes(#[trigger] pods[j], items, readings[j]))
                    && !pod_passes(pods[i], items, readings[i]) && pod_error(pods[i], items, readings[i], e1);
            let i2 = choose|i: int|
                0 <= i < pods.len() && (forall|j: int| 0 <= j < i ==> pod_passes(#[trigger] pods[j], items, readings[j]))
                    && !pod_passes(pods[i], items, readings[i]) && pod_error(pods[i], items, readings[i], e2);
            if i1 < i2 {
                assert(pod_passes(pods[i1], items, readings[i1]));
            }
            if i2 < i1 {
                assert(pod_passes(pods[i2], items, readings[i2]));
            }
            assert(i1 == i2);
            let cs = usage_of(pods[i1], items);
            if readings[i1] is Some && !all_parse(cs) {
                let c1 = choose|i: int|
                    0 <= i < cs.len() && !container_parses(#[trigger] cs[i]) && (forall|j: int|
                        0 <= j < i ==> container_parses(cs[j])) && (e1 matches MetricsError::ParseError(msg)
                        && msg@ == container_error_text(cs[i]));
                let c2 = choose|i: int|
                    0 <= i < cs.len() && !container_parses(#[trigger] cs[i]) && (forall|j: int|
                        0 <= j < i ==> container_parses(cs[j])) && (e2 matches MetricsError::ParseError(msg)
                        && msg@ == container_error_text(cs[i]));
                if c1 < c2 {
                    assert(container_parses(cs[c1]));
                }
                if c2 < c1 {
                    assert(container_parses(cs[c2]));
                }
            }
        }
    }
}

/// Pods that the snapshot does not cover are skipped without error: where every covered
/// pod had its clock read and its usage reads and fits, the pass succeeds with one report
/// per covered pod, in the order of `pods`.
pub proof fn lemma_uncovered_pods_are_skipped(
    pods: Seq<PodInfo>,
    items: Seq<PodMetricsResource>,
    readings: Seq<Option<u64>>,
    r: MetricsResult<Vec<PodMetrics>>,
)
    requires
        aggregate_outcome(pods, items, readings, r),
        forall|i: int|
            0 <= i < pods.len() && entry_index(items, (#[trigger] pods[i]).name@) is Some ==> readings[i] is Some
                && containers_fine(usage_of(pods[i], items)),
    ensures
        r matches Ok(out) && out@.len() == present_pods(pods.take(pods.len() as int), items).len()
            && reports_in_order(pods, items, pods.len() as int, out@),
{
    assert forall|i: int| 0 <= i < pods.len() implies pod_passes(#[trigger] pods[i], items, readings[i]) by {}
}

/// A quantity that does not read, in any pod that the snapshot covers, discards the whole
/// pass: the result is an error, never a partial report. Where the pods before it passed
/// and its clock read succeeded, the error is that quantity's parse error.
pub proof fn lemma_bad_quantity_discards_the_pass(
    pods: Seq<PodInfo>,
    items: Seq<PodMetricsResource>,
    readings: Seq<Option<u64>>,
    r: MetricsResult<Vec<PodMetrics>>,
    i: int,
)
    requires
        aggregate_outcome(pods, items, readings, r),
        0 <= i < pods.len(),
        entry_index(items, pods[i].name@) is Some,
        !all_parse(usage_of(pods[i], items)),
    ensures
        r is Err,
        (readings[i] is Some && forall|j: int| 0 <= j < i ==> pod_passes(#[trigger] pods[j], items, readings[j]))
            ==> (r matches Err(e) && e is ParseError),
{
    assert(!pod_passes(pods[i], items, readings[i]));
    if readings[i] is Some && forall|j: int| 0 <= j < i ==> pod_passes(#[trigger] pods[j], items, readings[j]) {
        if let Err(e) = r {
            let f = choose|f: int|
                0 <= f < pods.len() && (forall|j: int| 0 <= j < f ==> pod_passes(#[trigger] pods[j], items, readings[j]))
                    && !pod_passes(pods[f], items, readings[f]) && pod_error(pods[f], items, readings[f], e);
            if f < i {
                assert(pod_passes(pods[f], items, readings[f]));
            }
            if i < f {
                assert(pod_passes(pods[i], items, readings[i]));
            }
            assert(f == i);
        }
    }
}

} // verus!
