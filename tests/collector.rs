use pod_metrics::collector::{
    aggregate_metrics, collect_volume_metrics, find_entry, pod_metrics_at, process_pod_metrics,
    report_pod,
};
use pod_metrics::errors::MetricsError;
use pod_metrics::types::{
    ContainerMetricsResource, MetricsResponse, PodInfo, PodMetricsResource, PodVolume,
    ResourceMetrics,
};

fn container(name: &str, cpu: &str, memory: &str) -> ContainerMetricsResource {
    ContainerMetricsResource {
        name: name.to_string(),
        usage: ResourceMetrics { cpu: cpu.to_string(), memory: memory.to_string() },
    }
}

fn entry(name: &str, containers: Vec<ContainerMetricsResource>) -> PodMetricsResource {
    PodMetricsResource { name: Some(name.to_string()), containers }
}

fn volume(name: &str) -> PodVolume {
    PodVolume {
        name: name.to_string(),
        empty_dir: false,
        persistent_volume_claim: false,
        config_map: false,
        secret: false,
        host_path: false,
    }
}

fn pod(name: &str, volumes: Vec<PodVolume>) -> PodInfo {
    PodInfo { name: name.to_string(), namespace: "default".to_string(), volumes }
}

#[test]
fn only_covered_pods_are_reported() {
    let pods = vec![pod("a", vec![]), pod("b", vec![])];
    let response = MetricsResponse { items: vec![entry("b", vec![container("c", "100m", "1Mi")])] };
    let out = aggregate_metrics(&pods, &response, 50).unwrap();
    assert_eq!(out.len(), 1);
    assert_eq!(out[0].pod_name, "b");
    assert_eq!(out[0].namespace, "default");
}

#[test]
fn container_usage_is_summed() {
    let pods = vec![pod("web", vec![])];
    let response = MetricsResponse {
        items: vec![entry("web", vec![container("a", "0.5", "1Mi"), container("b", "0.3", "2Mi")])],
    };
    let out = aggregate_metrics(&pods, &response, 50).unwrap();
    assert_eq!(out.len(), 1);
    let p = &out[0];
    assert_eq!(p.total_cpu_usage, 800_000_000_000_000_000);
    assert_eq!(p.total_cpu_usage as f64 / 1e18, 0.8);
    assert_eq!(p.total_cpu_usage_millicores, "800m");
    assert_eq!(p.total_memory_usage, 3_145_728_000_000_000);
    assert_eq!(p.total_memory_usage_formatted, "3Mi");
    assert_eq!(p.containers.len(), 2);
    assert_eq!(p.containers[0].container_name, "a");
    assert_eq!(p.containers[0].cpu_usage_millicores.as_deref(), Some("500m"));
    assert_eq!(p.containers[1].cpu_usage_millicores.as_deref(), Some("300m"));
    assert_eq!(p.containers[1].memory_usage_formatted.as_deref(), Some("2Mi"));
}

#[test]
fn one_bad_quantity_discards_the_cycle() {
    let pods = vec![pod("a", vec![]), pod("b", vec![])];
    let response = MetricsResponse {
        items: vec![
            entry("a", vec![container("c", "100m", "1Mi")]),
            entry("b", vec![container("c", "lots", "1Mi")]),
        ],
    };
    match aggregate_metrics(&pods, &response, 1) {
        Err(MetricsError::ParseError(m)) => assert_eq!(m, "Invalid CPU value: lots"),
        other => panic!("expected a parse error, got {:?}", other),
    }
}

#[test]
fn first_bad_container_gives_the_error() {
    let p = pod("a", vec![]);
    let containers = vec![
        container("ok", "1m", "1Ki"),
        container("bad-memory", "1m", "1Xi"),
        container("bad-cpu", "zz", "1Ki"),
    ];
    match pod_metrics_at(&p, &containers, 7) {
        Err(MetricsError::ParseError(m)) => assert_eq!(m, "Invalid memory value: 1Xi"),
        other => panic!("expected a parse error, got {:?}", other),
    }
}

#[test]
fn volumes_are_classified() {
    let mut claim = volume("data");
    claim.persistent_volume_claim = true;
    let mut both = volume("both");
    both.secret = true;
    both.config_map = true;
    let mut scratch = volume("scratch");
    scratch.empty_dir = true;
    scratch.host_path = true;
    let mut host = volume("host");
    host.host_path = true;
    let mut secret = volume("secret");
    secret.secret = true;
    let p = pod("a", vec![claim, volume("plain"), both, scratch, host, secret]);
    let vs = collect_volume_metrics(&p);
    let kinds: Vec<&str> = vs.iter().map(|v| v.volume_type.as_str()).collect();
    assert_eq!(
        kinds,
        vec!["persistentVolumeClaim", "unknown", "configMap", "emptyDir", "hostPath", "secret"]
    );
    assert_eq!(vs[0].name, "data");
    assert!(vs.iter().all(|v| v.capacity_bytes.is_none() && v.used_bytes.is_none()));
}

#[test]
fn each_container_carries_the_pod_volumes() {
    let mut claim = volume("data");
    claim.persistent_volume_claim = true;
    let p = pod("a", vec![claim]);
    let containers = vec![container("x", "1", "1Gi"), container("y", "2", "1Gi")];
    let m = pod_metrics_at(&p, &containers, 42).unwrap();
    assert_eq!(m.timestamp, 42);
    assert_eq!(m.containers[0].volumes.len(), 1);
    assert_eq!(m.containers[1].volumes[0].volume_type, "persistentVolumeClaim");
    assert_eq!(m.total_cpu_usage_millicores, "3000m");
    assert_eq!(m.total_memory_usage_formatted, "2048Mi");
}

#[test]
fn pod_without_containers() {
    let p = pod("empty", vec![]);
    let m = pod_metrics_at(&p, &vec![], 0).unwrap();
    assert_eq!(m.total_cpu_usage, 0);
    assert_eq!(m.total_cpu_usage_millicores, "0m");
    assert_eq!(m.total_memory_usage_formatted, "0Mi");
    assert!(m.containers.is_empty());
}

#[test]
fn totals_out_of_range_are_refused() {
    let p = pod("huge", vec![]);
    let containers: Vec<ContainerMetricsResource> =
        (0..400).map(|i| container(&format!("c{}", i), "1", "999999999999999999Gi")).collect();
    assert!(matches!(
        pod_metrics_at(&p, &containers, 0),
        Err(MetricsError::InvalidMetricFormat(_))
    ));
}

#[test]
fn last_entry_with_a_name_wins() {
    let items = vec![
        entry("a", vec![container("first", "1m", "1Ki")]),
        PodMetricsResource { name: None, containers: vec![] },
        entry("a", vec![container("second", "2m", "1Ki")]),
        entry("b", vec![]),
    ];
    assert_eq!(find_entry(&items, &"a".to_string()), Some(2));
    assert_eq!(find_entry(&items, &"b".to_string()), Some(3));
    assert_eq!(find_entry(&items, &"c".to_string()), None);
    let response = MetricsResponse { items };
    let m = process_pod_metrics(&pod("a", vec![]), &response).unwrap().unwrap();
    assert_eq!(m.containers[0].container_name, "second");
    assert!(m.timestamp > 0);
    assert!(process_pod_metrics(&pod("c", vec![]), &response).unwrap().is_none());
}

#[test]
fn batches_do_not_change_the_report() {
    let pods: Vec<PodInfo> = (0..7).map(|i| pod(&format!("p{}", i), vec![])).collect();
    let items: Vec<PodMetricsResource> = (0..7)
        .filter(|i| i % 2 == 0)
        .map(|i| entry(&format!("p{}", i), vec![container("c", &format!("{}m", i), "1Mi")]))
        .collect();
    let response = MetricsResponse { items };
    for batch in [1, 2, 3, 7, 50] {
        let out = aggregate_metrics(&pods, &response, batch).unwrap();
        let names: Vec<&str> = out.iter().map(|p| p.pod_name.as_str()).collect();
        assert_eq!(names, vec!["p0", "p2", "p4", "p6"]);
        assert_eq!(out[3].total_cpu_usage_millicores, "6m");
    }
}

#[test]
fn empty_inventory_gives_empty_report() {
    let response = MetricsResponse { items: vec![entry("a", vec![])] };
    assert!(aggregate_metrics(&vec![], &response, 50).unwrap().is_empty());
}

#[test]
fn pods_without_entries_give_empty_report() {
    let pods = vec![pod("a", vec![]), pod("b", vec![])];
    let response = MetricsResponse { items: vec![entry("c", vec![container("x", "bad", "bad")])] };
    assert!(aggregate_metrics(&pods, &response, 1).unwrap().is_empty());
}

#[test]
fn failed_clock_read_is_an_internal_error() {
    let response = MetricsResponse { items: vec![entry("a", vec![container("c", "1m", "1Ki")])] };
    match report_pod(&pod("a", vec![]), &response, None) {
        Err(MetricsError::InternalError(m)) => {
            assert_eq!(m, "system clock is before the Unix epoch")
        }
        other => panic!("expected an internal error, got {:?}", other),
    }
    assert!(report_pod(&pod("b", vec![]), &response, None).unwrap().is_none());
    let p = report_pod(&pod("a", vec![]), &response, Some(99)).unwrap().unwrap();
    assert_eq!(p.timestamp, 99);
    assert_eq!(p.total_cpu_usage_millicores, "1m");
}
