use vstd::prelude::*;

verus! {

/// Raw usage of one container, as the metrics source reports it.
#[derive(Debug)]
pub struct ResourceMetrics {
    pub cpu: String,
    pub memory: String,
}

#[derive(Debug)]
pub struct ContainerMetricsResource {
    pub name: String,
    pub usage: ResourceMetrics,
}

/// The usage that the metrics source holds for one pod.
#[derive(Debug)]
pub struct PodMetricsResource {
    pub name: Option<String>,
    pub containers: Vec<ContainerMetricsResource>,
}

/// One usage snapshot: an entry per pod that the metrics source has seen.
#[derive(Debug)]
pub struct MetricsResponse {
    pub items: Vec<PodMetricsResource>,
}

/// A volume that a pod declares, with the kinds of source that are set on it.
#[derive(Debug)]
pub struct PodVolume {
    pub name: String,
    pub empty_dir: bool,
    pub persistent_volume_claim: bool,
    pub config_map: bool,
    pub secret: bool,
    pub host_path: bool,
}

/// A pod of the workload inventory.
#[derive(Debug)]
pub struct PodInfo {
    pub name: String,
    pub namespace: String,
    pub volumes: Vec<PodVolume>,
}

/// A volume in the report. Capacity and use are not measured and stay unset.
#[derive(Debug)]
pub struct VolumeMetrics {
    pub name: String,
    pub capacity_bytes: Option<u64>,
    pub used_bytes: Option<u64>,
    pub volume_type: String,
}

/// One container in the report: CPU in units of 10^-18 cores, memory in units of
/// 10^-9 bytes, each with its presentation string.
#[derive(Debug)]
pub struct ContainerMetrics {
    pub container_name: String,
    pub cpu_usage: Option<u128>,
    pub cpu_usage_millicores: Option<String>,
    pub memory_usage: Option<u128>,
    pub memory_usage_formatted: Option<String>,
    pub volumes: Vec<VolumeMetrics>,
}

/// One pod in the report, with its containers' usage summed.
#[derive(Debug)]
pub struct PodMetrics {
    pub timestamp: u64,
    pub pod_name: String,
    pub namespace: String,
    pub total_cpu_usage: u128,
    pub total_cpu_usage_millicores: String,
    pub total_memory_usage: u128,
    pub total_memory_usage_formatted: String,
    pub containers: Vec<ContainerMetrics>,
}

} // verus!
