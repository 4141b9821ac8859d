use pod_metrics::errors::MetricsError;
use pod_metrics::quantity::{
    format_mebibytes, format_millicores, parse_cpu, parse_memory, CPU_UNITS_PER_CORE,
    MEMORY_UNITS_PER_BYTE,
};

fn cores(units: u128) -> f64 {
    units as f64 / CPU_UNITS_PER_CORE as f64
}

fn bytes(units: u128) -> f64 {
    units as f64 / MEMORY_UNITS_PER_BYTE as f64
}

fn parse_message(r: Result<u128, MetricsError>) -> String {
    match r {
        Err(MetricsError::ParseError(m)) => m,
        other => panic!("expected a parse error, got {:?}", other),
    }
}

#[test]
fn test_parse_cpu_nanocores() {
    assert_eq!(cores(parse_cpu("1000000000n").unwrap()), 1.0);
}

#[test]
fn test_parse_cpu_millicores() {
    assert_eq!(cores(parse_cpu("1000m").unwrap()), 1.0);
}

#[test]
fn test_parse_memory_mi() {
    assert_eq!(bytes(parse_memory("1Mi").unwrap()), 1048576.0);
}

#[test]
fn test_parse_memory_gi() {
    assert_eq!(bytes(parse_memory("1Gi").unwrap()), 1073741824.0);
}

#[test]
fn test_invalid_cpu() {
    assert!(parse_cpu("invalid").is_err());
}

#[test]
fn test_invalid_memory() {
    assert!(parse_memory("invalid").is_err());
}

#[test]
fn plain_cores_and_bogus_cpu() {
    assert_eq!(cores(parse_cpu("1").unwrap()), 1.0);
    assert_eq!(parse_cpu("1").unwrap(), 1_000_000_000_000_000_000);
    assert!(parse_cpu("bogus").is_err());
}

#[test]
fn kibibytes_and_bogus_memory() {
    assert_eq!(bytes(parse_memory("1Ki").unwrap()), 1024.0);
    assert_eq!(parse_memory("1Ki").unwrap(), 1_024_000_000_000);
    assert!(parse_memory("bogus").is_err());
}

#[test]
fn plain_bytes() {
    assert_eq!(parse_memory("4096").unwrap(), 4_096_000_000_000);
}

#[test]
fn fractional_quantities_are_exact() {
    assert_eq!(parse_cpu("0.5").unwrap(), 500_000_000_000_000_000);
    assert_eq!(parse_cpu("250m").unwrap(), 250_000_000_000_000_000);
    assert_eq!(parse_cpu("1.5m").unwrap(), 1_500_000_000_000_000);
    assert_eq!(parse_cpu("0.5n").unwrap(), 500_000_000);
    assert_eq!(parse_memory("1.5Mi").unwrap(), 1_572_864_000_000_000);
    assert_eq!(parse_memory(".5Ki").unwrap(), 512_000_000_000);
    assert_eq!(parse_memory("2.").unwrap(), 2_000_000_000);
}

#[test]
fn malformed_decimals_are_refused() {
    assert!(parse_cpu("").is_err());
    assert!(parse_cpu("n").is_err());
    assert!(parse_cpu("m").is_err());
    assert!(parse_cpu(".").is_err());
    assert!(parse_cpu("1.2.3").is_err());
    assert!(parse_cpu("-1").is_err());
    assert!(parse_cpu("+").is_err());
    assert!(parse_cpu("++1").is_err());
    assert!(parse_cpu("0.0000000001n").is_err());
    assert!(parse_cpu("1000000000000000000000").is_err());
    assert!(parse_memory("0.0000000001").is_err());
    assert!(parse_memory("Mi").is_err());
    assert!(parse_memory("1M").is_err());
    assert!(parse_memory("1Ti").is_err());
}

#[test]
fn cpu_error_names_the_kind() {
    assert_eq!(parse_message(parse_cpu("xn")), "Invalid nanocores CPU value: xn");
    assert_eq!(parse_message(parse_cpu("xm")), "Invalid millicores CPU value: xm");
    assert_eq!(parse_message(parse_cpu("bogus")), "Invalid CPU value: bogus");
}

#[test]
fn memory_error_names_the_kind() {
    assert_eq!(parse_message(parse_memory("xMi")), "Invalid megabytes value: xMi");
    assert_eq!(parse_message(parse_memory("xKi")), "Invalid kilobytes value: xKi");
    assert_eq!(parse_message(parse_memory("xGi")), "Invalid gigabytes value: xGi");
    assert_eq!(parse_message(parse_memory("bogus")), "Invalid memory value: bogus");
}

#[test]
fn presentation_strings() {
    assert_eq!(format_millicores(parse_cpu("0.8").unwrap()), "800m");
    assert_eq!(format_millicores(parse_cpu("1500000n").unwrap()), "1m");
    assert_eq!(format_millicores(0), "0m");
    assert_eq!(format_mebibytes(parse_memory("1Gi").unwrap()), "1024Mi");
    assert_eq!(format_mebibytes(parse_memory("1.9Mi").unwrap()), "1Mi");
    assert_eq!(format_mebibytes(parse_memory("1023Ki").unwrap()), "0Mi");
}

#[test]
fn presentation_is_not_capped() {
    assert_eq!(format_millicores(parse_cpu("99999999999").unwrap()), "99999999999000m");
    assert_eq!(format_mebibytes(parse_memory("99999999999Gi").unwrap()), "102399999998976Mi");
    assert_eq!(format_millicores(u128::MAX), "340282366920938463463374m");
}

#[test]
fn presentation_reads_back_within_rounding() {
    let cpu = parse_cpu("1234567891n").unwrap();
    let back = parse_cpu(&format_millicores(cpu)).unwrap();
    assert_eq!(back, parse_cpu("1234m").unwrap());
    assert!(back <= cpu && cpu - back < 1_000_000_000_000_000);

    let memory = parse_memory("1536Ki").unwrap();
    let back = parse_memory(&format_mebibytes(memory)).unwrap();
    assert_eq!(back, parse_memory("1Mi").unwrap());
    assert!(back <= memory && memory - back < 1_048_576_000_000_000);
}

#[test]
fn signs_and_long_fractions() {
    assert_eq!(parse_cpu("+1").unwrap(), 1_000_000_000_000_000_000);
    assert_eq!(parse_cpu("+250m").unwrap(), 250_000_000_000_000_000);
    assert_eq!(parse_memory("+1Ki").unwrap(), 1_024_000_000_000);
    assert_eq!(parse_cpu("0.0000000001").unwrap(), 100_000_000);
    assert_eq!(parse_cpu("0.000000000000000001").unwrap(), 1);
    assert_eq!(parse_cpu("0.000000000000001m").unwrap(), 1);
    assert_eq!(parse_cpu("99999999999999999999").unwrap(), 99_999_999_999_999_999_999 * 1_000_000_000_000_000_000);
    assert_eq!(parse_cpu("1000000000000000000").unwrap(), 1_000_000_000_000_000_000 * 1_000_000_000_000_000_000);
}

#[test]
fn exponent_form() {
    assert_eq!(cores(parse_cpu("1e3").unwrap()), 1000.0);
    assert_eq!(parse_cpu("1e3").unwrap(), 1_000 * 1_000_000_000_000_000_000);
    assert_eq!(parse_cpu("1E-3").unwrap(), 1_000_000_000_000_000);
    assert_eq!(parse_cpu("2.5e-1").unwrap(), 250_000_000_000_000_000);
    assert_eq!(parse_cpu("1e+2").unwrap(), 100 * 1_000_000_000_000_000_000);
    assert_eq!(parse_cpu("1e3m").unwrap(), 1_000_000_000_000_000_000);
    assert_eq!(parse_cpu("1e-9n").unwrap(), 1);
    assert_eq!(parse_cpu("100000000000000000000e-20").unwrap(), 1_000_000_000_000_000_000);
    assert_eq!(parse_cpu("0e99999999999999999999999").unwrap(), 0);
    assert_eq!(bytes(parse_memory("1e3").unwrap()), 1000.0);
    assert_eq!(parse_memory("1.5e1Ki").unwrap(), 15_360_000_000_000);
    assert_eq!(parse_memory("+2E0Mi").unwrap(), 2_097_152_000_000_000);
}

#[test]
fn exponent_form_refusals() {
    assert!(parse_cpu("1e").is_err());
    assert!(parse_cpu("e3").is_err());
    assert!(parse_cpu("1e3.5").is_err());
    assert!(parse_cpu("1e-").is_err());
    assert!(parse_cpu("1e--3").is_err());
    assert!(parse_cpu("1e-19").is_err());
    assert!(parse_cpu("1e99999999999999999999999").is_err());
    assert!(parse_cpu("1e21").is_err());
    assert!(parse_cpu("-1e3").is_err());
    assert!(parse_memory("1e-10").is_err());
    assert!(parse_memory("1e30Gi").is_err());
    assert_eq!(
        parse_cpu("340282366920938463463.374607431768211455").is_err(),
        true
    );
}
