use kangaroo::cli::{auto_dp_bits_cpu, auto_dp_bits_gpu, floor_log2, max_ops_limit, Args};
use kangaroo::shaders::get_combined_source;

fn args(range: u32, dp_bits: Option<u32>) -> Args {
    Args {
        pubkey: String::new(),
        start: String::from("80000"),
        range,
        dp_bits,
        kangaroos: None,
        gpu: 0,
        output: None,
        quiet: false,
        max_ops: 0,
        cpu: false,
        json: false,
    }
}

#[test]
fn floor_log2_values() {
    assert_eq!(floor_log2(0), 0);
    assert_eq!(floor_log2(1), 0);
    assert_eq!(floor_log2(2), 1);
    assert_eq!(floor_log2(65535), 15);
    assert_eq!(floor_log2(65536), 16);
    assert_eq!(floor_log2(u32::MAX), 31);
}

#[test]
fn gpu_dp_bits_default() {
    assert_eq!(auto_dp_bits_gpu(64, 65536), 24);
    assert_eq!(auto_dp_bits_gpu(20, 65536), 8);
    assert_eq!(auto_dp_bits_gpu(200, 1), 40);
}

#[test]
fn cpu_dp_bits_default() {
    assert_eq!(auto_dp_bits_cpu(20), 8);
    assert_eq!(auto_dp_bits_cpu(30), 13);
    assert_eq!(auto_dp_bits_cpu(100), 20);
    assert_eq!(auto_dp_bits_cpu(0), 8);
}

#[test]
fn args_dp_bits_given_or_default() {
    assert_eq!(args(30, Some(5)).cpu_dp_bits(), 5);
    assert_eq!(args(30, None).cpu_dp_bits(), 13);
    assert_eq!(args(64, None).gpu_dp_bits(65536), 24);
    assert_eq!(args(64, Some(12)).gpu_dp_bits(65536), 12);
}

#[test]
fn max_ops_zero_is_unlimited() {
    assert_eq!(max_ops_limit(0), u64::MAX);
    assert_eq!(max_ops_limit(1000), 1000);
}

#[test]
fn combined_source_order() {
    let s = get_combined_source("a", "b", "c", "d", "e");
    assert_eq!(s, "a\n\nb\n\nc\n\nd\n\ne");
}
