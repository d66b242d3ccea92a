use jitter_sampler::{parse_cpu_list, CpuListError};

#[test]
fn parses_ranges_and_singles() {
    assert_eq!(parse_cpu_list("1,4-6,8-12,15"), Ok(vec![1, 4, 5, 6, 8, 9, 10, 11, 12, 15]));
}

#[test]
fn parses_single_zero() {
    assert_eq!(parse_cpu_list("0"), Ok(vec![0]));
}

#[test]
fn keeps_order_and_duplicates() {
    assert_eq!(parse_cpu_list("3,1,3,2-3"), Ok(vec![3, 1, 3, 2, 3]));
}

#[test]
fn trims_surrounding_whitespace() {
    assert_eq!(parse_cpu_list("  2,7\n"), Ok(vec![2, 7]));
}

#[test]
fn accepts_plus_sign() {
    assert_eq!(parse_cpu_list("+7"), Ok(vec![7]));
}

#[test]
fn single_point_range() {
    assert_eq!(parse_cpu_list("5-5"), Ok(vec![5]));
}

#[test]
fn rejects_non_number() {
    assert_eq!(parse_cpu_list("1,x"), Err(CpuListError::InvalidCpu));
}

#[test]
fn rejects_empty_token() {
    assert_eq!(parse_cpu_list("1,,2"), Err(CpuListError::InvalidCpu));
    assert_eq!(parse_cpu_list(""), Err(CpuListError::InvalidCpu));
}

#[test]
fn rejects_descending_range() {
    assert_eq!(parse_cpu_list("6-4"), Err(CpuListError::InvalidRange));
}

#[test]
fn rejects_too_large_cpu() {
    assert_eq!(parse_cpu_list("4294967296"), Err(CpuListError::InvalidCpu));
    assert_eq!(parse_cpu_list("4294967295"), Ok(vec![4294967295]));
}

#[test]
fn rejects_half_range() {
    assert_eq!(parse_cpu_list("3-"), Err(CpuListError::InvalidCpu));
}
