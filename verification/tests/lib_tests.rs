use babyshark::usage_exit_code;

#[test]
fn missing_args_returns_2() {
    assert_eq!(usage_exit_code(&[]), 2);
}

#[test]
fn given_args_return_0() {
    assert_eq!(usage_exit_code(&["capture.pcap"]), 0);
}
