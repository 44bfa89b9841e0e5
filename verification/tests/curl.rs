use miryam::curl::curl_outcome;

#[test]
fn a_successful_run_hands_back_its_output() {
    assert_eq!(curl_outcome(Some("{}".into()), true, 0).unwrap(), "{}");
    assert_eq!(curl_outcome(None, true, 0).unwrap(), "");
}

#[test]
fn a_failed_run_carries_its_exit_code() {
    let e = curl_outcome(Some("ignored".into()), false, 22).unwrap_err();
    assert_eq!(e.exit, Some(22));
    assert_eq!(e.detail, "curl exit 22");
    let e = curl_outcome(None, false, -1).unwrap_err();
    assert_eq!(e.detail, "curl exit -1");
}
