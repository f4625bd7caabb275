use afn::cached_rpc::str_to_filename;
use afn::metrics::join_prometheus_grouped_lines_with_spacing;

#[test]
fn filename_keeps_ascii_letters_and_digits() {
    assert_eq!(str_to_filename("VoteToBless(eth-sepolia)"), "VoteToBless_eth_sepolia_");
    assert_eq!(str_to_filename("a€b"), "a_b");
    assert_eq!(str_to_filename(""), "");
}

#[test]
fn metric_groups_are_spaced_by_an_empty_line() {
    let groups = vec![
        vec!["# HELP a".to_string(), "a 1".to_string()],
        vec!["b 2".to_string()],
        vec![],
        vec!["c 3".to_string()],
    ];
    let lines = join_prometheus_grouped_lines_with_spacing(groups);
    assert_eq!(lines, vec!["# HELP a", "a 1", "", "b 2", "", "", "c 3"]);
    assert!(join_prometheus_grouped_lines_with_spacing(vec![]).is_empty());
}
