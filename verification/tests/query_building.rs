use rhd::helpers::query_builder;

#[test]
fn query_building() {
    let target = "test_target";
    let host = vec!["test_host"];
    let status_code = vec!["303,", "404"];

    let query = query_builder(target, host, status_code.clone(), Vec::new(), false, false);

    assert_eq!(query, String::from("SELECT * FROM test_target WHERE status_code='303' OR status_code='404' AND host='test_host'"));
    let query = query_builder(target, Vec::new(), status_code.clone(), Vec::new(), false, false);

    assert_eq!(query, String::from("SELECT * FROM test_target WHERE status_code='303' OR status_code='404'"));

    let host = vec!["test_host_one,", "test_host_two"];
    let query = query_builder(target, host.clone(), Vec::new(), Vec::new(), false, false);
    assert_eq!(query, String::from("SELECT * FROM test_target WHERE host='test_host_one' OR host='test_host_two'"));

    let status_code = vec!["303,", "404", "200"];
    let host = vec!["test_host_one,", " test_host_two", "test_host_three"];
    let query = query_builder(target, host, status_code, Vec::new(), false, false);
    assert_eq!(query, String::from("SELECT * FROM test_target WHERE status_code='303' OR status_code='404' OR status_code='200' AND host='test_host_one' OR host='test_host_two' OR host='test_host_three'"))
}

#[test]
fn drop_query_building() {
    let target = "test_target";
    let host = vec!["test_host", "test_host_one"];
    let status_code = vec!["303", "404", "200"];
    let ids = vec!["1", "2", "3"];
    let query = query_builder(target, host.clone(), status_code, ids, false, true);

    assert_eq!(query, String::from("DELETE FROM test_target WHERE status_code='303' OR status_code='404' OR status_code='200' AND host='test_host' OR host='test_host_one' AND id='1' OR id='2' OR id='3'"));

    let ids = vec!["1", "2,"];
    let query = query_builder(target, host.clone(), Vec::new(), ids, false, true);
    assert_eq!(query, String::from("DELETE FROM test_target WHERE host='test_host' OR host='test_host_one' AND id='1' OR id='2'"));

    let ids = vec!["1"];
    let query = query_builder(target, Vec::new(), Vec::new(), ids, false, true);
    assert_eq!(query, String::from("DELETE FROM test_target WHERE id='1'"));
}

#[test]
fn print_all_ignores_filters() {
    let query = query_builder("t", vec!["h"], vec!["200"], vec!["1"], true, true);
    assert_eq!(query, "SELECT * FROM t");
}

#[test]
fn select_ignores_ids() {
    let a = query_builder("t", vec!["h"], Vec::new(), vec!["1", "2"], false, false);
    let b = query_builder("t", vec!["h"], Vec::new(), Vec::new(), false, false);
    assert_eq!(a, b);
    assert_eq!(a, "SELECT * FROM t WHERE host='h'");
}

#[test]
fn no_filter_leaves_where_open() {
    assert_eq!(query_builder("t", Vec::new(), Vec::new(), Vec::new(), false, false), "SELECT * FROM t WHERE ");
    assert_eq!(query_builder("t", Vec::new(), Vec::new(), Vec::new(), false, true), "DELETE FROM t WHERE ");
}

#[test]
fn values_are_trimmed_of_whitespace_then_commas() {
    let q = query_builder("t", Vec::new(), vec!["\t,,301,, ", " , 2 0 0 ,"], Vec::new(), false, false);
    assert_eq!(q, "SELECT * FROM t WHERE status_code='301' OR status_code=' 2 0 0 '");
}

#[test]
fn ids_join_hosts_with_and() {
    let q = query_builder("t", vec!["a.com"], Vec::new(), vec!["7"], false, true);
    assert_eq!(q, "DELETE FROM t WHERE host='a.com' AND id='7'");
}
