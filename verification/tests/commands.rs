use rhd::configuration::DatabaseSettings;
use rhd::db_logic::{
    confirm_drop, grid_width, mod_after_check, read_after_check, read_input, read_start,
    status_url_line, table_to_create, target_name, write_entry_step, Confirmation, DbAction,
    DbEvent, EntryStage, InputSource, ModAction, ModRequest, ReadAction, ReadRequest, RowOutput,
};
use rhd::helpers::{IdentifyFirstLast, Iter};
use rhd::urls::parse_urls;

fn strings(v: &[&str]) -> Vec<String> {
    v.iter().map(|s| s.to_string()).collect()
}

fn read_request(target: Option<&str>, list: bool, path: bool, url: bool, hosts: &[&str], codes: &[&str]) -> ReadRequest {
    ReadRequest {
        target: target.map(|s| s.to_string()),
        list,
        path,
        url,
        hosts: strings(hosts),
        status_codes: strings(codes),
    }
}

#[test]
fn connection_string_of_fallback() {
    let s = DatabaseSettings::or_fallback(None);
    assert_eq!(s.port, 5432);
    assert_eq!(s.get_connection_string(), "host=localhost port=5432 dbname=rhd user=rhd_admin password=password");
}

#[test]
fn connection_string_of_read_settings() {
    let read = DatabaseSettings {
        username: "custom_name".to_string(),
        password: "pw".to_string(),
        port: 1,
        host: "db.local".to_string(),
        database_name: "recon".to_string(),
    };
    let s = DatabaseSettings::or_fallback(Some(read));
    assert_eq!(s.username, "custom_name");
    assert_eq!(s.get_connection_string(), "host=db.local port=1 dbname=recon user=custom_name password=pw");
}

#[test]
fn iter_marks_first_and_last() {
    let mut it: Iter<u32> = vec![10, 20, 30].identify_first_last();
    assert_eq!(it.next(), Some((true, false, 10)));
    assert_eq!(it.next(), Some((false, false, 20)));
    assert_eq!(it.next(), Some((false, true, 30)));
    assert_eq!(it.next(), None);
    let mut one = vec!["x"].identify_first_last();
    assert_eq!(one.next(), Some((true, true, "x")));
    assert_eq!(one.next(), None);
    let mut none: Iter<u8> = Vec::new().identify_first_last();
    assert_eq!(none.next(), None);
}

#[test]
fn list_alone_lists_targets() {
    let r = read_start(&read_request(None, true, false, false, &[], &[]));
    match r {
        ReadAction::PrintColumn(q) => assert_eq!(q, "SELECT tablename FROM pg_tables WHERE schemaname='public'"),
        other => panic!("{:?}", other),
    }
}

#[test]
fn list_with_target_shows_every_entry() {
    match read_start(&read_request(Some("t"), true, false, false, &[], &[])) {
        ReadAction::ShowRows(q, RowOutput::Grid) => assert_eq!(q, "SELECT * FROM t"),
        other => panic!("{:?}", other),
    }
    match read_start(&read_request(Some("t"), true, false, true, &[], &[])) {
        ReadAction::PrintColumn(q) => assert_eq!(q, "SELECT url FROM t"),
        other => panic!("{:?}", other),
    }
    match read_start(&read_request(Some("t"), true, true, false, &[], &[])) {
        ReadAction::PrintColumn(q) => assert_eq!(q, "SELECT path FROM t"),
        other => panic!("{:?}", other),
    }
    match read_start(&read_request(Some("t"), true, false, false, &[], &["200"])) {
        ReadAction::PrintUrlStatus(q) => assert_eq!(q, "SELECT url, status_code FROM t"),
        other => panic!("{:?}", other),
    }
}

#[test]
fn target_alone_shows_every_entry() {
    match read_start(&read_request(Some("t"), false, false, false, &[], &[])) {
        ReadAction::ShowRows(q, RowOutput::Grid) => assert_eq!(q, "SELECT * FROM t"),
        other => panic!("{:?}", other),
    }
}

#[test]
fn url_flag_needs_a_filter() {
    assert!(matches!(read_start(&read_request(Some("t"), false, false, true, &[], &[])), ReadAction::UrlNeedsFilter));
}

#[test]
fn host_filter_checks_the_target_first() {
    let req = read_request(Some("t"), false, false, true, &["h1", "h2"], &["200", "301"]);
    match read_start(&req) {
        ReadAction::CheckTable(t) => assert_eq!(t, "t"),
        other => panic!("{:?}", other),
    }
    assert!(matches!(read_after_check(&req, false), ReadAction::TargetMissing));
    match read_after_check(&req, true) {
        ReadAction::ShowRows(q, RowOutput::Urls) => assert_eq!(
            q,
            "SELECT * FROM t WHERE (status_code='200' OR status_code='301') AND (host='h1' OR host='h2')"
        ),
        other => panic!("{:?}", other),
    }
}

#[test]
fn missing_target_is_named_not_defined() {
    assert_eq!(target_name(&None), "not defined");
    assert_eq!(target_name(&Some("x".to_string())), "x");
    match read_start(&read_request(None, false, true, false, &["h"], &[])) {
        ReadAction::CheckTable(t) => assert_eq!(t, "not defined"),
        other => panic!("{:?}", other),
    }
}

#[test]
fn rows_shown_as_paths() {
    match read_start(&read_request(Some("t"), false, true, false, &[], &["404"])) {
        ReadAction::ShowRows(q, RowOutput::Paths) => assert_eq!(q, "SELECT * FROM t WHERE (status_code='404')"),
        other => panic!("{:?}", other),
    }
}

#[test]
fn grid_is_at_least_21_wide() {
    assert_eq!(grid_width(&Vec::new()), 21);
    assert_eq!(grid_width(&strings(&["a.com", "b.org"])), 21);
    assert_eq!(grid_width(&strings(&["a-very-long-host-name.example.com", "é"])), 33);
    assert_eq!(grid_width(&strings(&["ééééééééééééééééééééééé"])), 23);
}

#[test]
fn status_line() {
    assert_eq!(status_url_line("https://a.com/", "200"), "https://a.com/    [200]");
}

fn mod_request(hosts: &[&str], codes: &[&str], ids: &[&str], delete: bool) -> ModRequest {
    ModRequest {
        target: "t".to_string(),
        hosts: strings(hosts),
        status_codes: strings(codes),
        ids: strings(ids),
        delete,
    }
}

#[test]
fn mod_decisions() {
    assert!(matches!(mod_after_check(&mod_request(&["h"], &[], &[], true), false), ModAction::TargetMissing));
    match mod_after_check(&mod_request(&["h"], &[], &["1", "2"], true), true) {
        ModAction::Delete(q) => assert_eq!(q, "DELETE FROM t WHERE (host='h') AND (id='1' OR id='2')"),
        other => panic!("{:?}", other),
    }
    match mod_after_check(&mod_request(&[], &[], &[], true), true) {
        ModAction::Confirm(q) => assert_eq!(q, "Please confirm the decision to delete the t target by by typing: y/Y or: yes/YES"),
        other => panic!("{:?}", other),
    }
    assert!(matches!(mod_after_check(&mod_request(&["h"], &[], &[], false), true), ModAction::Idle));
}

#[test]
fn drop_needs_a_yes() {
    for yes in ["y\n", "Y\n", "yes\n", "YES\n", " YeS \r\n"] {
        match confirm_drop("t", yes) {
            Confirmation::Drop(q) => assert_eq!(q, "DROP TABLE t"),
            other => panic!("{:?}", other),
        }
    }
    assert!(matches!(confirm_drop("t", ""), Confirmation::NoAnswer));
    assert!(matches!(confirm_drop("t", "\n"), Confirmation::Aborted));
    assert!(matches!(confirm_drop("t", "no\n"), Confirmation::Aborted));
    assert!(matches!(confirm_drop("t", "yess\n"), Confirmation::Aborted));
}

#[test]
fn create_table_only_when_missing() {
    assert!(table_to_create("t", true).is_none());
    let q = table_to_create("t", false).unwrap();
    assert_eq!(q, "CREATE TABLE t (\n            id BIGSERIAL, \n            host VARCHAR(150), \n            url TEXT PRIMARY KEY NOT NULL,\n            status_code VARCHAR(50),\n            path TEXT\n        )");
}

#[test]
fn input_sources() {
    assert!(matches!(read_input(true, "f.txt"), InputSource::Stdin));
    assert!(matches!(read_input(false, "not defined"), InputSource::NoInput));
    match read_input(false, "f.txt") {
        InputSource::File(p) => assert_eq!(p, "f.txt"),
        other => panic!("{:?}", other),
    }
}

#[test]
fn new_entry_is_inserted_once() {
    let table = parse_urls(String::from("a.com/x?q=1 200"));
    let e = table.get(0);
    let (stage, action) = write_entry_step("t", &None, e, EntryStage::Start, DbEvent::Proceed);
    assert_eq!(stage, EntryStage::Inserting);
    match action {
        DbAction::BatchExecute(q) => assert_eq!(
            q,
            "INSERT INTO t (host,url, status_code, path) VALUES ('a.com','https://a.com/x?q=1','200','/x')"
        ),
        other => panic!("{:?}", other),
    }
    let (stage, action) = write_entry_step("t", &None, e, stage, DbEvent::Proceed);
    assert_eq!(stage, EntryStage::Done);
    assert!(matches!(action, DbAction::Finish));
}

#[test]
fn given_host_overrides_url_host() {
    let table = parse_urls(String::from("a.com 200"));
    let (_, action) = write_entry_step("t", &Some("mine".to_string()), table.get(0), EntryStage::Start, DbEvent::Proceed);
    match action {
        DbAction::BatchExecute(q) => assert_eq!(
            q,
            "INSERT INTO t (host,url, status_code, path) VALUES ('mine','https://a.com/','200', '/')"
        ),
        other => panic!("{:?}", other),
    }
}

#[test]
fn duplicate_with_new_status_is_updated() {
    let table = parse_urls(String::from("a.com 301"));
    let e = table.get(0);
    let (s, a) = write_entry_step("t", &None, e, EntryStage::Inserting, DbEvent::InsertFailed(Some("23505".to_string())));
    assert_eq!(s, EntryStage::CleaningUp);
    match a {
        DbAction::Execute(q) => assert_eq!(q, "SELECT setval(pg_get_serial_sequence('t', 'id'), max(id)) FROM t"),
        other => panic!("{:?}", other),
    }
    let (s, a) = write_entry_step("t", &None, e, s, DbEvent::Proceed);
    assert_eq!(s, EntryStage::Probing);
    match a {
        DbAction::QueryStatus(q) => assert_eq!(q, "SELECT status_code FROM t WHERE url='https://a.com/'"),
        other => panic!("{:?}", other),
    }
    let (s2, a2) = write_entry_step("t", &None, e, s, DbEvent::StatusRead("200".to_string()));
    assert_eq!(s2, EntryStage::Updating);
    match a2 {
        DbAction::Execute(q) => assert_eq!(q, "UPDATE t SET status_code='301' WHERE url='https://a.com/'"),
        other => panic!("{:?}", other),
    }
    let (s3, a3) = write_entry_step("t", &None, e, s, DbEvent::StatusRead("301".to_string()));
    assert_eq!(s3, EntryStage::Done);
    assert!(matches!(a3, DbAction::Finish));
}

#[test]
fn other_refusal_fails() {
    let table = parse_urls(String::from("a.com 301"));
    let (s, a) = write_entry_step("t", &None, table.get(0), EntryStage::Inserting, DbEvent::InsertFailed(Some("42P01".to_string())));
    assert_eq!(s, EntryStage::Done);
    match a {
        DbAction::Fail(c) => assert_eq!(c.as_deref(), Some("42P01")),
        other => panic!("{:?}", other),
    }
    let (_, a) = write_entry_step("t", &None, table.get(0), EntryStage::Inserting, DbEvent::InsertFailed(None));
    assert!(matches!(a, DbAction::Fail(None)));
}

#[test]
fn port_is_part_of_the_connection_string() {
    let mut a = DatabaseSettings::or_fallback(None);
    let b = DatabaseSettings::or_fallback(None);
    a.port = 6543;
    assert_ne!(a.get_connection_string(), b.get_connection_string());
    assert_eq!(a.get_connection_string(), "host=localhost port=6543 dbname=rhd user=rhd_admin password=password");
    a.port = 0;
    assert_eq!(a.get_connection_string(), "host=localhost port=0 dbname=rhd user=rhd_admin password=password");
    a.port = 65535;
    assert_eq!(a.get_connection_string(), "host=localhost port=65535 dbname=rhd user=rhd_admin password=password");
}

#[test]
fn read_filters_are_all_met() {
    let req = read_request(Some("test_target"), false, false, false, &["test_host,", "test_host2"], &["200,", "301"]);
    match read_after_check(&req, true) {
        ReadAction::ShowRows(q, RowOutput::Grid) => assert_eq!(
            q,
            "SELECT * FROM test_target WHERE (status_code='200' OR status_code='301') AND (host='test_host' OR host='test_host2')"
        ),
        other => panic!("{:?}", other),
    }
}

#[test]
fn paths_without_filter_cover_every_entry() {
    match read_start(&read_request(Some("t"), false, true, false, &[], &[])) {
        ReadAction::ShowRows(q, RowOutput::Paths) => assert_eq!(q, "SELECT * FROM t"),
        other => panic!("{:?}", other),
    }
}

#[test]
fn delete_filters_are_all_met() {
    match mod_after_check(&mod_request(&["h"], &["200", "301"], &[], true), true) {
        ModAction::Delete(q) => assert_eq!(
            q,
            "DELETE FROM t WHERE (status_code='200' OR status_code='301') AND (host='h')"
        ),
        other => panic!("{:?}", other),
    }
    match mod_after_check(&mod_request(&[], &["404"], &["3"], true), true) {
        ModAction::Delete(q) => assert_eq!(q, "DELETE FROM t WHERE (status_code='404') AND (id='3')"),
        other => panic!("{:?}", other),
    }
}

#[test]
fn given_host_is_stored_for_a_known_url() {
    let table = parse_urls(String::from("a.com 301"));
    let e = table.get(0);
    let host = Some("mine".to_string());
    let (s, a) = write_entry_step("t", &host, e, EntryStage::Probing, DbEvent::StatusRead("301".to_string()));
    assert_eq!(s, EntryStage::Updating);
    match a {
        DbAction::Execute(q) => assert_eq!(q, "UPDATE t SET status_code='301', host='mine' WHERE url='https://a.com/'"),
        other => panic!("{:?}", other),
    }
    let (s, a) = write_entry_step("t", &host, e, s, DbEvent::Proceed);
    assert_eq!(s, EntryStage::Done);
    assert!(matches!(a, DbAction::Finish));
}
