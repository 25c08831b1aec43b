use ip_file_logger::record::{
    encode_row, has_changed, last_known, plan_append, Observation,
};
use ip_file_logger::text::split_fields;

fn strings(v: &[&str]) -> Vec<String> {
    v.iter().map(|s| s.to_string()).collect()
}

fn s(x: &str) -> String {
    x.to_string()
}

/// The lines that a line-by-line reader gives for `content`.
fn read_back(content: &str) -> Vec<String> {
    content
        .lines()
        .map(|l| l.to_string())
        .collect()
}

#[test]
fn test_main_functionality() {
    let ip_address = s("127.0.0.1");
    let hostname = s("localhost");
    let date = chrono::Utc::now().to_string();
    let row = plan_append(&Vec::new(), &date, &hostname, &ip_address)
        .expect("Failed to write record")
        .expect("a new log gets a row");
    let contents = row.clone();
    assert!(contents.contains(&ip_address), "IP address not found in contents");
    assert!(contents.contains(&hostname), "Hostname not found in contents");
    assert!(contents.ends_with(",localhost,127.0.0.1\n"));
}

#[test]
fn split_fields_at_every_comma() {
    assert_eq!(split_fields("a,b,c"), strings(&["a", "b", "c"]));
    assert_eq!(split_fields(""), strings(&[""]));
    assert_eq!(split_fields("a,,b,"), strings(&["a", "", "b", ""]));
    assert_eq!(split_fields("no commas"), strings(&["no commas"]));
    assert_eq!(split_fields("é,ü"), strings(&["é", "ü"]));
}

#[test]
fn last_known_of_empty_log_is_empty() {
    let last = last_known(&Vec::new());
    assert_eq!(last.hostname, "");
    assert_eq!(last.ip, "");
}

#[test]
fn malformed_lines_are_passed_over() {
    let lines = strings(&[
        "t1,host-a,1.1.1.1",
        "garbage",
        "t2,host-b,2.2.2.2",
        "a,b,c,d",
        "",
        "only,two",
    ]);
    let last = last_known(&lines);
    assert_eq!(last.hostname, "host-b");
    assert_eq!(last.ip, "2.2.2.2");
}

#[test]
fn last_three_field_line_wins() {
    let lines = strings(&["t1,host-a,1.1.1.1", "x", "t3,host-c,3.3.3.3"]);
    let last = last_known(&lines);
    assert_eq!(last.hostname, "host-c");
    assert_eq!(last.ip, "3.3.3.3");
}

#[test]
fn change_detection_compares_both_fields() {
    let last = Observation { hostname: s("host-a"), ip: s("1.2.3.4") };
    assert!(has_changed(&last, &s("host-a"), &s("1.2.3.5")));
    assert!(has_changed(&last, &s("host-b"), &s("1.2.3.4")));
    assert!(!has_changed(&last, &s("host-a"), &s("1.2.3.4")));
}

#[test]
fn changed_address_appends_a_row() {
    let lines = strings(&["2024-01-01T00:00:00Z,host-a,1.2.3.4"]);
    let r = plan_append(&lines, &s("2024-02-01T00:00:00Z"), &s("host-a"), &s("1.2.3.5"));
    assert_eq!(r, Ok(Some(s("2024-02-01T00:00:00Z,host-a,1.2.3.5\n"))));
}

#[test]
fn unchanged_observation_appends_nothing() {
    let lines = strings(&["2024-01-01T00:00:00Z,host-a,1.2.3.4"]);
    let r = plan_append(&lines, &s("2024-02-01T00:00:00Z"), &s("host-a"), &s("1.2.3.4"));
    assert_eq!(r, Ok(None));
}

#[test]
fn new_log_gets_exactly_one_row() {
    let content = String::new();
    let row = plan_append(&read_back(&content), &s("T0"), &s("myhost"), &s("10.0.0.1"))
        .unwrap()
        .unwrap();
    assert_eq!(row, "T0,myhost,10.0.0.1\n");
    let after = content + &row;
    assert_eq!(read_back(&after), strings(&["T0,myhost,10.0.0.1"]));
}

#[test]
fn scenario_second_line_for_new_address() {
    let content = s("2024-01-01T00:00:00Z,myhost,10.0.0.1\n");
    let date = s("2024-01-02T00:00:00Z");
    let row = plan_append(&read_back(&content), &date, &s("myhost"), &s("10.0.0.2"))
        .unwrap()
        .unwrap();
    let after = content.clone() + &row;
    let lines = read_back(&after);
    assert_eq!(lines.len(), 2);
    assert_eq!(lines[0], "2024-01-01T00:00:00Z,myhost,10.0.0.1");
    assert!(lines[1].ends_with(",myhost,10.0.0.2"));
}

#[test]
fn second_run_appends_nothing() {
    let content = s("t0,old,9.9.9.9\n");
    let row = plan_append(&read_back(&content), &s("t1"), &s("myhost"), &s("10.0.0.2"))
        .unwrap()
        .unwrap();
    let after = content + &row;
    assert_eq!(after, "t0,old,9.9.9.9\nt1,myhost,10.0.0.2\n");
    let again = plan_append(&read_back(&after), &s("t2"), &s("myhost"), &s("10.0.0.2"));
    assert_eq!(again, Ok(None));
}

#[test]
fn appending_keeps_earlier_lines() {
    let content = s("t0,a,1.1.1.1\nbroken line\nt1,b,2.2.2.2\n");
    let before = read_back(&content);
    let row = plan_append(&before, &s("t2"), &s("c"), &s("3.3.3.3")).unwrap().unwrap();
    let after = read_back(&(content + &row));
    assert_eq!(after.len(), before.len() + 1);
    assert_eq!(&after[..before.len()], &before[..]);
    assert_eq!(after[before.len()], "t2,c,3.3.3.3");
}

#[test]
fn fields_with_special_characters_are_quoted() {
    let row = encode_row(&s("d"), &s("a,b"), &s("x\"y")).unwrap();
    assert_eq!(row, "d,\"a,b\",\"x\"\"y\"\n");
    let row = encode_row(&s("d"), &s("line\nbreak"), &s("")).unwrap();
    assert_eq!(row, "d,\"line\nbreak\",\n");
}
