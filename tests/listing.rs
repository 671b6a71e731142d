use wayback_fetch::index::parse_index;
use wayback_fetch::snapshot::{index_request_url, playback_url, save_path, snapshot_file_name};

fn owned(fields: &[&str]) -> Vec<String> {
    fields.iter().map(|f| f.to_string()).collect()
}

#[test]
fn empty_body_has_no_records() {
    assert!(parse_index("").is_empty());
}

#[test]
fn header_only_has_no_records() {
    assert!(parse_index("urlkey,timestamp,original\n").is_empty());
    assert!(parse_index("urlkey,timestamp,original").is_empty());
}

#[test]
fn each_data_line_gives_one_record() {
    let body = "\"urlkey\",\"timestamp\",\"original\"\n\
                \"a\",\"b\",\"20200101000000\",\"http://example.com\"\n\
                \"c\",\"d\",\"20210101000000\",\"http://example.com/x\"\n";
    let records = parse_index(body);
    assert_eq!(records.len(), 2);
    assert_eq!(records[0], owned(&["a", "b", "20200101000000", "http://example.com"]));
    assert_eq!(records[1], owned(&["c", "d", "20210101000000", "http://example.com/x"]));
}

#[test]
fn quotes_inside_fields_are_removed() {
    let records = parse_index("h\nx\"y\"z,\"\",q\"\n");
    assert_eq!(records, vec![owned(&["xyz", "", "q"])]);
}

#[test]
fn crlf_line_endings_are_dropped() {
    let records = parse_index("h\r\na,b\r\nc,d\r\n");
    assert_eq!(records, vec![owned(&["a", "b"]), owned(&["c", "d"])]);
}

#[test]
fn last_line_without_line_feed_is_kept() {
    let records = parse_index("h\na,b\nc");
    assert_eq!(records, vec![owned(&["a", "b"]), owned(&["c"])]);
}

#[test]
fn empty_lines_give_single_empty_field() {
    let records = parse_index("h\n\n,\n");
    assert_eq!(records, vec![owned(&[""]), owned(&["", ""])]);
}

#[test]
fn json_array_rows_split_on_every_comma() {
    let body = "[[\"urlkey\",\"timestamp\"],\n[\"com,example)/\", \"20200101000000\"]]";
    let records = parse_index(body);
    assert_eq!(records, vec![owned(&["[com", "example)/", " 20200101000000]]"])]);
}

#[test]
fn playback_url_and_file_name_for_example() {
    assert_eq!(
        playback_url("20200101000000", "http://example.com"),
        "https://web.archive.org/web/20200101000000/http://example.com"
    );
    assert_eq!(snapshot_file_name("20200101000000"), "20200101000000.html");
}

#[test]
fn save_path_joins_directory_and_file_name() {
    assert_eq!(save_path("out/dir", "20200101000000"), "out/dir/20200101000000.html");
    assert_eq!(save_path("waybackmachine_data", "1"), "waybackmachine_data/1.html");
}

#[test]
fn index_query_names_target() {
    assert_eq!(
        index_request_url("example.com"),
        "https://web.archive.org/cdx/search/cdx?url=example.com&output=json&collapse=digest&matchType=prefix"
    );
}
