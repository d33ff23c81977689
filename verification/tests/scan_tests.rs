use easy_scrape::scan::parse_titles_from_next_data;

const MARKER: &str = "@type\":\"ListItem\",\"item\":{\"@type\":\"";

fn well_formed(kind: &str, url: &str, name: &str) -> String {
    format!("{MARKER}{kind}\",\"url\":\"{url}\",\"name\":\"{name}\"}}")
}

#[test]
fn two_well_formed_markers_yield_ranks_eleven_and_twelve() {
    let text = format!(
        "{}{}",
        well_formed("Movie", "/m1", "First"),
        well_formed("Show", "/m2", "Second")
    );
    let records = parse_titles_from_next_data(10, &text);
    assert_eq!(
        records,
        vec![
            (11, "First".to_string(), "/m1".to_string()),
            (12, "Second".to_string(), "/m2".to_string()),
        ]
    );
}

#[test]
fn marker_without_following_name_is_skipped_without_advancing_counter() {
    // the second occurrence has a url but no name anywhere after it
    let text = format!(
        "{}{MARKER}Movie\",\"url\":\"/broken\"",
        well_formed("Movie", "/m1", "First")
    );
    let records = parse_titles_from_next_data(10, &text);
    assert_eq!(records, vec![(11, "First".to_string(), "/m1".to_string())]);
}

#[test]
fn marker_without_url_yields_nothing() {
    let text = format!("{MARKER}Movie\",\"name\":\"NoUrl\"");
    // the url key never occurs, so the single occurrence is skipped
    assert_eq!(parse_titles_from_next_data(0, &text), Vec::new());
}

#[test]
fn text_without_markers_yields_nothing() {
    assert_eq!(parse_titles_from_next_data(0, ""), Vec::new());
    assert_eq!(
        parse_titles_from_next_data(7, "plain text with \"url\":\"/x\" but no marker"),
        Vec::new()
    );
}

#[test]
fn ranks_start_right_after_the_given_offset() {
    let text = well_formed("Movie", "/solo", "Only");
    let records = parse_titles_from_next_data(0, &text);
    assert_eq!(records, vec![(1, "Only".to_string(), "/solo".to_string())]);
    let records = parse_titles_from_next_data(250, &text);
    assert_eq!(
        records,
        vec![(251, "Only".to_string(), "/solo".to_string())]
    );
}

#[test]
fn scan_terminates_and_extracts_across_malformed_noise() {
    // a well-formed occurrence placed far behind leading noise
    let noise = "{\"pageProps\":{\"data\":[".repeat(20);
    let text = format!("{noise}{}", well_formed("Movie", "/deep", "Deep"));
    let records = parse_titles_from_next_data(10, &text);
    assert_eq!(records, vec![(11, "Deep".to_string(), "/deep".to_string())]);
}

#[test]
fn markers_closer_than_the_stride_are_passed_over() {
    // the cursor advances a fixed 50 positions past a marker's start, so a
    // second marker only 40 positions in is never visited on its own; its
    // fields are instead consumed by the first occurrence's forward search
    let text = format!("{MARKER}xxxxx{}", well_formed("Movie", "/m1", "First"));
    let records = parse_titles_from_next_data(10, &text);
    assert_eq!(records, vec![(11, "First".to_string(), "/m1".to_string())]);
}

#[test]
fn non_ascii_field_values_are_extracted_whole() {
    let text = well_formed("Movie", "/cn", "肖申克的救赎");
    let records = parse_titles_from_next_data(0, &text);
    assert_eq!(
        records,
        vec![(1, "肖申克的救赎".to_string(), "/cn".to_string())]
    );
}
