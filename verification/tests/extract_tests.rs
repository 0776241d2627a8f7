use std::cell::Cell;

use ytgrep::extract::{extract, extract_all, locate_blob, ExtractError, Video};

fn blob(results: &str) -> String {
    format!(
        "var ytInitialData = {{\"contents\":{{\"twoColumnSearchResultsRenderer\":{{\"primaryContents\":{{\"sectionListRenderer\":{{\"contents\":[{{\"itemSectionRenderer\":{{\"contents\":[{}]}}}}]}}}}}}}}}};",
        results
    )
}

fn video_elem(id: &str, title: &str) -> String {
    format!(
        "{{\"videoRenderer\":{{\"videoId\":\"{}\",\"title\":{{\"runs\":[{{\"text\":\"{}\"}}]}}}}}}",
        id, title
    )
}

#[test]
fn no_markers_fails_with_blob_start_not_found() {
    let calls = Cell::new(0usize);
    let r = extract("<html><body>nothing of note here</body></html>", |_v: Video| {
        calls.set(calls.get() + 1);
        true
    });
    assert_eq!(r, Err(ExtractError::BlobStartNotFound));
    assert_eq!(calls.get(), 0);
}

#[test]
fn empty_text_fails_with_blob_start_not_found() {
    let r = extract_all("");
    assert_eq!(r.unwrap_err(), ExtractError::BlobStartNotFound);
}

#[test]
fn marker_without_terminator_fails_with_blob_end_not_found() {
    let r = extract_all("var ytInitialData = {\"contents\": 1");
    assert_eq!(r.unwrap_err(), ExtractError::BlobEndNotFound);
}

#[test]
fn terminator_before_marker_fails_with_blob_end_not_found() {
    let r = extract_all("}; and then var ytInitialData = {\"a\": 1");
    assert_eq!(r.unwrap_err(), ExtractError::BlobEndNotFound);
}

#[test]
fn marker_priority_first_marker_wins() {
    let a = blob(&video_elem("first", "A"));
    let b = blob(&video_elem("second", "B"));
    // The bracket-marker text comes first in the page, but the primary
    // marker's blob must be the one read.
    let a_bracket = a.replace("var ytInitialData =", "window[\"ytInitialData\"]  ");
    let page = format!("{}\n{}", a_bracket, b);
    let vs = extract_all(&page).unwrap();
    assert_eq!(vs.len(), 1);
    assert_eq!(vs[0].id, "second");
    assert_eq!(vs[0].title, "B");
}

#[test]
fn bracket_marker_alone_is_used() {
    let page = blob(&video_elem("only", "T")).replace(
        "var ytInitialData =",
        "window[\"ytInitialData\"] =",
    );
    let vs = extract_all(&page).unwrap();
    assert_eq!(vs.len(), 1);
    assert_eq!(vs[0].id, "only");
}

#[test]
fn comment_marker_skips_twenty_one_characters() {
    let body = blob(&video_elem("c", "C"));
    let json_part = &body["var ytInitialData = ".len()..];
    // The comment marker's offset is 21 characters past the marker itself.
    let page = format!("// scraper_data_begin{}{}", "-".repeat(21), json_part);
    let vs = extract_all(&page).unwrap();
    assert_eq!(vs.len(), 1);
    assert_eq!(vs[0].id, "c");
}

#[test]
fn mixed_elements_yield_only_well_formed_videos_in_order() {
    let elems = [
        video_elem("one", "First"),
        "{\"videoRenderer\":{\"videoId\":\"no-title\"}}".to_string(),
        "{\"somethingElseRenderer\":{}}".to_string(),
        "42".to_string(),
        "\"just a string\"".to_string(),
        "null".to_string(),
        video_elem("two", "Second"),
        "{\"videoRenderer\":{\"videoId\":7,\"title\":{\"runs\":[{\"text\":\"NumId\"}]}}}".to_string(),
        video_elem("three", "Third"),
    ]
    .join(",");
    let vs = extract_all(&blob(&elems)).unwrap();
    let pairs: Vec<(&str, &str)> = vs.iter().map(|v| (v.id.as_str(), v.title.as_str())).collect();
    assert_eq!(pairs, vec![("one", "First"), ("two", "Second"), ("three", "Third")]);
}

#[test]
fn early_stop_counts_invocations() {
    let elems = [
        video_elem("a", "A"),
        video_elem("b", "B"),
        video_elem("c", "C"),
        video_elem("d", "D"),
    ]
    .join(",");
    let page = blob(&elems);
    let calls = Cell::new(0usize);
    let r = extract(&page, |_v: Video| {
        calls.set(calls.get() + 1);
        calls.get() < 2
    });
    assert!(r.is_ok());
    assert_eq!(calls.get(), 2);
}

#[test]
fn callback_true_sees_every_video() {
    let elems = [video_elem("a", "A"), video_elem("b", "B")].join(",");
    let page = blob(&elems);
    let seen: Cell<usize> = Cell::new(0);
    let r = extract(&page, |_v: Video| {
        seen.set(seen.get() + 1);
        true
    });
    assert!(r.is_ok());
    assert_eq!(seen.get(), 2);
}

#[test]
fn literal_end_to_end_scenario() {
    let input = "var ytInitialData = {\"contents\":{\"twoColumnSearchResultsRenderer\":{\"primaryContents\":{\"sectionListRenderer\":{\"contents\":[{\"itemSectionRenderer\":{\"contents\":[{\"videoRenderer\":{\"videoId\":\"abc123\",\"title\":{\"runs\":[{\"text\":\"Sample Title\"}]}}},{\"somethingElseRenderer\":{}}]}}]}}}}};";
    let calls = Cell::new(0usize);
    let r = extract(input, |v: Video| {
        calls.set(calls.get() + 1);
        assert_eq!(v.id, "abc123");
        assert_eq!(v.title, "Sample Title");
        true
    });
    assert!(r.is_ok());
    assert_eq!(calls.get(), 1);
}

#[test]
fn extracting_twice_yields_the_same_records() {
    let page = blob(&[video_elem("x", "X"), video_elem("y", "Y")].join(","));
    let first = extract_all(&page).unwrap();
    let second = extract_all(&page).unwrap();
    assert_eq!(first.len(), second.len());
    for (a, b) in first.iter().zip(second.iter()) {
        assert_eq!(a.id, b.id);
        assert_eq!(a.title, b.title);
    }
}

#[test]
fn results_path_missing_fails_with_results_path_not_found() {
    let r = extract_all("var ytInitialData = {\"contents\":{\"other\":1}};");
    assert_eq!(r.unwrap_err(), ExtractError::ResultsPathNotFound);
}

#[test]
fn unparseable_blob_fails_with_results_path_not_found() {
    let r = extract_all("var ytInitialData = @@@ };");
    assert_eq!(r.unwrap_err(), ExtractError::ResultsPathNotFound);
}

#[test]
fn results_list_not_an_array_fails() {
    let r = extract_all(
        "var ytInitialData = {\"contents\":{\"twoColumnSearchResultsRenderer\":{\"primaryContents\":{\"sectionListRenderer\":{\"contents\":[{\"itemSectionRenderer\":{\"contents\":3}}]}}}}};",
    );
    assert_eq!(r.unwrap_err(), ExtractError::ResultsPathNotFound);
}

#[test]
fn empty_results_list_yields_no_videos() {
    let vs = extract_all(&blob("")).unwrap();
    assert_eq!(vs.len(), 0);
}

#[test]
fn locate_blob_span_bounds() {
    let span = locate_blob("var ytInitialData = {};").unwrap();
    assert_eq!(span.start, 20);
    assert_eq!(span.end, 22);
}

#[test]
fn blob_ends_at_first_terminator() {
    // The terminator search is a cheap heuristic: the first `};` after the
    // start bounds the blob.
    let page = blob(&video_elem("kept", "K"));
    let page = format!("{} trailing {{\"x\":1}}; more", page);
    let vs = extract_all(&page).unwrap();
    assert_eq!(vs.len(), 1);
    assert_eq!(vs[0].id, "kept");
}
