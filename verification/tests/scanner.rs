use caspar_av::scanner::{
    base_url, enc, media_info_path, parse_amcp_list, resolution, thumbnail_path, MediaKind,
};

#[test]
fn parses_the_amcp_wrapped_text_listings() {
    let text = "200 FLS OK\r\n\"ARIAL\"\r\n\"HELVETICA\"\r\n\r\n";
    assert_eq!(parse_amcp_list(text), vec!["ARIAL", "HELVETICA"]);
}

#[test]
fn encodes_path_segments() {
    assert_eq!(enc("SHOW/MY CLIP"), "SHOW%2FMY%20CLIP");
    assert_eq!(enc("AMB"), "AMB");
}

#[test]
fn percent_encoding_works_on_utf8_bytes() {
    assert_eq!(enc("É"), "%C3%89");
    assert_eq!(enc("a-b_c.d~e"), "a-b_c.d~e");
    assert_eq!(enc(""), "");
}

#[test]
fn listings_without_a_status_line_are_read_whole() {
    assert_eq!(parse_amcp_list("  \"A\"  \nB\n\n\"\"\n"), vec!["A", "B"]);
    assert!(parse_amcp_list("").is_empty());
    assert!(parse_amcp_list("200 TLS OK\r\n201 X\r\n").is_empty());
}

#[test]
fn media_kind_is_decided_by_streams_and_length() {
    assert_eq!(MediaKind::classify(true, false, true), MediaKind::Movie);
    assert_eq!(MediaKind::classify(true, true, false), MediaKind::Still);
    assert_eq!(MediaKind::classify(false, true, true), MediaKind::Audio);
    assert_eq!(MediaKind::classify(false, false, true), MediaKind::Unknown);
    assert_eq!(MediaKind::Movie.word(), "movie");
}

#[test]
fn resolution_is_the_first_stream_with_both_dimensions() {
    assert_eq!(resolution(&[(None, None), (Some(1920), None), (Some(1920), Some(1080))]), Some((1920, 1080)));
    assert_eq!(resolution(&[(None, Some(10))]), None);
    assert_eq!(resolution(&[]), None);
}

#[test]
fn scanner_urls_upper_case_and_encode_the_id() {
    assert_eq!(base_url("127.0.0.1", 8000), "http://127.0.0.1:8000");
    assert_eq!(thumbnail_path("show/my clip"), "/media/thumbnail/SHOW%2FMY%20CLIP");
    assert_eq!(media_info_path("amb"), "/media/info/AMB");
}
