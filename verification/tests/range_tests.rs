use auralist::range::RangeError;
use auralist::range::STREAM_BUF_SIZE;
use auralist::range::chunk_plan;
use auralist::range::content_range_text;
use auralist::range::parse_range_header;
use auralist::range::parse_u64;
use auralist::range::plan_stream;
use auralist::range::response_headers;
use auralist::range::u64_to_string;

#[test]
fn parses_explicit_interval() {
    assert_eq!(parse_range_header("bytes=0-99", 1000), Ok((0, 99)));
}

#[test]
fn parses_open_ended_interval() {
    assert_eq!(parse_range_header("bytes=900-", 1000), Ok((900, 999)));
}

#[test]
fn empty_header_is_whole_file() {
    assert_eq!(parse_range_header("", 1000), Ok((0, 999)));
}

#[test]
fn non_numeric_start_is_rejected() {
    assert_eq!(parse_range_header("bytes=abc-99", 1000), Err(RangeError));
}

#[test]
fn non_numeric_end_is_rejected() {
    assert_eq!(parse_range_header("bytes=0-xyz", 1000), Err(RangeError));
}

#[test]
fn empty_start_defaults_to_zero() {
    assert_eq!(parse_range_header("bytes=-99", 1000), Ok((0, 99)));
}

#[test]
fn end_is_clamped_to_file() {
    assert_eq!(parse_range_header("bytes=0-5000", 1000), Ok((0, 999)));
}

#[test]
fn inverted_interval_is_rejected() {
    assert_eq!(parse_range_header("bytes=500-100", 1000), Err(RangeError));
}

#[test]
fn start_past_file_is_rejected() {
    assert_eq!(parse_range_header("bytes=1500-", 1000), Err(RangeError));
}

#[test]
fn overflowing_number_is_rejected() {
    assert_eq!(
        parse_range_header("bytes=99999999999999999999-", 1000),
        Err(RangeError)
    );
}

#[test]
fn missing_prefix_still_parses() {
    assert_eq!(parse_range_header("10-19", 1000), Ok((10, 19)));
}

#[test]
fn parse_u64_reads_decimal() {
    assert_eq!(parse_u64("0"), Some(0));
    assert_eq!(parse_u64("12345"), Some(12345));
    assert_eq!(parse_u64("18446744073709551615"), Some(u64::MAX));
    assert_eq!(parse_u64("18446744073709551616"), None);
    assert_eq!(parse_u64(""), None);
    assert_eq!(parse_u64("12a"), None);
}

#[test]
fn u64_to_string_renders_decimal() {
    assert_eq!(u64_to_string(0), "0");
    assert_eq!(u64_to_string(7), "7");
    assert_eq!(u64_to_string(10), "10");
    assert_eq!(u64_to_string(12345), "12345");
    assert_eq!(u64_to_string(u64::MAX), "18446744073709551615");
}

#[test]
fn content_range_text_is_exact() {
    assert_eq!(content_range_text(5000, 5999, 10000), "bytes 5000-5999/10000");
}

#[test]
fn plan_without_header_serves_whole_file() {
    let plan = plan_stream(None, 1000).unwrap();
    assert_eq!(plan.start, 0);
    assert_eq!(plan.end, 999);
    assert_eq!(plan.byte_count, 1000);
    assert_eq!(plan.status_code(), 200);
}

#[test]
fn exact_byte_streaming_scenario() {
    let plan = plan_stream(Some("bytes=5000-5999"), 10000).unwrap();
    assert_eq!(plan.byte_count, 1000);
    assert_eq!(plan.status_code(), 206);
    let headers = response_headers(&plan, "mp3").unwrap();
    assert_eq!(headers.content_range, "bytes 5000-5999/10000");
    assert_eq!(headers.content_length, 1000);
    assert_eq!(headers.status, 206);
    let chunks = chunk_plan(plan.byte_count);
    assert_eq!(chunks, vec![1000]);
    let total: u64 = chunks.iter().sum();
    assert_eq!(total, 1000);
}

#[test]
fn malformed_header_fails_before_any_stream() {
    assert!(plan_stream(Some("bytes=zzz"), 10000).is_err());
}

#[test]
fn mp3_extension_maps_to_mpeg_audio() {
    let plan = plan_stream(None, 10).unwrap();
    let headers = response_headers(&plan, "mp3").unwrap();
    assert_eq!(headers.content_type, "audio/mpeg");
}

#[test]
fn unknown_extension_has_no_headers() {
    let plan = plan_stream(None, 10).unwrap();
    assert!(response_headers(&plan, "").is_none());
    assert!(response_headers(&plan, "zz_no_such_ext").is_none());
}

#[test]
fn chunks_cover_long_streams_exactly() {
    let chunks = chunk_plan(STREAM_BUF_SIZE * 2 + 17);
    assert_eq!(chunks, vec![STREAM_BUF_SIZE, STREAM_BUF_SIZE, 17]);
    let total: u64 = chunks.iter().sum();
    assert_eq!(total, STREAM_BUF_SIZE * 2 + 17);
    assert_eq!(chunk_plan(0), Vec::<u64>::new());
    assert_eq!(chunk_plan(STREAM_BUF_SIZE), vec![STREAM_BUF_SIZE]);
}
