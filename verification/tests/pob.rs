use std::io::Write;

use base64::Engine;
use flate2::write::ZlibEncoder;
use flate2::Compression;
use poe_copilot::pob::{parse_level_range, reliability_str, PobError, Reliability};
use poe_copilot::share_code::{capped, decode_share_code, read_capped, read_window, xml_text};

fn encode(xml: &str) -> String {
    let mut e = ZlibEncoder::new(Vec::new(), Compression::default());
    e.write_all(xml.as_bytes()).unwrap();
    base64::engine::general_purpose::URL_SAFE.encode(e.finish().unwrap())
}

#[test]
fn parse_level_range_clamps_a_crafted_huge_range_to_the_level_cap() {
    assert_eq!(parse_level_range("65531-65535"), Some((100, 100)));
}

#[test]
fn parse_level_range_clamps_only_the_endpoint_that_exceeds_the_cap() {
    assert_eq!(parse_level_range("40-65535"), Some((40, 100)));
}

#[test]
fn parse_level_range_leaves_in_range_values_untouched() {
    assert_eq!(parse_level_range("1-12"), Some((1, 12)));
    assert_eq!(parse_level_range("13-32"), Some((13, 32)));
}

#[test]
fn parse_level_range_clamps_a_bare_leading_number() {
    assert_eq!(parse_level_range("65535"), Some((100, 100)));
}

#[test]
fn parse_level_range_finds_a_pair_anywhere_and_accepts_an_en_dash() {
    assert_eq!(parse_level_range("Act 2 (13 – 20)"), Some((13, 20)));
    assert_eq!(parse_level_range("Leveling 5 -  9 gems"), Some((5, 9)));
    assert_eq!(parse_level_range("Early game"), None);
    assert_eq!(parse_level_range("12 onwards"), Some((12, 12)));
    assert_eq!(parse_level_range("-5"), None);
    assert_eq!(parse_level_range("99999"), None);
}

#[test]
fn read_capped_passes_through_stream_at_or_under_limit() {
    let data = vec![7u8; 10];
    let out = read_capped(std::io::Cursor::new(data.clone()), 10).unwrap();
    assert_eq!(out, data);
}

#[test]
fn read_capped_errors_when_stream_exceeds_limit() {
    let data = vec![7u8; 11];
    let err = read_capped(std::io::Cursor::new(data), 10).unwrap_err();
    assert!(matches!(err, PobError::Decode(msg) if msg.contains("too large")));
}

#[test]
fn read_window_is_one_past_the_limit() {
    assert_eq!(read_window(10), 11);
    assert_eq!(read_window(0), 1);
}

#[test]
fn decode_share_code_rejects_input_over_the_size_cap_before_any_decoding() {
    let huge = "A".repeat(3 * 1024 * 1024);
    let err = decode_share_code(&huge).unwrap_err();
    assert!(matches!(err, PobError::Decode(msg) if msg.contains("too large")));
}

#[test]
fn decode_share_code_rejects_oversized_raw_xml_passthrough_too() {
    let huge_xml = format!("<{}", "a".repeat(3 * 1024 * 1024));
    let err = decode_share_code(&huge_xml).unwrap_err();
    assert!(matches!(err, PobError::Decode(msg) if msg.contains("too large")));
}

#[test]
fn strips_internal_whitespace_before_base64_decode() {
    let xml = "<PathOfBuilding><Build className=\"Witch\"/></PathOfBuilding>";
    let code = encode(xml);
    let mut wrapped = String::new();
    for (i, ch) in code.chars().enumerate() {
        wrapped.push(ch);
        match i % 11 {
            3 => wrapped.push('\n'),
            5 => wrapped.push('\r'),
            7 => wrapped.push('\t'),
            9 => wrapped.push(' '),
            _ => {}
        }
    }
    wrapped.push('\n');
    assert_eq!(decode_share_code(&wrapped).unwrap(), xml);
    assert_eq!(decode_share_code(&code).unwrap(), xml);
}

#[test]
fn decode_share_code_still_works_for_a_normal_sized_code() {
    let xml = "<PathOfBuilding><Build className=\"Witch\"/></PathOfBuilding>";
    let code = encode(xml);
    assert_eq!(decode_share_code(&code).unwrap(), xml);
}

#[test]
fn share_code_roundtrip_and_xml_passthrough() {
    let xml = "<PathOfBuilding>\n  <Build className=\"Ranger\" ascendClassName=\"Deadeye\"/>\n</PathOfBuilding>\n";
    assert_eq!(decode_share_code(&encode(xml)).unwrap(), xml);
    assert_eq!(decode_share_code(xml).unwrap(), xml);
    assert!(matches!(decode_share_code("https://pobb.in/abc"), Err(PobError::UrlNotSupported)));
    assert!(decode_share_code("!!!not-base64!!!").is_err());
}

#[test]
fn blank_input_is_not_a_code_and_raw_xml_comes_back_untrimmed() {
    assert_eq!(decode_share_code("   \n"), Err(PobError::NotACode));
    assert_eq!(decode_share_code(""), Err(PobError::NotACode));
    assert_eq!(decode_share_code("  <x/>  ").unwrap(), "  <x/>  ");
    assert_eq!(decode_share_code("\thttp://example.com"), Err(PobError::UrlNotSupported));
}

#[test]
fn unpadded_codes_decode_too() {
    let xml = "<PathOfBuilding/>";
    let code = encode(xml);
    let unpadded = code.trim_end_matches('=').to_string();
    assert_eq!(decode_share_code(&unpadded).unwrap(), xml);
}

#[test]
fn decoded_content_must_look_like_xml() {
    let code = encode("just some words");
    assert_eq!(
        decode_share_code(&code),
        Err(PobError::Decode("decoded content does not look like XML".to_string()))
    );
}

#[test]
fn capped_and_xml_text_on_given_values() {
    assert_eq!(capped(Ok(vec![1, 2, 3]), 3), Ok(vec![1, 2, 3]));
    assert_eq!(capped(Ok(vec![1, 2, 3, 4]), 3), Err(PobError::Decode("build too large".to_string())));
    assert_eq!(capped(Err("boom".to_string()), 3), Err(PobError::Decode("boom".to_string())));
    assert_eq!(xml_text(Ok("  \n<a/>".to_string())), Ok("  \n<a/>".to_string()));
    assert_eq!(
        xml_text(Ok("a<".to_string())),
        Err(PobError::Decode("decoded content does not look like XML".to_string()))
    );
    assert_eq!(xml_text(Err("bad utf-8".to_string())), Err(PobError::Decode("bad utf-8".to_string())));
}

#[test]
fn errors_and_reliabilities_have_their_messages() {
    assert_eq!(PobError::NotACode.message(), "input is not a Path of Building share code");
    assert_eq!(
        PobError::UrlNotSupported.message(),
        "URLs are not supported; paste the raw PoB share code or XML instead"
    );
    assert_eq!(PobError::Decode("x".into()).message(), "failed to decode share code: x");
    assert_eq!(PobError::Xml("y".into()).message(), "failed to parse build XML: y");
    assert_eq!(reliability_str(Reliability::Structured), "structured");
    assert_eq!(reliability_str(Reliability::Unsupported), "unsupported");
    assert_eq!(reliability_str(Reliability::Explicit), "explicit");
    assert_eq!(reliability_str(Reliability::Inferred), "inferred");
}
