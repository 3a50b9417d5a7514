use log_exporter::decode_line;
use log_exporter::method_of;
use log_exporter::parse_micros;
use log_exporter::Method;

const SAMPLE: &str = "{\"source\":\"nginx\",\"time\":1,\"resp_body_size\":100,\"host\":\"h\",\"address\":\"a\",\"request_length\":50,\"method\":\"GET\",\"uri\":\"/x\",\"status\":200,\"user_agent\":\"ua\",\"resp_time\":0.01,\"upstream_addr\":\"u:80\"}";

#[test]
fn sample_line_decodes() {
    let r = decode_line(SAMPLE).unwrap();
    assert_eq!(r.method, Method::GET);
    assert_eq!(r.status, 200);
    assert_eq!(r.resp_body_size, 100);
    assert_eq!(r.request_length, 50);
    assert_eq!(r.resp_time_micros, 10_000);
}

#[test]
fn not_json_fails() {
    assert!(decode_line("not json").is_err());
    assert!(decode_line("").is_err());
    assert!(decode_line("[1,2,3]").is_err());
}

#[test]
fn missing_field_fails() {
    // Same as the sample but without the status field.
    let line = SAMPLE.replace("\"status\":200,", "");
    assert!(decode_line(&line).is_err());
}

#[test]
fn mistyped_field_fails() {
    let line = SAMPLE.replace("\"status\":200", "\"status\":\"200\"");
    assert!(decode_line(&line).is_err());
    let line = SAMPLE.replace("\"resp_time\":0.01", "\"resp_time\":\"fast\"");
    assert!(decode_line(&line).is_err());
    // A fractional status is not an unsigned integer.
    let line = SAMPLE.replace("\"status\":200", "\"status\":200.5");
    assert!(decode_line(&line).is_err());
}

#[test]
fn numbers_may_be_integers_or_floats() {
    // `time` may be fractional, `resp_time` may be whole.
    let line = SAMPLE
        .replace("\"time\":1,", "\"time\":1658188800011.25,")
        .replace("\"resp_time\":0.01", "\"resp_time\":3");
    let r = decode_line(&line).unwrap();
    assert_eq!(r.resp_time_micros, 3_000_000);
}

#[test]
fn extra_fields_are_ignored() {
    let line = SAMPLE.replace("\"source\":\"nginx\",", "\"source\":\"nginx\",\"extra\":[1,{}],");
    let r = decode_line(&line).unwrap();
    assert_eq!(r.status, 200);
}

#[test]
fn unknown_methods_normalize_to_other() {
    assert_eq!(method_of(&"GET".to_string()), Method::GET);
    assert_eq!(method_of(&"PUT".to_string()), Method::PUT);
    assert_eq!(method_of(&"POST".to_string()), Method::POST);
    assert_eq!(method_of(&"PATCH".to_string()), Method::PATCH);
    assert_eq!(method_of(&"OPTIONS".to_string()), Method::OPTIONS);
    assert_eq!(method_of(&"DELETE".to_string()), Method::DELETE);
    // The match is exact and case-sensitive.
    assert_eq!(method_of(&"get".to_string()), Method::OTHER);
    assert_eq!(method_of(&"HEAD".to_string()), Method::OTHER);
    assert_eq!(method_of(&"".to_string()), Method::OTHER);
}

#[test]
fn method_names_round_trip() {
    for m in [
        Method::GET,
        Method::PUT,
        Method::POST,
        Method::PATCH,
        Method::OPTIONS,
        Method::DELETE,
        Method::OTHER,
    ] {
        assert_eq!(method_of(&m.name()), m);
    }
}

fn micros(text: &str) -> Option<u64> {
    parse_micros(&text.as_bytes().to_vec())
}

#[test]
fn decimal_text_to_micros() {
    assert_eq!(micros("0.01"), Some(10_000));
    assert_eq!(micros("0.005"), Some(5_000));
    assert_eq!(micros("1"), Some(1_000_000));
    assert_eq!(micros("2.5"), Some(2_500_000));
    assert_eq!(micros("0"), Some(0));
    assert_eq!(micros("0.0000001"), Some(0));
    assert_eq!(micros("1e-3"), Some(1_000));
    assert_eq!(micros("1E2"), Some(100_000_000));
    assert_eq!(micros("2e+1"), Some(20_000_000));
    assert_eq!(micros("123.456789"), Some(123_456_789));
}

#[test]
fn negative_times_clamp_to_zero() {
    assert_eq!(micros("-0.5"), Some(0));
    assert_eq!(micros("-1e9"), Some(0));
}

#[test]
fn huge_values_clamp_to_max() {
    assert_eq!(micros("1e30"), Some(u64::MAX));
    assert_eq!(micros("99999999999999999999"), Some(u64::MAX));
}

#[test]
fn malformed_decimals_are_rejected() {
    assert_eq!(micros(""), None);
    assert_eq!(micros("abc"), None);
    assert_eq!(micros("1..2"), None);
    assert_eq!(micros("1."), None);
    assert_eq!(micros(".5"), None);
    assert_eq!(micros("1e"), None);
    assert_eq!(micros("1x"), None);
    // Over the 20-digit mantissa budget.
    assert_eq!(micros("123456789012345678901"), None);
    // Over the 9-digit exponent budget.
    assert_eq!(micros("1e1234567890"), None);
}
