use hsl_weever::RequestConfig;
use hsl_weever::error::{BusError, BusErrorKind};
use hsl_weever::fetch::{checked_departure_timestamp, departure_timestamp,
    stop_departures_from_response};
use hsl_weever::pattern::{extract_bus_code, is_digit_string};
use hsl_weever::url_build::{build_stop_url, u32_string};

#[test]
fn extracts_alphanumeric_code() {
    assert_eq!(extract_bus_code("HSL:1002K:0:01").unwrap(), "2K");
}

#[test]
fn extracts_numeric_code() {
    assert_eq!(extract_bus_code("HSL:1055:0:02").unwrap(), "55");
}

#[test]
fn extracts_code_without_leading_zero() {
    assert_eq!(extract_bus_code("HSL:1234:0:01").unwrap(), "234");
}

#[test]
fn extracts_code_with_many_leading_zeros() {
    assert_eq!(extract_bus_code("HSL:10005:0:01").unwrap(), "5");
}

#[test]
fn extracts_all_zero_code_as_single_zero() {
    assert_eq!(extract_bus_code("HSL:1000:0:01").unwrap(), "0");
}

#[test]
fn rejects_missing_prefix() {
    let e = extract_bus_code("1055:0:02").unwrap_err();
    assert_eq!(e.kind, BusErrorKind::PatternFormat);
}

#[test]
fn rejects_wrong_agency() {
    let e = extract_bus_code("XSL:1055:0:02").unwrap_err();
    assert_eq!(e.kind, BusErrorKind::PatternFormat);
}

#[test]
fn rejects_nondigit_routing_character() {
    let e = extract_bus_code("HSL:A055:0:01").unwrap_err();
    assert_eq!(e.kind, BusErrorKind::PatternFormat);
}

#[test]
fn rejects_empty_code_segment() {
    let e = extract_bus_code("HSL:1:0:01").unwrap_err();
    assert_eq!(e.kind, BusErrorKind::PatternFormat);
}

#[test]
fn rejects_lower_case_code_character() {
    let e = extract_bus_code("HSL:10x5:0:01").unwrap_err();
    assert_eq!(e.kind, BusErrorKind::PatternFormat);
}

#[test]
fn rejects_missing_trailing_segment() {
    let e = extract_bus_code("HSL:1055:0").unwrap_err();
    assert_eq!(e.kind, BusErrorKind::PatternFormat);
}

#[test]
fn rejects_extra_trailing_segment() {
    let e = extract_bus_code("HSL:1055:0:01:2").unwrap_err();
    assert_eq!(e.kind, BusErrorKind::PatternFormat);
}

#[test]
fn rejects_empty_trailing_segment() {
    let e = extract_bus_code("HSL:1055:0:").unwrap_err();
    assert_eq!(e.kind, BusErrorKind::PatternFormat);
}

#[test]
fn timestamp_adds_service_day_and_arrival() {
    assert_eq!(departure_timestamp(86400, 3661), 90061);
    assert_eq!(checked_departure_timestamp(86400, 3661), Some(90061));
}

#[test]
fn timestamp_overflow_is_reported() {
    assert_eq!(checked_departure_timestamp(i64::MAX, 1), None);
    assert_eq!(checked_departure_timestamp(i64::MIN, -1), None);
    assert_eq!(checked_departure_timestamp(i64::MAX, 0), Some(i64::MAX));
}

#[test]
fn digit_string_check() {
    assert!(is_digit_string("1234"));
    assert!(!is_digit_string("12a4"));
    assert!(!is_digit_string("12 4"));
}

#[test]
fn renders_decimals() {
    assert_eq!(u32_string(0), "0");
    assert_eq!(u32_string(7), "7");
    assert_eq!(u32_string(10), "10");
    assert_eq!(u32_string(1234567), "1234567");
}

#[test]
fn error_constructor_carries_kind_and_message() {
    let kinds = [
        BusErrorKind::Url,
        BusErrorKind::Network,
        BusErrorKind::Http,
        BusErrorKind::Io,
        BusErrorKind::Decode,
        BusErrorKind::PatternFormat,
    ];
    for kind in kinds {
        let e = BusError::new(kind, "something went wrong".to_string());
        assert_eq!(e.kind, kind);
        assert_eq!(e.message, "something went wrong");
    }
}

#[test]
fn builds_url_without_departure_cap() {
    let config = RequestConfig { departures_per_pattern: None };
    let u = build_stop_url(&config, "1234").unwrap();
    assert_eq!(
        u,
        "http://api.digitransit.fi/routing/v1/routers/hsl/index/stops/HSL:1234/stoptimes"
    );
}

#[test]
fn builds_url_with_departure_cap() {
    let config = RequestConfig { departures_per_pattern: Some(5) };
    let u = build_stop_url(&config, "42").unwrap();
    assert_eq!(
        u,
        "http://api.digitransit.fi/routing/v1/routers/hsl/index/stops/HSL:42/stoptimes?numberOfDepartures=5"
    );
}

#[test]
fn response_decodes_one_pattern() {
    let body = "[{\"pattern\":{\"id\":\"HSL:1001:0:01\"},\"times\":\
                [{\"serviceDay\":0,\"scheduledArrival\":3600,\"tripId\":\"t1\"}]}]";
    let deps = stop_departures_from_response("1234", 200, body).unwrap();
    assert_eq!(deps.len(), 1);
    assert_eq!(deps[0].bus, "1");
    assert_eq!(deps[0].timestamp, 3600);
}

#[test]
fn response_keeps_backend_order_and_repeats() {
    let body = "[{\"pattern\":{\"id\":\"HSL:1055:0:02\"},\"times\":\
                [{\"serviceDay\":86400,\"scheduledArrival\":3661,\"tripId\":\"a\"},\
                 {\"serviceDay\":86400,\"scheduledArrival\":7261,\"tripId\":\"b\"}]},\
                {\"pattern\":{\"id\":\"HSL:1002K:0:01\"},\"times\":\
                [{\"serviceDay\":86400,\"scheduledArrival\":60,\"tripId\":\"c\"}]}]";
    let deps = stop_departures_from_response("1234", 200, body).unwrap();
    assert_eq!(deps.len(), 3);
    assert_eq!(deps[0].bus, "55");
    assert_eq!(deps[0].timestamp, 90061);
    assert_eq!(deps[1].bus, "55");
    assert_eq!(deps[1].timestamp, 93661);
    assert_eq!(deps[2].bus, "2K");
    assert_eq!(deps[2].timestamp, 86460);
}

#[test]
fn non_success_status_is_http_error() {
    let e = stop_departures_from_response("77", 404, "[]").unwrap_err();
    assert_eq!(e.kind, BusErrorKind::Http);
    assert_eq!(e.message, "HTTP error for stop 77: 404");
}

#[test]
fn malformed_json_is_decode_error() {
    let e = stop_departures_from_response("1", 200, "{not json").unwrap_err();
    assert_eq!(e.kind, BusErrorKind::Decode);
}

#[test]
fn non_array_top_level_is_decode_error() {
    let e = stop_departures_from_response("1", 200, "{\"pattern\":1}").unwrap_err();
    assert_eq!(e.kind, BusErrorKind::Decode);
}

#[test]
fn missing_required_field_is_decode_error() {
    let body = "[{\"pattern\":{\"id\":\"HSL:1001:0:01\"},\"times\":\
                [{\"serviceDay\":0,\"tripId\":\"t1\"}]}]";
    let e = stop_departures_from_response("1", 200, body).unwrap_err();
    assert_eq!(e.kind, BusErrorKind::Decode);
}

#[test]
fn wrongly_typed_field_is_decode_error() {
    let body = "[{\"pattern\":{\"id\":\"HSL:1001:0:01\"},\"times\":\
                [{\"serviceDay\":\"0\",\"scheduledArrival\":1,\"tripId\":\"t1\"}]}]";
    let e = stop_departures_from_response("1", 200, body).unwrap_err();
    assert_eq!(e.kind, BusErrorKind::Decode);
}

#[test]
fn extra_fields_are_ignored() {
    let body = "[{\"pattern\":{\"id\":\"HSL:1001:0:01\",\"name\":\"x\"},\"extra\":true,\
                \"times\":[{\"serviceDay\":10,\"scheduledArrival\":5,\"tripId\":\"t\",\
                \"realtime\":false}]}]";
    let deps = stop_departures_from_response("1", 200, body).unwrap();
    assert_eq!(deps.len(), 1);
    assert_eq!(deps[0].bus, "1");
    assert_eq!(deps[0].timestamp, 15);
}

#[test]
fn bad_pattern_id_aborts_whole_response() {
    let body = "[{\"pattern\":{\"id\":\"HSL:1001:0:01\"},\"times\":\
                [{\"serviceDay\":0,\"scheduledArrival\":3600,\"tripId\":\"t1\"}]},\
                {\"pattern\":{\"id\":\"bogus\"},\"times\":[]}]";
    let e = stop_departures_from_response("1234", 200, body).unwrap_err();
    assert_eq!(e.kind, BusErrorKind::PatternFormat);
    assert!(e.message.contains("bogus"));
}

#[test]
fn timestamp_sum_out_of_range_is_decode_error() {
    let body = format!(
        "[{{\"pattern\":{{\"id\":\"HSL:1001:0:01\"}},\"times\":\
         [{{\"serviceDay\":{},\"scheduledArrival\":1,\"tripId\":\"t\"}}]}}]",
        i64::MAX
    );
    let e = stop_departures_from_response("1", 200, &body).unwrap_err();
    assert_eq!(e.kind, BusErrorKind::Decode);
}
