use vstd::prelude::*;

use crate::RequestConfig;
use crate::error::{BusError, BusErrorKind};
use crate::pattern::all_digits;

verus! {

/// The decimal digit character for `d`.
pub open spec fn digit_char(d: int) -> char {
    if d == 0 {
        '0'
    } else if d == 1 {
        '1'
    } else if d == 2 {
        '2'
    } else if d == 3 {
        '3'
    } else if d == 4 {
        '4'
    } else if d == 5 {
        '5'
    } else if d == 6 {
        '6'
    } else if d == 7 {
        '7'
    } else if d == 8 {
        '8'
    } else {
        '9'
    }
}

/// The decimal representation of `n`, most significant digit first,
/// without leading zeros.
pub open spec fn dec_chars(n: int) -> Seq<char>
    decreases n when n >= 0
{
    if n < 10 {
        seq![digit_char(n)]
    } else {
        dec_chars(n / 10).push(digit_char(n % 10))
    }
}

fn digit_str(d: u32) -> (r: &'static str)
    requires
        d < 10,
    ensures
        r@ == seq![digit_char(d as int)],
{
    proof {
        reveal_strlit("0");
        reveal_strlit("1");
        reveal_strlit("2");
        reveal_strlit("3");
        reveal_strlit("4");
        reveal_strlit("5");
        reveal_strlit("6");
        reveal_strlit("7");
        reveal_strlit("8");
        reveal_strlit("9");
    }
    let r: &'static str = match d {
        0 => "0",
        1 => "1",
        2 => "2",
        3 => "3",
        4 => "4",
        5 => "5",
        6 => "6",
        7 => "7",
        8 => "8",
        _ => "9",
    };
    proof {
        assert(r@ =~= seq![digit_char(d as int)]);
    }
    r
}

/// Render `n` in decimal, as the query parameter value.
pub fn u32_string(n: u32) -> (r: String)
    ensures
        r@ == dec_chars(n as int),
    decreases n,
{
    if n < 10 {
        String::from_str(digit_str(n))
    } else {
        let mut s = u32_string(n / 10);
        s.append(digit_str(n % 10));
        proof {
            assert(s@ =~= dec_chars(n as int));
        }
        s
    }
}

/// The characters of the stop-times endpoint URL for the stop `HSL:<code>`,
/// with the `numberOfDepartures` parameter appended when it is configured.
pub open spec fn stop_url_chars(dpp: Option<u32>, code: Seq<char>) -> Seq<char> {
    let base = "http://api.digitransit.fi/routing/v1/routers/hsl/index/stops/HSL:"@ + code
        + "/stoptimes"@;
    match dpp {
        Option::None => base,
        Option::Some(n) => base + "?numberOfDepartures="@ + dec_chars(n as int),
    }
}

#[verifier::external_type_specification]
#[verifier::external_body]
pub struct ExUrl(url::Url);

#[verifier::external_type_specification]
#[verifier::external_body]
pub struct ExUrlParseError(url::ParseError);

/// Whether url::Url::parse accepts a string. The URL standard's grammar
/// takes pages to state; parsing depends on the characters alone, so its
/// verdict only gets a name here.
pub uninterp spec fn url_accepts(s: Seq<char>) -> bool;

/// Relies on url::Url::parse: syntax validation of the built request URL
/// against the URL standard. Parsing is a function of the input string
/// alone; which strings it accepts is named `url_accepts` and nothing
/// more is assumed of it.
pub assume_specification[ url::Url::parse ](input: &str) -> (r: Result<url::Url, url::ParseError>)
    ensures
        r is Ok <==> url_accepts(input@),
;

/// Build the stop-times request URL for the stop `HSL:<code>`.
///
/// The caller hands a stop code made of digits alone (`is_digit_string`
/// checks that shape); percent-encoding for URL safety leaves such a
/// code unchanged, so it is inserted as it is. The built URL is parsed
/// once to validate it; exactly when the parser rejects it, a URL-kind
/// failure is reported instead of handing the URL on.
pub fn build_stop_url(config: &RequestConfig, code: &str) -> (r: Result<String, BusError>)
    requires
        all_digits(code@),
    ensures
        r is Ok <==> url_accepts(stop_url_chars(config.departures_per_pattern, code@)),
        r matches Ok(u) ==> u@ == stop_url_chars(config.departures_per_pattern, code@),
        r matches Err(e) ==> e.kind == BusErrorKind::Url,
{
    let mut u = String::from_str(
        "http://api.digitransit.fi/routing/v1/routers/hsl/index/stops/HSL:",
    );
    u.append(code);
    u.append("/stoptimes");
    if let Some(n) = config.departures_per_pattern {
        u.append("?numberOfDepartures=");
        let ns = u32_string(n);
        u.append(ns.as_str());
    }
    proof {
        assert(u@ =~= stop_url_chars(config.departures_per_pattern, code@));
    }
    match url::Url::parse(u.as_str()) {
        Ok(_) => Ok(u),
        Err(_) => Err(
            BusError::new(BusErrorKind::Url, String::from_str("request URL failed to parse")),
        ),
    }
}

} // verus!
