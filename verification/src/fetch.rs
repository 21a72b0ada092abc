use vstd::prelude::*;

use crate::Departure;
use crate::decode::{
    RawStopTime, StopPattern, decode_stop_patterns, doc_records, doc_shape_ok, json_doc,
    json_parses, sp_model, stop_patterns_model, time_triple,
};
use crate::error::{BusError, BusErrorKind};
use crate::pattern::{bus_code_of, extract_bus_code, pattern_error_message, pattern_ok};
use crate::url_build::{dec_chars, u32_string};

verus! {

/// What one departure carries, as mathematical values: the bus line
/// code and the absolute timestamp.
pub open spec fn dep_model(d: Departure) -> (Seq<char>, int) {
    (d.bus@, d.timestamp as int)
}

pub open spec fn dep_models(s: Seq<Departure>) -> Seq<(Seq<char>, int)> {
    s.map_values(|d: Departure| dep_model(d))
}

/// The departures owed for one pattern: one per raw stop time, each
/// carrying the pattern's bus code and serviceDay + scheduledArrival.
pub open spec fn pattern_models(code: Seq<char>, times: Seq<RawStopTime>) -> Seq<(Seq<char>, int)> {
    times.map_values(|tm: RawStopTime| (code, tm.service_day + tm.scheduled_arrival as int))
}

/// The departures owed for a whole decoded response, in backend order.
pub open spec fn patterns_models(ps: Seq<StopPattern>) -> Seq<(Seq<char>, int)>
    decreases ps.len(),
{
    if ps.len() == 0 {
        Seq::empty()
    } else {
        patterns_models(ps.drop_last()) + pattern_models(
            bus_code_of(ps.last().pattern_id@),
            ps.last().times@,
        )
    }
}

pub open spec fn all_patterns_ok(ps: Seq<StopPattern>) -> bool {
    forall|i: int| 0 <= i < ps.len() ==> pattern_ok(#[trigger] ps[i].pattern_id@)
}

/// The one machine limit on the data: the two epoch fields must sum
/// inside i64.
pub open spec fn sum_fits(tm: RawStopTime) -> bool {
    i64::MIN <= tm.service_day + tm.scheduled_arrival <= i64::MAX
}

pub open spec fn all_sums_fit(ps: Seq<StopPattern>) -> bool {
    forall|i: int, j: int|
        0 <= i < ps.len() && 0 <= j < ps[i].times@.len() ==> sum_fits(#[trigger] ps[i].times@[j])
}

/// The absolute departure timestamp: serviceDay + scheduledArrival, in
/// epoch seconds, anchored by the backend to the local calendar day.
pub fn departure_timestamp(service_day: i64, scheduled_arrival: i64) -> (r: i64)
    requires
        i64::MIN <= service_day + scheduled_arrival <= i64::MAX,
    ensures
        r == service_day + scheduled_arrival,
{
    service_day + scheduled_arrival
}

/// As `departure_timestamp`, with the machine limit checked: `None`
/// exactly when the sum does not fit an i64.
pub fn checked_departure_timestamp(service_day: i64, scheduled_arrival: i64) -> (r: Option<i64>)
    ensures
        r is Some <==> i64::MIN <= service_day + scheduled_arrival <= i64::MAX,
        r matches Some(t) ==> t == service_day + scheduled_arrival,
{
    if scheduled_arrival >= 0 {
        if service_day <= i64::MAX - scheduled_arrival {
            Some(service_day + scheduled_arrival)
        } else {
            None
        }
    } else {
        if service_day >= i64::MIN - scheduled_arrival {
            Some(service_day + scheduled_arrival)
        } else {
            None
        }
    }
}

/// Turn a decoded response into departures, in backend order.
///
/// The first pattern identifier that fails the shape check aborts the
/// whole batch with a pattern-format failure; nothing is skipped
/// silently. A timestamp sum that does not fit an i64 is data the
/// program cannot represent and aborts the batch as a decode failure.
#[verifier::loop_isolation(false)]
pub fn departures_from_patterns(patterns: &Vec<StopPattern>) -> (r: Result<Vec<Departure>, BusError>)
    ensures
        r is Ok <==> all_patterns_ok(patterns@) && all_sums_fit(patterns@),
        r matches Ok(ds) ==> dep_models(ds@) == patterns_models(patterns@),
        r matches Err(e) ==> if !all_patterns_ok(patterns@) {
            e.kind == BusErrorKind::PatternFormat
        } else {
            e.kind == BusErrorKind::Decode
        },
        r matches Err(e) ==> (!all_patterns_ok(patterns@) ==> exists|i: int|
            0 <= i < patterns@.len() && !pattern_ok((#[trigger] patterns@[i]).pattern_id@)
                && e.message@ == pattern_error_message(patterns@[i].pattern_id@)),
{
    let ghost ps = patterns@;
    // First pass: every pattern identifier must match the shape.
    let mut codes: Vec<String> = Vec::new();
    let mut i: usize = 0;
    while i < patterns.len()
        invariant
            0 <= i <= ps.len(),
            codes@.len() == i,
            forall|k: int| 0 <= k < i ==> pattern_ok(#[trigger] ps[k].pattern_id@),
            forall|k: int| 0 <= k < i ==> #[trigger] codes@[k]@ == bus_code_of(ps[k].pattern_id@),
        decreases ps.len() - i,
    {
        match extract_bus_code(patterns[i].pattern_id.as_str()) {
            Ok(c) => {
                codes.push(c);
            },
            Err(e) => {
                assert(!pattern_ok(ps[i as int].pattern_id@));
                assert(e.message@ == pattern_error_message(ps[i as int].pattern_id@));
                return Err(e);
            },
        }
        i += 1;
    }
    // Second pass: one departure per raw stop time.
    let mut out: Vec<Departure> = Vec::new();
    let mut i: usize = 0;
    while i < patterns.len()
        invariant
            0 <= i <= ps.len(),
            dep_models(out@) == patterns_models(ps.take(i as int)),
            forall|k: int, j: int|
                0 <= k < i && 0 <= j < ps[k].times@.len() ==> sum_fits(#[trigger] ps[k].times@[j]),
        decreases ps.len() - i,
    {
        let times = &patterns[i].times;
        let ghost code = codes@[i as int]@;
        let mut t: usize = 0;
        while t < times.len()
            invariant
                0 <= t <= times@.len(),
                i < ps.len(),
                times@ == ps[i as int].times@,
                dep_models(out@) == patterns_models(ps.take(i as int)) + pattern_models(
                    code,
                    times@.take(t as int),
                ),
                forall|j: int| 0 <= j < t ==> sum_fits(#[trigger] times@[j]),
            decreases times@.len() - t,
        {
            let st = &times[t];
            match checked_departure_timestamp(st.service_day, st.scheduled_arrival) {
                Some(ts) => {
                    let ghost prev = out@;
                    let d = Departure { bus: codes[i].clone(), timestamp: ts };
                    out.push(d);
                    proof {
                        let entry = times@[t as int];
                        assert(dep_models(prev.push(d)) =~= dep_models(prev).push(dep_model(d)));
                        assert(times@.take(t + 1) =~= times@.take(t as int).push(entry));
                        assert(pattern_models(code, times@.take(t as int).push(entry)) =~=
                            pattern_models(code, times@.take(t as int)).push(
                            (code, entry.service_day + entry.scheduled_arrival as int),
                        ));
                        assert(dep_models(out@) =~= patterns_models(ps.take(i as int))
                            + pattern_models(code, times@.take(t + 1)));
                    }
                },
                None => {
                    assert(!sum_fits(ps[i as int].times@[t as int]));
                    return Err(
                        BusError::new(
                            BusErrorKind::Decode,
                            String::from_str("departure timestamp out of range"),
                        ),
                    );
                },
            }
            t += 1;
        }
        proof {
            assert(times@.take(times@.len() as int) =~= times@);
            assert(ps.take(i + 1).drop_last() =~= ps.take(i as int));
            assert(ps.take(i + 1).last() == ps[i as int]);
        }
        i += 1;
    }
    proof {
        assert(ps.take(ps.len() as int) =~= ps);
    }
    Ok(out)
}

/// Every record's pattern id matches the required shape.
pub open spec fn rec_ids_ok(rs: Seq<(Seq<char>, Seq<(int, int, Seq<char>)>)>) -> bool {
    forall|i: int| 0 <= i < rs.len() ==> pattern_ok((#[trigger] rs[i]).0)
}

/// Every record's epoch fields sum inside i64.
pub open spec fn rec_sums_fit(rs: Seq<(Seq<char>, Seq<(int, int, Seq<char>)>)>) -> bool {
    forall|i: int, j: int|
        0 <= i < rs.len() && 0 <= j < rs[i].1.len() ==> i64::MIN <= (#[trigger] rs[i].1[j]).0
            + rs[i].1[j].1 <= i64::MAX
}

/// The departures owed for decoded records, in backend order.
pub open spec fn rec_departures(rs: Seq<(Seq<char>, Seq<(int, int, Seq<char>)>)>) -> Seq<
    (Seq<char>, int),
>
    decreases rs.len(),
{
    if rs.len() == 0 {
        Seq::empty()
    } else {
        rec_departures(rs.drop_last()) + rs.last().1.map_values(
            |t: (int, int, Seq<char>)| (bus_code_of(rs.last().0), t.0 + t.1),
        )
    }
}

proof fn lemma_model_ids(ps: Seq<StopPattern>)
    ensures
        all_patterns_ok(ps) <==> rec_ids_ok(stop_patterns_model(ps)),
{
    let rs = stop_patterns_model(ps);
    if all_patterns_ok(ps) {
        assert forall|i: int| 0 <= i < rs.len() implies pattern_ok((#[trigger] rs[i]).0) by {
            assert(rs[i] == sp_model(ps[i]));
        }
    }
    if rec_ids_ok(rs) {
        assert forall|i: int| 0 <= i < ps.len() implies pattern_ok(
            (#[trigger] ps[i]).pattern_id@,
        ) by {
            assert(rs[i] == sp_model(ps[i]));
        }
    }
}

proof fn lemma_model_sums(ps: Seq<StopPattern>)
    ensures
        all_sums_fit(ps) <==> rec_sums_fit(stop_patterns_model(ps)),
{
    let rs = stop_patterns_model(ps);
    if all_sums_fit(ps) {
        assert forall|i: int, j: int|
            0 <= i < rs.len() && 0 <= j < rs[i].1.len() implies i64::MIN <= (#[trigger] rs[i].1[j]).0
            + rs[i].1[j].1 <= i64::MAX by {
            assert(rs[i] == sp_model(ps[i]));
            assert(rs[i].1[j] == time_triple(ps[i].times@[j]));
            assert(sum_fits(ps[i].times@[j]));
        }
    }
    if rec_sums_fit(rs) {
        assert forall|i: int, j: int|
            0 <= i < ps.len() && 0 <= j < ps[i].times@.len() implies sum_fits(
            #[trigger] ps[i].times@[j],
        ) by {
            assert(rs[i] == sp_model(ps[i]));
            assert(rs[i].1[j] == time_triple(ps[i].times@[j]));
        }
    }
}

proof fn lemma_model_departures(ps: Seq<StopPattern>)
    ensures
        patterns_models(ps) == rec_departures(stop_patterns_model(ps)),
    decreases ps.len(),
{
    let rs = stop_patterns_model(ps);
    if ps.len() == 0 {
        assert(patterns_models(ps) =~= rec_departures(rs));
    } else {
        lemma_model_departures(ps.drop_last());
        assert(stop_patterns_model(ps.drop_last()) =~= rs.drop_last());
        assert(rs.last() == sp_model(ps.last()));
        assert(pattern_models(bus_code_of(ps.last().pattern_id@), ps.last().times@) =~= rs.last().1
            .map_values(|t: (int, int, Seq<char>)| (bus_code_of(rs.last().0), t.0 + t.1)));
        assert(patterns_models(ps) =~= rec_departures(rs));
    }
}

/// The message of an HTTP failure: it carries the stop code and the
/// status that came back.
pub open spec fn http_error_message(code: Seq<char>, status: int) -> Seq<char> {
    "HTTP error for stop "@ + code + ": "@ + dec_chars(status)
}

fn http_error(code: &str, status: u16) -> (r: BusError)
    ensures
        r.kind == BusErrorKind::Http,
        r.message@ == http_error_message(code@, status as int),
{
    let mut m = String::from_str("HTTP error for stop ");
    m.append(code);
    m.append(": ");
    let s = u32_string(status as u32);
    m.append(s.as_str());
    proof {
        assert(m@ =~= http_error_message(code@, status as int));
    }
    BusError::new(BusErrorKind::Http, m)
}

/// Turn one stop's HTTP response into its departures, in backend order.
///
/// A status other than 200 is reported as an HTTP failure naming the
/// stop and the status, and the body is not read. With status 200 the
/// call succeeds exactly when the body parses to the expected shape,
/// every pattern id matches, and every timestamp sum fits an i64; the
/// departures are then exactly those the decoded records list. The
/// first pattern id that fails the shape check makes the whole response
/// a pattern-format failure naming that identifier; any other failure
/// carries the decode kind.
pub fn stop_departures_from_response(code: &str, status: u16, body: &str) -> (r: Result<
    Vec<Departure>,
    BusError,
>)
    ensures
        status != 200 ==> (r matches Err(e) && e.kind == BusErrorKind::Http && e.message@
            == http_error_message(code@, status as int)),
        status == 200 ==> (r is Ok <==> json_parses(body@) && doc_shape_ok(json_doc(body@))
            && rec_ids_ok(doc_records(json_doc(body@))) && rec_sums_fit(
            doc_records(json_doc(body@)),
        )),
        status == 200 ==> (r matches Ok(ds) ==> dep_models(ds@) == rec_departures(
            doc_records(json_doc(body@)),
        )),
        status == 200 ==> (r matches Err(e) ==> e.kind == (if json_parses(body@) && doc_shape_ok(
            json_doc(body@),
        ) && !rec_ids_ok(doc_records(json_doc(body@)))
        {
            BusErrorKind::PatternFormat
        } else {
            BusErrorKind::Decode
        })),
        status == 200 ==> (r matches Err(e) ==> (e.kind == BusErrorKind::PatternFormat
            ==> exists|i: int|
            0 <= i < doc_records(json_doc(body@)).len() && !pattern_ok(
                (#[trigger] doc_records(json_doc(body@))[i]).0,
            ) && e.message@ == pattern_error_message(doc_records(json_doc(body@))[i].0))),
{
    if status != 200 {
        return Err(http_error(code, status));
    }
    let ghost rs = doc_records(json_doc(body@));
    match decode_stop_patterns(body) {
        Ok(patterns) => {
            proof {
                lemma_model_ids(patterns@);
                lemma_model_sums(patterns@);
                lemma_model_departures(patterns@);
            }
            let r = departures_from_patterns(&patterns);
            proof {
                if r is Err && r->Err_0.kind == BusErrorKind::PatternFormat {
                    let e = r->Err_0;
                    let i = choose|i: int|
                        0 <= i < patterns@.len() && !pattern_ok(
                            (#[trigger] patterns@[i]).pattern_id@,
                        ) && e.message@ == pattern_error_message(patterns@[i].pattern_id@);
                    assert(rs[i] == sp_model(patterns@[i]));
                    assert(!pattern_ok(rs[i].0) && e.message@ == pattern_error_message(rs[i].0));
                }
            }
            r
        },
        Err(e) => Err(e),
    }
}

} // verus!
