use vstd::prelude::*;

use crate::error::{BusError, BusErrorKind};

verus! {

/// A raw scheduled stop time, exactly as the backend reports it:
/// the service day as epoch seconds, the arrival as an offset in
/// seconds from that day, and a trip identifier that is carried but
/// never read downstream.
pub struct RawStopTime {
    pub service_day: i64,
    pub scheduled_arrival: i64,
    pub trip_id: String,
}

/// One trip pattern at a stop: the opaque pattern identifier plus the
/// raw stop times listed under it.
pub struct StopPattern {
    pub pattern_id: String,
    pub times: Vec<RawStopTime>,
}

#[verifier::external_type_specification]
#[verifier::external_body]
pub struct ExJson(rustc_serialize::json::Json);

#[verifier::external_type_specification]
#[verifier::external_body]
pub struct ExParserError(rustc_serialize::json::ParserError);

/// A parsed JSON value as mathematical content, as far as the decoder
/// reads one: numbers that `Json::as_i64` hands out, strings, arrays,
/// and objects keyed by their texts. Everything the decoder never
/// accepts — floats, booleans, null, numbers outside the i64 range —
/// is `Other`.
pub enum JsonModel {
    Num(int),
    Text(Seq<char>),
    List(Seq<JsonModel>),
    Obj(Map<Seq<char>, JsonModel>),
    Other,
}

/// The content of a parsed JSON value. A JSON tree takes pages to
/// state, so it only gets a name here; the accessor specifications
/// below say how each observation relates to it.
pub uninterp spec fn json_model(j: rustc_serialize::json::Json) -> JsonModel;

/// Whether rustc_serialize's json parser accepts a string; parsing is a
/// function of the characters alone.
pub uninterp spec fn json_parses(s: Seq<char>) -> bool;

/// The content of the document that rustc_serialize's json parser reads
/// out of a string it accepts.
pub uninterp spec fn json_doc(s: Seq<char>) -> JsonModel;

/// Relies on rustc_serialize::json::Json::from_str: parses a string as
/// a JSON document. Parsing depends on the characters alone; which
/// strings it accepts and what it reads out of them are named
/// `json_parses` and `json_doc`.
pub assume_specification[ rustc_serialize::json::Json::from_str ](s: &str) -> (r: Result<
    rustc_serialize::json::Json,
    rustc_serialize::json::BuilderError,
>)
    ensures
        r is Ok <==> json_parses(s@),
        r matches Ok(j) ==> json_model(j) == json_doc(s@),
;

/// Relies on rustc_serialize::json::Json::as_array: the element list
/// exactly when the value is a JSON array, `None` otherwise; the
/// elements carry the modelled list's entries in order.
pub assume_specification<'a>[ rustc_serialize::json::Json::as_array ](
    j: &'a rustc_serialize::json::Json,
) -> (r: Option<&'a rustc_serialize::json::Array>)
    ensures
        r is Some <==> json_model(*j) is List,
        r matches Some(a) ==> a@.len() == json_model(*j)->List_0.len(),
        r matches Some(a) ==> forall|k: int|
            0 <= k < a@.len() ==> json_model(#[trigger] a@[k]) == json_model(*j)->List_0[k],
;

/// Relies on rustc_serialize::json::Json::find: the value under `key`
/// exactly when the value is a JSON object holding that key, `None`
/// otherwise. Two object keys with equal characters are the same key.
pub assume_specification<'a>[ rustc_serialize::json::Json::find ](
    j: &'a rustc_serialize::json::Json,
    key: &str,
) -> (r: Option<&'a rustc_serialize::json::Json>)
    ensures
        r is Some <==> (json_model(*j) is Obj && json_model(*j)->Obj_0.contains_key(key@)),
        r matches Some(v) ==> json_model(*v) == json_model(*j)->Obj_0[key@],
;

/// Relies on rustc_serialize::json::Json::as_i64: `Some` exactly for
/// the JSON numbers it can hand out as an i64 (a signed integer, or an
/// unsigned one below i64::MAX; floats and larger values give `None`),
/// which are the values modelled as `Num`.
pub assume_specification[ rustc_serialize::json::Json::as_i64 ](
    j: &rustc_serialize::json::Json,
) -> (r: Option<i64>)
    ensures
        r is Some <==> json_model(*j) is Num,
        r matches Some(n) ==> json_model(*j) == JsonModel::Num(n as int),
;

/// Relies on rustc_serialize::json::Json::as_string: the characters
/// exactly when the value is a JSON string, `None` otherwise.
pub assume_specification<'a>[ rustc_serialize::json::Json::as_string ](
    j: &'a rustc_serialize::json::Json,
) -> (r: Option<&'a str>)
    ensures
        r is Some <==> json_model(*j) is Text,
        r matches Some(s) ==> json_model(*j) == JsonModel::Text(s@),
;

/// The shape one entry under `times` must have: an object whose
/// `serviceDay` and `scheduledArrival` are integers and whose `tripId`
/// is a string.
pub open spec fn time_shape_ok(m: JsonModel) -> bool {
    &&& m is Obj
    &&& m->Obj_0.contains_key("serviceDay"@)
    &&& m->Obj_0["serviceDay"@] is Num
    &&& m->Obj_0.contains_key("scheduledArrival"@)
    &&& m->Obj_0["scheduledArrival"@] is Num
    &&& m->Obj_0.contains_key("tripId"@)
    &&& m->Obj_0["tripId"@] is Text
}

/// One well-shaped `times` entry as values: (serviceDay,
/// scheduledArrival, tripId).
pub open spec fn time_entry(m: JsonModel) -> (int, int, Seq<char>) {
    (
        m->Obj_0["serviceDay"@]->Num_0,
        m->Obj_0["scheduledArrival"@]->Num_0,
        m->Obj_0["tripId"@]->Text_0,
    )
}

/// The shape one response record must have: an object with a `pattern`
/// object carrying a string `id`, and a `times` array of well-shaped
/// entries. Extra fields are ignored.
pub open spec fn record_shape_ok(m: JsonModel) -> bool {
    &&& m is Obj
    &&& m->Obj_0.contains_key("pattern"@)
    &&& m->Obj_0["pattern"@] is Obj
    &&& m->Obj_0["pattern"@]->Obj_0.contains_key("id"@)
    &&& m->Obj_0["pattern"@]->Obj_0["id"@] is Text
    &&& m->Obj_0.contains_key("times"@)
    &&& m->Obj_0["times"@] is List
    &&& forall|k: int|
        0 <= k < m->Obj_0["times"@]->List_0.len() ==> time_shape_ok(
            #[trigger] m->Obj_0["times"@]->List_0[k],
        )
}

/// The entries of a list of well-shaped `times` values.
pub open spec fn tl_entries(s: Seq<JsonModel>) -> Seq<(int, int, Seq<char>)> {
    s.map_values(|t: JsonModel| time_entry(t))
}

/// One well-shaped record as values: the pattern id and its stop-time
/// triples.
pub open spec fn record_entry(m: JsonModel) -> (Seq<char>, Seq<(int, int, Seq<char>)>) {
    (m->Obj_0["pattern"@]->Obj_0["id"@]->Text_0, tl_entries(m->Obj_0["times"@]->List_0))
}

/// The shape a whole response body must decode to: an array of
/// well-shaped records.
pub open spec fn doc_shape_ok(m: JsonModel) -> bool {
    &&& m is List
    &&& forall|k: int| 0 <= k < m->List_0.len() ==> record_shape_ok(#[trigger] m->List_0[k])
}

/// A well-shaped document as values, record by record.
pub open spec fn doc_records(m: JsonModel) -> Seq<(Seq<char>, Seq<(int, int, Seq<char>)>)> {
    m->List_0.map_values(|e: JsonModel| record_entry(e))
}

/// One raw stop time as values.
pub open spec fn time_triple(t: RawStopTime) -> (int, int, Seq<char>) {
    (t.service_day as int, t.scheduled_arrival as int, t.trip_id@)
}

/// The triples of a list of raw stop times.
pub open spec fn times_model(s: Seq<RawStopTime>) -> Seq<(int, int, Seq<char>)> {
    s.map_values(|t: RawStopTime| time_triple(t))
}

/// One decoded pattern as mathematical values.
pub open spec fn sp_model(p: StopPattern) -> (Seq<char>, Seq<(int, int, Seq<char>)>) {
    (p.pattern_id@, times_model(p.times@))
}

pub open spec fn stop_patterns_model(ps: Seq<StopPattern>) -> Seq<
    (Seq<char>, Seq<(int, int, Seq<char>)>),
> {
    ps.map_values(|p: StopPattern| sp_model(p))
}

fn decode_error(what: &str) -> (r: BusError)
    ensures
        r.kind == BusErrorKind::Decode,
{
    let mut m = String::from_str("malformed response body: ");
    m.append(what);
    BusError::new(BusErrorKind::Decode, m)
}

/// Read one string field of a JSON object, or report which field was
/// missing or of the wrong type.
fn string_field<'a>(obj: &'a rustc_serialize::json::Json, key: &str) -> (r: Result<
    &'a str,
    BusError,
>)
    ensures
        r is Ok <==> (json_model(*obj) is Obj && json_model(*obj)->Obj_0.contains_key(key@)
            && json_model(*obj)->Obj_0[key@] is Text),
        r matches Ok(s) ==> json_model(*obj)->Obj_0[key@] == JsonModel::Text(s@),
        r matches Err(e) ==> e.kind == BusErrorKind::Decode,
{
    match obj.find(key) {
        Some(v) => match v.as_string() {
            Some(s) => Ok(s),
            None => Err(decode_error(key)),
        },
        None => Err(decode_error(key)),
    }
}

/// Read one integer field of a JSON object, or report which field was
/// missing or of the wrong type.
fn int_field(obj: &rustc_serialize::json::Json, key: &str) -> (r: Result<i64, BusError>)
    ensures
        r is Ok <==> (json_model(*obj) is Obj && json_model(*obj)->Obj_0.contains_key(key@)
            && json_model(*obj)->Obj_0[key@] is Num),
        r matches Ok(n) ==> json_model(*obj)->Obj_0[key@] == JsonModel::Num(n as int),
        r matches Err(e) ==> e.kind == BusErrorKind::Decode,
{
    match obj.find(key) {
        Some(v) => match v.as_i64() {
            Some(n) => Ok(n),
            None => Err(decode_error(key)),
        },
        None => Err(decode_error(key)),
    }
}

/// Decode the backend's stop-times response body: a JSON array of
/// objects `{ pattern: { id }, times: [ { serviceDay, scheduledArrival,
/// tripId } ] }`. It succeeds exactly when the body parses and has that
/// shape, and then returns its records; extra fields are ignored, and
/// anything else is a decode failure that aborts the whole fetch.
#[verifier::loop_isolation(false)]
pub fn decode_stop_patterns(body: &str) -> (r: Result<Vec<StopPattern>, BusError>)
    ensures
        r is Ok <==> json_parses(body@) && doc_shape_ok(json_doc(body@)),
        r matches Ok(v) ==> stop_patterns_model(v@) == doc_records(json_doc(body@)),
        r matches Err(e) ==> e.kind == BusErrorKind::Decode,
{
    let ghost doc = json_doc(body@);
    let parsed = match rustc_serialize::json::Json::from_str(body) {
        Ok(v) => v,
        Err(_) => {
            return Err(decode_error("not valid JSON"));
        },
    };
    let records = match parsed.as_array() {
        Some(a) => a,
        None => {
            return Err(decode_error("top level is not an array"));
        },
    };
    let mut out: Vec<StopPattern> = Vec::new();
    let mut i: usize = 0;
    proof {
        assert(stop_patterns_model(out@) =~= doc_records(doc).take(0));
    }
    while i < records.len()
        invariant
            0 <= i <= records@.len(),
            forall|k: int| 0 <= k < i ==> record_shape_ok(#[trigger] doc->List_0[k]),
            stop_patterns_model(out@) == doc_records(doc).take(i as int),
        decreases records@.len() - i,
    {
        let record = &records[i];
        let ghost rm = doc->List_0[i as int];
        let pattern = match record.find("pattern") {
            Some(p) => p,
            None => {
                return Err(decode_error("pattern"));
            },
        };
        let id = match string_field(pattern, "id") {
            Ok(s) => s,
            Err(e) => {
                return Err(e);
            },
        };
        let times_list = match record.find("times") {
            Some(t) => match t.as_array() {
                Some(a) => a,
                None => {
                    return Err(decode_error("times"));
                },
            },
            None => {
                return Err(decode_error("times"));
            },
        };
        let ghost tl = rm->Obj_0["times"@]->List_0;
        let mut times: Vec<RawStopTime> = Vec::new();
        let mut t: usize = 0;
        proof {
            assert(times_model(times@) =~= tl_entries(tl.take(0)));
        }
        while t < times_list.len()
            invariant
                0 <= t <= times_list@.len(),
                forall|k: int| 0 <= k < t ==> time_shape_ok(#[trigger] tl[k]),
                times_model(times@) == tl_entries(tl.take(t as int)),
            decreases times_list@.len() - t,
        {
            let entry = &times_list[t];
            let ghost tm = tl[t as int];
            let service_day = match int_field(entry, "serviceDay") {
                Ok(n) => n,
                Err(e) => {
                    proof {
                        assert(!time_shape_ok(tm));
                        assert(!record_shape_ok(rm));
                        assert(!doc_shape_ok(doc));
                    }
                    return Err(e);
                },
            };
            let scheduled_arrival = match int_field(entry, "scheduledArrival") {
                Ok(n) => n,
                Err(e) => {
                    proof {
                        assert(!time_shape_ok(tm));
                        assert(!record_shape_ok(rm));
                        assert(!doc_shape_ok(doc));
                    }
                    return Err(e);
                },
            };
            let trip_id = match string_field(entry, "tripId") {
                Ok(s) => s,
                Err(e) => {
                    proof {
                        assert(!time_shape_ok(tm));
                        assert(!record_shape_ok(rm));
                        assert(!doc_shape_ok(doc));
                    }
                    return Err(e);
                },
            };
            let ghost prev = times@;
            times.push(
                RawStopTime { service_day, scheduled_arrival, trip_id: trip_id.to_owned() },
            );
            proof {
                assert(time_shape_ok(tm));
                assert(time_entry(tm) == (
                    service_day as int,
                    scheduled_arrival as int,
                    trip_id@,
                ));
                assert(times@ == prev.push(times@.last()));
                assert(time_triple(times@.last()) == time_entry(tm));
                assert(times_model(times@) =~= times_model(prev).push(time_triple(times@.last())));
                assert(tl.take(t + 1) =~= tl.take(t as int).push(tm));
                assert(tl_entries(tl.take(t + 1)) =~= tl_entries(tl.take(t as int)).push(
                    time_entry(tm),
                ));
            }
            t += 1;
        }
        let ghost prev_out = out@;
        out.push(StopPattern { pattern_id: id.to_owned(), times });
        proof {
            assert(tl.take(tl.len() as int) =~= tl);
            assert(record_shape_ok(rm));
            assert(sp_model(out@.last()) == record_entry(rm));
            assert(doc_records(doc).take(i + 1) =~= doc_records(doc).take(i as int).push(
                record_entry(rm),
            ));
            assert(stop_patterns_model(out@) =~= doc_records(doc).take(i + 1));
        }
        i += 1;
    }
    proof {
        assert(doc_records(doc).take(doc_records(doc).len() as int) =~= doc_records(doc));
    }
    Ok(out)
}

} // verus!
