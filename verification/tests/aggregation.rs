use hsl_weever::Departure;
use hsl_weever::aggregate::{aggregate_departures, sort_departures};
use hsl_weever::fetch::stop_departures_from_response;

fn departure(bus: &str, timestamp: i64) -> Departure {
    Departure { bus: bus.to_owned(), timestamp }
}

fn pairs(deps: &[Departure]) -> Vec<(String, i64)> {
    deps.iter().map(|d| (d.bus.clone(), d.timestamp)).collect()
}

#[test]
fn dedup_favors_earlier_stop() {
    let stop_a = vec![departure("1", 100), departure("2", 200)];
    let stop_b = vec![departure("2", 50), departure("3", 150)];
    let out = aggregate_departures(&vec![stop_a, stop_b]);
    assert_eq!(
        pairs(&out),
        vec![
            ("1".to_owned(), 100),
            ("3".to_owned(), 150),
            ("2".to_owned(), 200),
        ]
    );
}

#[test]
fn duplicates_within_one_stop_are_kept() {
    let stop_a = vec![departure("7", 100), departure("7", 200)];
    let out = aggregate_departures(&vec![stop_a]);
    assert_eq!(pairs(&out), vec![("7".to_owned(), 100), ("7".to_owned(), 200)]);
}

#[test]
fn seen_lines_stay_dropped_across_later_stops() {
    let stop_a = vec![departure("4", 300)];
    let stop_b = vec![departure("4", 100)];
    let stop_c = vec![departure("4", 200), departure("5", 50)];
    let out = aggregate_departures(&vec![stop_a, stop_b, stop_c]);
    assert_eq!(pairs(&out), vec![("5".to_owned(), 50), ("4".to_owned(), 300)]);
}

#[test]
fn sort_is_stable_for_equal_timestamps() {
    let stop = vec![
        departure("9", 500),
        departure("8", 500),
        departure("7", 400),
        departure("6", 500),
    ];
    let out = aggregate_departures(&vec![stop]);
    assert_eq!(
        pairs(&out),
        vec![
            ("7".to_owned(), 400),
            ("9".to_owned(), 500),
            ("8".to_owned(), 500),
            ("6".to_owned(), 500),
        ]
    );
}

#[test]
fn sort_departures_orders_ascending() {
    let out = sort_departures(vec![
        departure("A", 30),
        departure("B", 10),
        departure("C", 20),
    ]);
    assert_eq!(
        pairs(&out),
        vec![
            ("B".to_owned(), 10),
            ("C".to_owned(), 20),
            ("A".to_owned(), 30),
        ]
    );
}

#[test]
fn aggregation_of_same_data_is_identical() {
    let fetched = vec![
        vec![departure("1", 300), departure("2", 100)],
        vec![departure("2", 50), departure("3", 200)],
    ];
    let first = aggregate_departures(&fetched);
    let second = aggregate_departures(&fetched);
    assert_eq!(pairs(&first), pairs(&second));
}

#[test]
fn empty_input_aggregates_to_nothing() {
    let out = aggregate_departures(&Vec::new());
    assert!(out.is_empty());
}

#[test]
fn end_to_end_two_stops() {
    let body_1234 = "[{\"pattern\":{\"id\":\"HSL:1001:0:01\"},\"times\":\
                    [{\"serviceDay\":0,\"scheduledArrival\":3600,\"tripId\":\"a\"}]}]";
    let body_5678 = "[{\"pattern\":{\"id\":\"HSL:1002:0:01\"},\"times\":\
                    [{\"serviceDay\":0,\"scheduledArrival\":1800,\"tripId\":\"b\"}]}]";
    let mut fetched: Vec<Vec<Departure>> = Vec::new();
    for (stop, body) in [("1234", body_1234), ("5678", body_5678)] {
        fetched.push(stop_departures_from_response(stop, 200, body).unwrap());
    }
    let out = aggregate_departures(&fetched);
    assert_eq!(
        pairs(&out),
        vec![("2".to_owned(), 1800), ("1".to_owned(), 3600)]
    );
}

#[test]
fn failing_stop_aborts_the_run() {
    let good = "[{\"pattern\":{\"id\":\"HSL:1001:0:01\"},\"times\":\
               [{\"serviceDay\":0,\"scheduledArrival\":3600,\"tripId\":\"a\"}]}]";
    let bad = "[{\"pattern\":{\"id\":\"HSL:10x5:0:01\"},\"times\":[]}]";
    let mut fetched: Vec<Vec<Departure>> = Vec::new();
    let mut failure = None;
    for (stop, body) in [("1234", good), ("5678", bad)] {
        match stop_departures_from_response(stop, 200, body) {
            Ok(deps) => fetched.push(deps),
            Err(e) => {
                failure = Some(e);
                break;
            },
        }
    }
    let e = failure.expect("the malformed pattern id must abort the run");
    assert_eq!(e.kind, hsl_weever::error::BusErrorKind::PatternFormat);
}
