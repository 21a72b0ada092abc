use vstd::prelude::*;

use crate::Departure;

verus! {

broadcast use vstd::seq_lib::group_to_multiset_ensures;

/// The set of bus line codes occurring in a batch of departures.
pub open spec fn buses_of(s: Seq<Departure>) -> Set<Seq<char>> {
    Set::new(|b: Seq<char>| exists|k: int| 0 <= k < s.len() && (#[trigger] s[k]).bus@ == b)
}

/// The departures whose bus line is not among the already-seen codes.
pub open spec fn bus_unseen(seen: Set<Seq<char>>) -> spec_fn(Departure) -> bool {
    |d: Departure| !seen.contains(d.bus@)
}

/// Cross-stop deduplication with first-stop priority: from each stop's
/// batch, keep exactly the departures whose bus line no earlier stop
/// mentioned. The seen codes grow only between stops, so duplicates
/// within one stop's own batch are all kept.
pub open spec fn dedup_rec(stops: Seq<Seq<Departure>>, seen: Set<Seq<char>>) -> Seq<Departure>
    decreases stops.len(),
{
    if stops.len() == 0 {
        Seq::empty()
    } else {
        stops[0].filter(bus_unseen(seen)) + dedup_rec(
            stops.drop_first(),
            seen.union(buses_of(stops[0])),
        )
    }
}

pub open spec fn dedup_departures(stops: Seq<Seq<Departure>>) -> Seq<Departure> {
    dedup_rec(stops, Set::empty())
}

/// Stable insertion by timestamp: `d` goes after every element whose
/// timestamp is not larger than its own.
pub open spec fn insert_by_time(s: Seq<Departure>, d: Departure) -> Seq<Departure>
    decreases s.len(),
{
    if s.len() == 0 {
        seq![d]
    } else if s.last().timestamp <= d.timestamp {
        s.push(d)
    } else {
        insert_by_time(s.drop_last(), d).push(s.last())
    }
}

/// Stable sort ascending by timestamp.
pub open spec fn sort_by_time(s: Seq<Departure>) -> Seq<Departure>
    decreases s.len(),
{
    if s.len() == 0 {
        Seq::empty()
    } else {
        insert_by_time(sort_by_time(s.drop_last()), s.last())
    }
}

pub open spec fn time_sorted(s: Seq<Departure>) -> bool {
    forall|i: int, j: int| 0 <= i < j < s.len() ==> s[i].timestamp <= s[j].timestamp
}

/// The departures with one given timestamp.
pub open spec fn at_time(t: i64) -> spec_fn(Departure) -> bool {
    |d: Departure| d.timestamp == t
}

/// What the whole aggregation owes: deduplication across stops in
/// priority order, then a stable chronological sort.
pub open spec fn aggregated(stops: Seq<Seq<Departure>>) -> Seq<Departure> {
    sort_by_time(dedup_departures(stops))
}

proof fn lemma_filter_push<A>(s: Seq<A>, v: A, pred: spec_fn(A) -> bool)
    ensures
        s.push(v).filter(pred) == (if pred(v) {
            s.filter(pred).push(v)
        } else {
            s.filter(pred)
        }),
{
    reveal(Seq::filter);
    assert(s.push(v).drop_last() =~= s);
    assert(s.push(v).last() == v);
}

proof fn lemma_filter_empty<A>(pred: spec_fn(A) -> bool)
    ensures
        Seq::<A>::empty().filter(pred) == Seq::<A>::empty(),
{
    reveal(Seq::filter);
}

proof fn lemma_insert_time_bound(s: Seq<Departure>, d: Departure, bound: i64)
    requires
        forall|i: int| 0 <= i < s.len() ==> s[i].timestamp <= bound,
        d.timestamp <= bound,
    ensures
        forall|i: int|
            0 <= i < insert_by_time(s, d).len() ==> (#[trigger] insert_by_time(s, d)[i]).timestamp
                <= bound,
    decreases s.len(),
{
    let r = insert_by_time(s, d);
    if s.len() == 0 {
        assert forall|i: int| 0 <= i < r.len() implies (#[trigger] r[i]).timestamp <= bound by {
            assert(r[i] == d);
        }
    } else if s.last().timestamp <= d.timestamp {
        assert forall|i: int| 0 <= i < r.len() implies (#[trigger] r[i]).timestamp <= bound by {
            if i < s.len() {
                assert(r[i] == s[i]);
            } else {
                assert(r[i] == d);
            }
        }
    } else {
        lemma_insert_time_bound(s.drop_last(), d, bound);
        let inner = insert_by_time(s.drop_last(), d);
        assert forall|i: int| 0 <= i < r.len() implies (#[trigger] r[i]).timestamp <= bound by {
            if i < inner.len() {
                assert(r[i] == inner[i]);
            } else {
                assert(r[i] == s.last());
            }
        }
    }
}

proof fn lemma_insert_sorted(s: Seq<Departure>, d: Departure)
    requires
        time_sorted(s),
    ensures
        time_sorted(insert_by_time(s, d)),
    decreases s.len(),
{
    if s.len() != 0 && s.last().timestamp > d.timestamp {
        assert(time_sorted(s.drop_last()));
        lemma_insert_sorted(s.drop_last(), d);
        lemma_insert_time_bound(s.drop_last(), d, s.last().timestamp);
    }
}

/// The stable sort really sorts: its result is ascending by timestamp.
pub proof fn lemma_sort_sorted(s: Seq<Departure>)
    ensures
        time_sorted(sort_by_time(s)),
    decreases s.len(),
{
    if s.len() != 0 {
        lemma_sort_sorted(s.drop_last());
        lemma_insert_sorted(sort_by_time(s.drop_last()), s.last());
    }
}

proof fn lemma_insert_multiset(s: Seq<Departure>, d: Departure)
    ensures
        insert_by_time(s, d).to_multiset() == s.to_multiset().insert(d),
    decreases s.len(),
{
    if s.len() == 0 {
        assert(seq![d] =~= Seq::<Departure>::empty().push(d));
        assert(insert_by_time(s, d).to_multiset() =~= s.to_multiset().insert(d));
    } else if s.last().timestamp <= d.timestamp {
        assert(insert_by_time(s, d).to_multiset() =~= s.to_multiset().insert(d));
    } else {
        lemma_insert_multiset(s.drop_last(), d);
        assert(s.drop_last().push(s.last()) =~= s);
        assert(insert_by_time(s, d).to_multiset() =~= s.to_multiset().insert(d));
    }
}

/// The stable sort rearranges and only rearranges: the result holds
/// exactly the input departures, multiplicities included.
pub proof fn lemma_sort_permutes(s: Seq<Departure>)
    ensures
        sort_by_time(s).to_multiset() == s.to_multiset(),
    decreases s.len(),
{
    if s.len() != 0 {
        lemma_sort_permutes(s.drop_last());
        lemma_insert_multiset(sort_by_time(s.drop_last()), s.last());
        assert(s.drop_last().push(s.last()) =~= s);
        assert(sort_by_time(s).to_multiset() =~= s.to_multiset());
    }
}

proof fn lemma_insert_stable(s: Seq<Departure>, d: Departure, t: i64)
    ensures
        insert_by_time(s, d).filter(at_time(t)) == (if d.timestamp == t {
            s.filter(at_time(t)).push(d)
        } else {
            s.filter(at_time(t))
        }),
    decreases s.len(),
{
    if s.len() == 0 {
        assert(seq![d] =~= Seq::<Departure>::empty().push(d));
        assert(s =~= Seq::<Departure>::empty());
        lemma_filter_push(Seq::<Departure>::empty(), d, at_time(t));
        lemma_filter_empty::<Departure>(at_time(t));
    } else if s.last().timestamp <= d.timestamp {
        lemma_filter_push(s, d, at_time(t));
    } else {
        lemma_insert_stable(s.drop_last(), d, t);
        lemma_filter_push(insert_by_time(s.drop_last(), d), s.last(), at_time(t));
        lemma_filter_push(s.drop_last(), s.last(), at_time(t));
        assert(s.drop_last().push(s.last()) =~= s);
    }
}

/// The sort is stable: for any timestamp, the departures carrying it
/// keep their relative input order — the subsequence at that timestamp
/// comes out exactly as it went in.
pub proof fn lemma_sort_stable(s: Seq<Departure>, t: i64)
    ensures
        sort_by_time(s).filter(at_time(t)) == s.filter(at_time(t)),
    decreases s.len(),
{
    if s.len() != 0 {
        lemma_sort_stable(s.drop_last(), t);
        lemma_insert_stable(sort_by_time(s.drop_last()), s.last(), t);
        lemma_filter_push(s.drop_last(), s.last(), at_time(t));
        assert(s.drop_last().push(s.last()) =~= s);
    }
}

proof fn lemma_filter_subset<A>(s: Seq<A>, pred: spec_fn(A) -> bool)
    ensures
        forall|i: int| 0 <= i < s.filter(pred).len() ==> s.contains(#[trigger] s.filter(pred)[i]),
    decreases s.len(),
{
    reveal(Seq::filter);
    if s.len() != 0 {
        lemma_filter_subset(s.drop_last(), pred);
        let out = s.filter(pred);
        let sub = s.drop_last().filter(pred);
        assert forall|i: int| 0 <= i < out.len() implies s.contains(#[trigger] out[i]) by {
            if i < sub.len() {
                assert(s.drop_last().contains(sub[i]));
                let k = choose|k: int| 0 <= k < s.drop_last().len() && s.drop_last()[k] == sub[i];
                assert(s[k] == out[i]);
            } else {
                assert(out[i] == s.last());
                assert(s[s.len() - 1] == s.last());
            }
        }
    }
}

proof fn lemma_buses_of_filter_unseen(s: Seq<Departure>, seen: Set<Seq<char>>)
    ensures
        buses_of(s.filter(bus_unseen(seen))) == buses_of(s).difference(seen),
{
    let kept = s.filter(bus_unseen(seen));
    lemma_filter_subset(s, bus_unseen(seen));
    assert forall|x: Seq<char>| buses_of(kept).contains(x) implies buses_of(s).difference(
        seen,
    ).contains(x) by {
        let k = choose|k: int| 0 <= k < kept.len() && (#[trigger] kept[k]).bus@ == x;
        s.lemma_filter_pred(bus_unseen(seen), k);
        let m = choose|m: int| 0 <= m < s.len() && s[m] == kept[k];
        assert((#[trigger] s[m]).bus@ == x);
    }
    assert forall|x: Seq<char>| buses_of(s).difference(seen).contains(x) implies buses_of(
        kept,
    ).contains(x) by {
        let k = choose|k: int| 0 <= k < s.len() && (#[trigger] s[k]).bus@ == x;
        assert(bus_unseen(seen)(s[k]));
        s.lemma_filter_contains(bus_unseen(seen), k);
        let j = choose|j: int| 0 <= j < kept.len() && kept[j] == s[k];
        assert((#[trigger] kept[j]).bus@ == x);
    }
    assert(buses_of(kept) =~= buses_of(s).difference(seen));
}

proof fn lemma_buses_of_concat(a: Seq<Departure>, b: Seq<Departure>)
    ensures
        buses_of(a + b) == buses_of(a).union(buses_of(b)),
{
    assert forall|x: Seq<char>| buses_of(a + b).contains(x) implies buses_of(a).union(
        buses_of(b),
    ).contains(x) by {
        let k = choose|k: int| 0 <= k < (a + b).len() && (#[trigger] (a + b)[k]).bus@ == x;
        if k < a.len() {
            assert((#[trigger] a[k]).bus@ == x);
        } else {
            assert((#[trigger] b[k - a.len()]).bus@ == x);
        }
    }
    assert forall|x: Seq<char>| buses_of(a).union(buses_of(b)).contains(x) implies buses_of(
        a + b,
    ).contains(x) by {
        if buses_of(a).contains(x) {
            let k = choose|k: int| 0 <= k < a.len() && (#[trigger] a[k]).bus@ == x;
            assert(((a + b)[k]).bus@ == x);
        } else {
            let k = choose|k: int| 0 <= k < b.len() && (#[trigger] b[k]).bus@ == x;
            assert(((a + b)[a.len() + k]).bus@ == x);
        }
    }
    assert(buses_of(a + b) =~= buses_of(a).union(buses_of(b)));
}

/// Every bus line mentioned anywhere in the per-stop batches.
pub open spec fn all_buses(stops: Seq<Seq<Departure>>) -> Set<Seq<char>>
    decreases stops.len(),
{
    if stops.len() == 0 {
        Set::empty()
    } else {
        buses_of(stops[0]).union(all_buses(stops.drop_first()))
    }
}

/// Deduplication drops repeats, never a line: the kept departures
/// mention exactly the bus lines of the input that were not already
/// seen.
pub proof fn lemma_dedup_preserves_lines(stops: Seq<Seq<Departure>>, seen: Set<Seq<char>>)
    ensures
        buses_of(dedup_rec(stops, seen)) == all_buses(stops).difference(seen),
    decreases stops.len(),
{
    if stops.len() == 0 {
        assert(buses_of(dedup_rec(stops, seen)) =~= all_buses(stops).difference(seen));
    } else {
        let kept = stops[0].filter(bus_unseen(seen));
        let rest = dedup_rec(stops.drop_first(), seen.union(buses_of(stops[0])));
        lemma_buses_of_concat(kept, rest);
        lemma_buses_of_filter_unseen(stops[0], seen);
        lemma_dedup_preserves_lines(stops.drop_first(), seen.union(buses_of(stops[0])));
        assert(buses_of(dedup_rec(stops, seen)) =~= all_buses(stops).difference(seen));
    }
}

/// A bus line already seen never re-enters: the deduplicated output
/// mentions no bus line from the seen set it started with.
pub proof fn lemma_dedup_excludes_seen(stops: Seq<Seq<Departure>>, seen: Set<Seq<char>>)
    ensures
        forall|i: int|
            0 <= i < dedup_rec(stops, seen).len() ==> !seen.contains(
                #[trigger] dedup_rec(stops, seen)[i].bus@,
            ),
    decreases stops.len(),
{
    if stops.len() != 0 {
        let kept = stops[0].filter(bus_unseen(seen));
        let rest = dedup_rec(stops.drop_first(), seen.union(buses_of(stops[0])));
        lemma_dedup_excludes_seen(stops.drop_first(), seen.union(buses_of(stops[0])));
        assert forall|i: int| 0 <= i < kept.len() implies !seen.contains(kept[i].bus@) by {
            stops[0].lemma_filter_pred(bus_unseen(seen), i);
        }
        assert forall|i: int|
            0 <= i < dedup_rec(stops, seen).len() implies !seen.contains(
            dedup_rec(stops, seen)[i].bus@,
        ) by {
            if i < kept.len() {
                assert(dedup_rec(stops, seen)[i] == kept[i]);
            } else {
                assert(dedup_rec(stops, seen)[i] == rest[i - kept.len()]);
            }
        }
    }
}

/// The aggregated output is ascending by timestamp.
pub proof fn lemma_aggregated_sorted(stops: Seq<Seq<Departure>>)
    ensures
        time_sorted(aggregated(stops)),
{
    lemma_sort_sorted(dedup_departures(stops));
}

/// The aggregated output holds exactly the departures that survive
/// deduplication, multiplicities included: the sort only rearranges.
pub proof fn lemma_aggregated_permutes(stops: Seq<Seq<Departure>>)
    ensures
        aggregated(stops).to_multiset() == dedup_departures(stops).to_multiset(),
{
    lemma_sort_permutes(dedup_departures(stops));
}

/// The set of bus line codes held by a list of code strings.
spec fn str_set(v: Seq<String>) -> Set<Seq<char>> {
    Set::new(|b: Seq<char>| exists|k: int| 0 <= k < v.len() && (#[trigger] v[k])@ == b)
}

fn seen_contains(seen: &Vec<String>, b: &String) -> (r: bool)
    ensures
        r == str_set(seen@).contains(b@),
{
    let mut i: usize = 0;
    while i < seen.len()
        invariant
            0 <= i <= seen@.len(),
            forall|k: int| 0 <= k < i ==> (#[trigger] seen@[k])@ != b@,
        decreases seen@.len() - i,
    {
        if seen[i].eq(b) {
            return true;
        }
        i += 1;
    }
    false
}

/// Insert one departure into a chronologically sorted list, after every
/// entry whose timestamp is not larger.
#[verifier::loop_isolation(false)]
fn insert_departure(r: &mut Vec<Departure>, d: Departure)
    ensures
        final(r)@ == insert_by_time(old(r)@, d),
{
    let ghost orig = r@;
    let mut i: usize = r.len();
    proof {
        assert(orig.take(orig.len() as int) =~= orig);
        assert(orig.skip(orig.len() as int) =~= Seq::<Departure>::empty());
        assert(insert_by_time(orig.take(orig.len() as int), d) + orig.skip(orig.len() as int)
            =~= insert_by_time(orig, d));
    }
    while i > 0 && r[i - 1].timestamp > d.timestamp
        invariant
            0 <= i <= orig.len(),
            insert_by_time(orig, d) == insert_by_time(orig.take(i as int), d) + orig.skip(i as int),
        decreases i,
    {
        proof {
            assert(orig.take(i as int).drop_last() =~= orig.take(i - 1));
            assert(orig.skip(i - 1) =~= seq![orig[i - 1]] + orig.skip(i as int));
            assert(insert_by_time(orig.take(i - 1), d).push(orig[i - 1]) + orig.skip(i as int)
                =~= insert_by_time(orig.take(i - 1), d) + orig.skip(i - 1));
        }
        i -= 1;
    }
    proof {
        if i > 0 {
            assert(orig.take(i as int).last() == orig[i - 1]);
        }
        assert(insert_by_time(orig.take(i as int), d) =~= orig.take(i as int).push(d));
        assert(orig.take(i as int).push(d) + orig.skip(i as int) =~= orig.insert(i as int, d));
    }
    r.insert(i, d);
}

/// Sort departures ascending by timestamp; the sort is stable.
#[verifier::loop_isolation(false)]
pub fn sort_departures(v: Vec<Departure>) -> (r: Vec<Departure>)
    ensures
        r@ == sort_by_time(v@),
{
    let mut r: Vec<Departure> = Vec::new();
    let mut i: usize = 0;
    while i < v.len()
        invariant
            0 <= i <= v@.len(),
            r@ == sort_by_time(v@.take(i as int)),
        decreases v@.len() - i,
    {
        insert_departure(&mut r, v[i].clone());
        proof {
            assert(v@.take(i + 1).drop_last() =~= v@.take(i as int));
            assert(v@.take(i + 1).last() == v@[i as int]);
        }
        i += 1;
    }
    proof {
        assert(v@.take(v@.len() as int) =~= v@);
    }
    r
}

proof fn lemma_str_set_push(v: Seq<String>, s: String)
    ensures
        str_set(v.push(s)) == str_set(v).insert(s@),
{
    assert forall|b: Seq<char>| str_set(v.push(s)).contains(b) implies str_set(v).insert(
        s@,
    ).contains(b) by {
        let k = choose|k: int| 0 <= k < v.push(s).len() && (#[trigger] v.push(s)[k])@ == b;
        if k < v.len() {
            assert(v[k]@ == b);
        } else {
            assert(v.push(s)[k] == s);
        }
    }
    assert forall|b: Seq<char>| str_set(v).insert(s@).contains(b) implies str_set(
        v.push(s),
    ).contains(b) by {
        if b == s@ {
            assert((v.push(s)[v.len() as int])@ == b);
        } else {
            let k = choose|k: int| 0 <= k < v.len() && (#[trigger] v[k])@ == b;
            assert((v.push(s)[k])@ == b);
        }
    }
    assert(str_set(v.push(s)) =~= str_set(v).insert(s@));
}

proof fn lemma_buses_of_push(s: Seq<Departure>, d: Departure)
    ensures
        buses_of(s.push(d)) == buses_of(s).insert(d.bus@),
{
    assert forall|b: Seq<char>| buses_of(s.push(d)).contains(b) implies buses_of(s).insert(
        d.bus@,
    ).contains(b) by {
        let k = choose|k: int| 0 <= k < s.push(d).len() && (#[trigger] s.push(d)[k]).bus@ == b;
        if k < s.len() {
            assert(s[k].bus@ == b);
        } else {
            assert(s.push(d)[k] == d);
        }
    }
    assert forall|b: Seq<char>| buses_of(s).insert(d.bus@).contains(b) implies buses_of(
        s.push(d),
    ).contains(b) by {
        if b == d.bus@ {
            assert((s.push(d)[s.len() as int]).bus@ == b);
        } else {
            let k = choose|k: int| 0 <= k < s.len() && (#[trigger] s[k]).bus@ == b;
            assert((s.push(d)[k]).bus@ == b);
        }
    }
    assert(buses_of(s.push(d)) =~= buses_of(s).insert(d.bus@));
}

/// The per-stop batches as mathematical sequences.
pub open spec fn stops_view(stops: Seq<Vec<Departure>>) -> Seq<Seq<Departure>> {
    stops.map_values(|v: Vec<Departure>| v@)
}

/// Aggregate the per-stop batches, taken in stop priority order: drop
/// every departure whose bus line an earlier stop already supplied,
/// then sort what is kept ascending by timestamp, stably. The result is
/// a function of the fetched batches alone.
#[verifier::loop_isolation(false)]
pub fn aggregate_departures(fetched: &Vec<Vec<Departure>>) -> (r: Vec<Departure>)
    ensures
        r@ == aggregated(stops_view(fetched@)),
{
    let ghost f = stops_view(fetched@);
    let mut kept: Vec<Departure> = Vec::new();
    let mut seen: Vec<String> = Vec::new();
    let mut i: usize = 0;
    proof {
        assert(f.skip(0) =~= f);
        assert(kept@ + dedup_rec(f, str_set(seen@)) =~= dedup_rec(f, str_set(seen@)));
        assert(str_set(seen@) =~= Set::<Seq<char>>::empty());
    }
    while i < fetched.len()
        invariant
            0 <= i <= f.len(),
            kept@ + dedup_rec(f.skip(i as int), str_set(seen@)) == dedup_departures(f),
        decreases f.len() - i,
    {
        let batch = &fetched[i];
        let ghost pre_seen = str_set(seen@);
        let ghost pre_kept = kept@;
        let ghost pred = bus_unseen(pre_seen);
        proof {
            lemma_filter_empty::<Departure>(pred);
            assert(f[i as int].take(0) =~= Seq::<Departure>::empty());
        }
        // Keep the departures of this stop whose bus line is new.
        let mut j: usize = 0;
        while j < batch.len()
            invariant
                0 <= j <= batch@.len(),
                batch@ == f[i as int],
                i < f.len(),
                str_set(seen@) == pre_seen,
                kept@ == pre_kept + f[i as int].take(j as int).filter(pred),
            decreases batch@.len() - j,
        {
            let d = &batch[j];
            let ghost entry = f[i as int][j as int];
            if !seen_contains(&seen, &d.bus) {
                kept.push(d.clone());
            }
            proof {
                lemma_filter_push(f[i as int].take(j as int), entry, pred);
                assert(f[i as int].take(j + 1) =~= f[i as int].take(j as int).push(entry));
                assert(kept@ =~= pre_kept + f[i as int].take(j + 1).filter(pred));
            }
            j += 1;
        }
        // Record every bus line of this stop as seen.
        let mut j2: usize = 0;
        proof {
            assert(f[i as int].take(f[i as int].len() as int) =~= f[i as int]);
            assert(buses_of(f[i as int].take(0)) =~= Set::<Seq<char>>::empty());
            assert(str_set(seen@) =~= pre_seen.union(buses_of(f[i as int].take(0))));
        }
        while j2 < batch.len()
            invariant
                0 <= j2 <= batch@.len(),
                batch@ == f[i as int],
                i < f.len(),
                kept@ == pre_kept + f[i as int].filter(pred),
                str_set(seen@) == pre_seen.union(buses_of(f[i as int].take(j2 as int))),
            decreases batch@.len() - j2,
        {
            let ghost pre = seen@;
            seen.push(batch[j2].bus.clone());
            proof {
                let entry = f[i as int][j2 as int];
                lemma_str_set_push(pre, entry.bus);
                assert(seen@ == pre.push(entry.bus));
                lemma_buses_of_push(f[i as int].take(j2 as int), entry);
                assert(f[i as int].take(j2 + 1) =~= f[i as int].take(j2 as int).push(entry));
                assert(str_set(seen@) =~= pre_seen.union(buses_of(f[i as int].take(j2 + 1))));
            }
            j2 += 1;
        }
        proof {
            assert(f[i as int].take(f[i as int].len() as int) =~= f[i as int]);
            assert(f.skip(i as int)[0] == f[i as int]);
            assert(f.skip(i as int).drop_first() =~= f.skip(i + 1));
            assert(dedup_rec(f.skip(i as int), pre_seen) == f[i as int].filter(pred) + dedup_rec(
                f.skip(i + 1),
                pre_seen.union(buses_of(f[i as int])),
            ));
            assert((pre_kept + f[i as int].filter(pred)) + dedup_rec(
                f.skip(i + 1),
                str_set(seen@),
            ) =~= pre_kept + dedup_rec(f.skip(i as int), pre_seen));
        }
        i += 1;
    }
    proof {
        assert(f.skip(f.len() as int) =~= Seq::<Seq<Departure>>::empty());
        assert(kept@ + dedup_rec(f.skip(f.len() as int), str_set(seen@)) =~= kept@);
    }
    sort_departures(kept)
}

} // verus!
