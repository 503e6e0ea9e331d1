use vstd::prelude::*;
use vstd::string::StringExecFns;

use crate::error::{AppError, AppErrorType};
use crate::model::TrainSchedule;
use crate::station::{station_code, station_name, Station};
use crate::timeofday::{TimeOfDay, SECONDS_PER_DAY};

verus! {

/// Whether the train stops at `from` and, at some later stop, at `to`.
pub open spec fn makes_trip(stops: Seq<TrainSchedule>, from: Station, to: Station) -> bool {
    exists|a: int, b: int|
        0 <= a < b < stops.len() && #[trigger] stops[a].station == from && #[trigger] stops[b].station
            == to
}

/// The first index at or after `i` whose stop is at `to` and comes after a
/// stop at `from`, or the length; `seen` tells whether a stop before `i` is at `from`.
pub open spec fn trip_end(stops: Seq<TrainSchedule>, from: Station, to: Station, i: int, seen: bool) -> int
    decreases stops.len() - i,
{
    if i < 0 || i >= stops.len() {
        stops.len() as int
    } else if seen && stops[i].station == to {
        i
    } else {
        trip_end(stops, from, to, i + 1, seen || stops[i].station == from)
    }
}

/// The last index at or before `i` whose stop is at `st`, or -1.
pub open spec fn last_stop_at(stops: Seq<TrainSchedule>, st: Station, i: int) -> int
    decreases i + 1,
{
    if i < 0 {
        -1
    } else if stops[i].station == st {
        i
    } else {
        last_stop_at(stops, st, i - 1)
    }
}

/// The stops of one train from its last stop at `from` before the first stop
/// at `to` that follows a stop at `from`, through that stop at `to`.
pub open spec fn leg_of(stops: Seq<TrainSchedule>, from: Station, to: Station) -> Option<
    Seq<TrainSchedule>,
> {
    let stop = trip_end(stops, from, to, 0, false);
    if stop < stops.len() {
        Some(stops.subrange(last_stop_at(stops, from, stop - 1), stop + 1))
    } else {
        None
    }
}

/// The internal cause given when no train runs between two stations.
pub open spec fn no_train_cause(from: Station, to: Station) -> Seq<char> {
    "No train found from "@ + station_name(from) + "("@ + station_code(from) + ") to "@
        + station_name(to) + "("@ + station_code(to) + ")"@
}

fn copy_range(stops: &Vec<TrainSchedule>, start: usize, end: usize) -> (r: Vec<TrainSchedule>)
    requires
        start <= end <= stops@.len(),
    ensures
        r@ == stops@.subrange(start as int, end as int),
{
    let mut r: Vec<TrainSchedule> = Vec::new();
    let mut i: usize = start;
    while i < end
        invariant
            start <= i <= end <= stops@.len(),
            r@ == stops@.subrange(start as int, i as int),
        decreases end - i,
    {
        r.push(stops[i].duplicate());
        i = i + 1;
        assert(r@ =~= stops@.subrange(start as int, i as int));
    }
    r
}

/// The part of one train's stop list that rides from `from` to `to`, if any.
pub fn train_leg(stops: &Vec<TrainSchedule>, from: Station, to: Station) -> (r: Option<
    Vec<TrainSchedule>,
>)
    ensures
        r.is_some() <==> makes_trip(stops@, from, to),
        match r {
            Some(v) => leg_of(stops@, from, to) == Some(v@),
            None => leg_of(stops@, from, to).is_none(),
        },
{
    let n = stops.len();
    let mut start: Option<usize> = None;
    let mut i: usize = 0;
    while i < n
        invariant
            n == stops@.len(),
            i <= n,
            trip_end(stops@, from, to, 0, false) == trip_end(stops@, from, to, i as int, start.is_some()),
            match start {
                Some(s) => s < i && last_stop_at(stops@, from, i - 1) == s && stops@[s as int].station
                    == from,
                None => last_stop_at(stops@, from, i - 1) == -1 && forall|a: int|
                    0 <= a < i ==> #[trigger] stops@[a].station != from,
            },
            forall|a: int, b: int|
                0 <= a < b < i ==> !(#[trigger] stops@[a].station == from && #[trigger] stops@[b].station
                    == to),
        decreases n - i,
    {
        if stops[i].station == to {
            match start {
                Some(s) => {
                    assert(stops@[s as int].station == from && stops@[i as int].station == to);
                    return Some(copy_range(stops, s, i + 1));
                },
                None => {},
            }
        }
        if stops[i].station == from {
            start = Some(i);
        }
        i = i + 1;
    }
    None
}

/// The first train to make the trip from `from` to `to`, given the stop lists
/// of the candidate trains in departure order: the stops of that train from
/// `from` through `to`.
pub fn get_first_train_schedule_to_station_same_line(
    trains: &Vec<Vec<TrainSchedule>>,
    from: Station,
    to: Station,
) -> (r: Result<Vec<TrainSchedule>, AppError>)
    ensures
        r.is_ok() <==> exists|k: int|
            0 <= k < trains@.len() && #[trigger] makes_trip(trains@[k]@, from, to),
        match r {
            Ok(v) => exists|k: int|
                0 <= k < trains@.len() && leg_of(trains@[k]@, from, to) == Some(v@) && forall|j: int|
                    0 <= j < k ==> !#[trigger] makes_trip(trains@[j]@, from, to),
            Err(e) => e.error_type == AppErrorType::NotFoundError && e.cause.is_some()
                && e.cause.unwrap()@ == no_train_cause(from, to),
        },
{
    let mut k: usize = 0;
    while k < trains.len()
        invariant
            k <= trains@.len(),
            forall|j: int| 0 <= j < k ==> !#[trigger] makes_trip(trains@[j]@, from, to),
        decreases trains@.len() - k,
    {
        match train_leg(&trains[k], from, to) {
            Some(v) => {
                return Ok(v);
            },
            None => {},
        }
        k = k + 1;
    }
    let mut cause = String::from_str("No train found from ");
    cause.append(from.name());
    cause.append("(");
    cause.append(from.id());
    cause.append(") to ");
    cause.append(to.name());
    cause.append("(");
    cause.append(to.id());
    cause.append(")");
    Err(AppError { message: None, cause: Some(cause), error_type: AppErrorType::NotFoundError })
}

/// The legs of an itinerary joined end to end, in order.
pub open spec fn joined(legs: Seq<Seq<TrainSchedule>>) -> Seq<TrainSchedule>
    decreases legs.len(),
{
    if legs.len() == 0 {
        seq![]
    } else {
        joined(legs.drop_last()) + legs.last()
    }
}

/// The earliest departure for the leg after one that ends with `last`: its
/// time plus the transfer buffer, on the clock.
pub open spec fn departure_after(last: TrainSchedule, transfer_secs: u32) -> int {
    (last.time_est.secs + transfer_secs) % (SECONDS_PER_DAY as int)
}

/// The earliest departure asked for leg `k` of an itinerary that starts at `start`.
pub open spec fn departure_for(
    legs: Seq<Seq<TrainSchedule>>,
    start: TimeOfDay,
    transfer_secs: u32,
    k: int,
) -> int {
    if k == 0 {
        start.secs as int
    } else {
        departure_after(legs[k - 1].last(), transfer_secs)
    }
}

/// Entries whose times never decrease.
pub open spec fn time_ordered(s: Seq<TrainSchedule>) -> bool {
    forall|i: int, j: int|
        #![trigger s[i], s[j]]
        0 <= i <= j < s.len() ==> s[i].time_est.secs <= s[j].time_est.secs
}

/// Appends a resolved leg to an itinerary under construction, and gives the
/// earliest departure for the next leg: the leg's arrival plus the transfer buffer.
pub fn append_leg(itinerary: &mut Vec<TrainSchedule>, leg: Vec<TrainSchedule>, transfer_secs: u32) -> (r: TimeOfDay)
    requires
        leg@.len() > 0,
    ensures
        final(itinerary)@ == old(itinerary)@ + leg@,
        r.wf(),
        r.secs == departure_after(leg@.last(), transfer_secs),
{
    let arrival = leg[leg.len() - 1].time_est;
    let mut leg = leg;
    itinerary.append(&mut leg);
    arrival.plus_seconds(transfer_secs)
}

proof fn lemma_joined_last(legs: Seq<Seq<TrainSchedule>>)
    requires
        legs.len() > 0,
        legs.last().len() > 0,
    ensures
        joined(legs).len() > 0,
        joined(legs).last() == legs.last().last(),
{
}

proof fn lemma_concat_time_ordered(a: Seq<TrainSchedule>, b: Seq<TrainSchedule>)
    requires
        time_ordered(a),
        time_ordered(b),
        b.len() > 0,
        a.len() > 0 ==> a.last().time_est.secs <= b[0].time_est.secs,
    ensures
        time_ordered(a + b),
{
    assert forall|i: int, j: int| 0 <= i <= j < (a + b).len() implies (a + b)[i].time_est.secs
        <= (a + b)[j].time_est.secs by {
        if j < a.len() {
            assert((a + b)[i] == a[i] && (a + b)[j] == a[j]);
        } else if i >= a.len() {
            assert((a + b)[i] == b[i - a.len()] && (a + b)[j] == b[j - a.len()]);
        } else {
            assert((a + b)[i] == a[i] && (a + b)[j] == b[j - a.len()]);
            assert(a[i].time_est.secs <= a[a.len() - 1].time_est.secs);
            assert(b[0].time_est.secs <= b[j - a.len()].time_est.secs);
        }
    }
}

/// Legs that run forward in time, each departing no earlier than the
/// departure asked for it, and each arriving at least the transfer buffer
/// before midnight.
pub open spec fn legs_as_asked(
    legs: Seq<Seq<TrainSchedule>>,
    start: TimeOfDay,
    transfer_secs: u32,
) -> bool {
    forall|k: int|
        0 <= k < legs.len() ==> {
            &&& (#[trigger] legs[k]).len() > 0
            &&& time_ordered(legs[k])
            &&& legs[k][0].time_est.secs >= departure_for(legs, start, transfer_secs, k)
            &&& legs[k].last().time_est.secs + transfer_secs < SECONDS_PER_DAY
        }
}

proof fn lemma_joined_time_ordered(
    legs: Seq<Seq<TrainSchedule>>,
    start: TimeOfDay,
    transfer_secs: u32,
)
    requires
        legs_as_asked(legs, start, transfer_secs),
    ensures
        time_ordered(joined(legs)),
    decreases legs.len(),
{
    if legs.len() > 0 {
        let init = legs.drop_last();
        assert(legs_as_asked(init, start, transfer_secs)) by {
            assert forall|k: int| 0 <= k < init.len() implies {
                &&& (#[trigger] init[k]).len() > 0
                &&& time_ordered(init[k])
                &&& init[k][0].time_est.secs >= departure_for(init, start, transfer_secs, k)
                &&& init[k].last().time_est.secs + transfer_secs < SECONDS_PER_DAY
            } by {
                assert(init[k] == legs[k]);
                if k > 0 {
                    assert(init[k - 1] == legs[k - 1]);
                }
            }
        }
        lemma_joined_time_ordered(init, start, transfer_secs);
        let b = legs[legs.len() - 1];
        assert(legs.last() == b);
        if init.len() > 0 {
            lemma_joined_last(init);
            let prev = legs[legs.len() - 2];
            assert(init.last() == prev);
            vstd::arithmetic::div_mod::lemma_small_mod(
                (prev.last().time_est.secs + transfer_secs) as nat,
                SECONDS_PER_DAY as nat,
            );
        }
        lemma_concat_time_ordered(joined(init), b);
    }
}

/// When each leg runs forward in time, departs no earlier than the departure
/// asked for it, and arrives at least the transfer buffer before midnight,
/// the joined itinerary runs forward in time and each leg departs at least
/// the transfer buffer after the previous leg arrives.
pub proof fn lemma_itinerary_time_ordered(
    legs: Seq<Seq<TrainSchedule>>,
    start: TimeOfDay,
    transfer_secs: u32,
)
    requires
        legs_as_asked(legs, start, transfer_secs),
    ensures
        time_ordered(joined(legs)),
        forall|k: int|
            1 <= k < legs.len() ==> (#[trigger] legs[k])[0].time_est.secs >= legs[k
                - 1].last().time_est.secs + transfer_secs,
{
    assert forall|k: int| 1 <= k < legs.len() implies (#[trigger] legs[k])[0].time_est.secs
        >= legs[k - 1].last().time_est.secs + transfer_secs by {
        let prev = legs[k - 1];
        assert(prev.last().time_est.secs + transfer_secs < SECONDS_PER_DAY);
        vstd::arithmetic::div_mod::lemma_small_mod(
            (prev.last().time_est.secs + transfer_secs) as nat,
            SECONDS_PER_DAY as nat,
        );
    }
    lemma_joined_time_ordered(legs, start, transfer_secs);
}

pub open spec fn itinerary_views(v: Seq<Vec<TrainSchedule>>) -> Seq<Seq<TrainSchedule>> {
    v.map_values(|p: Vec<TrainSchedule>| p@)
}

/// The elapsed time of an itinerary, from its first entry to its last.
pub open spec fn duration(it: Seq<TrainSchedule>) -> int {
    it.last().time_est.secs - it[0].time_est.secs
}

/// Whether itinerary `k` is the first of the non-empty ones with the least duration.
pub open spec fn is_fastest(its: Seq<Seq<TrainSchedule>>, k: int) -> bool {
    &&& 0 <= k < its.len()
    &&& its[k].len() > 0
    &&& forall|j: int|
        0 <= j < its.len() && (#[trigger] its[j]).len() > 0 ==> duration(its[k]) <= duration(
            its[j],
        )
    &&& forall|j: int|
        0 <= j < k && (#[trigger] its[j]).len() > 0 ==> duration(its[k]) < duration(its[j])
}

/// The internal cause given when no itinerary joins two stations.
pub open spec fn no_path_cause(from: Station, to: Station) -> Seq<char> {
    "No path found from "@ + station_name(from) + "("@ + station_code(from) + ") to "@
        + station_name(to) + "("@ + station_code(to) + ")"@
}

/// The index of the first non-empty itinerary with the least duration, if any.
fn fastest_index(itineraries: &Vec<Vec<TrainSchedule>>) -> (r: Option<usize>)
    ensures
        match r {
            Some(b) => is_fastest(itinerary_views(itineraries@), b as int),
            None => forall|j: int|
                0 <= j < itineraries@.len() ==> (#[trigger] itineraries@[j])@.len() == 0,
        },
{
    let ghost its = itinerary_views(itineraries@);
    let mut best: Option<usize> = None;
    let mut best_time: i64 = 0;
    let mut i: usize = 0;
    while i < itineraries.len()
        invariant
            i <= itineraries@.len(),
            its == itinerary_views(itineraries@),
            match best {
                None => forall|j: int| 0 <= j < i ==> (#[trigger] its[j]).len() == 0,
                Some(b) => b < i && best_time == duration(its[b as int]) && is_fastest(
                    its.take(i as int),
                    b as int,
                ),
            },
        decreases itineraries@.len() - i,
    {
        let it = &itineraries[i];
        assert(its[i as int] == it@);
        if it.len() > 0 {
            let d = it[it.len() - 1].time_est.seconds_since(&it[0].time_est);
            let better = match best {
                None => true,
                Some(_) => d < best_time,
            };
            if better {
                best = Some(i);
                best_time = d;
            }
        }
        i = i + 1;
        assert forall|j: int| 0 <= j < i implies #[trigger] its.take(i as int)[j] == its[j] by {}
        match best {
            Some(b) => {
                assert forall|j: int| 0 <= j < i - 1 implies #[trigger] its.take(i - 1)[j]
                    == its[j] by {}
            },
            None => {},
        }
    }
    assert(its.take(itineraries@.len() as int) =~= its);
    match best {
        None => {
            assert forall|j: int| 0 <= j < itineraries@.len() implies (#[trigger] itineraries@[j])@.len() == 0 by {
                assert(its[j] == itineraries@[j]@);
            }
        },
        Some(b) => {},
    }
    best
}

/// Picks, among the itineraries built for the candidate paths, the first
/// non-empty one with the least duration; origin and destination must differ.
pub fn choose_fastest_path(
    itineraries: Vec<Vec<TrainSchedule>>,
    station_from: Station,
    station_to: Station,
) -> (r: Result<Vec<TrainSchedule>, AppError>)
    ensures
        r.is_ok() <==> station_from != station_to && exists|k: int|
            0 <= k < itineraries@.len() && (#[trigger] itineraries@[k])@.len() > 0,
        match r {
            Ok(v) => exists|k: int|
                is_fastest(itinerary_views(itineraries@), k) && v@ == itineraries@[k]@,
            Err(e) => if station_from == station_to {
                &&& e.error_type == AppErrorType::InvalidRequestParameter
                &&& e.message.is_some()
                &&& e.message.unwrap()@ == "Station from and station cannot be the same"@
                &&& e.cause.is_none()
            } else {
                &&& e.error_type == AppErrorType::NotFoundError
                &&& e.cause.is_some()
                &&& e.cause.unwrap()@ == no_path_cause(station_from, station_to)
            },
        },
{
    if station_from == station_to {
        return Err(AppError::same_stations());
    }
    match fastest_index(&itineraries) {
        Some(b) => {
            let ghost all = itineraries@;
            assert(itinerary_views(all)[b as int] == all[b as int]@);
            assert(all[b as int]@.len() > 0);
            let mut rest = itineraries;
            let v = rest.swap_remove(b);
            Ok(v)
        },
        None => {
            let mut cause = String::from_str("No path found from ");
            cause.append(station_from.name());
            cause.append("(");
            cause.append(station_from.id());
            cause.append(") to ");
            cause.append(station_to.name());
            cause.append("(");
            cause.append(station_to.id());
            cause.append(")");
            Err(
                AppError {
                    message: None,
                    cause: Some(cause),
                    error_type: AppErrorType::NotFoundError,
                },
            )
        },
    }
}

} // verus!
