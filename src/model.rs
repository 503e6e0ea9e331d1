use vstd::prelude::*;
use vstd::string::StringExecFns;

use crate::error::{AppError, AppErrorType};
use crate::station::{station_code, Station};
use crate::timeofday::{hm_seconds, to_naive_time_hm, TimeOfDay};

verus! {

/// The body of an upstream response: a list of records.
#[derive(Debug)]
pub struct APIResponse<T> {
    pub data: Vec<T>,
}

/// One train stopping at a station, as the upstream reports it.
#[derive(Debug)]
pub struct StationScheduleDTO {
    pub train_id: String,
    pub route_name: String,
    pub time_est: String,
}

/// One stop of one train, as the upstream reports it.
#[derive(Debug)]
pub struct TrainScheduleDTO {
    pub train_id: String,
    pub station_id: String,
    pub time_est: String,
}

/// Fare and distance between two stations, as the upstream reports them.
#[derive(Debug)]
pub struct RouteInfoDTO {
    pub fare: u16,
    pub distance: String,
}

/// One train stopping at a station.
#[derive(Debug)]
pub struct StationSchedule {
    pub train_id: String,
    pub route_name: String,
    pub time_est: TimeOfDay,
}

/// One stop of one train: the train, the station and the estimated time.
#[derive(Debug)]
pub struct TrainSchedule {
    pub train_id: String,
    pub station: Station,
    pub time_est: TimeOfDay,
}

#[derive(Debug)]
pub struct Fare {
    pub fare: u16,
}

/// Whether a station record reads as `s`.
pub open spec fn station_entry_matches(s: StationSchedule, dto: StationScheduleDTO) -> bool {
    &&& s.train_id == dto.train_id
    &&& s.route_name == dto.route_name
    &&& hm_seconds(dto.time_est@) == Some(s.time_est.secs as nat)
    &&& s.time_est.wf()
}

/// Whether a train record names a known station and a valid time.
pub open spec fn train_dto_valid(dto: TrainScheduleDTO) -> bool {
    &&& exists|s: Station| station_code(s) == dto.station_id@
    &&& hm_seconds(dto.time_est@).is_some()
}

/// Whether a train record reads as `t`.
pub open spec fn train_entry_matches(t: TrainSchedule, dto: TrainScheduleDTO) -> bool {
    &&& t.train_id == dto.train_id
    &&& station_code(t.station) == dto.station_id@
    &&& hm_seconds(dto.time_est@) == Some(t.time_est.secs as nat)
    &&& t.time_est.wf()
}

impl StationSchedule {
    pub fn from_dto(value: StationScheduleDTO) -> (r: Result<Self, AppError>)
        ensures
            r.is_ok() <==> hm_seconds(value.time_est@).is_some(),
            match r {
                Ok(s) => station_entry_matches(s, value),
                Err(e) => e.error_type == AppErrorType::InvalidTimeFormat,
            },
    {
        let time_est = to_naive_time_hm(value.time_est.clone())?;
        Ok(StationSchedule { train_id: value.train_id, route_name: value.route_name, time_est })
    }
}

impl TrainSchedule {
    pub fn from_dto(value: TrainScheduleDTO) -> (r: Result<Self, AppError>)
        ensures
            r.is_ok() <==> train_dto_valid(value),
            match r {
                Ok(t) => train_entry_matches(t, value),
                Err(e) => if exists|s: Station| station_code(s) == value.station_id@ {
                    e.error_type == AppErrorType::InvalidTimeFormat
                } else {
                    e.error_type == AppErrorType::NotFoundError
                },
            },
    {
        let station = Station::from_code(value.station_id.as_str())?;
        let time_est = to_naive_time_hm(value.time_est.clone())?;
        Ok(TrainSchedule { train_id: value.train_id, station, time_est })
    }

    /// A copy of this entry.
    pub fn duplicate(&self) -> (r: TrainSchedule)
        ensures
            r == *self,
    {
        TrainSchedule { train_id: self.train_id.clone(), station: self.station, time_est: self.time_est }
    }
}

/// The station records of a response read as schedule entries, in order; the
/// first record with an invalid time fails the whole list.
#[verifier::loop_isolation(false)]
pub fn station_schedules_from_dtos(dtos: Vec<StationScheduleDTO>) -> (r: Result<
    Vec<StationSchedule>,
    AppError,
>)
    ensures
        r.is_ok() <==> forall|i: int|
            0 <= i < dtos@.len() ==> (#[trigger] hm_seconds(dtos@[i].time_est@)).is_some(),
        match r {
            Ok(v) => v@.len() == dtos@.len() && forall|i: int|
                0 <= i < v@.len() ==> station_entry_matches(#[trigger] v@[i], dtos@[i]),
            Err(e) => e.error_type == AppErrorType::InvalidTimeFormat,
        },
{
    let mut dtos = dtos;
    let ghost all = dtos@;
    let n = dtos.len();
    let mut out: Vec<StationSchedule> = Vec::new();
    let mut i: usize = 0;
    while dtos.len() > 0
        invariant
            dtos@ == all.skip(i as int),
            i + dtos@.len() == all.len(),
            all.len() == n,
            out@.len() == i,
            forall|j: int| 0 <= j < i ==> station_entry_matches(#[trigger] out@[j], all[j]),
            forall|j: int| 0 <= j < i ==> (#[trigger] hm_seconds(all[j].time_est@)).is_some(),
        decreases dtos@.len(),
    {
        let d = dtos.remove(0);
        assert(all[i as int] == d);
        match StationSchedule::from_dto(d) {
            Ok(s) => out.push(s),
            Err(e) => {
                assert(hm_seconds(all[i as int].time_est@).is_none());
                return Err(e);
            },
        }
        i = i + 1;
        assert(dtos@ =~= all.skip(i as int));
    }
    Ok(out)
}

/// The stop records of a response read as schedule entries, in order; the first
/// record with an unknown station or an invalid time fails the whole list.
#[verifier::loop_isolation(false)]
pub fn train_schedules_from_dtos(dtos: Vec<TrainScheduleDTO>) -> (r: Result<
    Vec<TrainSchedule>,
    AppError,
>)
    ensures
        r.is_ok() <==> forall|i: int| 0 <= i < dtos@.len() ==> #[trigger] train_dto_valid(dtos@[i]),
        match r {
            Ok(v) => v@.len() == dtos@.len() && forall|i: int|
                0 <= i < v@.len() ==> train_entry_matches(#[trigger] v@[i], dtos@[i]),
            Err(e) => e.error_type == AppErrorType::InvalidTimeFormat || e.error_type
                == AppErrorType::NotFoundError,
        },
{
    let mut dtos = dtos;
    let ghost all = dtos@;
    let n = dtos.len();
    let mut out: Vec<TrainSchedule> = Vec::new();
    let mut i: usize = 0;
    while dtos.len() > 0
        invariant
            dtos@ == all.skip(i as int),
            i + dtos@.len() == all.len(),
            all.len() == n,
            out@.len() == i,
            forall|j: int| 0 <= j < i ==> train_entry_matches(#[trigger] out@[j], all[j]),
            forall|j: int| 0 <= j < i ==> #[trigger] train_dto_valid(all[j]),
        decreases dtos@.len(),
    {
        let d = dtos.remove(0);
        assert(all[i as int] == d);
        match TrainSchedule::from_dto(d) {
            Ok(s) => out.push(s),
            Err(e) => {
                assert(!train_dto_valid(all[i as int]));
                return Err(e);
            },
        }
        i = i + 1;
        assert(dtos@ =~= all.skip(i as int));
    }
    Ok(out)
}

/// The first record of a fare or distance response with HTTP status `status`.
/// A status other than 200, or a response without records, means the upstream
/// reports no route between the stations.
pub fn first_route_info(status: u16, response: APIResponse<RouteInfoDTO>) -> (r: Result<
    RouteInfoDTO,
    AppError,
>)
    ensures
        r.is_ok() <==> status == 200 && response.data@.len() > 0,
        match r {
            Ok(info) => info == response.data@[0],
            Err(e) => e.error_type == AppErrorType::NotFoundError,
        },
{
    if status != 200 {
        return Err(
            AppError {
                message: Some(String::from_str("Failed to fetch route information")),
                cause: None,
                error_type: AppErrorType::NotFoundError,
            },
        );
    }
    let mut data = response.data;
    if data.len() == 0 {
        Err(
            AppError {
                message: Some(String::from_str("No route found between the stations")),
                cause: None,
                error_type: AppErrorType::NotFoundError,
            },
        )
    } else {
        Ok(data.swap_remove(0))
    }
}

impl From<RouteInfoDTO> for Fare {
    fn from(value: RouteInfoDTO) -> (r: Fare)
        ensures
            r.fare == value.fare,
    {
        Fare { fare: value.fare }
    }
}

impl vstd::std_specs::convert::FromSpecImpl<RouteInfoDTO> for Fare {
    open spec fn obeys_from_spec() -> bool {
        true
    }

    open spec fn from_spec(v: RouteInfoDTO) -> Fare {
        Fare { fare: v.fare }
    }
}

} // verus!
