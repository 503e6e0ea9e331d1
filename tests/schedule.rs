use krl_pathfinder::error::{AppError, AppErrorType};
use krl_pathfinder::itinerary::{append_leg, choose_fastest_path, get_first_train_schedule_to_station_same_line, train_leg};
use krl_pathfinder::model::{
    first_route_info, station_schedules_from_dtos, train_schedules_from_dtos, APIResponse, Fare,
    RouteInfoDTO, StationScheduleDTO, TrainSchedule, TrainScheduleDTO,
};
use krl_pathfinder::station::Station;
use krl_pathfinder::timeofday::TimeOfDay;

fn stop(train: &str, station: Station, secs: u32) -> TrainSchedule {
    TrainSchedule { train_id: train.to_string(), station, time_est: TimeOfDay { secs } }
}

fn stations(v: &[TrainSchedule]) -> Vec<Station> {
    v.iter().map(|s| s.station).collect()
}

#[test]
fn leg_runs_from_origin_to_destination() {
    let stops = vec![
        stop("1", Station::BOO, 100),
        stop("1", Station::DP, 200),
        stop("1", Station::MRI, 300),
        stop("1", Station::JAKK, 400),
    ];
    let leg = train_leg(&stops, Station::DP, Station::JAKK).unwrap();
    assert_eq!(stations(&leg), vec![Station::DP, Station::MRI, Station::JAKK]);
    assert_eq!(leg[0].time_est.secs, 200);
    assert!(train_leg(&stops, Station::JAKK, Station::DP).is_none());
    assert!(train_leg(&stops, Station::DP, Station::TPK).is_none());
    assert!(train_leg(&stops, Station::THB, Station::JAKK).is_none());
}

#[test]
fn first_train_that_makes_the_trip_is_chosen() {
    let wrong_way = vec![stop("1", Station::JAKK, 100), stop("1", Station::MRI, 200)];
    let right_way = vec![stop("2", Station::MRI, 300), stop("2", Station::JAKK, 400)];
    let later = vec![stop("3", Station::MRI, 500), stop("3", Station::JAKK, 600)];
    let leg = get_first_train_schedule_to_station_same_line(
        &vec![wrong_way, right_way, later],
        Station::MRI,
        Station::JAKK,
    )
    .unwrap();
    assert_eq!(leg.len(), 2);
    assert_eq!(leg[0].train_id, "2");
    assert_eq!(leg[1].time_est.secs, 400);
}

#[test]
fn no_train_late_at_night_is_not_found() {
    let e = get_first_train_schedule_to_station_same_line(&vec![], Station::BOO, Station::JAKK)
        .unwrap_err();
    assert_eq!(e.error_type, AppErrorType::NotFoundError);
    assert_eq!(e.cause.unwrap(), "No train found from Bogor(BOO) to Jakarta Kota(JAKK)");
    assert!(e.message.is_none());
}

#[test]
fn legs_chain_with_transfer_buffer() {
    let mut itinerary = Vec::new();
    let next = append_leg(
        &mut itinerary,
        vec![stop("1", Station::BOO, 100), stop("1", Station::JAKK, 400)],
        300,
    );
    assert_eq!(next.secs, 700);
    let next2 = append_leg(
        &mut itinerary,
        vec![stop("2", Station::JAKK, 700), stop("2", Station::TPK, 900)],
        300,
    );
    assert_eq!(next2.secs, 1200);
    assert_eq!(stations(&itinerary), vec![Station::BOO, Station::JAKK, Station::JAKK, Station::TPK]);
    for k in 0..itinerary.len() - 1 {
        assert!(itinerary[k].time_est.secs <= itinerary[k + 1].time_est.secs);
    }
    let late = append_leg(&mut Vec::new(), vec![stop("3", Station::MRI, 86300)], 200);
    assert_eq!(late.secs, 100);
}

#[test]
fn fastest_itinerary_is_chosen() {
    let slow = vec![stop("1", Station::BOO, 100), stop("1", Station::TPK, 130)];
    let fast = vec![stop("2", Station::BOO, 200), stop("2", Station::TPK, 220)];
    let tie = vec![stop("3", Station::BOO, 50), stop("3", Station::TPK, 70)];
    let best = choose_fastest_path(vec![slow, vec![], fast, tie], Station::BOO, Station::TPK).unwrap();
    assert_eq!(best[0].train_id, "2");
}

#[test]
fn no_itinerary_is_not_found() {
    let e = choose_fastest_path(vec![vec![], vec![]], Station::BOO, Station::TPK).unwrap_err();
    assert_eq!(e.error_type, AppErrorType::NotFoundError);
    assert_eq!(e.cause.unwrap(), "No path found from Bogor(BOO) to Tanjung Priok(TPK)");
}

#[test]
fn route_lookup_without_route_is_not_found() {
    let e = first_route_info(200, APIResponse { data: vec![] }).unwrap_err();
    assert_eq!(e.error_type, AppErrorType::NotFoundError);
    let e = first_route_info(404, APIResponse { data: vec![] }).unwrap_err();
    assert_eq!(e.error_type, AppErrorType::NotFoundError);
    let e = first_route_info(
        500,
        APIResponse { data: vec![RouteInfoDTO { fare: 3000, distance: "1".to_string() }] },
    )
    .unwrap_err();
    assert_eq!(e.error_type, AppErrorType::NotFoundError);
    let info = first_route_info(200, APIResponse {
        data: vec![RouteInfoDTO { fare: 5000, distance: "12.5".to_string() }],
    })
    .unwrap();
    assert_eq!(Fare::from(info).fare, 5000);
}

#[test]
fn train_records_are_read() {
    let dto = |station: &str, time: &str| TrainScheduleDTO {
        train_id: "1234".to_string(),
        station_id: station.to_string(),
        time_est: time.to_string(),
    };
    let v = train_schedules_from_dtos(vec![dto("BOO", "05:00"), dto("DP", "05:20")]).unwrap();
    assert_eq!(v[1].station, Station::DP);
    assert_eq!(v[1].time_est.secs, 5 * 3600 + 20 * 60);
    let e = train_schedules_from_dtos(vec![dto("BOO", "05:00"), dto("NOPE", "05:20")]).unwrap_err();
    assert_eq!(e.error_type, AppErrorType::NotFoundError);
    let e = train_schedules_from_dtos(vec![dto("BOO", "5")]).unwrap_err();
    assert_eq!(e.error_type, AppErrorType::InvalidTimeFormat);
}

#[test]
fn station_records_are_read() {
    let dto = StationScheduleDTO {
        train_id: "1234".to_string(),
        route_name: "BOGOR-JAKARTAKOTA".to_string(),
        time_est: "06:15:00".to_string(),
    };
    let v = station_schedules_from_dtos(vec![dto]).unwrap();
    assert_eq!(v[0].time_est.secs, 6 * 3600 + 15 * 60);
    assert_eq!(v[0].route_name, "BOGOR-JAKARTAKOTA");
}

#[test]
fn error_messages_and_statuses() {
    let e = |t: AppErrorType| AppError { message: None, cause: None, error_type: t };
    assert_eq!(e(AppErrorType::NotFoundError).message(), "The requested item was not found");
    assert_eq!(e(AppErrorType::ReqwestError).message(), "An unexpected error has occurred");
    assert_eq!(e(AppErrorType::NotFoundError).status_code(), 404);
    assert_eq!(e(AppErrorType::ReqwestError).status_code(), 500);
    assert_eq!(e(AppErrorType::InvalidTimeFormat).status_code(), 500);
    assert_eq!(e(AppErrorType::InvalidRequestParameter).status_code(), 400);
    let m = AppError { message: Some("x".to_string()), cause: None, error_type: AppErrorType::ReqwestError };
    assert_eq!(m.message(), "x");
}

#[test]
fn ring_train_passing_destination_first_is_used() {
    let ring = vec![
        stop("7", Station::KPB, 100),
        stop("7", Station::MRI, 200),
        stop("7", Station::JNG, 300),
        stop("7", Station::KPB, 400),
        stop("7", Station::DU, 500),
    ];
    let leg = train_leg(&ring, Station::MRI, Station::KPB).unwrap();
    assert_eq!(stations(&leg), vec![Station::MRI, Station::JNG, Station::KPB]);
    assert_eq!(leg[2].time_est.secs, 400);
    let chosen = get_first_train_schedule_to_station_same_line(&vec![ring], Station::MRI, Station::KPB)
        .unwrap();
    assert_eq!(chosen[0].time_est.secs, 200);
}

#[test]
fn leg_starts_at_last_origin_stop_before_destination() {
    let stops = vec![
        stop("8", Station::MRI, 100),
        stop("8", Station::JNG, 200),
        stop("8", Station::MRI, 300),
        stop("8", Station::KPB, 400),
    ];
    let leg = train_leg(&stops, Station::MRI, Station::KPB).unwrap();
    assert_eq!(leg[0].time_est.secs, 300);
    assert_eq!(leg.len(), 2);
}

#[test]
fn fastest_path_rejects_same_station() {
    let it = vec![stop("1", Station::BOO, 100), stop("1", Station::DP, 130)];
    let e = choose_fastest_path(vec![it], Station::BOO, Station::BOO).unwrap_err();
    assert_eq!(e.error_type, AppErrorType::InvalidRequestParameter);
    assert_eq!(e.message.unwrap(), "Station from and station cannot be the same");
    assert!(e.cause.is_none());
}
