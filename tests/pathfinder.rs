use krl_pathfinder::error::AppErrorType;
use krl_pathfinder::line::{NeighbouringLine, TrainLine};
use krl_pathfinder::pathfinder::{generate_all_transit_paths, generate_all_transit_routes};
use krl_pathfinder::station::Station;

#[test]
fn same_station_is_rejected() {
    for s in Station::all() {
        let r = generate_all_transit_routes(s, s);
        match r {
            Err(e) => {
                assert_eq!(e.error_type, AppErrorType::InvalidRequestParameter);
                assert_eq!(e.message.unwrap(), "Station from and station cannot be the same");
                assert!(e.cause.is_none());
            }
            Ok(_) => panic!("same origin and destination must be rejected"),
        }
    }
}

#[test]
fn bogor_line_to_tanjung_priok_line() {
    let paths = generate_all_transit_routes(Station::BOO, Station::TPK).unwrap();
    assert_eq!(
        paths,
        vec![
            vec![Station::BOO, Station::JAKK, Station::TPK],
            vec![Station::BOO, Station::MRI, Station::KPB, Station::TPK],
        ]
    );
    assert!(paths.contains(&vec![Station::BOO, Station::JAKK, Station::TPK]));
}

#[test]
fn zero_length_first_leg_is_dropped() {
    let paths = generate_all_transit_routes(Station::MRI, Station::TPK).unwrap();
    assert_eq!(
        paths,
        vec![
            vec![Station::MRI, Station::JAKK, Station::TPK],
            vec![Station::MRI, Station::KPB, Station::TPK],
        ]
    );
}

#[test]
fn terminal_transit_hop_is_dropped() {
    let paths = generate_all_transit_routes(Station::BOO, Station::JAKK).unwrap();
    assert_eq!(
        paths,
        vec![
            vec![Station::BOO, Station::JAKK],
            vec![Station::BOO, Station::MRI, Station::KPB, Station::JAKK],
        ]
    );
}

#[test]
fn origin_on_two_lines() {
    let paths = generate_all_transit_routes(Station::JAKK, Station::TPK).unwrap();
    assert_eq!(
        paths,
        vec![
            vec![Station::JAKK, Station::MRI, Station::KPB, Station::TPK],
            vec![Station::JAKK, Station::TPK],
        ]
    );
}

#[test]
fn every_path_is_well_formed() {
    for from in Station::all() {
        for to in Station::all() {
            if from == to {
                continue;
            }
            for p in generate_all_transit_routes(from, to).unwrap() {
                assert!(p.len() >= 2);
                assert_eq!(p[0], from);
                assert_eq!(p[p.len() - 1], to);
                assert_ne!(p[p.len() - 2], to);
                for k in 0..p.len() - 1 {
                    assert_ne!(p[k], p[k + 1]);
                }
            }
        }
    }
}

#[test]
fn every_pair_has_a_path() {
    for from in Station::all() {
        for to in Station::all() {
            if from != to {
                assert!(!generate_all_transit_paths(from, to).is_empty());
            }
        }
    }
}

#[test]
fn neighbour_table() {
    assert_eq!(
        TrainLine::B.neighbour(),
        vec![
            NeighbouringLine { line: TrainLine::TP, transit_station: Station::JAKK },
            NeighbouringLine { line: TrainLine::C, transit_station: Station::MRI },
        ]
    );
    assert_eq!(TrainLine::C.neighbour().len(), 4);
    assert_eq!(
        TrainLine::T.neighbour(),
        vec![NeighbouringLine { line: TrainLine::C, transit_station: Station::DU }]
    );
}

#[test]
fn line_names_and_codes() {
    assert_eq!(TrainLine::TP.name(), "Lin Tanjung Priok");
    assert_eq!(TrainLine::TP.id(), "TP");
    let pairs = TrainLine::map_name_to_id();
    assert_eq!(pairs.len(), 5);
    assert_eq!(pairs[0], ("Lin Bogor".to_string(), "B".to_string()));
    assert_eq!(pairs[4], ("Lin Tangerang".to_string(), "T".to_string()));
}

#[test]
fn codes_look_up() {
    assert_eq!(Station::from_code("JAKK").unwrap(), Station::JAKK);
    assert_eq!(Station::JAKK.name(), "Jakarta Kota");
    assert_eq!(Station::MRI.line(), vec![TrainLine::B, TrainLine::C]);
    assert_eq!(TrainLine::from_code("C").unwrap(), TrainLine::C);
    match Station::from_code("XYZ") {
        Err(e) => {
            assert_eq!(e.error_type, AppErrorType::NotFoundError);
            assert_eq!(e.message.unwrap(), "The requested item was not found");
            assert_eq!(e.cause.unwrap(), "Matching variant not found");
        }
        Ok(_) => panic!("unknown code"),
    }
    match TrainLine::from_code("tp") {
        Err(e) => assert_eq!(e.error_type, AppErrorType::NotFoundError),
        Ok(_) => panic!("codes are case sensitive"),
    }
}

#[test]
fn station_listing_filters() {
    let codes = |pairs: Vec<(String, String)>| pairs.into_iter().map(|p| p.1).collect::<Vec<_>>();
    assert_eq!(codes(Station::map_name_to_id(Some(TrainLine::TP), false)), vec!["JAKK", "KPB", "TPK"]);
    assert_eq!(
        codes(Station::map_name_to_id(None, true)),
        vec!["MRI", "JAKK", "KPB", "DU", "THB"]
    );
    assert_eq!(Station::map_name_to_id(None, false).len(), 15);
    assert_eq!(Station::map_name_to_id(Some(TrainLine::R), true)[0], ("Tanah Abang".to_string(), "THB".to_string()));
}
