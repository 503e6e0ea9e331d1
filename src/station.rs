use vstd::prelude::*;

use crate::error::{AppError, AppErrorType};
use crate::line::TrainLine;
use crate::text::same_text;
use vstd::string::StringExecFns;

verus! {

/// A station of the network, named by its short code.
#[derive(PartialEq, Eq, Structural, Clone, Copy, Debug, Hash)]
pub enum Station {
    BOO,
    DP,
    MRI,
    JAKK,
    CKR,
    BKS,
    JNG,
    PSE,
    KPB,
    DU,
    THB,
    SRP,
    RK,
    TPK,
    TNG,
}

/// The short code of a station.
pub open spec fn station_code(s: Station) -> Seq<char> {
    match s {
        Station::BOO => "BOO"@,
        Station::DP => "DP"@,
        Station::MRI => "MRI"@,
        Station::JAKK => "JAKK"@,
        Station::CKR => "CKR"@,
        Station::BKS => "BKS"@,
        Station::JNG => "JNG"@,
        Station::PSE => "PSE"@,
        Station::KPB => "KPB"@,
        Station::DU => "DU"@,
        Station::THB => "THB"@,
        Station::SRP => "SRP"@,
        Station::RK => "RK"@,
        Station::TPK => "TPK"@,
        Station::TNG => "TNG"@,
    }
}

/// The display name of a station.
pub open spec fn station_name(s: Station) -> Seq<char> {
    match s {
        Station::BOO => "Bogor"@,
        Station::DP => "Depok"@,
        Station::MRI => "Manggarai"@,
        Station::JAKK => "Jakarta Kota"@,
        Station::CKR => "Cikarang"@,
        Station::BKS => "Bekasi"@,
        Station::JNG => "Jatinegara"@,
        Station::PSE => "Pasar Senen"@,
        Station::KPB => "Kampung Bandan"@,
        Station::DU => "Duri"@,
        Station::THB => "Tanah Abang"@,
        Station::SRP => "Serpong"@,
        Station::RK => "Rangkasbitung"@,
        Station::TPK => "Tanjung Priok"@,
        Station::TNG => "Tangerang"@,
    }
}

/// The lines that serve a station, in table order.
pub open spec fn station_lines(s: Station) -> Seq<TrainLine> {
    match s {
        Station::BOO => seq![TrainLine::B],
        Station::DP => seq![TrainLine::B],
        Station::MRI => seq![TrainLine::B, TrainLine::C],
        Station::JAKK => seq![TrainLine::B, TrainLine::TP],
        Station::CKR => seq![TrainLine::C],
        Station::BKS => seq![TrainLine::C],
        Station::JNG => seq![TrainLine::C],
        Station::PSE => seq![TrainLine::C],
        Station::KPB => seq![TrainLine::C, TrainLine::TP],
        Station::DU => seq![TrainLine::C, TrainLine::T],
        Station::THB => seq![TrainLine::C, TrainLine::R],
        Station::SRP => seq![TrainLine::R],
        Station::RK => seq![TrainLine::R],
        Station::TPK => seq![TrainLine::TP],
        Station::TNG => seq![TrainLine::T],
    }
}

/// The position of a station in table order.
pub open spec fn station_index(s: Station) -> int {
    match s {
        Station::BOO => 0,
        Station::DP => 1,
        Station::MRI => 2,
        Station::JAKK => 3,
        Station::CKR => 4,
        Station::BKS => 5,
        Station::JNG => 6,
        Station::PSE => 7,
        Station::KPB => 8,
        Station::DU => 9,
        Station::THB => 10,
        Station::SRP => 11,
        Station::RK => 12,
        Station::TPK => 13,
        Station::TNG => 14,
    }
}

/// Every station, in table order.
pub open spec fn all_stations() -> Seq<Station> {
    seq![Station::BOO, Station::DP, Station::MRI, Station::JAKK, Station::CKR, Station::BKS, Station::JNG, Station::PSE, Station::KPB, Station::DU, Station::THB, Station::SRP, Station::RK, Station::TPK, Station::TNG]
}

/// Whether a station is listed under an optional line filter, and, when
/// `transit_only` holds, only if more than one line serves it.
pub open spec fn listed(s: Station, line: Option<TrainLine>, transit_only: bool) -> bool {
    &&& match line {
        Some(l) => station_lines(s).contains(l),
        None => true,
    }
    &&& transit_only ==> station_lines(s).len() > 1
}

/// The stations of `ss` that are listed, in order.
pub open spec fn listing(ss: Seq<Station>, line: Option<TrainLine>, transit_only: bool) -> Seq<
    Station,
>
    decreases ss.len(),
{
    if ss.len() == 0 {
        seq![]
    } else if listed(ss.last(), line, transit_only) {
        listing(ss.drop_last(), line, transit_only).push(ss.last())
    } else {
        listing(ss.drop_last(), line, transit_only)
    }
}

impl Station {
    /// Whether line `l` serves this station.
    pub fn served_by(&self, l: TrainLine) -> (r: bool)
        ensures
            r == station_lines(*self).contains(l),
    {
        let lines = self.line();
        let mut i: usize = 0;
        while i < lines.len()
            invariant
                lines@ == station_lines(*self),
                i <= lines@.len(),
                forall|j: int| 0 <= j < i ==> lines@[j] != l,
            decreases lines@.len() - i,
        {
            if lines[i] == l {
                return true;
            }
            i = i + 1;
        }
        false
    }

    /// The display name and code of each listed station, in table order.
    pub fn map_name_to_id(line: Option<TrainLine>, transit_station_only: bool) -> (r: Vec<
        (String, String),
    >)
        ensures
            r@.len() == listing(all_stations(), line, transit_station_only).len(),
            forall|i: int|
                0 <= i < r@.len() ==> {
                    let s = listing(all_stations(), line, transit_station_only)[i];
                    &&& (#[trigger] r@[i]).0@ == station_name(s)
                    &&& r@[i].1@ == station_code(s)
                },
    {
        let all = Station::all();
        let mut out: Vec<(String, String)> = Vec::new();
        let mut i: usize = 0;
        while i < all.len()
            invariant
                all@ == all_stations(),
                i <= all@.len(),
                out@.len() == listing(all@.take(i as int), line, transit_station_only).len(),
                forall|j: int|
                    0 <= j < out@.len() ==> {
                        let s = listing(all@.take(i as int), line, transit_station_only)[j];
                        &&& (#[trigger] out@[j]).0@ == station_name(s)
                        &&& out@[j].1@ == station_code(s)
                    },
            decreases all@.len() - i,
        {
            let s = all[i];
            assert(all@.take(i + 1).drop_last() =~= all@.take(i as int));
            assert(all@.take(i + 1).last() == s);
            let on_line = match line {
                Some(l) => s.served_by(l),
                None => true,
            };
            let keep = on_line && (!transit_station_only || s.line().len() > 1);
            if keep {
                out.push((String::from_str(s.name()), String::from_str(s.id())));
            }
            i = i + 1;
        }
        assert(all@.take(all@.len() as int) =~= all@);
        out
    }

    pub fn id(&self) -> (r: &'static str)
        ensures
            r@ == station_code(*self),
    {
        match *self {
            Station::BOO => "BOO",
            Station::DP => "DP",
            Station::MRI => "MRI",
            Station::JAKK => "JAKK",
            Station::CKR => "CKR",
            Station::BKS => "BKS",
            Station::JNG => "JNG",
            Station::PSE => "PSE",
            Station::KPB => "KPB",
            Station::DU => "DU",
            Station::THB => "THB",
            Station::SRP => "SRP",
            Station::RK => "RK",
            Station::TPK => "TPK",
            Station::TNG => "TNG",
        }
    }

    pub fn name(&self) -> (r: &'static str)
        ensures
            r@ == station_name(*self),
    {
        match *self {
            Station::BOO => "Bogor",
            Station::DP => "Depok",
            Station::MRI => "Manggarai",
            Station::JAKK => "Jakarta Kota",
            Station::CKR => "Cikarang",
            Station::BKS => "Bekasi",
            Station::JNG => "Jatinegara",
            Station::PSE => "Pasar Senen",
            Station::KPB => "Kampung Bandan",
            Station::DU => "Duri",
            Station::THB => "Tanah Abang",
            Station::SRP => "Serpong",
            Station::RK => "Rangkasbitung",
            Station::TPK => "Tanjung Priok",
            Station::TNG => "Tangerang",
        }
    }

    /// The lines that serve this station.
    pub fn line(&self) -> (r: Vec<TrainLine>)
        ensures
            r@ == station_lines(*self),
    {
        match *self {
            Station::BOO => vec![TrainLine::B],
            Station::DP => vec![TrainLine::B],
            Station::MRI => vec![TrainLine::B, TrainLine::C],
            Station::JAKK => vec![TrainLine::B, TrainLine::TP],
            Station::CKR => vec![TrainLine::C],
            Station::BKS => vec![TrainLine::C],
            Station::JNG => vec![TrainLine::C],
            Station::PSE => vec![TrainLine::C],
            Station::KPB => vec![TrainLine::C, TrainLine::TP],
            Station::DU => vec![TrainLine::C, TrainLine::T],
            Station::THB => vec![TrainLine::C, TrainLine::R],
            Station::SRP => vec![TrainLine::R],
            Station::RK => vec![TrainLine::R],
            Station::TPK => vec![TrainLine::TP],
            Station::TNG => vec![TrainLine::T],
        }
    }

    /// Every station, in table order.
    pub fn all() -> (r: Vec<Station>)
        ensures
            r@ == all_stations(),
    {
        vec![Station::BOO, Station::DP, Station::MRI, Station::JAKK, Station::CKR, Station::BKS, Station::JNG, Station::PSE, Station::KPB, Station::DU, Station::THB, Station::SRP, Station::RK, Station::TPK, Station::TNG]
    }

    /// Looks a station up by its short code.
    pub fn from_code(code: &str) -> (r: Result<Station, AppError>)
        ensures
            match r {
                Ok(s) => station_code(s) == code@,
                Err(e) => e.error_type == AppErrorType::NotFoundError && e.message.is_some()
                    && e.message.unwrap()@ == "The requested item was not found"@ && e.cause.is_some()
                    && e.cause.unwrap()@ == "Matching variant not found"@ && forall|s: Station|
                    station_code(s) != code@,
            },
    {
        let all = Station::all();
        let mut i: usize = 0;
        while i < all.len()
            invariant
                all@ == all_stations(),
                i <= all@.len(),
                forall|j: int| 0 <= j < i ==> station_code(#[trigger] all@[j]) != code@,
            decreases all@.len() - i,
        {
            if same_text(all[i].id(), code) {
                return Ok(all[i]);
            }
            i = i + 1;
        }
        proof {
            assert forall|s: Station| station_code(s) != code@ by {
                assert(all@[station_index(s)] == s);
            }
        }
        Err(AppError::unknown_code())
    }
}

} // verus!
