use vstd::prelude::*;
use vstd::string::StringExecFns;

use crate::error::{AppError, AppErrorType};
use crate::station::Station;
use crate::text::same_text;

verus! {

/// A rail line of the network.
#[derive(PartialEq, Eq, Structural, Clone, Copy, Debug, Hash)]
pub enum TrainLine {
    B,
    C,
    R,
    TP,
    T,
}

/// A line adjacent to the line being expanded, and the station where riders
/// change between the two.
#[derive(PartialEq, Eq, Structural, Clone, Copy, Debug)]
pub struct NeighbouringLine {
    pub line: TrainLine,
    pub transit_station: Station,
}

pub open spec fn line_name(l: TrainLine) -> Seq<char> {
    match l {
        TrainLine::B => "Lin Bogor"@,
        TrainLine::C => "Lin Lingkar Cikarang"@,
        TrainLine::R => "Lin Rangkasbitung"@,
        TrainLine::TP => "Lin Tanjung Priok"@,
        TrainLine::T => "Lin Tangerang"@,
    }
}

pub open spec fn line_code(l: TrainLine) -> Seq<char> {
    match l {
        TrainLine::B => "B"@,
        TrainLine::C => "C"@,
        TrainLine::R => "R"@,
        TrainLine::TP => "TP"@,
        TrainLine::T => "T"@,
    }
}

/// The position of a line in table order.
pub open spec fn line_index(l: TrainLine) -> int {
    match l {
        TrainLine::B => 0,
        TrainLine::C => 1,
        TrainLine::R => 2,
        TrainLine::TP => 3,
        TrainLine::T => 4,
    }
}

/// Every line, in table order.
pub open spec fn all_lines() -> Seq<TrainLine> {
    seq![TrainLine::B, TrainLine::C, TrainLine::R, TrainLine::TP, TrainLine::T]
}

pub open spec fn link(line: TrainLine, transit_station: Station) -> NeighbouringLine {
    NeighbouringLine { line, transit_station }
}

/// The lines adjacent to a line, each with its transit station.
pub open spec fn neighbours(l: TrainLine) -> Seq<NeighbouringLine> {
    match l {
        TrainLine::B => seq![link(TrainLine::TP, Station::JAKK), link(TrainLine::C, Station::MRI)],
        TrainLine::C => seq![
            link(TrainLine::TP, Station::KPB),
            link(TrainLine::B, Station::MRI),
            link(TrainLine::T, Station::DU),
            link(TrainLine::R, Station::THB),
        ],
        TrainLine::R => seq![link(TrainLine::C, Station::THB)],
        TrainLine::TP => seq![link(TrainLine::B, Station::JAKK), link(TrainLine::C, Station::KPB)],
        TrainLine::T => seq![link(TrainLine::C, Station::DU)],
    }
}

impl TrainLine {
    pub fn name(&self) -> (r: &'static str)
        ensures
            r@ == line_name(*self),
    {
        match *self {
            TrainLine::B => "Lin Bogor",
            TrainLine::C => "Lin Lingkar Cikarang",
            TrainLine::R => "Lin Rangkasbitung",
            TrainLine::TP => "Lin Tanjung Priok",
            TrainLine::T => "Lin Tangerang",
        }
    }

    pub fn id(&self) -> (r: &'static str)
        ensures
            r@ == line_code(*self),
    {
        match *self {
            TrainLine::B => "B",
            TrainLine::C => "C",
            TrainLine::R => "R",
            TrainLine::TP => "TP",
            TrainLine::T => "T",
        }
    }

    /// The position of this line in table order.
    pub fn index(&self) -> (r: usize)
        ensures
            r == line_index(*self),
    {
        match *self {
            TrainLine::B => 0,
            TrainLine::C => 1,
            TrainLine::R => 2,
            TrainLine::TP => 3,
            TrainLine::T => 4,
        }
    }

    /// The lines adjacent to this one, each with its transit station.
    pub fn neighbour(&self) -> (r: Vec<NeighbouringLine>)
        ensures
            r@ == neighbours(*self),
    {
        match *self {
            TrainLine::B => vec![
                NeighbouringLine { line: TrainLine::TP, transit_station: Station::JAKK },
                NeighbouringLine { line: TrainLine::C, transit_station: Station::MRI },
            ],
            TrainLine::C => vec![
                NeighbouringLine { line: TrainLine::TP, transit_station: Station::KPB },
                NeighbouringLine { line: TrainLine::B, transit_station: Station::MRI },
                NeighbouringLine { line: TrainLine::T, transit_station: Station::DU },
                NeighbouringLine { line: TrainLine::R, transit_station: Station::THB },
            ],
            TrainLine::R => vec![NeighbouringLine { line: TrainLine::C, transit_station: Station::THB }],
            TrainLine::TP => vec![
                NeighbouringLine { line: TrainLine::B, transit_station: Station::JAKK },
                NeighbouringLine { line: TrainLine::C, transit_station: Station::KPB },
            ],
            TrainLine::T => vec![NeighbouringLine { line: TrainLine::C, transit_station: Station::DU }],
        }
    }

    /// Every line, in table order.
    pub fn all() -> (r: Vec<TrainLine>)
        ensures
            r@ == all_lines(),
    {
        vec![TrainLine::B, TrainLine::C, TrainLine::R, TrainLine::TP, TrainLine::T]
    }

    /// Each line's display name paired with its code, in table order.
    pub fn map_name_to_id() -> (r: Vec<(String, String)>)
        ensures
            r@.len() == all_lines().len(),
            forall|i: int|
                0 <= i < r@.len() ==> (#[trigger] r@[i]).0@ == line_name(all_lines()[i])
                    && r@[i].1@ == line_code(all_lines()[i]),
    {
        let all = TrainLine::all();
        let mut out: Vec<(String, String)> = Vec::new();
        let mut i: usize = 0;
        while i < all.len()
            invariant
                all@ == all_lines(),
                i <= all@.len(),
                out@.len() == i,
                forall|j: int|
                    0 <= j < i ==> (#[trigger] out@[j]).0@ == line_name(all_lines()[j])
                        && out@[j].1@ == line_code(all_lines()[j]),
            decreases all@.len() - i,
        {
            let l = all[i];
            out.push((String::from_str(l.name()), String::from_str(l.id())));
            i = i + 1;
        }
        out
    }

    /// Looks a line up by its short code.
    pub fn from_code(code: &str) -> (r: Result<TrainLine, AppError>)
        ensures
            match r {
                Ok(l) => line_code(l) == code@,
                Err(e) => e.error_type == AppErrorType::NotFoundError && e.message.is_some()
                    && e.message.unwrap()@ == "The requested item was not found"@ && e.cause.is_some()
                    && e.cause.unwrap()@ == "Matching variant not found"@ && forall|l: TrainLine|
                    line_code(l) != code@,
            },
    {
        let all = TrainLine::all();
        let mut i: usize = 0;
        while i < all.len()
            invariant
                all@ == all_lines(),
                i <= all@.len(),
                forall|j: int| 0 <= j < i ==> line_code(#[trigger] all@[j]) != code@,
            decreases all@.len() - i,
        {
            if same_text(all[i].id(), code) {
                return Ok(all[i]);
            }
            i = i + 1;
        }
        proof {
            assert forall|l: TrainLine| line_code(l) != code@ by {
                assert(all@[line_index(l)] == l);
            }
        }
        Err(AppError::unknown_code())
    }
}

} // verus!
