use vstd::prelude::*;

use crate::error::{AppError, AppErrorType};
use crate::line::{line_index, link, neighbours, NeighbouringLine, TrainLine};
use crate::station::{station_lines, Station};

verus! {

/// How many lines are not in `visited`.
pub open spec fn unvisited(visited: Set<TrainLine>) -> nat {
    (if visited.contains(TrainLine::B) { 0nat } else { 1nat }) + (if visited.contains(TrainLine::C) {
        0nat
    } else {
        1nat
    }) + (if visited.contains(TrainLine::R) { 0nat } else { 1nat }) + (if visited.contains(
        TrainLine::TP,
    ) {
        0nat
    } else {
        1nat
    }) + (if visited.contains(TrainLine::T) { 0nat } else { 1nat })
}

/// The lines flagged in a table of flags indexed by line.
pub open spec fn flagged(on_path: Seq<bool>) -> Set<TrainLine> {
    Set::new(|l: TrainLine| on_path[line_index(l)])
}

/// The complete line paths found by depth-first search from link `from`,
/// below the partial path `path` whose lines are `visited`, in discovery order.
pub open spec fn dfs_paths(
    from: NeighbouringLine,
    to: TrainLine,
    path: Seq<NeighbouringLine>,
    visited: Set<TrainLine>,
) -> Seq<Seq<NeighbouringLine>>
    decreases unvisited(visited), 0nat,
{
    if visited.contains(from.line) {
        seq![]
    } else if from.line == to {
        seq![path.push(from)]
    } else {
        dfs_over(neighbours(from.line), to, path.push(from), visited.insert(from.line))
    }
}

/// The complete line paths found by searching from each link of `ns` in turn.
pub open spec fn dfs_over(
    ns: Seq<NeighbouringLine>,
    to: TrainLine,
    path: Seq<NeighbouringLine>,
    visited: Set<TrainLine>,
) -> Seq<Seq<NeighbouringLine>>
    decreases unvisited(visited), ns.len() + 1,
{
    if ns.len() == 0 {
        seq![]
    } else {
        dfs_over(ns.drop_last(), to, path, visited) + dfs_paths(ns.last(), to, path, visited)
    }
}

pub open spec fn link_views(v: Seq<Vec<NeighbouringLine>>) -> Seq<Seq<NeighbouringLine>> {
    v.map_values(|p: Vec<NeighbouringLine>| p@)
}

pub open spec fn station_views(v: Seq<Vec<Station>>) -> Seq<Seq<Station>> {
    v.map_values(|p: Vec<Station>| p@)
}

fn copy_links(v: &Vec<NeighbouringLine>) -> (r: Vec<NeighbouringLine>)
    ensures
        r@ == v@,
{
    let mut r: Vec<NeighbouringLine> = Vec::new();
    let mut i: usize = 0;
    while i < v.len()
        invariant
            i <= v@.len(),
            r@ == v@.take(i as int),
        decreases v@.len() - i,
    {
        r.push(v[i]);
        i = i + 1;
        assert(r@ =~= v@.take(i as int));
    }
    assert(v@.take(v@.len() as int) =~= v@);
    r
}

fn dfs(
    from: NeighbouringLine,
    to: TrainLine,
    path: &mut Vec<NeighbouringLine>,
    paths: Vec<Vec<NeighbouringLine>>,
    on_path: &mut Vec<bool>,
    Ghost(budget): Ghost<nat>,
) -> (r: Vec<Vec<NeighbouringLine>>)
    requires
        budget == unvisited(flagged(old(on_path)@)),
        old(on_path)@.len() == 5,
        !old(on_path)@[line_index(from.line)],
    ensures
        final(path)@ == old(path)@,
        final(on_path)@ == old(on_path)@,
        link_views(r@) == link_views(paths@) + dfs_paths(from, to, old(path)@, flagged(old(on_path)@)),
        old(path)@.len() == 0 && flagged(old(on_path)@) == Set::<TrainLine>::empty() ==> forall|k: int|
            paths@.len() <= k < r@.len() ==> distinct_lines(#[trigger] r@[k]@),
    decreases budget,
{
    let ghost path0 = path@;
    let ghost on0 = on_path@;
    let ghost visited = flagged(on0);
    let ghost paths_in = paths;
    let idx = from.line.index();
    path.push(from);
    on_path.set(idx, true);
    assert(flagged(on_path@) =~= visited.insert(from.line));
    let mut paths = paths;
    if from.line == to {
        let ghost before = link_views(paths@);
        paths.push(copy_links(path));
        assert(link_views(paths@) =~= before + seq![path0.push(from)]);
    } else {
        let ns = from.line.neighbour();
        let ghost base = link_views(paths@);
        let ghost below = path@;
        let mut i: usize = 0;
        while i < ns.len()
            invariant
                ns@ == neighbours(from.line),
                i <= ns@.len(),
                path@ == below,
                below == path0.push(from),
                on_path@ == on0.update(idx as int, true),
                idx == line_index(from.line),
                on0.len() == 5,
                !on0[idx as int],
                visited == flagged(on0),
                budget == unvisited(visited),
                flagged(on_path@) == visited.insert(from.line),
                link_views(paths@) == base + dfs_over(
                    ns@.take(i as int),
                    to,
                    below,
                    visited.insert(from.line),
                ),
            decreases ns@.len() - i,
        {
            let n = ns[i];
            assert(ns@.take(i + 1).drop_last() =~= ns@.take(i as int));
            let ghost seen = visited.insert(from.line);
            assert(dfs_over(ns@.take(i + 1), to, below, seen) == dfs_over(ns@.take(i as int), to, below, seen)
                + dfs_paths(n, to, below, seen));
            assert(!visited.contains(from.line));
            assert(unvisited(seen) < unvisited(visited));
            assert(seen.contains(n.line) == on_path@[line_index(n.line)]);
            if !on_path[n.line.index()] {
                paths = dfs(n, to, path, paths, on_path, Ghost(unvisited(seen)));
            } else {
                assert(dfs_paths(n, to, below, seen) =~= seq![]);
            }
            i = i + 1;
            assert(link_views(paths@) =~= base + dfs_over(
                ns@.take(i as int),
                to,
                below,
                visited.insert(from.line),
            ));
        }
        assert(ns@.take(ns@.len() as int) =~= ns@);
    }
    path.pop();
    on_path.set(idx, false);
    assert(path@ =~= path0);
    assert(on_path@ =~= on0);
    proof {
        if path0.len() == 0 && visited == Set::<TrainLine>::empty() {
            lemma_line_paths_simple(from.transit_station, from.line, to);
            assert(from == link(from.line, from.transit_station));
            assert(path0 =~= Seq::<NeighbouringLine>::empty());
            let found = dfs_paths(from, to, path0, visited);
            assert(found == line_paths(from.transit_station, from.line, to));
            assert forall|k: int| paths_in@.len() <= k < paths@.len() implies distinct_lines(
                #[trigger] paths@[k]@,
            ) by {
                assert(link_views(paths@)[k] == paths@[k]@);
                assert(link_views(paths@)[k] == found[k - paths_in@.len()]);
            }
        }
    }
    paths
}


/// The stations of a line path: each link's transit station, then the destination.
pub open spec fn station_path_of(p: Seq<NeighbouringLine>, to: Station) -> Seq<Station> {
    p.map_values(|n: NeighbouringLine| n.transit_station).push(to)
}

/// Whether a line path is kept: it is not empty, its last transit station is
/// not the destination, and its first two transit stations differ.
pub open spec fn keeps(p: Seq<NeighbouringLine>, to: Station) -> bool {
    &&& p.len() > 0
    &&& p.last().transit_station != to
    &&& p.len() >= 2 ==> p[0].transit_station != p[1].transit_station
}

/// The station paths of the kept line paths among `ps`, in order.
pub open spec fn converted(ps: Seq<Seq<NeighbouringLine>>, to: Station) -> Seq<Seq<Station>>
    decreases ps.len(),
{
    if ps.len() == 0 {
        seq![]
    } else {
        let rest = converted(ps.drop_last(), to);
        if keeps(ps.last(), to) {
            rest.push(station_path_of(ps.last(), to))
        } else {
            rest
        }
    }
}

/// The line paths that the search records from origin line `fl` to destination line `tl`.
pub open spec fn line_paths(from: Station, fl: TrainLine, tl: TrainLine) -> Seq<
    Seq<NeighbouringLine>,
> {
    dfs_paths(link(fl, from), tl, seq![], Set::empty())
}

/// The candidate station paths from origin line `fl` to each line of `tls` in turn.
pub open spec fn paths_to_lines(
    from: Station,
    to: Station,
    fl: TrainLine,
    tls: Seq<TrainLine>,
) -> Seq<Seq<Station>>
    decreases tls.len(),
{
    if tls.len() == 0 {
        seq![]
    } else {
        paths_to_lines(from, to, fl, tls.drop_last()) + converted(
            line_paths(from, fl, tls.last()),
            to,
        )
    }
}

/// The candidate station paths from each line of `fls` in turn.
pub open spec fn paths_from_lines(from: Station, to: Station, fls: Seq<TrainLine>) -> Seq<
    Seq<Station>,
>
    decreases fls.len(),
{
    if fls.len() == 0 {
        seq![]
    } else {
        paths_from_lines(from, to, fls.drop_last()) + paths_to_lines(
            from,
            to,
            fls.last(),
            station_lines(to),
        )
    }
}

/// Every candidate station path from `from` to `to`, in the order the search finds them.
pub open spec fn transit_paths(from: Station, to: Station) -> Seq<Seq<Station>> {
    paths_from_lines(from, to, station_lines(from))
}

fn station_path_from(p: &Vec<NeighbouringLine>, to: Station) -> (r: Vec<Station>)
    ensures
        r@ == station_path_of(p@, to),
{
    let mut r: Vec<Station> = Vec::new();
    let mut i: usize = 0;
    while i < p.len()
        invariant
            i <= p@.len(),
            r@ == p@.take(i as int).map_values(|n: NeighbouringLine| n.transit_station),
        decreases p@.len() - i,
    {
        r.push(p[i].transit_station);
        i = i + 1;
        assert(r@ =~= p@.take(i as int).map_values(|n: NeighbouringLine| n.transit_station));
    }
    assert(p@.take(p@.len() as int) =~= p@);
    r.push(to);
    r
}

fn keeps_path(p: &Vec<NeighbouringLine>, to: Station) -> (r: bool)
    ensures
        r == keeps(p@, to),
{
    if p.len() == 0 {
        false
    } else if p[p.len() - 1].transit_station == to {
        false
    } else if p.len() >= 2 {
        p[0].transit_station != p[1].transit_station
    } else {
        true
    }
}

fn append_converted(out: &mut Vec<Vec<Station>>, raw: &Vec<Vec<NeighbouringLine>>, to: Station)
    ensures
        station_views(final(out)@) == station_views(old(out)@) + converted(link_views(raw@), to),
{
    let ghost raws = link_views(raw@);
    let ghost mid = station_views(out@);
    let mut k: usize = 0;
    while k < raw.len()
        invariant
            k <= raw@.len(),
            raws == link_views(raw@),
            station_views(out@) == mid + converted(raws.take(k as int), to),
        decreases raw@.len() - k,
    {
        let ghost prev = station_views(out@);
        assert(raws.take(k + 1).drop_last() =~= raws.take(k as int));
        assert(raws.take(k + 1).last() == raw@[k as int]@);
        if keeps_path(&raw[k], to) {
            let sp = station_path_from(&raw[k], to);
            out.push(sp);
            assert(station_views(out@) =~= prev.push(sp@));
        } else {
            assert(station_views(out@) =~= prev);
        }
        k = k + 1;
        assert(station_views(out@) =~= mid + converted(raws.take(k as int), to));
    }
    assert(raws.take(raw@.len() as int) =~= raws);
}

fn append_from_line(
    out: &mut Vec<Vec<Station>>,
    from: Station,
    to: Station,
    fl: TrainLine,
    tls: &Vec<TrainLine>,
)
    ensures
        station_views(final(out)@) == station_views(old(out)@) + paths_to_lines(from, to, fl, tls@),
{
    let ghost before = station_views(out@);
    let mut j: usize = 0;
    while j < tls.len()
        invariant
            j <= tls@.len(),
            station_views(out@) == before + paths_to_lines(from, to, fl, tls@.take(j as int)),
        decreases tls@.len() - j,
    {
        let tl = tls[j];
        let mut path: Vec<NeighbouringLine> = Vec::new();
        let mut on_path: Vec<bool> = vec![false; 5];
        assert(flagged(on_path@) =~= Set::<TrainLine>::empty());
        let raw = dfs(
            NeighbouringLine { line: fl, transit_station: from },
            tl,
            &mut path,
            Vec::new(),
            &mut on_path,
            Ghost(unvisited(Set::<TrainLine>::empty())),
        );
        assert(link_views(raw@) =~= line_paths(from, fl, tl));
        let ghost prev = station_views(out@);
        append_converted(out, &raw, to);
        j = j + 1;
        assert(tls@.take(j as int).drop_last() =~= tls@.take(j - 1));
        assert(tls@.take(j as int).last() == tl);
        assert(station_views(out@) =~= before + paths_to_lines(from, to, fl, tls@.take(j as int)));
    }
    assert(tls@.take(tls@.len() as int) =~= tls@);
}

/// All candidate station paths from `from` to `to`, in the order the search finds them.
pub fn generate_all_transit_paths(from: Station, to: Station) -> (r: Vec<Vec<Station>>)
    ensures
        station_views(r@) == transit_paths(from, to),
{
    let mut out: Vec<Vec<Station>> = Vec::new();
    let fls = from.line();
    let tls = to.line();
    let mut i: usize = 0;
    while i < fls.len()
        invariant
            fls@ == station_lines(from),
            tls@ == station_lines(to),
            i <= fls@.len(),
            station_views(out@) == paths_from_lines(from, to, fls@.take(i as int)),
        decreases fls@.len() - i,
    {
        let fl = fls[i];
        append_from_line(&mut out, from, to, fl, &tls);
        i = i + 1;
        assert(fls@.take(i as int).drop_last() =~= fls@.take(i - 1));
        assert(fls@.take(i as int).last() == fl);
        assert(station_views(out@) =~= paths_from_lines(from, to, fls@.take(i as int)));
    }
    assert(fls@.take(fls@.len() as int) =~= fls@);
    out
}

/// Each link after the first is one of the neighbours of the line before it.
pub open spec fn chained(q: Seq<NeighbouringLine>) -> bool {
    forall|k: int| 1 <= k < q.len() ==> #[trigger] neighbours(q[k - 1].line).contains(q[k])
}

/// No line occurs twice.
pub open spec fn distinct_lines(q: Seq<NeighbouringLine>) -> bool {
    forall|i: int, j: int| 0 <= i < j < q.len() ==> q[i].line != q[j].line
}

/// The lines of the links of a path.
pub open spec fn lines_on(path: Seq<NeighbouringLine>) -> Set<TrainLine> {
    Set::new(|l: TrainLine| exists|i: int| 0 <= i < path.len() && path[i].line == l)
}

/// A complete line path to `to`: a chain of neighbouring links with no repeated
/// line, whose last link, and only that one, is on `to`.
pub open spec fn complete_path(q: Seq<NeighbouringLine>, to: TrainLine) -> bool {
    &&& q.len() > 0
    &&& chained(q)
    &&& distinct_lines(q)
    &&& q.last().line == to
    &&& forall|k: int| 0 <= k < q.len() - 1 ==> q[k].line != to
}

/// A station path from `from` to `to` of at least two stations, with no two
/// equal stations side by side, whose station before the last is not `to`.
pub open spec fn well_formed_station_path(p: Seq<Station>, from: Station, to: Station) -> bool {
    &&& p.len() >= 2
    &&& p[0] == from
    &&& p.last() == to
    &&& p[p.len() - 2] != to
    &&& forall|k: int| #![trigger p[k], p[k + 1]] 0 <= k < p.len() - 1 ==> p[k] != p[k + 1]
}

/// The topology table is symmetric at transit stations: leaving a line's
/// neighbour at the station where one entered it leads back to that line.
pub proof fn lemma_transit_leads_back(x: TrainLine, a: NeighbouringLine, b: NeighbouringLine)
    requires
        neighbours(x).contains(a),
        neighbours(a.line).contains(b),
        b.transit_station == a.transit_station,
    ensures
        b.line == x,
{
    let i = choose|i: int| 0 <= i < neighbours(x).len() && neighbours(x)[i] == a;
    let j = choose|j: int| 0 <= j < neighbours(a.line).len() && neighbours(a.line)[j] == b;
    match x {
        TrainLine::B => {},
        TrainLine::C => {},
        TrainLine::R => {},
        TrainLine::TP => {},
        TrainLine::T => {},
    }
}

proof fn lemma_dfs_paths_complete(
    from: NeighbouringLine,
    to: TrainLine,
    path: Seq<NeighbouringLine>,
    visited: Set<TrainLine>,
)
    requires
        visited == lines_on(path),
        chained(path),
        distinct_lines(path),
        forall|k: int| 0 <= k < path.len() ==> path[k].line != to,
        path.len() > 0 ==> neighbours(path.last().line).contains(from),
    ensures
        forall|i: int|
            0 <= i < dfs_paths(from, to, path, visited).len() ==> {
                let q = #[trigger] dfs_paths(from, to, path, visited)[i];
                &&& complete_path(q, to)
                &&& q.len() > path.len()
                &&& q[path.len() as int] == from
                &&& forall|k: int| 0 <= k < path.len() ==> q[k] == path[k]
            },
    decreases unvisited(visited), 0nat,
{
    if visited.contains(from.line) {
    } else {
        let p2 = path.push(from);
        assert forall|k: int| 0 <= k < path.len() implies path[k].line != from.line by {
            if path[k].line == from.line {
                assert(lines_on(path).contains(from.line));
            }
        }
        assert(chained(p2)) by {
            assert forall|k: int| 1 <= k < p2.len() implies #[trigger] neighbours(
                p2[k - 1].line,
            ).contains(p2[k]) by {
                if k < path.len() {
                    assert(p2[k] == path[k]);
                }
            }
        }
        assert(distinct_lines(p2)) by {
            assert forall|i: int, j: int| 0 <= i < j < p2.len() implies p2[i].line != p2[j].line by {
                if j < path.len() {
                    assert(p2[i] == path[i] && p2[j] == path[j]);
                } else {
                    assert(p2[i] == path[i]);
                }
            }
        }
        if from.line == to {
            assert(dfs_paths(from, to, path, visited) == seq![p2]);
            assert(complete_path(p2, to)) by {
                assert forall|k: int| 0 <= k < p2.len() - 1 implies p2[k].line != to by {
                    assert(p2[k] == path[k]);
                }
            }
        } else {
            let v2 = visited.insert(from.line);
            assert(v2 =~= lines_on(p2)) by {
                assert forall|l: TrainLine| v2.contains(l) == lines_on(p2).contains(l) by {
                    if lines_on(path).contains(l) {
                        let w = choose|w: int| 0 <= w < path.len() && path[w].line == l;
                        assert(p2[w].line == l);
                    }
                    if l == from.line {
                        assert(p2[path.len() as int].line == l);
                    }
                    if lines_on(p2).contains(l) && l != from.line {
                        let w = choose|w: int| 0 <= w < p2.len() && p2[w].line == l;
                        assert(path[w].line == l);
                    }
                }
            }
            assert forall|i: int| 0 <= i < neighbours(from.line).len() implies neighbours(
                p2.last().line,
            ).contains(neighbours(from.line)[i]) by {}
            lemma_dfs_over_complete(neighbours(from.line), to, p2, v2);
            let r = dfs_paths(from, to, path, visited);
            assert(r == dfs_over(neighbours(from.line), to, p2, v2));
            assert forall|i: int| 0 <= i < r.len() implies {
                let q = #[trigger] r[i];
                &&& complete_path(q, to)
                &&& q.len() > path.len()
                &&& q[path.len() as int] == from
                &&& forall|k: int| 0 <= k < path.len() ==> q[k] == path[k]
            } by {
                let q = r[i];
                assert(q[path.len() as int] == p2[path.len() as int]);
                assert forall|k: int| 0 <= k < path.len() implies q[k] == path[k] by {
                    assert(q[k] == p2[k]);
                }
            }
        }
    }
}

proof fn lemma_dfs_over_complete(
    ns: Seq<NeighbouringLine>,
    to: TrainLine,
    path: Seq<NeighbouringLine>,
    visited: Set<TrainLine>,
)
    requires
        path.len() > 0,
        visited == lines_on(path),
        chained(path),
        distinct_lines(path),
        forall|k: int| 0 <= k < path.len() ==> path[k].line != to,
        forall|i: int| 0 <= i < ns.len() ==> neighbours(path.last().line).contains(ns[i]),
    ensures
        forall|i: int|
            0 <= i < dfs_over(ns, to, path, visited).len() ==> {
                let q = #[trigger] dfs_over(ns, to, path, visited)[i];
                &&& complete_path(q, to)
                &&& q.len() > path.len()
                &&& forall|k: int| 0 <= k < path.len() ==> q[k] == path[k]
            },
    decreases unvisited(visited), ns.len() + 1,
{
    if ns.len() > 0 {
        let init = ns.drop_last();
        assert forall|i: int| 0 <= i < init.len() implies neighbours(path.last().line).contains(
            init[i],
        ) by {
            assert(init[i] == ns[i]);
        }
        assert(neighbours(path.last().line).contains(ns[ns.len() - 1]));
        lemma_dfs_over_complete(init, to, path, visited);
        lemma_dfs_paths_complete(ns.last(), to, path, visited);
        let a = dfs_over(init, to, path, visited);
        let b = dfs_paths(ns.last(), to, path, visited);
        assert(dfs_over(ns, to, path, visited) == a + b);
        assert forall|i: int| 0 <= i < (a + b).len() implies {
            let q = #[trigger] (a + b)[i];
            &&& complete_path(q, to)
            &&& q.len() > path.len()
            &&& forall|k: int| 0 <= k < path.len() ==> q[k] == path[k]
        } by {
            if i < a.len() {
                assert((a + b)[i] == a[i]);
            } else {
                assert((a + b)[i] == b[i - a.len()]);
            }
        }
    }
}

/// Every line path the search records is complete: a chain of neighbouring
/// links from the origin link, ending on the destination line, in which no
/// line occurs twice.
pub proof fn lemma_line_paths_simple(from: Station, fl: TrainLine, tl: TrainLine)
    ensures
        forall|i: int|
            0 <= i < line_paths(from, fl, tl).len() ==> {
                let q = #[trigger] line_paths(from, fl, tl)[i];
                &&& complete_path(q, tl)
                &&& distinct_lines(q)
                &&& q[0] == link(fl, from)
            },
{
    let empty = Seq::<NeighbouringLine>::empty();
    assert(Set::<TrainLine>::empty() =~= lines_on(empty));
    lemma_dfs_paths_complete(link(fl, from), tl, empty, Set::empty());
}

proof fn lemma_station_path_of_kept(q: Seq<NeighbouringLine>, tl: TrainLine, from: Station, to: Station)
    requires
        complete_path(q, tl),
        q[0].transit_station == from,
        keeps(q, to),
    ensures
        well_formed_station_path(station_path_of(q, to), from, to),
{
    let p = station_path_of(q, to);
    assert forall|k: int| #![trigger p[k], p[k + 1]] 0 <= k < p.len() - 1 implies p[k] != p[k + 1] by {
        if k == q.len() - 1 {
        } else if k >= 1 {
            assert(neighbours(q[k - 1].line).contains(q[k]));
            assert(neighbours(q[(k + 1) - 1].line).contains(q[k + 1]));
            if q[k].transit_station == q[k + 1].transit_station {
                lemma_transit_leads_back(q[k - 1].line, q[k], q[k + 1]);
            }
        }
    }
}

proof fn lemma_converted_well_formed(
    ps: Seq<Seq<NeighbouringLine>>,
    tl: TrainLine,
    from: Station,
    to: Station,
)
    requires
        forall|i: int|
            0 <= i < ps.len() ==> complete_path(#[trigger] ps[i], tl) && ps[i][0].transit_station
                == from,
    ensures
        forall|i: int|
            0 <= i < converted(ps, to).len() ==> well_formed_station_path(
                #[trigger] converted(ps, to)[i],
                from,
                to,
            ),
    decreases ps.len(),
{
    if ps.len() > 0 {
        let init = ps.drop_last();
        assert forall|i: int| 0 <= i < init.len() implies complete_path(#[trigger] init[i], tl)
            && init[i][0].transit_station == from by {
            assert(init[i] == ps[i]);
        }
        lemma_converted_well_formed(init, tl, from, to);
        let q = ps[ps.len() - 1];
        let rest = converted(init, to);
        if keeps(q, to) {
            lemma_station_path_of_kept(q, tl, from, to);
            let all = rest.push(station_path_of(q, to));
            assert(converted(ps, to) == all);
            assert forall|i: int| 0 <= i < all.len() implies well_formed_station_path(
                #[trigger] all[i],
                from,
                to,
            ) by {
                if i < rest.len() {
                    assert(all[i] == rest[i]);
                }
            }
        }
    }
}

proof fn lemma_paths_to_lines_well_formed(
    from: Station,
    to: Station,
    fl: TrainLine,
    tls: Seq<TrainLine>,
)
    ensures
        forall|i: int|
            0 <= i < paths_to_lines(from, to, fl, tls).len() ==> well_formed_station_path(
                #[trigger] paths_to_lines(from, to, fl, tls)[i],
                from,
                to,
            ),
    decreases tls.len(),
{
    if tls.len() > 0 {
        lemma_paths_to_lines_well_formed(from, to, fl, tls.drop_last());
        lemma_line_paths_simple(from, fl, tls.last());
        let raw = line_paths(from, fl, tls.last());
        assert forall|i: int| 0 <= i < raw.len() implies complete_path(#[trigger] raw[i], tls.last())
            && raw[i][0].transit_station == from by {}
        lemma_converted_well_formed(raw, tls.last(), from, to);
        let a = paths_to_lines(from, to, fl, tls.drop_last());
        let b = converted(raw, to);
        assert forall|i: int| 0 <= i < (a + b).len() implies well_formed_station_path(
            #[trigger] (a + b)[i],
            from,
            to,
        ) by {
            if i < a.len() {
                assert((a + b)[i] == a[i]);
            } else {
                assert((a + b)[i] == b[i - a.len()]);
            }
        }
    }
}

proof fn lemma_paths_from_lines_well_formed(from: Station, to: Station, fls: Seq<TrainLine>)
    ensures
        forall|i: int|
            0 <= i < paths_from_lines(from, to, fls).len() ==> well_formed_station_path(
                #[trigger] paths_from_lines(from, to, fls)[i],
                from,
                to,
            ),
    decreases fls.len(),
{
    if fls.len() > 0 {
        lemma_paths_from_lines_well_formed(from, to, fls.drop_last());
        lemma_paths_to_lines_well_formed(from, to, fls.last(), station_lines(to));
        let a = paths_from_lines(from, to, fls.drop_last());
        let b = paths_to_lines(from, to, fls.last(), station_lines(to));
        assert forall|i: int| 0 <= i < (a + b).len() implies well_formed_station_path(
            #[trigger] (a + b)[i],
            from,
            to,
        ) by {
            if i < a.len() {
                assert((a + b)[i] == a[i]);
            } else {
                assert((a + b)[i] == b[i - a.len()]);
            }
        }
    }
}

/// Every candidate station path starts at the origin, ends at the destination,
/// has no two equal stations side by side, and its station before the last is
/// not the destination.
pub proof fn lemma_transit_paths_well_formed(from: Station, to: Station)
    ensures
        forall|i: int|
            0 <= i < transit_paths(from, to).len() ==> well_formed_station_path(
                #[trigger] transit_paths(from, to)[i],
                from,
                to,
            ),
{
    lemma_paths_from_lines_well_formed(from, to, station_lines(from));
}

/// All candidate station paths from `from` to `to`; the two must differ.
pub fn generate_all_transit_routes(from: Station, to: Station) -> (r: Result<
    Vec<Vec<Station>>,
    AppError,
>)
    ensures
        from == to <==> r.is_err(),
        match r {
            Ok(paths) => {
                &&& station_views(paths@) == transit_paths(from, to)
                &&& forall|i: int|
                    0 <= i < paths@.len() ==> well_formed_station_path(
                        #[trigger] paths@[i]@,
                        from,
                        to,
                    )
            },
            Err(e) => {
                &&& e.error_type == AppErrorType::InvalidRequestParameter
                &&& e.message.is_some()
                &&& e.message.unwrap()@ == "Station from and station cannot be the same"@
                &&& e.cause.is_none()
            },
        },
{
    if from == to {
        Err(AppError::same_stations())
    } else {
        let paths = generate_all_transit_paths(from, to);
        proof {
            lemma_transit_paths_well_formed(from, to);
            assert forall|i: int| 0 <= i < paths@.len() implies well_formed_station_path(
                #[trigger] paths@[i]@,
                from,
                to,
            ) by {
                assert(station_views(paths@)[i] == paths@[i]@);
            }
        }
        Ok(paths)
    }
}

} // verus!
