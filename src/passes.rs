//! Boustrophedon order: swath lines are flown one after another, every other one backwards.
use crate::geometry::within;
use crate::waypoint::{Waypoint, POSITION_LIMIT};
use vstd::prelude::*;

verus! {

/// Number of non-empty lines.
pub open spec fn pass_count(lines: Seq<Seq<Waypoint>>) -> nat
    decreases lines.len(),
{
    if lines.len() == 0 {
        0
    } else {
        pass_count(lines.drop_last()) + if lines.last().len() > 0 {
            1nat
        } else {
            0nat
        }
    }
}

/// The lines in order, each non-empty line appended as it is when an even number of
/// non-empty lines precede it, and reversed when an odd number does.
pub open spec fn serpentine(lines: Seq<Seq<Waypoint>>) -> Seq<Waypoint>
    decreases lines.len(),
{
    if lines.len() == 0 {
        Seq::empty()
    } else {
        let prev = serpentine(lines.drop_last());
        let l = lines.last();
        if l.len() == 0 {
            prev
        } else if pass_count(lines.drop_last()) % 2 == 0 {
            prev + l
        } else {
            prev + l.reverse()
        }
    }
}

/// The non-empty lines, in order.
pub open spec fn passes(lines: Seq<Seq<Waypoint>>) -> Seq<Seq<Waypoint>>
    decreases lines.len(),
{
    if lines.len() == 0 {
        Seq::empty()
    } else {
        let p = passes(lines.drop_last());
        if lines.last().len() > 0 {
            p.push(lines.last())
        } else {
            p
        }
    }
}

/// Pass `k` as flown: forwards when `k` is even, backwards when odd.
pub open spec fn flown(pass: Seq<Waypoint>, k: int) -> Seq<Waypoint> {
    if k % 2 == 0 {
        pass
    } else {
        pass.reverse()
    }
}

/// The passes as flown, one after the other.
pub open spec fn concat_flown(ps: Seq<Seq<Waypoint>>) -> Seq<Waypoint>
    decreases ps.len(),
{
    if ps.len() == 0 {
        Seq::empty()
    } else {
        concat_flown(ps.drop_last()) + flown(ps.last(), ps.len() - 1)
    }
}

/// Stations never decrease along `l`.
pub open spec fn stations_rising(l: Seq<Waypoint>) -> bool {
    forall|a: int, b: int| 0 <= a <= b < l.len() ==> l[a].station <= l[b].station
}

/// Stations never increase along `l`.
pub open spec fn stations_falling(l: Seq<Waypoint>) -> bool {
    forall|a: int, b: int| 0 <= a <= b < l.len() ==> l[a].station >= l[b].station
}

/// The flight over `lines` alternates: it is the non-empty lines one after another, each
/// even-numbered one flown by rising station and each odd-numbered one by falling station.
pub open spec fn alternating(lines: Seq<Seq<Waypoint>>) -> bool {
    &&& serpentine(lines) == concat_flown(passes(lines))
    &&& passes(lines).len() == pass_count(lines)
    &&& forall|k: int|
        0 <= k < passes(lines).len() ==> #[trigger] passes(lines)[k].len() > 0 && (k % 2 == 0
            ==> stations_rising(flown(passes(lines)[k], k))) && (k % 2 == 1 ==> stations_falling(
            flown(passes(lines)[k], k),
        ))
}

proof fn lemma_passes_shape(lines: Seq<Seq<Waypoint>>)
    ensures
        passes(lines).len() == pass_count(lines),
        serpentine(lines) == concat_flown(passes(lines)),
        forall|k: int|
            0 <= k < passes(lines).len() ==> exists|j: int|
                0 <= j < lines.len() && #[trigger] passes(lines)[k] == lines[j],
        forall|k: int| 0 <= k < passes(lines).len() ==> #[trigger] passes(lines)[k].len() > 0,
    decreases lines.len(),
{
    if lines.len() > 0 {
        let prev = lines.drop_last();
        lemma_passes_shape(prev);
        let p = passes(prev);
        if lines.last().len() > 0 {
            let q = p.push(lines.last());
            assert(q.drop_last() =~= p);
            assert forall|k: int| 0 <= k < q.len() implies exists|j: int|
                0 <= j < lines.len() && #[trigger] q[k] == lines[j] by {
                if k < p.len() {
                    let j = choose|j: int| 0 <= j < prev.len() && p[k] == prev[j];
                    assert(q[k] == lines[j]);
                } else {
                    assert(q[k] == lines[lines.len() - 1]);
                }
            }
        } else {
            assert forall|k: int| 0 <= k < p.len() implies exists|j: int|
                0 <= j < lines.len() && #[trigger] p[k] == lines[j] by {
                let j = choose|j: int| 0 <= j < prev.len() && p[k] == prev[j];
                assert(p[k] == lines[j]);
            }
        }
    }
}

/// Boustrophedon order. The flight is the non-empty swath lines one after another, empty
/// lines taking no turn; when the waypoints of every line are listed by rising station, the
/// passes taken in turn alternate between the two ends of the sweep: every even-numbered
/// pass runs with the sweep direction and every odd-numbered one against it.
pub proof fn lemma_boustrophedon(lines: Seq<Seq<Waypoint>>)
    requires
        forall|j: int| 0 <= j < lines.len() ==> stations_rising(#[trigger] lines[j]),
    ensures
        alternating(lines),
{
    lemma_passes_shape(lines);
    assert forall|k: int| 0 <= k < passes(lines).len() implies #[trigger] passes(lines)[k].len()
        > 0 && (k % 2 == 0 ==> stations_rising(flown(passes(lines)[k], k))) && (k % 2 == 1
        ==> stations_falling(flown(passes(lines)[k], k))) by {
        let j = choose|j: int| 0 <= j < lines.len() && passes(lines)[k] == lines[j];
        let l = lines[j];
        assert(stations_rising(l));
        if k % 2 == 1 {
            let r = l.reverse();
            assert forall|a: int, b: int| 0 <= a <= b < r.len() implies r[a].station
                >= r[b].station by {
                assert(r[a] == l[l.len() - 1 - a]);
                assert(r[b] == l[l.len() - 1 - b]);
            }
        }
    }
}

/// The waypoints of all lines in boustrophedon order.
pub fn order_passes(lines: &Vec<Vec<Waypoint>>) -> (r: Vec<Waypoint>)
    ensures
        r@ == serpentine(lines@.map_values(|l: Vec<Waypoint>| l@)),
        (forall|j: int, t: int|
            0 <= j < lines.len() && 0 <= t < lines[j].len() ==> within(
                #[trigger] lines[j][t].position,
                POSITION_LIMIT as int,
            )) ==> forall|k: int| 0 <= k < r.len() ==> within(#[trigger] r[k].position, POSITION_LIMIT as int),
{
    let ghost bounded = forall|j: int, t: int|
        0 <= j < lines.len() && 0 <= t < lines[j].len() ==> within(
            #[trigger] lines[j][t].position,
            POSITION_LIMIT as int,
        );
    let ghost view = lines@.map_values(|l: Vec<Waypoint>| l@);
    let mut out: Vec<Waypoint> = Vec::new();
    let mut count: usize = 0;
    let mut i: usize = 0;
    while i < lines.len()
        invariant
            view == lines@.map_values(|l: Vec<Waypoint>| l@),
            0 <= i <= lines.len(),
            out@ == serpentine(view.take(i as int)),
            count == pass_count(view.take(i as int)),
            count <= i,
            bounded == (forall|j: int, t: int|
                0 <= j < lines.len() && 0 <= t < lines[j].len() ==> within(
                    #[trigger] lines[j][t].position,
                    POSITION_LIMIT as int,
                )),
            bounded ==> forall|k: int| 0 <= k < out.len() ==> within(#[trigger] out[k].position, POSITION_LIMIT as int),
        decreases lines.len() - i,
    {
        let line = &lines[i];
        proof {
            assert(view.take(i as int + 1).drop_last() =~= view.take(i as int));
            assert(view.take(i as int + 1).last() == line@);
        }
        if line.len() > 0 {
            if count % 2 == 0 {
                let mut j: usize = 0;
                let ghost base = out@;
                while j < line.len()
                    invariant
                        0 <= j <= line.len(),
                        out@ == base + line@.take(j as int),
                        *line == lines[i as int],
                        i < lines.len(),
                        bounded == (forall|j: int, t: int|
                            0 <= j < lines.len() && 0 <= t < lines[j].len() ==> within(
                                #[trigger] lines[j][t].position,
                                POSITION_LIMIT as int,
                            )),
                        bounded ==> forall|k: int| 0 <= k < out.len() ==> within(#[trigger] out[k].position, POSITION_LIMIT as int),
                    decreases line.len() - j,
                {
                    proof {
                        if bounded {
                            assert(within(lines[i as int][j as int].position, POSITION_LIMIT as int));
                        }
                    }
                    out.push(line[j]);
                    proof {
                        assert(line@.take(j as int + 1) =~= line@.take(j as int).push(line@[j as int]));
                    }
                    j = j + 1;
                }
                assert(line@.take(line.len() as int) =~= line@);
            } else {
                let mut j: usize = line.len();
                let ghost base = out@;
                while j > 0
                    invariant
                        0 <= j <= line.len(),
                        out@ == base + line@.reverse().take((line.len() - j) as int),
                        *line == lines[i as int],
                        i < lines.len(),
                        bounded == (forall|j: int, t: int|
                            0 <= j < lines.len() && 0 <= t < lines[j].len() ==> within(
                                #[trigger] lines[j][t].position,
                                POSITION_LIMIT as int,
                            )),
                        bounded ==> forall|k: int| 0 <= k < out.len() ==> within(#[trigger] out[k].position, POSITION_LIMIT as int),
                    decreases j,
                {
                    j = j - 1;
                    proof {
                        if bounded {
                            assert(within(lines[i as int][j as int].position, POSITION_LIMIT as int));
                        }
                    }
                    out.push(line[j]);
                    proof {
                        let rv = line@.reverse();
                        let t = (line.len() - j) as int;
                        assert(rv[t - 1] == line@[j as int]);
                        assert(rv.take(t) =~= rv.take(t - 1).push(rv[t - 1]));
                    }
                }
                assert(line@.reverse().take(line.len() as int) =~= line@.reverse());
            }
            count = count + 1;
        }
        i = i + 1;
    }
    assert(view.take(lines.len() as int) =~= view);
    out
}

} // verus!
