use vstd::prelude::*;
use crate::maps::LookupTable;

verus! {

/// Which neighbor a caps proposal is being rewritten for.
#[derive(Clone, Copy, Debug, PartialEq, Eq, Structural)]
pub enum Direction {
    /// The proposal describes the upstream side; the result is for the source pad.
    TowardSource,
    /// The proposal describes the downstream side; the result is for the sink pad.
    TowardDownstream,
}

/// The width and height of one candidate geometry, where it states them.
#[derive(Clone, Copy, Debug, PartialEq, Eq, Structural)]
pub struct Candidate {
    pub width: Option<i32>,
    pub height: Option<i32>,
}

/// Sink-side size remembered across negotiation rounds; zero means unset.
#[derive(Clone, Copy, Debug, PartialEq, Eq, Structural)]
pub struct Memo {
    pub sink_width: i32,
    pub sink_height: i32,
}

impl Memo {
    pub fn new() -> (m: Memo)
        ensures
            m.sink_width == 0,
            m.sink_height == 0,
    {
        Memo { sink_width: 0, sink_height: 0 }
    }
}

/// A table side as a caps dimension, saturated at the largest `i32`.
pub open spec fn caps_dim(n: usize) -> i32 {
    if n > i32::MAX {
        i32::MAX
    } else {
        n as i32
    }
}

fn to_caps_dim(n: usize) -> (r: i32)
    ensures
        r == caps_dim(n),
{
    if n > i32::MAX as usize {
        i32::MAX
    } else {
        n as i32
    }
}

pub open spec fn has_size(c: Candidate) -> bool {
    c.width is Some && c.height is Some
}

/// One candidate rewritten for `dir`, given the table's size and the memo.
pub open spec fn adjust(c: Candidate, dir: Direction, t: LookupTable, m: Memo) -> Candidate {
    if !has_size(c) {
        c
    } else {
        match dir {
            Direction::TowardSource => if t.is_empty_table() {
                c
            } else {
                Candidate { width: Some(caps_dim(t.width)), height: Some(caps_dim(t.height)) }
            },
            Direction::TowardDownstream => Candidate {
                width: Some(
                    if m.sink_width > 0 {
                        m.sink_width
                    } else {
                        c.width->Some_0
                    },
                ),
                height: Some(
                    if m.sink_height > 0 {
                        m.sink_height
                    } else {
                        c.height->Some_0
                    },
                ),
            },
        }
    }
}

/// The memo after recording, in order, every sized candidate of `cs`.
pub open spec fn recorded(cs: Seq<Candidate>, m: Memo) -> Memo
    decreases cs.len(),
{
    if cs.len() == 0 {
        m
    } else {
        let last = cs.last();
        if has_size(last) {
            Memo { sink_width: last.width->Some_0, sink_height: last.height->Some_0 }
        } else {
            recorded(cs.drop_last(), m)
        }
    }
}

/// The memo after a negotiation round in direction `dir`.
pub open spec fn next_memo(cs: Seq<Candidate>, dir: Direction, m: Memo) -> Memo {
    match dir {
        Direction::TowardSource => recorded(cs, m),
        Direction::TowardDownstream => m,
    }
}

/// The candidate list a negotiation round hands back.
pub open spec fn negotiated_caps(
    cs: Seq<Candidate>,
    dir: Direction,
    t: LookupTable,
    m: Memo,
) -> Seq<Candidate> {
    cs.map_values(|c: Candidate| adjust(c, dir, t, m))
}

/// Rewrite one candidate, recording its size when it comes from upstream.
pub fn adjust_candidate(c: Candidate, dir: Direction, table: &LookupTable, memo: &mut Memo) -> (r:
    Candidate)
    requires
        table.wf(),
    ensures
        r == adjust(c, dir, *table, *old(memo)),
        *final(memo) == if dir == Direction::TowardSource && has_size(c) {
            Memo { sink_width: c.width->Some_0, sink_height: c.height->Some_0 }
        } else {
            *old(memo)
        },
{
    match (c.width, c.height) {
        (Some(w), Some(h)) => match dir {
            Direction::TowardSource => {
                memo.sink_width = w;
                memo.sink_height = h;
                if table.is_empty() {
                    c
                } else {
                    Candidate {
                        width: Some(to_caps_dim(table.width)),
                        height: Some(to_caps_dim(table.height)),
                    }
                }
            },
            Direction::TowardDownstream => {
                let out_w = if memo.sink_width > 0 {
                    memo.sink_width
                } else {
                    w
                };
                let out_h = if memo.sink_height > 0 {
                    memo.sink_height
                } else {
                    h
                };
                Candidate { width: Some(out_w), height: Some(out_h) }
            },
        },
        _ => c,
    }
}

/// Rewrite every candidate of a caps proposal for `dir`. Toward the source the
/// size becomes the lookup table's and the proposed size is remembered; toward
/// downstream the remembered size, where set, replaces the proposed one.
pub fn negotiate(cands: &Vec<Candidate>, dir: Direction, table: &LookupTable, memo: &mut Memo) -> (r:
    Vec<Candidate>)
    requires
        table.wf(),
    ensures
        r@ == negotiated_caps(cands@, dir, *table, *old(memo)),
        *final(memo) == next_memo(cands@, dir, *old(memo)),
{
    let mut out: Vec<Candidate> = Vec::with_capacity(cands.len());
    let ghost m0 = *memo;
    let mut i: usize = 0;
    while i < cands.len()
        invariant
            table.wf(),
            i <= cands@.len(),
            out@ == negotiated_caps(cands@.take(i as int), dir, *table, m0),
            *memo == next_memo(cands@.take(i as int), dir, m0),
        decreases cands@.len() - i,
    {
        let ghost before = *memo;
        let c = adjust_candidate(cands[i], dir, table, memo);
        proof {
            assert(adjust(cands@[i as int], dir, *table, before) == adjust(
                cands@[i as int],
                dir,
                *table,
                m0,
            ));
            assert(cands@.take(i + 1).drop_last() =~= cands@.take(i as int));
            assert(cands@.take(i + 1).last() == cands@[i as int]);
        }
        out.push(c);
        i = i + 1;
        proof {
            assert(out@ =~= negotiated_caps(cands@.take(i as int), dir, *table, m0));
        }
    }
    proof {
        assert(cands@.take(cands@.len() as int) =~= cands@);
    }
    out
}

proof fn lemma_recorded_forgets(cs: Seq<Candidate>, m1: Memo, m2: Memo)
    requires
        exists|i: int| 0 <= i < cs.len() && has_size(#[trigger] cs[i]),
    ensures
        recorded(cs, m1) == recorded(cs, m2),
    decreases cs.len(),
{
    if !has_size(cs.last()) {
        let i = choose|i: int| 0 <= i < cs.len() && has_size(#[trigger] cs[i]);
        assert(cs.drop_last()[i] == cs[i]);
        lemma_recorded_forgets(cs.drop_last(), m1, m2);
    }
}

proof fn lemma_recorded_unsized(cs: Seq<Candidate>, m: Memo)
    requires
        forall|i: int| 0 <= i < cs.len() ==> !has_size(#[trigger] cs[i]),
    ensures
        recorded(cs, m) == m,
    decreases cs.len(),
{
    if cs.len() > 0 {
        assert forall|i: int| 0 <= i < cs.drop_last().len() implies !has_size(
            #[trigger] cs.drop_last()[i],
        ) by {
            assert(cs.drop_last()[i] == cs[i]);
        }
        lemma_recorded_unsized(cs.drop_last(), m);
    }
}

/// Negotiating the same proposal again in the same direction, from the memo
/// the first round left, gives the same candidates and the same memo.
pub proof fn lemma_negotiate_idempotent(
    cs: Seq<Candidate>,
    dir: Direction,
    t: LookupTable,
    m: Memo,
)
    ensures
        negotiated_caps(cs, dir, t, next_memo(cs, dir, m)) == negotiated_caps(cs, dir, t, m),
        next_memo(cs, dir, next_memo(cs, dir, m)) == next_memo(cs, dir, m),
{
    let m1 = next_memo(cs, dir, m);
    assert(negotiated_caps(cs, dir, t, m1) =~= negotiated_caps(cs, dir, t, m));
    if dir == Direction::TowardSource {
        if exists|i: int| 0 <= i < cs.len() && has_size(#[trigger] cs[i]) {
            lemma_recorded_forgets(cs, m1, m);
        } else {
            lemma_recorded_unsized(cs, m1);
        }
    }
}

/// Toward the source every sized candidate takes the lookup table's size,
/// whatever size it proposed (a side beyond the largest `i32` saturates).
pub proof fn lemma_source_takes_table_size(
    cs: Seq<Candidate>,
    t: LookupTable,
    m: Memo,
    i: int,
)
    requires
        t.wf(),
        !t.is_empty_table(),
        0 <= i < cs.len(),
        has_size(cs[i]),
    ensures
        negotiated_caps(cs, Direction::TowardSource, t, m)[i].width == Some(caps_dim(t.width)),
        negotiated_caps(cs, Direction::TowardSource, t, m)[i].height == Some(caps_dim(t.height)),
        t.width <= i32::MAX ==> negotiated_caps(cs, Direction::TowardSource, t, m)[i].width->Some_0
            == t.width,
        t.height <= i32::MAX ==> negotiated_caps(cs, Direction::TowardSource, t, m)[i].height->Some_0
            == t.height,
{
}

/// After a round toward the source, a round toward downstream rewrites each
/// sized candidate to the last size proposed from upstream, where that size is
/// positive; with nothing recorded before, sizes pass through unchanged.
pub proof fn lemma_downstream_takes_recorded_size(
    up: Seq<Candidate>,
    down: Seq<Candidate>,
    t: LookupTable,
    m: Memo,
    i: int,
    j: int,
)
    requires
        0 <= i < up.len(),
        has_size(up[i]),
        forall|k: int| i < k < up.len() ==> !has_size(#[trigger] up[k]),
        up[i].width->Some_0 > 0,
        up[i].height->Some_0 > 0,
        0 <= j < down.len(),
        has_size(down[j]),
    ensures
        negotiated_caps(
            down,
            Direction::TowardDownstream,
            t,
            next_memo(up, Direction::TowardSource, m),
        )[j] == up[i],
    decreases up.len(),
{
    if i < up.len() - 1 {
        assert forall|k: int| i < k < up.drop_last().len() implies !has_size(
            #[trigger] up.drop_last()[k],
        ) by {
            assert(up.drop_last()[k] == up[k]);
        }
        assert(up.drop_last()[i] == up[i]);
        assert(!has_size(up[up.len() - 1]));
        lemma_downstream_takes_recorded_size(up.drop_last(), down, t, m, i, j);
    }
}

/// With no size recorded, a round toward downstream leaves every candidate as
/// proposed.
pub proof fn lemma_downstream_passes_through(cs: Seq<Candidate>, t: LookupTable, i: int)
    requires
        0 <= i < cs.len(),
    ensures
        negotiated_caps(cs, Direction::TowardDownstream, t, Memo { sink_width: 0, sink_height: 0 })[i]
            == cs[i],
{
}

} // verus!
