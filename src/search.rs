use vstd::prelude::*;

use crate::database::Row;
use crate::frames::Frame;

verus! {

/// A query side: a categorical state and a position (float bit patterns).
#[derive(Clone, Copy, Debug, PartialEq, Eq, Structural)]
pub struct SearchSituation {
    pub start_state: u16,
    pub pos_x: u32,
    pub pos_y: u32,
}

#[derive(Clone, Copy, Debug, PartialEq, Eq, Structural)]
pub struct SearchQuery {
    pub player_response: SearchSituation,
    pub opponent_initiation: SearchSituation,
}

/// One side of a classified interaction: the frame it starts on and the
/// codes the classifier gave it.
#[derive(Clone, Copy, Debug, PartialEq, Eq, Structural)]
pub struct ActionRef {
    pub frame_start: usize,
    pub start_state: u16,
    pub action_taken: u16,
}

impl SearchQuery {
    pub open spec fn from_frames_spec(
        player_response: ActionRef,
        opponent_initiation: ActionRef,
        player_frames: Seq<Frame>,
        opponent_frames: Seq<Frame>,
    ) -> SearchQuery {
        SearchQuery {
            player_response: SearchSituation {
                start_state: player_response.start_state,
                pos_x: player_frames[player_response.frame_start as int].position.x,
                pos_y: player_frames[player_response.frame_start as int].position.y,
            },
            opponent_initiation: SearchSituation {
                start_state: opponent_initiation.start_state,
                pos_x: opponent_frames[opponent_initiation.frame_start as int].position.x,
                pos_y: opponent_frames[opponent_initiation.frame_start as int].position.y,
            },
        }
    }

    /// Builds the query for an interaction: each side's state, and the
    /// position its character held on the side's first frame.
    pub fn from_interaction_and_frames(
        player_response: &ActionRef,
        opponent_initiation: &ActionRef,
        player_frames: &[Frame],
        opponent_frames: &[Frame],
    ) -> (r: SearchQuery)
        requires
            player_response.frame_start < player_frames@.len(),
            opponent_initiation.frame_start < opponent_frames@.len(),
        ensures
            r == Self::from_frames_spec(*player_response, *opponent_initiation, player_frames@, opponent_frames@),
    {
        let pl_frame = &player_frames[player_response.frame_start];
        let op_frame = &opponent_frames[opponent_initiation.frame_start];
        SearchQuery {
            player_response: SearchSituation {
                start_state: player_response.start_state,
                pos_x: pl_frame.position.x,
                pos_y: pl_frame.position.y,
            },
            opponent_initiation: SearchSituation {
                start_state: opponent_initiation.start_state,
                pos_x: op_frame.position.x,
                pos_y: op_frame.position.y,
            },
        }
    }
}

/// Both sides of the row are in the query's categorical states.
pub open spec fn same_category(row: Row, query: SearchQuery) -> bool {
    row.player_response.start_state == query.player_response.start_state
        && row.opponent_initiation.start_state == query.opponent_initiation.start_state
}

/// The rows among the first `n` that match `query`, in row order.  `near[i]`
/// tells whether row `i` lies within the distance threshold on both sides.
pub open spec fn matches_upto(rows: Seq<Row>, query: SearchQuery, near: Seq<bool>, n: int) -> Seq<Row>
    decreases n,
{
    if n <= 0 {
        Seq::empty()
    } else {
        let prev = matches_upto(rows, query, near, n - 1);
        if same_category(rows[n - 1], query) && near[n - 1] {
            prev.push(rows[n - 1])
        } else {
            prev
        }
    }
}

pub open spec fn search_result(rows: Seq<Row>, queries: Seq<SearchQuery>, near: Seq<Vec<bool>>) -> Seq<Seq<Row>> {
    Seq::new(queries.len(), |q: int| matches_upto(rows, queries[q], near[q]@, rows.len() as int))
}

/// Groups the rows by query: for each query in order, the rows in their
/// order given whose categorical states equal the query's on both sides
/// and which `near` marks as within the distance threshold.  `near[q][i]`
/// holds for row `i` and query `q` when both squared distances are at most
/// the threshold.
pub fn search(rows: &[Row], queries: &[SearchQuery], near: &Vec<Vec<bool>>) -> (r: Vec<Vec<Row>>)
    requires
        near@.len() == queries@.len(),
        forall|q: int| 0 <= q < near@.len() ==> (#[trigger] near@[q])@.len() == rows@.len(),
    ensures
        r@.len() == queries@.len(),
        forall|q: int| 0 <= q < r@.len() ==> (#[trigger] r@[q])@ == matches_upto(rows@, queries@[q], near@[q]@, rows@.len() as int),
{
    let mut results: Vec<Vec<Row>> = Vec::new();
    let mut q: usize = 0;
    while q < queries.len()
        invariant
            q <= queries@.len(),
            results@.len() == q,
            forall|j: int| 0 <= j < q ==> (#[trigger] results@[j])@.len() == 0,
        decreases queries@.len() - q,
    {
        results.push(Vec::new());
        q += 1;
    }
    let mut i: usize = 0;
    while i < rows.len()
        invariant
            i <= rows@.len(),
            results@.len() == queries@.len(),
            near@.len() == queries@.len(),
            forall|q: int| 0 <= q < near@.len() ==> (#[trigger] near@[q])@.len() == rows@.len(),
            forall|j: int| 0 <= j < results@.len() ==> (#[trigger] results@[j])@ == matches_upto(rows@, queries@[j], near@[j]@, i as int),
        decreases rows@.len() - i,
    {
        let row = rows[i];
        let mut q: usize = 0;
        while q < queries.len()
            invariant
                i < rows@.len(),
                row == rows@[i as int],
                q <= queries@.len(),
                results@.len() == queries@.len(),
                near@.len() == queries@.len(),
                forall|k: int| 0 <= k < near@.len() ==> (#[trigger] near@[k])@.len() == rows@.len(),
                forall|j: int| 0 <= j < q ==> (#[trigger] results@[j])@ == matches_upto(rows@, queries@[j], near@[j]@, i + 1),
                forall|j: int| q <= j < results@.len() ==> (#[trigger] results@[j])@ == matches_upto(rows@, queries@[j], near@[j]@, i as int),
            decreases queries@.len() - q,
        {
            let query = &queries[q];
            if row.player_response.start_state == query.player_response.start_state
                && row.opponent_initiation.start_state == query.opponent_initiation.start_state
                && near[q][i]
            {
                let mut group = results.remove(q);
                group.push(row);
                results.insert(q, group);
                assert(results@[q as int]@ == matches_upto(rows@, queries@[q as int], near@[q as int]@, i + 1));
            } else {
                assert(results@[q as int]@ == matches_upto(rows@, queries@[q as int], near@[q as int]@, i + 1));
            }
            q += 1;
        }
        i += 1;
    }
    results
}

/// Every row of a query's group is in the query's categorical states, so a
/// row whose state differs from the query's on either side is never returned
/// for it, whatever its position.
pub proof fn lemma_category_mismatch_excluded(rows: Seq<Row>, query: SearchQuery, near: Seq<bool>, n: int, row: Row)
    requires
        !same_category(row, query),
    ensures
        forall|k: int| 0 <= k < matches_upto(rows, query, near, n).len() ==> same_category(#[trigger] matches_upto(rows, query, near, n)[k], query),
        !matches_upto(rows, query, near, n).contains(row),
    decreases n,
{
    if n > 0 {
        lemma_category_mismatch_excluded(rows, query, near, n - 1, row);
    }
    let m = matches_upto(rows, query, near, n);
    if m.contains(row) {
        let k = choose|k: int| 0 <= k < m.len() && m[k] == row;
        assert(same_category(m[k], query));
    }
}

/// A row in the query's categorical states that `near` marks is returned.
pub proof fn lemma_near_match_included(rows: Seq<Row>, query: SearchQuery, near: Seq<bool>, i: int)
    requires
        0 <= i < rows.len(),
        i < near.len(),
        same_category(rows[i], query),
        near[i],
    ensures
        matches_upto(rows, query, near, rows.len() as int).contains(rows[i]),
    decreases rows.len() - i,
{
    lemma_prefix_kept(rows, query, near, i + 1, rows.len() as int);
    let m = matches_upto(rows, query, near, i + 1);
    assert(m[m.len() - 1] == rows[i]);
    let full = matches_upto(rows, query, near, rows.len() as int);
    assert(full[m.len() - 1] == rows[i]);
}

proof fn lemma_prefix_kept(rows: Seq<Row>, query: SearchQuery, near: Seq<bool>, a: int, b: int)
    requires
        0 <= a <= b,
    ensures
        matches_upto(rows, query, near, a).len() <= matches_upto(rows, query, near, b).len(),
        forall|k: int| 0 <= k < matches_upto(rows, query, near, a).len() ==> matches_upto(rows, query, near, b)[k] == #[trigger] matches_upto(rows, query, near, a)[k],
    decreases b - a,
{
    if a < b {
        lemma_prefix_kept(rows, query, near, a, b - 1);
    }
}

} // verus!
