//! Choosing the console text mode: the largest one that is at most 120
//! columns wide.
use vstd::prelude::*;

verus! {

/// A text mode that the console offers.
#[derive(Clone, Copy, Debug, PartialEq, Eq, Structural)]
pub struct TextMode {
    pub columns: usize,
    pub rows: usize,
}

/// How much a mode is preferred: its number of cells, and nothing for a
/// mode wider than 120 columns.
pub open spec fn mode_score(m: TextMode) -> int {
    if m.columns > 120 {
        0
    } else {
        m.rows * m.columns
    }
}

/// The cell count of every mode of at most 120 columns fits in a `usize`.
pub open spec fn cell_counts_fit(modes: Seq<TextMode>) -> bool {
    forall|i: int|
        0 <= i < modes.len() && (#[trigger] modes[i]).columns <= 120 ==> modes[i].rows
            * modes[i].columns <= usize::MAX
}

/// `i` is the mode that `Iterator::max_by_key` picks by `mode_score`: one
/// with the highest score, and among those the last.
pub open spec fn is_last_best_mode(modes: Seq<TextMode>, i: int) -> bool {
    &&& 0 <= i < modes.len()
    &&& forall|j: int| 0 <= j < modes.len() ==> mode_score(#[trigger] modes[j]) <= mode_score(modes[i])
    &&& forall|j: int| i < j < modes.len() ==> mode_score(#[trigger] modes[j]) < mode_score(modes[i])
}

fn score(m: &TextMode) -> (s: usize)
    requires
        m.columns <= 120 ==> m.rows * m.columns <= usize::MAX,
    ensures
        s == mode_score(*m),
{
    if m.columns > 120 {
        0
    } else {
        m.rows * m.columns
    }
}

/// The index of the text mode to switch to: the one with the most cells
/// among those of at most 120 columns (a wider mode counts as having none),
/// the last one on a tie; `None` when the console offers no mode.
pub fn best_text_mode(modes: &Vec<TextMode>) -> (r: Option<usize>)
    requires
        cell_counts_fit(modes@),
    ensures
        r is None <==> modes@.len() == 0,
        r matches Some(i) ==> is_last_best_mode(modes@, i as int),
        r matches Some(i) ==> forall|j: int|
            0 <= j < modes@.len() && (#[trigger] modes@[j]).columns <= 120 ==> modes@[j].rows
                * modes@[j].columns <= (if modes@[i as int].columns <= 120 {
                modes@[i as int].rows * modes@[i as int].columns
            } else {
                0
            }),
{
    proof {
        if modes@.len() > 0 {
            assert forall|i: int| is_last_best_mode(modes@, i) implies forall|j: int|
                0 <= j < modes@.len() && (#[trigger] modes@[j]).columns <= 120 ==> modes@[j].rows
                    * modes@[j].columns <= (if modes@[i].columns <= 120 {
                    modes@[i].rows * modes@[i].columns
                } else {
                    0
                }) by {
                lemma_best_mode_has_most_cells(modes@, i);
            }
        }
    }
    if modes.len() == 0 {
        return None;
    }
    let mut best: usize = 0;
    let mut best_score: usize = score(&modes[0]);
    let mut i: usize = 1;
    while i < modes.len()
        invariant
            1 <= i <= modes@.len(),
            cell_counts_fit(modes@),
            best < i,
            best_score == mode_score(modes@[best as int]),
            forall|j: int| 0 <= j < i ==> mode_score(#[trigger] modes@[j]) <= best_score,
            forall|j: int| best < j < i ==> mode_score(#[trigger] modes@[j]) < best_score,
        decreases modes@.len() - i,
    {
        let s = score(&modes[i]);
        if s >= best_score {
            best = i;
            best_score = s;
        }
        i = i + 1;
    }
    Some(best)
}

/// The mode picked has at least as many cells as every mode of at most 120
/// columns (a wider mode being worth nothing), and every later mode has
/// strictly fewer, counting a wider one as none.
pub proof fn lemma_best_mode_has_most_cells(modes: Seq<TextMode>, i: int)
    requires
        is_last_best_mode(modes, i),
    ensures
        forall|j: int|
            0 <= j < modes.len() && (#[trigger] modes[j]).columns <= 120 ==> modes[j].rows
                * modes[j].columns <= (if modes[i].columns <= 120 {
                modes[i].rows * modes[i].columns
            } else {
                0
            }),
        forall|j: int|
            i < j < modes.len() ==> (if (#[trigger] modes[j]).columns <= 120 {
                modes[j].rows * modes[j].columns
            } else {
                0
            }) < (if modes[i].columns <= 120 {
                modes[i].rows * modes[i].columns
            } else {
                0
            }),
{
    assert forall|j: int| 0 <= j < modes.len() && (#[trigger] modes[j]).columns <= 120 implies modes[j].rows
        * modes[j].columns <= (if modes[i].columns <= 120 {
        modes[i].rows * modes[i].columns
    } else {
        0
    }) by {
        assert(mode_score(modes[j]) <= mode_score(modes[i]));
    }
    assert forall|j: int| i < j < modes.len() implies (if (#[trigger] modes[j]).columns <= 120 {
        modes[j].rows * modes[j].columns
    } else {
        0
    }) < (if modes[i].columns <= 120 {
        modes[i].rows * modes[i].columns
    } else {
        0
    }) by {
        assert(mode_score(modes[j]) < mode_score(modes[i]));
    }
}

} // verus!
