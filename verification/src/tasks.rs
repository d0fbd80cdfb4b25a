//! Task queries over a document: how many task items its top-level lists
//! hold, and how many of them are complete.
use vstd::prelude::*;
use crate::{lemma_blocks_view_index, lemma_items_view_index, Block, BlockV, ListItemV, Nodo};

verus! {

/// How many task items there are, and how many are complete.
#[derive(Debug, PartialEq, Eq, Structural)]
pub struct TaskCount {
    pub completed: u32,
    pub total: u32,
}

/// The task items among `items` from position `j` on; `done_only` restricts
/// the count to complete ones.
pub open spec fn items_task_count(items: Seq<ListItemV>, j: int, done_only: bool) -> int
    decreases items.len() - j,
{
    if j < 0 || j >= items.len() {
        0
    } else {
        (match items[j].task {
            Some(done) => if !done_only || done { 1int } else { 0int },
            None => 0int,
        }) + items_task_count(items, j + 1, done_only)
    }
}

/// The task items of the top-level lists among `bs` from position `k` on.
/// Lists nested inside other blocks are intentionally not descended into.
pub open spec fn doc_task_count(bs: Seq<BlockV>, k: int, done_only: bool) -> int
    decreases bs.len() - k,
{
    if k < 0 || k >= bs.len() {
        0
    } else {
        (match bs[k] {
            BlockV::List(_, items) => items_task_count(items, 0, done_only),
            _ => 0int,
        }) + doc_task_count(bs, k + 1, done_only)
    }
}

/// The total number of task items in a document's top-level lists.
pub open spec fn task_total(d: Seq<BlockV>) -> int {
    doc_task_count(d, 0, false)
}

/// The number of complete task items in a document's top-level lists.
pub open spec fn task_completed(d: Seq<BlockV>) -> int {
    doc_task_count(d, 0, true)
}

/// Counts over a suffix of items are non-negative, and the complete ones
/// never outnumber the counted ones.
pub proof fn lemma_items_task_count_bounds(items: Seq<ListItemV>, j: int)
    ensures
        0 <= items_task_count(items, j, true) <= items_task_count(items, j, false),
        items_task_count(items, j, false) <= items.len() - j || items_task_count(
            items,
            j,
            false,
        ) == 0,
    decreases items.len() - j,
{
    if 0 <= j < items.len() {
        lemma_items_task_count_bounds(items, j + 1);
    }
}

/// Counts over a suffix of blocks are non-negative, and the complete ones
/// never outnumber the counted ones.
pub proof fn lemma_doc_task_count_bounds(bs: Seq<BlockV>, k: int)
    ensures
        0 <= doc_task_count(bs, k, true) <= doc_task_count(bs, k, false),
    decreases bs.len() - k,
{
    if 0 <= k < bs.len() {
        lemma_doc_task_count_bounds(bs, k + 1);
        match bs[k] {
            BlockV::List(_, items) => {
                lemma_items_task_count_bounds(items, 0);
            },
            _ => {},
        }
    }
}

/// For every document, the task tally is well-formed: no fewer than zero
/// items are complete, and no more than there are task items at all.
pub proof fn lemma_task_count_bounds(d: Seq<BlockV>)
    ensures
        0 <= task_completed(d) <= task_total(d),
{
    lemma_doc_task_count_bounds(d, 0);
}

impl Nodo {
    /// Tallies the task items of the document's top-level lists: how many
    /// there are, and how many are checked off as complete.
    #[verifier::loop_isolation(false)]
    pub fn count_tasks(&self) -> (r: TaskCount)
        requires
            task_total(self@) <= u32::MAX,
        ensures
            r.total as int == task_total(self@),
            r.completed as int == task_completed(self@),
    {
        let ghost bv = self@;
        let mut completed: u32 = 0;
        let mut total: u32 = 0;
        proof {
            lemma_blocks_view_index(self.blocks@);
        }
        let n = self.blocks.len();
        let mut k: usize = 0;
        while k < n
            invariant
                k <= n,
                n == self.blocks@.len(),
                completed as int + doc_task_count(bv, k as int, true) == task_completed(bv),
                total as int + doc_task_count(bv, k as int, false) == task_total(bv),
                completed <= total,
            decreases n - k,
        {
            proof {
                lemma_doc_task_count_bounds(bv, k as int + 1);
            }
            match &self.blocks[k] {
                Block::List(_, items) => {
                    proof {
                        lemma_items_view_index(items@);
                        lemma_items_task_count_bounds(bv[k as int]->List_1, 0);
                    }
                    let m = items.len();
                    let mut j: usize = 0;
                    while j < m
                        invariant
                            j <= m,
                            m == items@.len(),
                            completed as int + items_task_count(bv[k as int]->List_1, j as int, true)
                                + doc_task_count(bv, k as int + 1, true) == task_completed(bv),
                            total as int + items_task_count(bv[k as int]->List_1, j as int, false)
                                + doc_task_count(bv, k as int + 1, false) == task_total(bv),
                            completed <= total,
                        decreases m - j,
                    {
                        proof {
                            lemma_items_task_count_bounds(bv[k as int]->List_1, j as int + 1);
                            lemma_doc_task_count_bounds(bv, k as int + 1);
                        }
                        match &items[j].task {
                            Some(done) => {
                                total = total + 1;
                                if *done {
                                    completed = completed + 1;
                                }
                            },
                            None => {},
                        }
                        j += 1;
                    }
                },
                _ => {},
            }
            k += 1;
        }
        TaskCount { completed, total }
    }
}

} // verus!
