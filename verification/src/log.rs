//! The history log as a value of its own, and the recording of one action.

use crate::history::HistoryAction;
use crate::model::lemma_log_steps_wf;
use crate::pen::PenTool;
use vstd::prelude::*;

verus! {

/// A copy of the history: the actions in the order in which they were
/// recorded, and the index of the last one that is applied.
pub struct History {
    pub actions: Vec<HistoryAction>,
    /// -1 when every action is undone. An index beyond `i32::MAX` is shown as
    /// `i32::MAX`.
    pub index: i32,
}

/// A cursor as a 32-bit index.
pub open spec fn shown_index(cursor: int) -> i32 {
    if cursor > i32::MAX {
        i32::MAX
    } else if cursor < -1 {
        -1i32
    } else {
        cursor as i32
    }
}

impl PenTool {
    /// Records one action: what lay beyond the cursor is dropped, the action
    /// is appended and the cursor stands on it. The curves are not touched.
    pub fn record(&mut self, action: HistoryAction)
        requires
            old(self)@.wf(),
        ensures
            final(self)@ == old(self)@.record(action),
            final(self)@.wf(),
    {
        proof {
            lemma_log_steps_wf(self@, seq![action]);
        }
        self.log_cut();
        self.log_push(action);
    }

    /// The cursor as a 32-bit index: -1 when every action is undone.
    pub fn index(&self) -> (index: i32)
        ensures
            index == shown_index(self@.cursor),
    {
        let applied = self.applied();
        if applied == 0 {
            -1
        } else if applied - 1 > 0x7fff_ffff {
            i32::MAX
        } else {
            (applied - 1) as i32
        }
    }

    /// A copy of the history.
    pub fn history(&self) -> (copy: History)
        ensures
            copy.actions@ == self@.history,
            copy.index == shown_index(self@.cursor),
    {
        let mut actions: Vec<HistoryAction> = Vec::new();
        let count = self.history_len();
        let mut i: usize = 0;
        while i < count
            invariant
                0 <= i <= count,
                count == self@.history.len(),
                actions@ == self@.history.take(i as int),
            decreases count - i,
        {
            actions.push(self.history_at(i));
            proof {
                assert(self@.history.take(i as int).push(self@.history[i as int])
                    =~= self@.history.take(i + 1));
            }
            i = i + 1;
        }
        proof {
            assert(self@.history.take(count as int) =~= self@.history);
        }
        History { actions, index: self.index() }
    }
}

} // verus!
