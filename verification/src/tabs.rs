//! Cyclic selection over a fixed, ordered set of named view tabs.

use vstd::prelude::*;

verus! {

/// An ordered sequence of tab titles together with the index of the tab
/// that is currently in view. The index always stays inside the sequence
/// and cycling wraps around in both directions.
pub struct TabsState {
    pub titles: Vec<String>,
    pub index: usize,
}

impl TabsState {
    /// The index is valid whenever there is at least one tab.
    pub open spec fn wf(&self) -> bool {
        self.titles@.len() > 0 && self.index < self.titles@.len()
    }

    /// A fresh state starts on the first tab.
    pub fn new(titles: Vec<String>) -> (s: TabsState)
        ensures
            s.titles == titles,
            s.index == 0,
            titles@.len() > 0 ==> s.wf(),
    {
        TabsState { titles, index: 0 }
    }

    /// Advance to the following tab, wrapping from the last back to the first.
    pub fn next(&mut self)
        requires
            old(self).wf(),
        ensures
            final(self).wf(),
            final(self).titles == old(self).titles,
            final(self).index == (old(self).index + 1) % (old(self).titles@.len() as int),
    {
        let n = self.titles.len();
        self.index = (self.index + 1) % n;
    }

    /// Step back to the preceding tab, wrapping from the first to the last.
    pub fn previous(&mut self)
        requires
            old(self).wf(),
        ensures
            final(self).wf(),
            final(self).titles == old(self).titles,
            final(self).index == if old(self).index == 0 {
                old(self).titles@.len() - 1
            } else {
                old(self).index - 1
            },
    {
        if self.index > 0 {
            self.index = self.index - 1;
        } else {
            self.index = self.titles.len() - 1;
        }
    }
}

} // verus!
