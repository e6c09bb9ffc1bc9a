//! Actions deferred during a measure or layout pass, kept in the order
//! they were recorded and handed out all at once.

use vstd::prelude::*;

verus! {

/// Two queues of deferred actions: those that wait for the end of the
/// measure pass and those that wait for the end of the layout pass.
pub struct MeasureLayoutDeferActionManager<A> {
    pub measure_defer_actions: Vec<A>,
    pub layout_defer_actions: Vec<A>,
}

impl<A> MeasureLayoutDeferActionManager<A> {
    /// A manager with nothing recorded.
    pub fn new() -> (m: Self)
        ensures
            m.measure_defer_actions@.len() == 0,
            m.layout_defer_actions@.len() == 0,
    {
        MeasureLayoutDeferActionManager { measure_defer_actions: Vec::new(), layout_defer_actions: Vec::new() }
    }

    /// The manager a deferral scope starts with: nothing recorded in either
    /// queue.
    pub fn with_manager() -> (m: Self)
        ensures
            m.measure_defer_actions@.len() == 0,
            m.layout_defer_actions@.len() == 0,
    {
        Self::new()
    }

    /// Appends `action` to the layout queue.
    pub fn record_layout(&mut self, action: A)
        ensures
            final(self).layout_defer_actions@ == old(self).layout_defer_actions@.push(action),
            final(self).measure_defer_actions@ == old(self).measure_defer_actions@,
    {
        self.layout_defer_actions.push(action);
    }

    /// Appends `action` to the measure queue.
    pub fn record_measure(&mut self, action: A)
        ensures
            final(self).measure_defer_actions@ == old(self).measure_defer_actions@.push(action),
            final(self).layout_defer_actions@ == old(self).layout_defer_actions@,
    {
        self.measure_defer_actions.push(action);
    }

    /// Empties the layout queue and hands out its actions, first recorded
    /// first, to be run in that order.
    pub fn apply_layout_defer(&mut self) -> (actions: Vec<A>)
        ensures
            actions@ == old(self).layout_defer_actions@,
            final(self).layout_defer_actions@.len() == 0,
            final(self).measure_defer_actions@ == old(self).measure_defer_actions@,
    {
        let mut layout_defer_actions: Vec<A> = Vec::new();
        std::mem::swap(&mut layout_defer_actions, &mut self.layout_defer_actions);
        layout_defer_actions
    }

    /// Empties the measure queue and hands out its actions, first recorded
    /// first, to be run in that order.
    pub fn apply_measure_defer(&mut self) -> (actions: Vec<A>)
        ensures
            actions@ == old(self).measure_defer_actions@,
            final(self).measure_defer_actions@.len() == 0,
            final(self).layout_defer_actions@ == old(self).layout_defer_actions@,
    {
        let mut measure_defer_actions: Vec<A> = Vec::new();
        std::mem::swap(&mut measure_defer_actions, &mut self.measure_defer_actions);
        measure_defer_actions
    }
}

impl<A> Default for MeasureLayoutDeferActionManager<A> {
    fn default() -> (m: Self)
        ensures
            m.measure_defer_actions@.len() == 0,
            m.layout_defer_actions@.len() == 0,
    {
        Self::new()
    }
}

} // verus!
