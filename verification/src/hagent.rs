//! The tracker: which process, if any, the agent is placing memory for.

use crate::helper::Pid;
use vstd::prelude::*;

verus! {

/// What is to be done when the tracked process changes.
#[derive(Clone, Copy, Debug, PartialEq, Eq, Structural)]
pub struct Switch {
    /// The process whose migrator is to be torn down, first.
    pub stop: Option<Pid>,
    /// The process for which a migrator is to be set up, after that.
    pub start: Option<Pid>,
}

/// The tracker. At most one process is tracked at a time.
pub struct Hagent {
    tracking: Option<Pid>,
}

impl View for Hagent {
    type V = Option<Pid>;

    /// The process tracked, if any.
    closed spec fn view(&self) -> Option<Pid> {
        self.tracking
    }
}

/// Whether a process of size `vsize` takes over from the one tracked: it
/// does if it is larger than the tracked one, or none is tracked, and
/// larger than a third of the memory.
pub open spec fn takes_over(tracking: Option<Pid>, vsize: u64, tracked_vsize: u64, ram_size: u64) -> bool {
    vsize > (if tracking.is_some() {
        tracked_vsize
    } else {
        0
    }) && vsize > ram_size / 3
}

impl Hagent {
    /// A tracker that tracks nothing.
    pub fn new() -> (tracker: Self)
        ensures
            tracker@.is_none(),
    {
        Hagent { tracking: None }
    }

    /// The process tracked, if any.
    pub fn tracking(&self) -> (tracking: Option<Pid>)
        ensures
            tracking == self@,
    {
        self.tracking
    }

    /// Process `process` has mapped memory and its address space now has
    /// `vsize` bytes; that of the tracked process has `tracked_vsize` bytes
    /// (it is not looked at when none is tracked), and the machine has
    /// `ram_size` bytes of memory. Switches to `process` if it takes over.
    pub fn track(&mut self, process: Pid, vsize: u64, tracked_vsize: u64, ram_size: u64) -> (switch:
        Option<Switch>)
        ensures
            takes_over(old(self)@, vsize, tracked_vsize, ram_size) ==> final(self)@ == Some(process)
                && switch == Some(Switch { stop: old(self)@, start: Some(process) }),
            !takes_over(old(self)@, vsize, tracked_vsize, ram_size) ==> final(self)@ == old(self)@
                && switch.is_none(),
    {
        let current = if self.tracking.is_some() {
            tracked_vsize
        } else {
            0
        };
        if vsize > current && vsize > ram_size / 3 {
            Some(self.switch(Some(process)))
        } else {
            None
        }
    }

    /// Process `process` has exited. If it is the one tracked, nothing is
    /// tracked any more.
    pub fn untrack(&mut self, process: Pid) -> (switch: Option<Switch>)
        ensures
            old(self)@ == Some(process) ==> final(self)@.is_none() && switch == Some(
                Switch { stop: Some(process), start: None },
            ),
            old(self)@ != Some(process) ==> final(self)@ == old(self)@ && switch.is_none(),
    {
        match self.tracking {
            Some(tracking) => {
                if tracking == process {
                    Some(self.switch(None))
                } else {
                    None
                }
            },
            None => None,
        }
    }

    /// Stops tracking what is tracked and starts tracking `to`.
    pub fn switch(&mut self, to: Option<Pid>) -> (switch: Switch)
        ensures
            final(self)@ == to,
            switch == (Switch { stop: old(self)@, start: to }),
    {
        let stop = self.tracking;
        self.tracking = to;
        Switch { stop, start: to }
    }

    /// The migrator for the process just switched to could not be set up:
    /// nothing is tracked.
    pub fn start_failed(&mut self)
        ensures
            final(self)@.is_none(),
    {
        self.tracking = None;
    }
}

} // verus!
