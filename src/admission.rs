use vstd::prelude::*;

verus! {

/// Bounded counter of report generations that are currently running.
pub struct Admission {
    in_flight: u16,
    max_concurrent: u16,
}

/// One call on the admission counter.
pub enum AdmissionEvent {
    Enter,
    Leave,
}

/// The counter after `try_enter` / `leave` on a counter at `in_flight` with
/// bound `max`: an entry counts only below the bound, a leave only above zero.
pub open spec fn admission_step(in_flight: nat, max: nat, e: AdmissionEvent) -> nat {
    match e {
        AdmissionEvent::Enter => if in_flight < max { in_flight + 1 } else { in_flight },
        AdmissionEvent::Leave => if in_flight > 0 { (in_flight - 1) as nat } else { in_flight },
    }
}

/// The counter after a whole sequence of calls.
pub open spec fn admission_run(in_flight: nat, max: nat, events: Seq<AdmissionEvent>) -> nat
    decreases events.len(),
{
    if events.len() == 0 {
        in_flight
    } else {
        admission_run(admission_step(in_flight, max, events[0]), max, events.drop_first())
    }
}

/// For every sequence of entries and leaves that starts from a counter within
/// its bound, the counter never exceeds the bound (and, being a natural
/// number, never goes negative).
pub proof fn lemma_admission_bounded(in_flight: nat, max: nat, events: Seq<AdmissionEvent>)
    requires
        in_flight <= max,
    ensures
        admission_run(in_flight, max, events) <= max,
    decreases events.len(),
{
    if events.len() > 0 {
        lemma_admission_bounded(admission_step(in_flight, max, events[0]), max, events.drop_first());
    }
}

impl Admission {
    pub closed spec fn in_flight_spec(&self) -> nat {
        self.in_flight as nat
    }

    pub closed spec fn max_spec(&self) -> nat {
        self.max_concurrent as nat
    }

    /// The counter stays within `0..=max_concurrent`.
    pub open spec fn wf(&self) -> bool {
        self.in_flight_spec() <= self.max_spec()
    }

    pub fn new(max_concurrent: u16) -> (r: Admission)
        ensures
            r.wf(),
            r.in_flight_spec() == 0,
            r.max_spec() == max_concurrent,
    {
        Admission { in_flight: 0, max_concurrent }
    }

    /// Takes a slot: succeeds, and counts the generation, iff fewer than the
    /// bound are running.
    pub fn try_enter(&mut self) -> (ok: bool)
        requires
            old(self).wf(),
        ensures
            final(self).wf(),
            ok == (old(self).in_flight_spec() < old(self).max_spec()),
            final(self).max_spec() == old(self).max_spec(),
            final(self).in_flight_spec() == admission_step(
                old(self).in_flight_spec(),
                old(self).max_spec(),
                AdmissionEvent::Enter,
            ),
    {
        if self.in_flight < self.max_concurrent {
            self.in_flight = self.in_flight + 1;
            true
        } else {
            false
        }
    }

    /// Gives a slot back. A leave without a matching entry changes nothing.
    pub fn leave(&mut self)
        requires
            old(self).wf(),
        ensures
            final(self).wf(),
            final(self).max_spec() == old(self).max_spec(),
            final(self).in_flight_spec() == admission_step(
                old(self).in_flight_spec(),
                old(self).max_spec(),
                AdmissionEvent::Leave,
            ),
    {
        if self.in_flight > 0 {
            self.in_flight = self.in_flight - 1;
        }
    }

    pub fn current(&self) -> (r: u16)
        ensures
            r == self.in_flight_spec(),
    {
        self.in_flight
    }

    pub fn max_concurrent(&self) -> (r: u16)
        ensures
            r == self.max_spec(),
    {
        self.max_concurrent
    }
}

} // verus!
