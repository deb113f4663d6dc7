//! A hardware implementation that records every operation it is asked to
//! perform, so the exact transaction stream can be inspected, tested, or
//! replayed on a physical bus.  Bus-write failures can be injected to
//! exercise error propagation.

use vstd::prelude::*;

use crate::proto::{BusError, BusOp, Interface};

verus! {

/// Records every bus write and delay, in order.  If a failure is armed, the
/// write attempt whose zero-based index equals the armed count fails once —
/// it is not logged, since the byte was never delivered — and later writes
/// succeed again.
pub struct Recorder {
    pub log: Vec<BusOp>,
    pub fail_after: Option<usize>,
}

impl Recorder {
    /// A recorder that accepts every write.
    pub fn new() -> (r: Recorder)
        ensures
            r.ops() == Seq::<BusOp>::empty(),
            r.fail_after is None,
    {
        Recorder { log: Vec::new(), fail_after: None }
    }

    /// A recorder whose write attempt number `n` (zero-based, counting only
    /// write attempts, not delays) fails; the `n` attempts before it and
    /// every attempt after it succeed.
    pub fn failing_at(n: usize) -> (r: Recorder)
        ensures
            r.ops() == Seq::<BusOp>::empty(),
            r.fail_after == Some(n),
    {
        Recorder { log: Vec::new(), fail_after: Some(n) }
    }

    /// The operations recorded so far.
    pub fn recorded(&self) -> (r: &Vec<BusOp>)
        ensures
            r@ == self.ops(),
    {
        &self.log
    }

    /// Forget the recorded operations, e.g. after replaying them on a
    /// physical bus.
    pub fn reset(&mut self)
        ensures
            final(self).ops() == Seq::<BusOp>::empty(),
            final(self).fail_after == old(self).fail_after,
    {
        self.log = Vec::new();
    }
}

impl Interface for Recorder {
    open spec fn ops(&self) -> Seq<BusOp> {
        self.log@
    }

    fn write_byte(&mut self, addr: u8, byte: u8) -> (r: Result<(), BusError>)
        ensures
            old(self).fail_after is None ==> r is Ok && final(self).fail_after is None,
            old(self).fail_after matches Some(n) ==> ({
                &&& n > 0 ==> r is Ok && final(self).fail_after == Some((n - 1) as usize)
                &&& n == 0 ==> r is Err && final(self).fail_after is None
            }),
    {
        match self.fail_after {
            Some(n) => {
                if n == 0 {
                    self.fail_after = None;
                    return Err(BusError);
                }
                self.fail_after = Some(n - 1);
            },
            None => {},
        }
        self.log.push(BusOp::Write { addr, byte });
        Ok(())
    }

    fn delay_ms(&mut self, ms: u32) {
        self.log.push(BusOp::DelayMs { ms });
    }

    fn delay_us(&mut self, us: u32) {
        self.log.push(BusOp::DelayUs { us });
    }
}

} // verus!
