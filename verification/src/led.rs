//! LED cells and the incremental hardware synchronization step.
//!
//! A cell keeps the color the compositor wants (`color`) and the color
//! last confirmed written to hardware (`sync_color`). Reconciling a cell
//! issues a hardware write only when the two differ, and records the
//! confirmation only when the write succeeds, so a failed write is
//! retried on a later pass while the desired color still differs.

use vstd::prelude::*;

use crate::color::Rgb;

verus! {

/// A single LED write failed; the frame goes on and the write is
/// retried while the desired color still differs from the confirmed one.
#[derive(Clone, Copy, Debug, PartialEq, Eq, Structural)]
pub struct HardwareWriteError;

/// One hardware write: a physical LED index and the color sent to it.
#[derive(Clone, Copy, Debug, PartialEq, Eq, Structural)]
pub struct LedWrite {
    pub index: u8,
    pub color: Rgb,
}

/// The hardware boundary: something that accepts per-LED color writes.
///
/// The ghost `writes` sequence records every write ever issued through
/// the sink, successful or not, and the ghost `results` sequence records
/// whether the transport accepted each of them. Which writes succeed is
/// the transport's to decide: nothing is promised of any single result.
pub trait LedSink {
    spec fn writes(&self) -> Seq<LedWrite>;

    spec fn results(&self) -> Seq<bool>;

    fn set_led_color(&mut self, index: u8, color: Rgb) -> (r: Result<(), HardwareWriteError>)
        ensures
            final(self).writes() == old(self).writes().push(LedWrite { index, color }),
            final(self).results() == old(self).results().push(r is Ok),
    ;
}

/// An in-memory sink: records every write and can be told to fail all
/// of them, for exercising the retry behavior.
pub struct FakeSink {
    pub log: Vec<LedWrite>,
    pub accepted: Vec<bool>,
    pub fail_all: bool,
}

impl FakeSink {
    pub fn new() -> (s: FakeSink)
        ensures
            s.writes() == Seq::<LedWrite>::empty(),
            s.results() == Seq::<bool>::empty(),
            !s.fail_all,
    {
        FakeSink { log: Vec::new(), accepted: Vec::new(), fail_all: false }
    }

    pub fn failing() -> (s: FakeSink)
        ensures
            s.writes() == Seq::<LedWrite>::empty(),
            s.results() == Seq::<bool>::empty(),
            s.fail_all,
    {
        FakeSink { log: Vec::new(), accepted: Vec::new(), fail_all: true }
    }

    /// The writes recorded so far.
    pub fn recorded(&self) -> (log: &Vec<LedWrite>)
        ensures
            log@ == self.writes(),
    {
        &self.log
    }
}

impl LedSink for FakeSink {
    open spec fn writes(&self) -> Seq<LedWrite> {
        self.log@
    }

    open spec fn results(&self) -> Seq<bool> {
        self.accepted@
    }

    fn set_led_color(&mut self, index: u8, color: Rgb) -> (r: Result<(), HardwareWriteError>)
        ensures
            r is Ok <==> !old(self).fail_all,
            final(self).fail_all == old(self).fail_all,
    {
        self.log.push(LedWrite { index, color });
        if self.fail_all {
            self.accepted.push(false);
            Err(HardwareWriteError)
        } else {
            self.accepted.push(true);
            Ok(())
        }
    }
}

/// What one reconciliation pass over a cell did.
#[derive(Clone, Copy, Debug, PartialEq, Eq, Structural)]
pub enum SyncOutcome {
    /// The desired color already equals the confirmed one; no write.
    Unchanged,
    /// A write was issued and confirmed.
    Written,
    /// A write was issued and failed; the confirmation is unchanged.
    Failed,
}

/// One LED cell: its physical index, the desired color, and the color
/// last confirmed written to hardware (`None` before the first
/// successful write).
#[derive(Clone, Copy, Debug, PartialEq, Eq, Structural)]
pub struct Led {
    pub i: u8,
    pub color: Rgb,
    pub sync_color: Option<Rgb>,
}

impl Led {
    /// Whether reconciling this cell must issue a hardware write.
    pub open spec fn needs_write(self) -> bool {
        self.sync_color != Some(self.color)
    }

    /// The cell after a successful write of its desired color.
    pub open spec fn confirmed(self) -> Led {
        Led { sync_color: Some(self.color), ..self }
    }

    /// Set the desired color; the confirmation is untouched.
    pub fn set_color(&mut self, r: u8, g: u8, b: u8)
        ensures
            *final(self) == (Led { color: Rgb { r, g, b }, ..*old(self) }),
    {
        self.color = Rgb { r, g, b };
    }

    /// Reconcile this cell with the hardware: write the desired color
    /// iff it differs from the confirmed one, and record the
    /// confirmation exactly when the transport accepted the write, so a
    /// failed write is retried while the desired color still differs.
    pub fn sync<S: LedSink>(&mut self, sink: &mut S) -> (out: SyncOutcome)
        ensures
            final(self).i == old(self).i,
            final(self).color == old(self).color,
            !old(self).needs_write() ==> out == SyncOutcome::Unchanged && *final(self) == *old(self)
                && final(sink).writes() == old(sink).writes() && final(sink).results() == old(
                sink,
            ).results(),
            old(self).needs_write() ==> {
                &&& final(sink).writes() == old(sink).writes().push(
                    LedWrite { index: old(self).i, color: old(self).color },
                )
                &&& final(sink).results() == old(sink).results().push(out == SyncOutcome::Written)
                &&& out != SyncOutcome::Unchanged
                &&& (out == SyncOutcome::Written ==> *final(self) == old(self).confirmed())
                &&& (out == SyncOutcome::Failed ==> final(self).sync_color == old(self).sync_color)
            },
    {
        let needs_write = match self.sync_color {
            Some(c) => !(c == self.color),
            None => true,
        };
        if !needs_write {
            return SyncOutcome::Unchanged;
        }
        match sink.set_led_color(self.i, self.color) {
            Ok(()) => {
                self.sync_color = Some(self.color);
                SyncOutcome::Written
            },
            Err(_) => SyncOutcome::Failed,
        }
    }
}

/// Once a cell's desired color is confirmed, reconciling it again while
/// the desired color is unchanged issues no further write: over a run of
/// identical frames, each cell is written at most once, on the first
/// frame in which its color was not yet confirmed.
pub proof fn lemma_confirmed_cell_needs_no_write(led: Led)
    ensures
        !led.confirmed().needs_write(),
{
}

} // verus!
