use vstd::prelude::*;

verus! {

/// Baud rate the serial port is opened with.
pub const BAUD_RATE: u32 = 115200;

/// Read timeout of the serial port, in milliseconds.
pub const READ_TIMEOUT_MS: u64 = 10;

/// Most bytes taken by one read.
pub const READ_CHUNK_BYTES: usize = 32;

/// Pause between two reads, in milliseconds, so that the loop does not spin.
pub const IDLE_SLEEP_MS: u64 = 1;

/// The text that lossy UTF-8 decoding makes of `b`.
pub uninterp spec fn lossy_text(b: Seq<u8>) -> Seq<char>;

/// Relies on std's `String::from_utf8_lossy`: decodes the bytes, putting
/// U+FFFD for each invalid sequence; the result depends on the bytes alone,
/// no bytes give no text, and valid UTF-8 (here: ASCII) is kept as it is.
#[verifier::external_body]
fn decode_lossy(bytes: &Vec<u8>) -> (r: String)
    ensures
        r@ == lossy_text(bytes@),
        bytes@.len() == 0 ==> r@.len() == 0,
        (forall|i: int| 0 <= i < bytes@.len() ==> #[trigger] bytes@[i] < 128) ==> r@
            == bytes@.map_values(|x: u8| x as char),
{
    String::from_utf8_lossy(bytes.as_slice()).into_owned()
}

/// Where the acquisition loop stands.
#[derive(Clone, Copy, Debug, PartialEq, Eq, Structural)]
pub enum Phase {
    /// The port is being opened.
    Opening,
    /// The port is open and read over and over.
    Reading,
    /// The loop has ended: the port could not be opened, or the consumer is gone.
    Stopped,
}

/// What one read of the port gave.
#[derive(Clone, Debug)]
pub enum ReadOutcome {
    /// The bytes read (possibly none).
    Data(Vec<u8>),
    /// The timeout passed with nothing read.
    TimedOut,
    /// Any other read error, described for the operator.
    Failed(String),
}

/// What the loop does next.
#[derive(Clone, Debug, PartialEq, Eq)]
pub enum LoopAction {
    /// Send this chunk to the viewer.
    Forward(String),
    /// Pause briefly, then read again.
    Continue,
    /// Report this error to the operator, then pause and read again.
    Report(String),
    /// End the loop.
    Stop,
}

/// A read that is normal idling: a timeout, or no bytes.
pub open spec fn is_idle(o: ReadOutcome) -> bool {
    match o {
        ReadOutcome::Data(b) => b@.len() == 0,
        ReadOutcome::TimedOut => true,
        ReadOutcome::Failed(_) => false,
    }
}

/// A read in phase `p` that yields a chunk for the viewer.
pub open spec fn forwards(p: Phase, o: ReadOutcome) -> bool {
    p == Phase::Reading && (o matches ReadOutcome::Data(b) && b@.len() > 0)
}

/// `a` is the action owed to a read with outcome `o` in phase `p`.
pub open spec fn read_action(p: Phase, o: ReadOutcome, a: LoopAction) -> bool {
    if p != Phase::Reading {
        a is Stop
    } else {
        match o {
            ReadOutcome::Data(b) => if b@.len() > 0 {
                a matches LoopAction::Forward(s) && s@ == lossy_text(b@)
            } else {
                a is Continue
            },
            ReadOutcome::TimedOut => a is Continue,
            ReadOutcome::Failed(e) => a matches LoopAction::Report(r) && r@ == e@,
        }
    }
}

/// The decisions of the serial acquisition loop, one event at a time; the
/// caller opens the port, reads, sends and sleeps.
pub struct Acquisition {
    pub phase: Phase,
}

impl Acquisition {
    /// A loop about to open the port.
    pub fn new() -> (r: Acquisition)
        ensures
            r.phase == Phase::Opening,
    {
        Acquisition { phase: Phase::Opening }
    }

    /// Whether the loop goes on.
    pub fn is_running(&self) -> (r: bool)
        ensures
            r == (self.phase != Phase::Stopped),
    {
        self.phase != Phase::Stopped
    }

    /// The port was opened (`opened`) or could not be: reading starts, or the
    /// loop ends for good.
    pub fn on_open(&mut self, opened: bool) -> (a: LoopAction)
        ensures
            old(self).phase == Phase::Opening ==> final(self).phase == (if opened {
                Phase::Reading
            } else {
                Phase::Stopped
            }),
            old(self).phase != Phase::Opening ==> final(self).phase == old(self).phase,
            final(self).phase == Phase::Stopped ==> a is Stop,
            final(self).phase != Phase::Stopped ==> a is Continue,
    {
        if self.phase == Phase::Opening {
            self.phase = if opened {
                Phase::Reading
            } else {
                Phase::Stopped
            };
        }
        if self.phase == Phase::Stopped {
            LoopAction::Stop
        } else {
            LoopAction::Continue
        }
    }

    /// Decides what to do with the outcome of one read: a chunk of bytes is
    /// decoded and forwarded, idling goes on quietly, any other error is
    /// reported and reading goes on. No read ends the loop.
    pub fn on_read(&mut self, outcome: ReadOutcome) -> (a: LoopAction)
        ensures
            final(self).phase == old(self).phase,
            read_action(old(self).phase, outcome, a),
            a is Forward <==> forwards(old(self).phase, outcome),
            forwards(old(self).phase, outcome) && (forall|i: int|
                0 <= i < outcome->Data_0@.len() ==> #[trigger] outcome->Data_0@[i] < 128) ==> (
            a matches LoopAction::Forward(s) && s@ == outcome->Data_0@.map_values(
                |x: u8| x as char,
            )),
    {
        if self.phase != Phase::Reading {
            return LoopAction::Stop;
        }
        match outcome {
            ReadOutcome::Data(bytes) => {
                if bytes.len() > 0 {
                    LoopAction::Forward(decode_lossy(&bytes))
                } else {
                    LoopAction::Continue
                }
            },
            ReadOutcome::TimedOut => LoopAction::Continue,
            ReadOutcome::Failed(e) => LoopAction::Report(e),
        }
    }

    /// A forwarded chunk was delivered, or the viewer is gone (`!delivered`),
    /// which ends the loop.
    pub fn on_send(&mut self, delivered: bool) -> (a: LoopAction)
        ensures
            final(self).phase == (if old(self).phase == Phase::Reading && !delivered {
                Phase::Stopped
            } else {
                old(self).phase
            }),
            final(self).phase == Phase::Stopped ==> a is Stop,
            final(self).phase != Phase::Stopped ==> a is Continue,
    {
        if self.phase == Phase::Reading && !delivered {
            self.phase = Phase::Stopped;
        }
        if self.phase == Phase::Stopped {
            LoopAction::Stop
        } else {
            LoopAction::Continue
        }
    }
}

/// The texts that reads with outcomes `outs` yield, in read order: the decoded
/// bytes of each non-empty read; timeouts, empty reads and errors yield none.
pub open spec fn chunks_of_reads(outs: Seq<ReadOutcome>) -> Seq<Seq<char>>
    decreases outs.len(),
{
    if outs.len() == 0 {
        Seq::empty()
    } else {
        let prev = chunks_of_reads(outs.drop_last());
        match outs.last() {
            ReadOutcome::Data(b) => if b@.len() > 0 {
                prev.push(lossy_text(b@))
            } else {
                prev
            },
            _ => prev,
        }
    }
}

/// The texts of the `Forward` actions among `acts`, in order.
pub open spec fn forwarded_chunks(acts: Seq<LoopAction>) -> Seq<Seq<char>>
    decreases acts.len(),
{
    if acts.len() == 0 {
        Seq::empty()
    } else {
        let prev = forwarded_chunks(acts.drop_last());
        match acts.last() {
            LoopAction::Forward(s) => prev.push(s@),
            _ => prev,
        }
    }
}

/// While reading, the actions owed to a run of reads forward exactly the
/// decoded non-empty reads, each once and in read order; a run of idle reads
/// forwards nothing.
pub proof fn lemma_reads_forward_in_order(outs: Seq<ReadOutcome>, acts: Seq<LoopAction>)
    requires
        outs.len() == acts.len(),
        forall|k: int| 0 <= k < outs.len() ==> read_action(Phase::Reading, #[trigger] outs[k], acts[k]),
    ensures
        forwarded_chunks(acts) == chunks_of_reads(outs),
        (forall|k: int| 0 <= k < outs.len() ==> is_idle(#[trigger] outs[k])) ==> forwarded_chunks(
            acts,
        ).len() == 0,
    decreases outs.len(),
{
    if outs.len() > 0 {
        let n = outs.len() - 1;
        assert forall|k: int| 0 <= k < n implies read_action(
            Phase::Reading,
            #[trigger] outs.drop_last()[k],
            acts.drop_last()[k],
        ) by {
            assert(outs.drop_last()[k] == outs[k]);
            assert(read_action(Phase::Reading, outs[k], acts[k]));
        }
        lemma_reads_forward_in_order(outs.drop_last(), acts.drop_last());
        assert(read_action(Phase::Reading, outs[n], acts[n]));
        if forall|k: int| 0 <= k < outs.len() ==> is_idle(#[trigger] outs[k]) {
            assert forall|k: int| 0 <= k < n implies is_idle(#[trigger] outs.drop_last()[k]) by {
                assert(outs.drop_last()[k] == outs[k]);
            }
            assert(is_idle(outs[n]));
        }
    }
}

} // verus!
