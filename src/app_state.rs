use vstd::prelude::*;
use std::sync::mpsc::Receiver;
use vstd::string::StringExecFns;
use crate::buffer::{LogBuffer, concat_all, lemma_appends_concatenate};
use crate::sanitize::{remove_ansi_escape_codes, sanitized};

verus! {

#[verifier::external_type_specification]
#[verifier::external_body]
#[verifier::reject_recursive_types(T)]
pub struct ExReceiver<T>(Receiver<T>);

/// Relies on std's `Receiver::try_recv`: takes the oldest queued chunk, if any,
/// without blocking. What is queued depends on the sending thread, so nothing
/// is stated of the result.
#[verifier::external_body]
fn try_recv_chunk(rx: &Receiver<String>) -> Option<String> {
    rx.try_recv().ok()
}

/// The viewer's state: the live serial log, the log of dropped files, and the
/// marker to highlight in both.
pub struct SerialApp {
    pub serial_rx: Receiver<String>,
    pub log: LogBuffer,
    pub file_log: LogBuffer,
    pub marker: String,
}

impl SerialApp {
    /// A viewer reading chunks from `serial_rx`, with both logs and the marker empty.
    pub fn new(serial_rx: Receiver<String>) -> (r: SerialApp)
        ensures
            r.log@ == Seq::<char>::empty(),
            r.file_log@ == Seq::<char>::empty(),
            r.marker@ == Seq::<char>::empty(),
            r.serial_rx == serial_rx,
    {
        SerialApp {
            serial_rx,
            log: LogBuffer::new(),
            file_log: LogBuffer::new(),
            marker: String::new(),
        }
    }

    /// The next chunk waiting on the serial channel, or `None` when none is
    /// queued now (or the sender is gone). Never blocks.
    pub fn try_receive(&self) -> Option<String> {
        try_recv_chunk(&self.serial_rx)
    }

    /// Adds a chunk read from the serial port, sanitized, to the live log.
    /// Chunks are sanitized one by one, so a control sequence split across two
    /// chunks stays in the log.
    pub fn ingest_serial(&mut self, chunk: &str)
        ensures
            final(self).log@ == old(self).log@ + sanitized(chunk@),
            final(self).file_log@ == old(self).file_log@,
            final(self).marker@ == old(self).marker@,
            final(self).serial_rx == old(self).serial_rx,
    {
        let cleaned = remove_ansi_escape_codes(chunk);
        self.log.append(cleaned.as_str());
    }

    /// Adds the chunks taken from the serial channel, each sanitized, to the
    /// live log in the order given.
    pub fn ingest_chunks(&mut self, chunks: Vec<String>)
        ensures
            final(self).log@ == old(self).log@ + concat_all(
                chunks@.map_values(|c: String| sanitized(c@)),
            ),
            final(self).file_log@ == old(self).file_log@,
            final(self).marker@ == old(self).marker@,
            final(self).serial_rx == old(self).serial_rx,
    {
        let ghost cleaned = chunks@.map_values(|c: String| sanitized(c@));
        let mut i: usize = 0;
        while i < chunks.len()
            invariant
                i <= chunks@.len(),
                cleaned == chunks@.map_values(|c: String| sanitized(c@)),
                self.log@ == old(self).log@ + concat_all(cleaned.take(i as int)),
                self.file_log@ == old(self).file_log@,
                self.marker@ == old(self).marker@,
                self.serial_rx == old(self).serial_rx,
            decreases chunks@.len() - i,
        {
            self.ingest_serial(chunks[i].as_str());
            assert(cleaned.take(i + 1).drop_last() =~= cleaned.take(i as int));
            assert(self.log@ =~= old(self).log@ + concat_all(cleaned.take(i + 1)));
            i = i + 1;
        }
        assert(cleaned.take(chunks@.len() as int) =~= cleaned);
    }

    /// Adds the content of a dropped file, sanitized, to the file log.
    pub fn process_file_content(&mut self, content: String)
        ensures
            final(self).file_log@ == old(self).file_log@ + sanitized(content@),
            final(self).log@ == old(self).log@,
            final(self).marker@ == old(self).marker@,
            final(self).serial_rx == old(self).serial_rx,
    {
        let cleaned = remove_ansi_escape_codes(content.as_str());
        self.file_log.append(cleaned.as_str());
    }

    /// Empties both logs; the marker stays.
    pub fn clear(&mut self)
        ensures
            final(self).log@ == Seq::<char>::empty(),
            final(self).file_log@ == Seq::<char>::empty(),
            final(self).marker@ == old(self).marker@,
            final(self).serial_rx == old(self).serial_rx,
    {
        self.log.clear();
        self.file_log.clear();
    }

    /// Replaces the marker.
    pub fn set_marker(&mut self, marker: &str)
        ensures
            final(self).marker@ == marker@,
            final(self).log@ == old(self).log@,
            final(self).file_log@ == old(self).file_log@,
            final(self).serial_rx == old(self).serial_rx,
    {
        self.marker = String::from_str(marker);
    }
}

/// Successive ingests (of serial chunks, or of dropped files' contents) with
/// no clear in between add the sanitized texts joined in call order:
/// `states[k]` is the log after `k` ingests, each step being what
/// `ingest_serial` and `process_file_content` ensure.
pub proof fn lemma_ingests_concatenate(states: Seq<Seq<char>>, chunks: Seq<Seq<char>>)
    requires
        states.len() == chunks.len() + 1,
        states[0] == Seq::<char>::empty(),
        forall|k: int|
            0 <= k < chunks.len() ==> states[k + 1] == #[trigger] states[k] + sanitized(chunks[k]),
    ensures
        states.last() == concat_all(chunks.map_values(|c: Seq<char>| sanitized(c))),
{
    let cleaned = chunks.map_values(|c: Seq<char>| sanitized(c));
    assert forall|k: int| 0 <= k < cleaned.len() implies states[k + 1] == #[trigger] states[k]
        + cleaned[k] by {
        assert(states[k + 1] == states[k] + sanitized(chunks[k]));
    }
    lemma_appends_concatenate(states, cleaned);
}

} // verus!
