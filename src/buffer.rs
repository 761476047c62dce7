use vstd::prelude::*;
use vstd::string::StringExecFns;

verus! {

/// An append-only text log: text is only ever added at the end, until a full
/// clear empties it. Backed by a `String`, which grows by amortised doubling.
pub struct LogBuffer {
    text: String,
}

impl View for LogBuffer {
    type V = Seq<char>;

    closed spec fn view(&self) -> Seq<char> {
        self.text@
    }
}

/// All of `chunks` joined in order.
pub open spec fn concat_all(chunks: Seq<Seq<char>>) -> Seq<char>
    decreases chunks.len(),
{
    if chunks.len() == 0 {
        Seq::empty()
    } else {
        concat_all(chunks.drop_last()) + chunks.last()
    }
}

impl LogBuffer {
    /// An empty log.
    pub fn new() -> (r: LogBuffer)
        ensures
            r@ == Seq::<char>::empty(),
    {
        LogBuffer { text: String::new() }
    }

    /// Adds `s` at the end of the log.
    pub fn append(&mut self, s: &str)
        ensures
            final(self)@ == old(self)@ + s@,
    {
        self.text.append(s);
    }

    /// Empties the log.
    pub fn clear(&mut self)
        ensures
            final(self)@ == Seq::<char>::empty(),
    {
        self.text = String::new();
    }

    /// The whole content of the log.
    pub fn as_text(&self) -> (r: &str)
        ensures
            r@ == self@,
    {
        self.text.as_str()
    }
}

/// A run of appends to an empty log holds the appended texts joined in call
/// order: `states[k]` is the content after `k` appends, each step being what
/// `append` ensures.
pub proof fn lemma_appends_concatenate(states: Seq<Seq<char>>, chunks: Seq<Seq<char>>)
    requires
        states.len() == chunks.len() + 1,
        states[0] == Seq::<char>::empty(),
        forall|k: int| 0 <= k < chunks.len() ==> states[k + 1] == #[trigger] states[k] + chunks[k],
    ensures
        states.last() == concat_all(chunks),
    decreases chunks.len(),
{
    if chunks.len() == 0 {
    } else {
        let n = chunks.len() - 1;
        lemma_appends_concatenate(states.drop_last(), chunks.drop_last());
        assert(states[n + 1] == states[n] + chunks[n]);
        assert(states.drop_last().last() == states[n]);
    }
}

} // verus!
