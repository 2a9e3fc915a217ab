use vstd::prelude::*;
use std::sync::mpsc::{Receiver, TryRecvError};
use crate::text::push_str;

verus! {

/// The text shown while a job runs and before its first chunk arrives.
pub const WORKING_TEXT: &'static str = "Analizando imagen con IA...";

/// Most chunks taken from the channel in one poll; the rest wait for the
/// next one.
pub const MAX_CHUNKS_PER_POLL: usize = 1_000_000;

#[verifier::external_type_specification]
#[verifier::external_body]
#[verifier::reject_recursive_types(T)]
pub struct ExReceiver<T>(Receiver<T>);

/// What one look at the channel found.
enum Polled {
    Chunk(String),
    Pending,
    Closed,
}

/// Relies on std's `Receiver::try_recv`, which never blocks: it hands out the
/// oldest chunk not yet taken, or reports that none is waiting or that the
/// sender is gone. Nothing is promised about which of these comes.
#[verifier::external_body]
fn poll_channel(rx: &Receiver<String>) -> (r: Polled) {
    match rx.try_recv() {
        Ok(c) => Polled::Chunk(c),
        Err(TryRecvError::Empty) => Polled::Pending,
        Err(TryRecvError::Disconnected) => Polled::Closed,
    }
}

/// The chunks joined in order.
pub open spec fn concat_all(chunks: Seq<Seq<char>>) -> Seq<char>
    decreases chunks.len(),
{
    if chunks.len() == 0 {
        Seq::empty()
    } else {
        concat_all(chunks.drop_last()) + chunks.last()
    }
}

/// The text after chunks arrive: when at least one arrives, the working text
/// is first dropped if it is still shown; then every chunk is appended, in
/// arrival order.
pub open spec fn append_chunks(text: Seq<char>, showing: bool, chunks: Seq<Seq<char>>) -> Seq<char> {
    if chunks.len() == 0 {
        text
    } else if showing && text == WORKING_TEXT@ {
        concat_all(chunks)
    } else {
        text + concat_all(chunks)
    }
}

/// The slot that holds the one recognition job that may be running: whether
/// one runs, the receiving end of the channel through which it reports, and
/// whether the working text still waits for the job's first chunk.
pub struct RecognitionBridge {
    working: bool,
    receiver: Option<Receiver<String>>,
    showing: bool,
}

impl RecognitionBridge {
    /// A job runs exactly when the slot holds its channel.
    pub closed spec fn wf(&self) -> bool {
        self.working <==> self.receiver is Some
    }

    pub closed spec fn spec_working(&self) -> bool {
        self.working
    }

    pub closed spec fn spec_receiver(&self) -> Option<Receiver<String>> {
        self.receiver
    }

    /// Whether the working text was put up for the running job and no chunk
    /// has come since.
    pub closed spec fn spec_showing(&self) -> bool {
        self.showing
    }

    /// The slot after a job reporting through `receiver` is offered to it,
    /// and whether it was taken.
    pub closed spec fn spec_submit(self, receiver: Receiver<String>) -> (RecognitionBridge, bool) {
        if self.working {
            (self, false)
        } else {
            (RecognitionBridge { working: true, receiver: Some(receiver), showing: true }, true)
        }
    }

    pub fn new() -> (r: RecognitionBridge)
        ensures
            r.wf(),
            !r.spec_working(),
            r.spec_receiver() is None,
            !r.spec_showing(),
    {
        RecognitionBridge { working: false, receiver: None, showing: false }
    }

    pub fn is_working(&self) -> (r: bool)
        ensures
            r == self.spec_working(),
    {
        self.working
    }

    /// Starts watching a job that reports through `receiver`, unless one is
    /// running already: then nothing changes, the new channel is dropped and
    /// the running job's channel stays the only one watched.
    pub fn try_submit(&mut self, receiver: Receiver<String>, text: &mut String) -> (accepted: bool)
        requires
            old(self).wf(),
        ensures
            final(self).wf(),
            (*final(self), accepted) == old(self).spec_submit(receiver),
            accepted == !old(self).spec_working(),
            !accepted ==> *final(self) == *old(self) && *final(text) == *old(text),
            accepted ==> final(self).spec_working() && final(self).spec_receiver() == Some(receiver)
                && final(self).spec_showing() && final(text)@ == WORKING_TEXT@,
    {
        if self.working {
            return false;
        }
        self.receiver = Some(receiver);
        self.working = true;
        self.showing = true;
        *text = WORKING_TEXT.to_owned();
        true
    }

    /// Takes in what a poll of the channel found: the chunks in the order
    /// they were sent, and whether the sender had gone. The first chunk of a
    /// job replaces the working text if it is still shown; every chunk is
    /// appended to `text`. When the sender has gone, the job is over.
    pub fn absorb(&mut self, chunks: &Vec<String>, closed: bool, text: &mut String)
        requires
            old(self).wf(),
        ensures
            final(self).wf(),
            final(text)@ == append_chunks(
                old(text)@,
                old(self).spec_showing(),
                chunks@.map_values(|c: String| c@),
            ),
            final(self).spec_showing() == (old(self).spec_showing() && chunks@.len() == 0
                && !closed),
            closed ==> !final(self).spec_working() && final(self).spec_receiver() is None,
            !closed ==> final(self).spec_working() == old(self).spec_working()
                && final(self).spec_receiver() == old(self).spec_receiver(),
    {
        let ghost cs = chunks@.map_values(|c: String| c@);
        let ghost t0 = text@;
        if chunks.len() > 0 {
            let working_text = WORKING_TEXT.to_owned();
            if self.showing && *text == working_text {
                *text = String::new();
            }
            self.showing = false;
        }
        let ghost base = text@;
        let mut i: usize = 0;
        assert(cs.take(0) =~= Seq::<Seq<char>>::empty());
        assert(base + concat_all(cs.take(0)) =~= base);
        while i < chunks.len()
            invariant
                i <= chunks.len(),
                cs == chunks@.map_values(|c: String| c@),
                text@ == base + concat_all(cs.take(i as int)),
            decreases chunks.len() - i,
        {
            push_str(text, chunks[i].as_str());
            assert(cs.take(i + 1).drop_last() =~= cs.take(i as int));
            assert(cs.take(i + 1).last() == chunks@[i as int]@);
            assert(base + concat_all(cs.take(i + 1)) =~= base + concat_all(cs.take(i as int))
                + chunks@[i as int]@);
            i = i + 1;
        }
        assert(cs.take(chunks.len() as int) =~= cs);
        proof {
            if base.len() == 0 {
                assert(base + concat_all(cs) =~= concat_all(cs));
            }
        }
        if closed {
            self.working = false;
            self.receiver = None;
            self.showing = false;
        }
    }

    /// Takes every chunk that has arrived, without waiting, appends them to
    /// `text` in arrival order, and ends the job when its sender has gone.
    /// What arrived is up to the job; whatever it was, `text` grows by it as
    /// `absorb` says.
    pub fn poll(&mut self, text: &mut String)
        requires
            old(self).wf(),
        ensures
            final(self).wf(),
            !old(self).spec_working() ==> *final(self) == *old(self) && *final(text) == *old(text),
            exists|chunks: Seq<Seq<char>>|
                #[trigger] append_chunks(old(text)@, old(self).spec_showing(), chunks)
                    == final(text)@,
            final(self).spec_working() ==> final(self).spec_working() == old(self).spec_working()
                && final(self).spec_receiver() == old(self).spec_receiver(),
            !final(self).spec_working() ==> final(self).spec_receiver() is None,
    {
        let mut chunks: Vec<String> = Vec::new();
        let mut closed = false;
        match &self.receiver {
            None => {
                assert(append_chunks(text@, self.spec_showing(), Seq::<Seq<char>>::empty()) == text@);
                return;
            },
            Some(rx) => {
                let mut budget: usize = MAX_CHUNKS_PER_POLL;
                while budget > 0
                    invariant
                        budget <= MAX_CHUNKS_PER_POLL,
                    decreases budget,
                {
                    match poll_channel(rx) {
                        Polled::Chunk(c) => chunks.push(c),
                        Polled::Pending => break,
                        Polled::Closed => {
                            closed = true;
                            break;
                        },
                    }
                    budget = budget - 1;
                }
            },
        }
        let ghost before = text@;
        let ghost shown = self.spec_showing();
        self.absorb(&chunks, closed, text);
        assert(append_chunks(before, shown, chunks@.map_values(|c: String| c@)) == text@);
    }
}

/// At most one job at a time: once a job has been taken, any further job is
/// refused and leaves the slot as it was, so the first job's channel stays
/// the only one watched until that job ends.
pub proof fn lemma_one_job_at_a_time(
    b: RecognitionBridge,
    first: Receiver<String>,
    second: Receiver<String>,
)
    requires
        b.wf(),
        !b.spec_working(),
    ensures
        b.spec_submit(first).1,
        b.spec_submit(first).0.wf(),
        b.spec_submit(first).0.spec_working(),
        b.spec_submit(first).0.spec_showing(),
        b.spec_submit(first).0.spec_receiver() == Some(first),
        b.spec_submit(first).0.spec_submit(second) == (b.spec_submit(first).0, false),
{
}

} // verus!
