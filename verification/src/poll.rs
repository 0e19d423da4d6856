//! The decisions of the polling loop. The embedding program opens the
//! channel, makes the requests and waits; after each it hands the outcome to
//! the loop, which answers with what to do next.

use vstd::prelude::*;
use crate::channel::{spec_after_open, spec_after_request, ChannelError, ChannelState};
use crate::dedup::{
    lemma_first_observation, lemma_seen_after, spec_answer, spec_seen_after, Deduplicator,
};
use crate::layout::{MAX_PROCESSES, RECORD_SIZE};
use crate::record::{
    check_framing, decode_record, peek_pid, spec_decode, spec_framing_error, spec_record_at,
    spec_views, DecodeError, ProcessRecord, RecordView,
};

verus! {

/// Milliseconds to wait before the next request after a response that held
/// records.
pub const POLL_INTERVAL_MS: u64 = 200;

/// Milliseconds to wait before the next request after an empty response.
pub const IDLE_INTERVAL_MS: u64 = 1000;

/// Why a loop stopped.
#[derive(Debug, Clone, Copy, PartialEq, Eq, Structural)]
pub enum LoopFault {
    /// The channel failed.
    Channel(ChannelError),
    /// A response broke the record layout's contract.
    Decode(DecodeError),
}

/// The exit status of a process whose loop was ended by `fault`: failure
/// where the channel could not be opened, so that no loop ever ran; success
/// where the loop ran and was stopped in an orderly way.
pub open spec fn spec_exit_code(fault: LoopFault) -> u8 {
    match fault {
        LoopFault::Channel(ChannelError::OpenFailed { code }) => 1,
        _ => 0,
    }
}

impl LoopFault {
    /// The exit status that the embedding process reports for this fault.
    pub fn exit_code(&self) -> (status: u8)
        ensures
            status == spec_exit_code(*self),
    {
        match self {
            LoopFault::Channel(ChannelError::OpenFailed { .. }) => 1,
            _ => 0,
        }
    }
}

/// What the embedding program does next.
#[derive(Debug, Clone)]
pub enum Step {
    /// Open the channel and hand the outcome to `on_open`.
    Open,
    /// Pass each record of `emit` to the sink, in order; wait `wait_ms`
    /// milliseconds; make one request and hand the outcome to `on_fetch`.
    Fetch { wait_ms: u64, emit: Vec<ProcessRecord> },
    /// Release the channel and report `fault`; the loop has ended.
    Stop { fault: LoopFault },
}

/// A step as a mathematical value.
pub enum StepView {
    Open,
    Fetch { wait_ms: u64, emit: Seq<RecordView> },
    Stop { fault: LoopFault },
}

impl View for Step {
    type V = StepView;

    open spec fn view(&self) -> StepView {
        match *self {
            Step::Open => StepView::Open,
            Step::Fetch { wait_ms, emit } => StepView::Fetch { wait_ms, emit: spec_views(emit@) },
            Step::Stop { fault } => StepView::Stop { fault },
        }
    }
}

/// A loop as a mathematical value.
pub struct PollView {
    /// State of the channel.
    pub channel: ChannelState,
    /// Why the loop stopped, once it has.
    pub fault: Option<LoopFault>,
    /// Process ids emitted so far.
    pub seen: Set<u32>,
}

/// One polling loop: the state of its channel, the ids it has emitted, and
/// the fault that ended it, if one did. Each loop has a memory of its own.
pub struct PollLoop {
    channel: ChannelState,
    fault: Option<LoopFault>,
    seen: Deduplicator,
}

impl View for PollLoop {
    type V = PollView;

    closed spec fn view(&self) -> PollView {
        PollView { channel: self.channel, fault: self.fault, seen: self.seen@ }
    }
}

/// The process ids of a batch, in batch order.
pub open spec fn spec_pids(records: Seq<RecordView>) -> Seq<u32> {
    Seq::new(records.len(), |i: int| records[i].pid)
}

/// The records of a batch that are emitted by a loop that has already
/// emitted the ids in `seen`: each record whose id is presented for the
/// first time, in batch order.
pub open spec fn spec_emitted(seen: Set<u32>, records: Seq<RecordView>) -> Seq<RecordView>
    decreases records.len(),
{
    if records.len() == 0 {
        Seq::empty()
    } else {
        let earlier = spec_emitted(seen, records.drop_last());
        if spec_answer(seen, spec_pids(records), records.len() - 1) {
            earlier.push(records.last())
        } else {
            earlier
        }
    }
}

/// The loop and the step after the outcome of an attempt to open.
///
/// A stopped loop stays stopped. A disconnected one becomes connected and
/// asks for a first request at once, or stops with the failure: it does not
/// try again. A connected one goes on with a request.
pub open spec fn spec_on_open(before: PollView, opened: Result<(), ChannelError>) -> (
    PollView,
    StepView,
) {
    match before.fault {
        Some(fault) => (before, StepView::Stop { fault }),
        None => if before.channel == ChannelState::Disconnected && opened is Err {
            (
                PollView { fault: Some(LoopFault::Channel(opened->Err_0)), ..before },
                StepView::Stop { fault: LoopFault::Channel(opened->Err_0) },
            )
        } else {
            (
                PollView { channel: spec_after_open(before.channel, true), ..before },
                StepView::Fetch { wait_ms: 0, emit: Seq::empty() },
            )
        },
    }
}

/// The loop and the step after the outcome of a request.
///
/// A stopped loop stays stopped, and one that is not connected asks to be
/// opened. On a connected loop a failed request or an ill-framed response
/// faults the channel and stops the loop, and nothing of that response is
/// emitted; an empty response changes nothing and asks for the long wait; any
/// other is decoded, its first-seen records are emitted in response order
/// and their ids remembered, and the short wait follows.
pub open spec fn spec_on_fetch(before: PollView, fetched: Result<Seq<u8>, ChannelError>) -> (
    PollView,
    StepView,
) {
    match before.fault {
        Some(fault) => (before, StepView::Stop { fault }),
        None => if before.channel != ChannelState::Connected {
            (before, StepView::Open)
        } else {
            match fetched {
                Err(error) => spec_faulted(before, LoopFault::Channel(error)),
                Ok(bytes) => if bytes.len() == 0 {
                    (before, StepView::Fetch { wait_ms: IDLE_INTERVAL_MS, emit: Seq::empty() })
                } else {
                    match spec_framing_error(bytes.len() as usize, RECORD_SIZE, MAX_PROCESSES) {
                        Some(error) => spec_faulted(before, LoopFault::Decode(error)),
                        None => (
                            PollView {
                                seen: spec_seen_after(before.seen, spec_pids(spec_decode(bytes))),
                                ..before
                            },
                            StepView::Fetch {
                                wait_ms: POLL_INTERVAL_MS,
                                emit: spec_emitted(before.seen, spec_decode(bytes)),
                            },
                        ),
                    }
                },
            }
        },
    }
}

/// A connected loop stopped by `fault`: the channel is faulted, the memory
/// of emitted ids is kept.
pub open spec fn spec_faulted(before: PollView, fault: LoopFault) -> (PollView, StepView) {
    (
        PollView {
            channel: spec_after_request(before.channel, false),
            fault: Some(fault),
            ..before
        },
        StepView::Stop { fault },
    )
}

/// The outcome of a request with its bytes as a sequence.
pub open spec fn spec_fetched(fetched: Result<Vec<u8>, ChannelError>) -> Result<
    Seq<u8>,
    ChannelError,
> {
    match fetched {
        Ok(bytes) => Ok(bytes@),
        Err(error) => Err(error),
    }
}

impl PollLoop {
    /// A loop whose channel is not yet open and which has emitted nothing.
    pub fn new() -> (poll: PollLoop)
        ensures
            poll@ == (PollView {
                channel: ChannelState::Disconnected,
                fault: None,
                seen: Set::<u32>::empty(),
            }),
    {
        PollLoop { channel: ChannelState::Disconnected, fault: None, seen: Deduplicator::new() }
    }

    /// State of the channel.
    pub fn channel_state(&self) -> (state: ChannelState)
        ensures
            state == self@.channel,
    {
        self.channel
    }

    /// Why the loop stopped, if it has.
    pub fn fault(&self) -> (fault: Option<LoopFault>)
        ensures
            fault == self@.fault,
    {
        self.fault
    }

    /// Whether a record with this process id was emitted before.
    pub fn has_seen(&self, pid: u32) -> (known: bool)
        ensures
            known == self@.seen.contains(pid),
    {
        self.seen.contains(pid)
    }

    /// Takes the outcome of an attempt to open the channel.
    pub fn on_open(&mut self, opened: Result<(), ChannelError>) -> (step: Step)
        ensures
            (final(self)@, step@) == spec_on_open(old(self)@, opened),
    {
        if let Some(fault) = self.fault {
            return Step::Stop { fault };
        }
        if self.channel == ChannelState::Disconnected {
            if let Err(error) = opened {
                let fault = LoopFault::Channel(error);
                self.fault = Some(fault);
                return Step::Stop { fault };
            }
        }
        self.channel = self.channel.after_open(true);
        let emit: Vec<ProcessRecord> = Vec::new();
        assert(spec_views(emit@) =~= Seq::<RecordView>::empty());
        Step::Fetch { wait_ms: 0, emit }
    }

    /// Takes the outcome of a request: the bytes of the response, or the
    /// channel's failure.
    pub fn on_fetch(&mut self, fetched: Result<Vec<u8>, ChannelError>) -> (step: Step)
        ensures
            (final(self)@, step@) == spec_on_fetch(old(self)@, spec_fetched(fetched)),
    {
        if let Some(fault) = self.fault {
            return Step::Stop { fault };
        }
        if !self.channel.is_connected() {
            return Step::Open;
        }
        let bytes = match fetched {
            Ok(bytes) => bytes,
            Err(error) => {
                return self.stop(LoopFault::Channel(error));
            },
        };
        let mut emit: Vec<ProcessRecord> = Vec::new();
        if bytes.len() == 0 {
            assert(spec_views(emit@) =~= Seq::<RecordView>::empty());
            return Step::Fetch { wait_ms: IDLE_INTERVAL_MS, emit };
        }
        let count = match check_framing(bytes.len(), RECORD_SIZE, MAX_PROCESSES) {
            Ok(count) => count,
            Err(error) => {
                return self.stop(LoopFault::Decode(error));
            },
        };
        let ghost batch = spec_decode(bytes@);
        let ghost known = self.seen@;
        let mut index: usize = 0;
        assert(spec_views(emit@) =~= Seq::<RecordView>::empty());
        assert(spec_pids(batch.subrange(0, 0)) =~= Seq::<u32>::empty());
        while index < count
            invariant
                index <= count,
                count == bytes@.len() / RECORD_SIZE as nat,
                batch == spec_decode(bytes@),
                self.channel == old(self).channel,
                self.fault == old(self).fault,
                self.seen@ == spec_seen_after(known, spec_pids(batch.subrange(0, index as int))),
                spec_views(emit@) == spec_emitted(known, batch.subrange(0, index as int)),
            decreases count - index,
        {
            let pid = peek_pid(bytes.as_slice(), index);
            let first = self.seen.observe(pid);
            proof {
                let upto = batch.subrange(0, index as int);
                let next = batch.subrange(0, index + 1);
                assert(next.drop_last() =~= upto);
                assert(next.last() == spec_record_at(bytes@, index as int));
                assert(spec_pids(next).drop_last() =~= spec_pids(upto));
                assert(spec_pids(next).subrange(0, index as int) =~= spec_pids(upto));
                assert(spec_pids(next).last() == pid);
            }
            if first {
                let record = decode_record(bytes.as_slice(), index);
                let ghost before = spec_views(emit@);
                emit.push(record);
                assert(spec_views(emit@) =~= before.push(record@));
            }
            index += 1;
        }
        assert(batch.subrange(0, count as int) =~= batch);
        Step::Fetch { wait_ms: POLL_INTERVAL_MS, emit }
    }

    /// Faults the channel of a connected loop and records why.
    fn stop(&mut self, fault: LoopFault) -> (step: Step)
        requires
            old(self)@.fault is None,
        ensures
            (final(self)@, step@) == spec_faulted(old(self)@, fault),
    {
        self.channel = self.channel.after_request(false);
        self.fault = Some(fault);
        Step::Stop { fault }
    }
}

/// Exactly once: a batch emits a record for each process id that it holds
/// and that was not emitted before, for no other id, and for none twice.
pub proof fn lemma_emitted_once(seen: Set<u32>, records: Seq<RecordView>)
    ensures
        forall|pid: u32|
            #[trigger] spec_pids(spec_emitted(seen, records)).contains(pid) <==> (!seen.contains(
                pid,
            ) && spec_pids(records).contains(pid)),
        spec_pids(spec_emitted(seen, records)).no_duplicates(),
        spec_emitted(seen, records).len() <= records.len(),
    decreases records.len(),
{
    if records.len() > 0 {
        let front = records.drop_last();
        let last = records.last();
        let at = records.len() - 1;
        let pids = spec_pids(records);
        let earlier = spec_pids(spec_emitted(seen, front));
        let now = spec_pids(spec_emitted(seen, records));
        lemma_emitted_once(seen, front);
        lemma_first_observation(seen, pids, at);
        assert(pids[at] == last.pid);
        assert(spec_pids(front) =~= pids.subrange(0, at));
        let first = spec_answer(seen, pids, at);
        if first {
            assert(now =~= earlier.push(last.pid));
            if earlier.contains(last.pid) {
                assert(spec_pids(front).contains(last.pid));
                let k = choose|k: int| 0 <= k < at && spec_pids(front)[k] == last.pid;
                assert(pids[k] == last.pid);
            }
        } else {
            assert(now =~= earlier);
        }
        assert forall|pid: u32|
            #[trigger] now.contains(pid) <==> (!seen.contains(pid) && pids.contains(pid)) by {
            if now.contains(pid) {
                let k = choose|k: int| 0 <= k < now.len() && now[k] == pid;
                if k < earlier.len() {
                    assert(earlier[k] == pid);
                    assert(earlier.contains(pid));
                    assert(spec_pids(front).contains(pid));
                    let j = choose|j: int| 0 <= j < at && spec_pids(front)[j] == pid;
                    assert(pids[j] == pid);
                } else {
                    assert(pid == last.pid);
                }
            }
            if !seen.contains(pid) && pids.contains(pid) {
                let j = choose|j: int| 0 <= j < pids.len() && pids[j] == pid;
                if j < at {
                    assert(spec_pids(front)[j] == pid);
                    assert(spec_pids(front).contains(pid));
                    assert(earlier.contains(pid));
                    let k = choose|k: int| 0 <= k < earlier.len() && earlier[k] == pid;
                    assert(now[k] == pid);
                } else if first {
                    assert(now[now.len() - 1] == pid);
                } else {
                    let i = choose|i: int| 0 <= i < at && pids[i] == pids[at];
                    assert(spec_pids(front)[i] == pid);
                    assert(spec_pids(front).contains(pid));
                    assert(earlier.contains(pid));
                    let k = choose|k: int| 0 <= k < earlier.len() && earlier[k] == pid;
                    assert(now[k] == pid);
                }
            }
        }
    }
}

/// Nothing is forgotten: after any outcome of a request the loop still knows
/// every id it knew before.
pub proof fn lemma_memory_grows(before: PollView, fetched: Result<Seq<u8>, ChannelError>)
    ensures
        before.seen.subset_of(spec_on_fetch(before, fetched).0.seen),
{
    if let Ok(bytes) = fetched {
        lemma_seen_after(before.seen, spec_pids(spec_decode(bytes)));
    }
}

/// A stopped loop stays stopped: every later outcome is answered with the
/// fault that ended it, and changes nothing.
pub proof fn lemma_stop_is_final(
    before: PollView,
    opened: Result<(), ChannelError>,
    fetched: Result<Seq<u8>, ChannelError>,
)
    requires
        before.fault is Some,
    ensures
        spec_on_open(before, opened) == (before, StepView::Stop { fault: before.fault->Some_0 }),
        spec_on_fetch(before, fetched) == (before, StepView::Stop { fault: before.fault->Some_0 }),
{
}

/// An empty response on a running loop changes nothing, emits nothing and
/// asks for the long wait before the next request.
pub proof fn lemma_empty_response_idles(before: PollView)
    requires
        before.fault is None,
        before.channel == ChannelState::Connected,
    ensures
        spec_on_fetch(before, Ok(Seq::empty())) == (
            before,
            StepView::Fetch { wait_ms: IDLE_INTERVAL_MS, emit: Seq::empty() },
        ),
{
}

/// A response on a running loop whose length is no whole number of records
/// stops the loop as misaligned: the channel is faulted, nothing is
/// emitted and no id of that response is remembered.
pub proof fn lemma_misaligned_response_stops(before: PollView, bytes: Seq<u8>)
    requires
        before.fault is None,
        before.channel == ChannelState::Connected,
        bytes.len() <= usize::MAX,
        bytes.len() % RECORD_SIZE as nat != 0,
    ensures
        spec_on_fetch(before, Ok(bytes)).1 == (StepView::Stop {
            fault: LoopFault::Decode(
                DecodeError::Misaligned { length: bytes.len() as usize, record_size: RECORD_SIZE },
            ),
        }),
        spec_on_fetch(before, Ok(bytes)).0.channel == ChannelState::Faulted,
        spec_on_fetch(before, Ok(bytes)).0.seen == before.seen,
{
}

} // verus!
