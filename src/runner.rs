//! The sequence runner: one sequence of steps as a state machine.
//!
//! The runner decides; its caller does the outside work. Each call returns an
//! `Action` (read files and sign, send frames, wait for a datagram, or stop),
//! and the caller reports what came of it as an `Event`.
use vstd::prelude::*;
use crate::bindings::Bindings;
use crate::builder::{
    ExternalOp, ExternalOpView, build_request, byte_views, external_ops, external_requests,
    op_views, request_bytes,
};
use crate::can::{CANFrame, EXTENDED_ID_MAX};
use crate::codec::{MAX_PAYLOAD, segment, segment_wire, wires};
use crate::error::Error;
use crate::grammar::{
    RequestToken, RequestTokenView, parse_request_tokens, parse_response_tokens, request_tokens,
    request_views, response_tokens, text_views,
};
use crate::matcher::{is_response_pending, match_all, match_response, pending, verdict};

verus! {

/// One step: the request tokens, the response tokens, and a name to report.
#[derive(Debug)]
pub struct Step {
    pub name: String,
    pub request: Vec<String>,
    pub response: Vec<String>,
}

/// Where a sequence stands.
#[derive(Debug, Clone, Copy, PartialEq, Eq, Structural)]
pub enum SequenceState {
    Idle,
    Running(usize),
    Passed,
    Failed(usize),
}

/// What a running step waits for.
#[derive(Debug, Clone, Copy, PartialEq, Eq, Structural)]
pub enum Phase {
    /// The outcome of file reads and signatures.
    Fetching,
    /// Confirmation that the request frames went out.
    Sending,
    /// A response datagram.
    Awaiting,
}

/// What the caller is asked to do next.
#[derive(Debug)]
pub enum Action {
    /// Perform these operations, in order, and report `Event::Fetched`.
    Fetch(Vec<ExternalOp>),
    /// Send these frames, in order, and report `Event::Sent`.
    Send(Vec<CANFrame>),
    /// Wait for one response datagram and report `Event::Received`.
    Receive,
    /// The sequence is over.
    Finished(SequenceState),
}

/// What came of the last action.
#[derive(Debug)]
pub enum Event {
    /// The result of each operation of `Action::Fetch`, in order.
    Fetched(Vec<Vec<u8>>),
    /// The frames of `Action::Send` went out.
    Sent,
    /// A datagram arrived.
    Received(Vec<u8>),
    /// The action failed.
    Failed(Error),
}

/// The parsed request of a step and the outside work it needs.
pub open spec fn request_plan(texts: Seq<Seq<char>>, b: Map<Seq<char>, Seq<u8>>) -> Result<
    (Seq<RequestTokenView>, Seq<ExternalOpView>),
    Error,
> {
    match request_tokens(texts) {
        None => Err(Error::Grammar),
        Some(toks) => match external_ops(toks, b) {
            Err(e) => Err(e),
            Ok(ops) => Ok((toks, ops)),
        },
    }
}

/// The request bytes to send, once the outside results are in.
pub open spec fn request_to_send(
    toks: Seq<RequestTokenView>,
    results: Seq<Seq<u8>>,
    tx_id: u32,
) -> Result<Seq<u8>, Error> {
    match request_bytes(toks, results) {
        Err(e) => Err(e),
        Ok(bytes) => {
            if tx_id > EXTENDED_ID_MAX {
                Err(Error::Config)
            } else if bytes.len() > MAX_PAYLOAD {
                Err(Error::Framing)
            } else {
                Ok(bytes)
            }
        },
    }
}

/// Runs the steps of one sequence in order, stopping at the first that fails.
pub struct SequenceRunner {
    steps: Vec<Step>,
    tx_id: u32,
    state: SequenceState,
    phase: Phase,
    bindings: Bindings,
    request: Vec<RequestToken>,
    failure: Option<Error>,
}

impl SequenceRunner {
    /// A running or failed sequence names one of its own steps.
    pub open spec fn wf(self) -> bool {
        &&& self.state_spec() is Running ==> self.state_spec()->Running_0
            < self.steps_spec().len()
        &&& self.state_spec() is Failed ==> self.state_spec()->Failed_0 < self.steps_spec().len()
    }

    pub closed spec fn steps_spec(self) -> Seq<Step> {
        self.steps@
    }

    pub closed spec fn tx_id_spec(self) -> u32 {
        self.tx_id
    }

    pub closed spec fn state_spec(self) -> SequenceState {
        self.state
    }

    pub closed spec fn phase_spec(self) -> Phase {
        self.phase
    }

    pub closed spec fn bindings_spec(self) -> Map<Seq<char>, Seq<u8>> {
        self.bindings.view()
    }

    /// The parsed request tokens of the step that waits for outside results.
    pub closed spec fn request_spec(self) -> Seq<RequestTokenView> {
        request_views(self.request@)
    }

    pub closed spec fn failure_spec(self) -> Option<Error> {
        self.failure
    }

    /// The request token texts of step `k`.
    pub open spec fn request_texts(self, k: int) -> Seq<Seq<char>> {
        text_views(self.steps_spec()[k].request@)
    }

    /// The response token texts of step `k`.
    pub open spec fn response_texts(self, k: int) -> Seq<Seq<char>> {
        text_views(self.steps_spec()[k].response@)
    }

    /// Everything but state, phase, bindings, pending request and failure is
    /// as in `other`.
    pub open spec fn same_sequence(self, other: Self) -> bool {
        self.steps_spec() == other.steps_spec() && self.tx_id_spec() == other.tx_id_spec()
    }

    /// Step `k` failed with `e` and the caller is told so.
    pub open spec fn failed_with(self, a: Action, k: usize, e: Error) -> bool {
        &&& self.state_spec() == SequenceState::Failed(k)
        &&& self.failure_spec() == Some(e)
        &&& a == Action::Finished(SequenceState::Failed(k))
    }

    /// Step `k` sends the frames that carry `bytes` to the sequence's address.
    pub open spec fn sending(self, a: Action, k: usize, bytes: Seq<u8>) -> bool {
        &&& self.state_spec() == SequenceState::Running(k)
        &&& self.phase_spec() == Phase::Sending
        &&& a is Send
        &&& wires(a->Send_0@) == segment_wire(bytes)
        &&& forall|j: int|
            0 <= j < a->Send_0@.len() ==> (#[trigger] a->Send_0@[j]).id_spec() == self.tx_id_spec()
    }

    /// The request of step `k` is ready to go out, given `results`.
    pub open spec fn request_sent(
        self,
        a: Action,
        k: usize,
        toks: Seq<RequestTokenView>,
        results: Seq<Seq<u8>>,
    ) -> bool {
        match request_to_send(toks, results, self.tx_id_spec()) {
            Err(e) => self.failed_with(a, k, e),
            Ok(bytes) => self.sending(a, k, bytes),
        }
    }

    /// Step `k` has begun with bindings `b`: it failed, asks for outside
    /// work, or sends its request.
    pub open spec fn began(self, a: Action, k: usize, b: Map<Seq<char>, Seq<u8>>) -> bool {
        match request_plan(self.request_texts(k as int), b) {
            Err(e) => self.failed_with(a, k, e),
            Ok(plan) => {
                if plan.1.len() > 0 {
                    &&& self.state_spec() == SequenceState::Running(k)
                    &&& self.phase_spec() == Phase::Fetching
                    &&& self.request_spec() == plan.0
                    &&& a is Fetch
                    &&& op_views(a->Fetch_0@) == plan.1
                } else {
                    self.request_sent(a, k, plan.0, Seq::empty())
                }
            },
        }
    }

    /// A runner for `steps`, whose requests go to `tx_id`.
    pub fn new(steps: Vec<Step>, tx_id: u32) -> (r: Self)
        ensures
            r.wf(),
            r.steps_spec() == steps@,
            r.tx_id_spec() == tx_id,
            r.state_spec() == SequenceState::Idle,
            r.bindings_spec() == Map::<Seq<char>, Seq<u8>>::empty(),
            r.failure_spec() is None,
    {
        SequenceRunner {
            steps,
            tx_id,
            state: SequenceState::Idle,
            phase: Phase::Fetching,
            bindings: Bindings::new(),
            request: Vec::new(),
            failure: None,
        }
    }

    pub fn state(&self) -> (r: SequenceState)
        ensures
            r == self.state_spec(),
    {
        self.state
    }

    /// Why the sequence failed, once it has.
    pub fn failure(&self) -> (r: Option<Error>)
        ensures
            r == self.failure_spec(),
    {
        self.failure
    }

    pub fn bindings(&self) -> (r: &Bindings)
        ensures
            r.view() == self.bindings_spec(),
    {
        &self.bindings
    }

    pub fn step_count(&self) -> (r: usize)
        ensures
            r == self.steps_spec().len(),
    {
        self.steps.len()
    }

    /// The name of step `k`.
    pub fn step_name(&self, k: usize) -> (r: &String)
        requires
            k < self.steps_spec().len(),
        ensures
            r@ == self.steps_spec()[k as int].name@,
    {
        &self.steps[k].name
    }

    fn fail(&mut self, k: usize, e: Error) -> (a: Action)
        requires
            k < old(self).steps_spec().len(),
        ensures
            final(self).wf(),
            final(self).same_sequence(*old(self)),
            final(self).bindings_spec() == old(self).bindings_spec(),
            final(self).failed_with(a, k, e),
    {
        self.state = SequenceState::Failed(k);
        self.failure = Some(e);
        Action::Finished(SequenceState::Failed(k))
    }

    fn send_request(&mut self, k: usize, tokens: &Vec<RequestToken>, results: &Vec<Vec<u8>>) -> (a:
        Action)
        requires
            k < old(self).steps_spec().len(),
        ensures
            final(self).wf(),
            final(self).same_sequence(*old(self)),
            final(self).bindings_spec() == old(self).bindings_spec(),
            final(self).request_sent(a, k, request_views(tokens@), byte_views(results@)),
    {
        let bytes = match build_request(tokens, results) {
            Ok(b) => b,
            Err(e) => {
                return self.fail(k, e);
            },
        };
        let frames = match segment(self.tx_id, bytes.as_slice()) {
            Ok(f) => f,
            Err(e) => {
                return self.fail(k, e);
            },
        };
        self.state = SequenceState::Running(k);
        self.phase = Phase::Sending;
        Action::Send(frames)
    }

    fn begin(&mut self, k: usize) -> (a: Action)
        requires
            k < old(self).steps_spec().len(),
        ensures
            final(self).wf(),
            final(self).same_sequence(*old(self)),
            final(self).bindings_spec() == old(self).bindings_spec(),
            final(self).began(a, k, old(self).bindings_spec()),
    {
        let tokens = match parse_request_tokens(&self.steps[k].request) {
            Ok(t) => t,
            Err(e) => {
                return self.fail(k, e);
            },
        };
        let ops = match external_requests(&tokens, &self.bindings) {
            Ok(o) => o,
            Err(e) => {
                return self.fail(k, e);
            },
        };
        if ops.len() > 0 {
            self.request = tokens;
            self.state = SequenceState::Running(k);
            self.phase = Phase::Fetching;
            return Action::Fetch(ops);
        }
        let results: Vec<Vec<u8>> = Vec::new();
        assert(byte_views(results@) =~= Seq::<Seq<u8>>::empty());
        self.send_request(k, &tokens, &results)
    }

    /// Starts the sequence with empty bindings at its first step. A sequence
    /// without steps passes at once; one already started is left as it is.
    pub fn start(&mut self) -> (a: Action)
        requires
            old(self).wf(),
        ensures
            final(self).wf(),
            final(self).same_sequence(*old(self)),
            old(self).state_spec() != SequenceState::Idle ==> *final(self) == *old(self) && a
                == Action::Finished(old(self).state_spec()),
            old(self).state_spec() == SequenceState::Idle ==> final(self).bindings_spec() == Map::<
                Seq<char>,
                Seq<u8>,
            >::empty(),
            old(self).state_spec() == SequenceState::Idle && old(self).steps_spec().len() == 0
                ==> final(self).state_spec() == SequenceState::Passed && a == Action::Finished(
                SequenceState::Passed,
            ),
            old(self).state_spec() == SequenceState::Idle && old(self).steps_spec().len() > 0
                ==> final(self).began(a, 0, Map::<Seq<char>, Seq<u8>>::empty()),
    {
        if self.state != SequenceState::Idle {
            return Action::Finished(self.state);
        }
        self.bindings = Bindings::new();
        if self.steps.len() == 0 {
            self.state = SequenceState::Passed;
            return Action::Finished(SequenceState::Passed);
        }
        self.begin(0)
    }

    /// Takes the outcome of the last action and returns the next one.
    ///
    /// A "response pending" datagram changes nothing: the runner waits for
    /// the next one. Any other datagram is matched against the step's
    /// response tokens; on a match the next step begins (or the sequence
    /// passes after the last), otherwise the sequence fails at this step and
    /// no later step runs. A failed action, or an event that does not answer
    /// the pending action (taken as a channel fault), fails the step too.
    /// What one call of `on_event` does: from `pre`, event `ev` leads to
    /// `post` and action `a`.
    #[verifier::opaque]
    pub open spec fn event_outcome(pre: Self, ev: Event, post: Self, a: Action) -> bool {
        &&& post.same_sequence(pre)
        &&& !(pre.state_spec() is Running) ==> post == pre && a
                == Action::Finished(pre.state_spec())
        &&& pre.state_spec() is Running ==> {
                let k = pre.state_spec()->Running_0;
                let b = pre.bindings_spec();
                match ev {
                    Event::Failed(e) => post.failed_with(a, k, e)
                        && post.bindings_spec() == b,
                    Event::Fetched(results) => if pre.phase_spec() == Phase::Fetching {
                        post.request_sent(
                            a,
                            k,
                            pre.request_spec(),
                            byte_views(results@),
                        ) && post.bindings_spec() == b
                    } else {
                        post.failed_with(a, k, Error::Transport)
                            && post.bindings_spec() == b
                    },
                    Event::Sent => if pre.phase_spec() == Phase::Sending {
                        &&& post.state_spec() == SequenceState::Running(k)
                        &&& post.phase_spec() == Phase::Awaiting
                        &&& post.bindings_spec() == b
                        &&& a is Receive
                    } else {
                        post.failed_with(a, k, Error::Transport)
                            && post.bindings_spec() == b
                    },
                    Event::Received(dg) => if pre.phase_spec() != Phase::Awaiting {
                        post.failed_with(a, k, Error::Transport)
                            && post.bindings_spec() == b
                    } else if pending(dg@) {
                        post == pre && a is Receive
                    } else {
                        match response_tokens(pre.response_texts(k as int)) {
                            None => post.failed_with(a, k, Error::Grammar)
                                && post.bindings_spec() == b,
                            Some(toks) => {
                                let m = match_all(dg@, toks, b);
                                &&& post.bindings_spec() == m.bindings
                                &&& match verdict(m) {
                                    Ok(true) => if k + 1 == pre.steps_spec().len() {
                                        post.state_spec() == SequenceState::Passed && a
                                            == Action::Finished(SequenceState::Passed)
                                    } else {
                                        post.began(a, (k + 1) as usize, m.bindings)
                                    },
                                    Ok(false) => {
                                        &&& post.state_spec() == SequenceState::Failed(k)
                                        &&& post.failure_spec() == pre.failure_spec()
                                        &&& a == Action::Finished(SequenceState::Failed(k))
                                    },
                                    Err(e) => post.failed_with(a, k, e),
                                }
                            },
                        }
                    },
                }
            }
    }

    pub fn on_event(&mut self, ev: Event) -> (a: Action)
        requires
            old(self).wf(),
        ensures
            final(self).wf(),
            final(self).same_sequence(*old(self)),
            SequenceRunner::event_outcome(*old(self), ev, *final(self), a),
    {
        proof {
            reveal(SequenceRunner::event_outcome);
        }
        let k = match self.state {
            SequenceState::Running(k) => k,
            _ => {
                return Action::Finished(self.state);
            },
        };
        match ev {
            Event::Failed(e) => self.fail(k, e),
            Event::Fetched(results) => {
                if self.phase != Phase::Fetching {
                    return self.fail(k, Error::Transport);
                }
                let mut tokens: Vec<RequestToken> = Vec::new();
                core::mem::swap(&mut tokens, &mut self.request);
                self.send_request(k, &tokens, &results)
            },
            Event::Sent => {
                if self.phase != Phase::Sending {
                    return self.fail(k, Error::Transport);
                }
                self.phase = Phase::Awaiting;
                Action::Receive
            },
            Event::Received(dg) => {
                if self.phase != Phase::Awaiting {
                    return self.fail(k, Error::Transport);
                }
                if is_response_pending(dg.as_slice()) {
                    return Action::Receive;
                }
                let tokens = match parse_response_tokens(&self.steps[k].response) {
                    Ok(t) => t,
                    Err(e) => {
                        return self.fail(k, e);
                    },
                };
                match match_response(dg.as_slice(), &tokens, &mut self.bindings) {
                    Ok(true) => {
                        if k == self.steps.len() - 1 {
                            self.state = SequenceState::Passed;
                            Action::Finished(SequenceState::Passed)
                        } else {
                            self.begin(k + 1)
                        }
                    },
                    Ok(false) => {
                        self.state = SequenceState::Failed(k);
                        Action::Finished(SequenceState::Failed(k))
                    },
                    Err(e) => self.fail(k, e),
                }
            },
        }
    }
}

/// Step `k` of the runner `pre` waited for its response and `ev` brought a
/// datagram, not a pending one, that its response tokens match.
pub open spec fn step_matched(pre: SequenceRunner, ev: Event, k: usize) -> bool {
    &&& pre.state_spec() == SequenceState::Running(k)
    &&& pre.phase_spec() == Phase::Awaiting
    &&& ev is Received
    &&& !pending(ev->Received_0@)
    &&& response_tokens(pre.response_texts(k as int)) is Some
    &&& verdict(
        match_all(
            ev->Received_0@,
            response_tokens(pre.response_texts(k as int))->0,
            pre.bindings_spec(),
        ),
    ) == Ok::<bool, Error>(true)
}

/// Some event before position `m` of a trace matched step `k`.
pub open spec fn matched_before(rs: Seq<SequenceRunner>, evs: Seq<Event>, k: usize, m: int) -> bool {
    exists|j: int| 0 <= j < m && #[trigger] step_matched(rs[j], evs[j], k)
}

/// `rs[j + 1]` and `acts[j]` are what `on_event` made of `rs[j]` and `evs[j]`.
pub open spec fn is_trace(rs: Seq<SequenceRunner>, evs: Seq<Event>, acts: Seq<Action>) -> bool {
    &&& rs.len() == evs.len() + 1
    &&& acts.len() == evs.len()
    &&& forall|j: int|
        0 <= j < evs.len() ==> SequenceRunner::event_outcome(
            #[trigger] rs[j],
            evs[j],
            rs[j + 1],
            acts[j],
        )
}

/// A run of "response pending" datagrams leaves a runner that waits for a
/// response exactly as it was, each one only asking for the next datagram;
/// so none of them is matched, and the first other datagram is judged as if
/// it had come alone.
pub proof fn lemma_pending_run_changes_nothing(
    rs: Seq<SequenceRunner>,
    dgs: Seq<Vec<u8>>,
    acts: Seq<Action>,
)
    requires
        is_trace(rs, dgs.map_values(|d: Vec<u8>| Event::Received(d)), acts),
        rs[0].state_spec() is Running,
        rs[0].phase_spec() == Phase::Awaiting,
        forall|j: int| 0 <= j < dgs.len() ==> pending((#[trigger] dgs[j])@),
    ensures
        forall|j: int| 0 <= j < rs.len() ==> #[trigger] rs[j] == rs[0],
        forall|j: int| 0 <= j < acts.len() ==> #[trigger] acts[j] is Receive,
    decreases dgs.len(),
{
    let evs = dgs.map_values(|d: Vec<u8>| Event::Received(d));
    if dgs.len() > 0 {
        let n = dgs.len() - 1;
        let rs2 = rs.drop_last();
        let dgs2 = dgs.drop_last();
        let acts2 = acts.drop_last();
        let evs2 = dgs2.map_values(|d: Vec<u8>| Event::Received(d));
        assert forall|j: int| 0 <= j < evs2.len() implies SequenceRunner::event_outcome(
            #[trigger] rs2[j],
            evs2[j],
            rs2[j + 1],
            acts2[j],
        ) by {
            assert(evs2[j] == evs[j]);
            assert(SequenceRunner::event_outcome(rs[j], evs[j], rs[j + 1], acts[j]));
        }
        assert forall|j: int| 0 <= j < dgs2.len() implies pending((#[trigger] dgs2[j])@) by {
            assert(dgs2[j] == dgs[j]);
        }
        lemma_pending_run_changes_nothing(rs2, dgs2, acts2);
        assert(rs2[n] == rs[n]);
        assert(evs[n] == Event::Received(dgs[n]));
        assert(SequenceRunner::event_outcome(rs[n], evs[n], rs[n + 1], acts[n]));
        reveal(SequenceRunner::event_outcome);
        assert forall|j: int| 0 <= j < rs.len() implies #[trigger] rs[j] == rs[0] by {
            if j < rs.len() - 1 {
                assert(rs2[j] == rs[j]);
            }
        }
        assert forall|j: int| 0 <= j < acts.len() implies #[trigger] acts[j] is Receive by {
            if j < n {
                assert(acts2[j] == acts[j]);
            }
        }
    }
}

/// What one move from a running step can reach: the same step, a failure,
/// or, only when that step's response matched, the next step or a pass.
proof fn lemma_move(pre: SequenceRunner, ev: Event, post: SequenceRunner, a: Action)
    requires
        SequenceRunner::event_outcome(pre, ev, post, a),
        pre.state_spec() is Running,
    ensures
        post.steps_spec() == pre.steps_spec(),
        !(post.state_spec() is Idle),
        post.state_spec() is Running ==> post.state_spec()->Running_0 == pre.state_spec()->Running_0
            || (post.state_spec()->Running_0 == (pre.state_spec()->Running_0 + 1) as usize
            && step_matched(
            pre,
            ev,
            pre.state_spec()->Running_0,
        )),
        post.state_spec() is Passed ==> pre.state_spec()->Running_0 + 1 == pre.steps_spec().len()
            && step_matched(pre, ev, pre.state_spec()->Running_0),
{
    reveal(SequenceRunner::event_outcome);
}

/// A runner that is not running ignores every event.
proof fn lemma_stay(pre: SequenceRunner, ev: Event, post: SequenceRunner, a: Action)
    requires
        SequenceRunner::event_outcome(pre, ev, post, a),
        !(pre.state_spec() is Running),
    ensures
        post == pre,
        a == Action::Finished(pre.state_spec()),
{
    reveal(SequenceRunner::event_outcome);
}

/// Along a trace from the first step, the steps stay the same and every
/// step before the one reached (every step, once passed) has matched.
proof fn lemma_trace_prefix(rs: Seq<SequenceRunner>, evs: Seq<Event>, acts: Seq<Action>, m: int)
    requires
        is_trace(rs, evs, acts),
        rs[0].state_spec() == SequenceState::Running(0),
        0 <= m < rs.len(),
    ensures
        rs[m].steps_spec() == rs[0].steps_spec(),
        !(rs[m].state_spec() is Idle),
        rs[m].state_spec() is Running ==> forall|k: usize|
            k < rs[m].state_spec()->Running_0 ==> matched_before(rs, evs, k, m),
        rs[m].state_spec() is Passed ==> forall|k: usize|
            k < rs[0].steps_spec().len() ==> matched_before(rs, evs, k, m),
    decreases m,
{
    if m > 0 {
        let p = m - 1;
        lemma_trace_prefix(rs, evs, acts, p);
        let pre = rs[p];
        let post = rs[m];
        assert(SequenceRunner::event_outcome(rs[p], evs[p], rs[p + 1], acts[p]));
        if pre.state_spec() is Running {
            lemma_move(pre, evs[p], post, acts[p]);
            let k0 = pre.state_spec()->Running_0;
            if post.state_spec() is Running {
                assert forall|k: usize| k < post.state_spec()->Running_0 implies matched_before(
                    rs,
                    evs,
                    k,
                    m,
                ) by {
                    if k < k0 {
                        assert(matched_before(rs, evs, k, p));
                        let j = choose|j: int| 0 <= j < p && #[trigger] step_matched(rs[j], evs[j], k);
                        assert(0 <= j < m && step_matched(rs[j], evs[j], k));
                    } else {
                        assert(step_matched(rs[p], evs[p], k));
                    }
                }
            }
            if post.state_spec() is Passed {
                assert forall|k: usize| k < rs[0].steps_spec().len() implies matched_before(
                    rs,
                    evs,
                    k,
                    m,
                ) by {
                    if k < k0 {
                        assert(matched_before(rs, evs, k, p));
                        let j = choose|j: int| 0 <= j < p && #[trigger] step_matched(rs[j], evs[j], k);
                        assert(0 <= j < m && step_matched(rs[j], evs[j], k));
                    } else {
                        assert(step_matched(rs[p], evs[p], k));
                    }
                }
            }
        } else {
            lemma_stay(pre, evs[p], post, acts[p]);
            if post.state_spec() is Passed {
                assert forall|k: usize| k < rs[0].steps_spec().len() implies matched_before(
                    rs,
                    evs,
                    k,
                    m,
                ) by {
                    assert(matched_before(rs, evs, k, p));
                    let j = choose|j: int| 0 <= j < p && #[trigger] step_matched(rs[j], evs[j], k);
                    assert(0 <= j < m && step_matched(rs[j], evs[j], k));
                }
            }
        }
    }
}

/// A sequence passes only if every one of its steps matched: along any run
/// of `on_event` from its first step to `Passed`, each step's response was
/// matched by a datagram that was not a pending one.
pub proof fn lemma_passed_only_if_every_step_matched(
    rs: Seq<SequenceRunner>,
    evs: Seq<Event>,
    acts: Seq<Action>,
)
    requires
        is_trace(rs, evs, acts),
        rs[0].state_spec() == SequenceState::Running(0),
        rs.last().state_spec() == SequenceState::Passed,
    ensures
        forall|k: usize| k < rs[0].steps_spec().len() ==> matched_before(rs, evs, k, evs.len() as int),
{
    lemma_trace_prefix(rs, evs, acts, rs.len() - 1);
}

/// A failed sequence stays failed at the same step: no later event runs
/// another step.
pub proof fn lemma_failed_is_final(rs: Seq<SequenceRunner>, evs: Seq<Event>, acts: Seq<Action>, m: int)
    requires
        is_trace(rs, evs, acts),
        0 <= m < rs.len(),
        rs[m].state_spec() is Failed,
    ensures
        forall|j: int| m <= j < rs.len() ==> #[trigger] rs[j] == rs[m],
        forall|j: int| m <= j < acts.len() ==> #[trigger] acts[j] == Action::Finished(rs[m].state_spec()),
    decreases rs.len() - m,
{
    if m + 1 < rs.len() {
        assert(SequenceRunner::event_outcome(rs[m], evs[m], rs[m + 1], acts[m]));
        lemma_stay(rs[m], evs[m], rs[m + 1], acts[m]);
        lemma_failed_is_final(rs, evs, acts, m + 1);
    }
}

} // verus!
