//! The round engine: a state machine that the host's loop drives with events (start, a question
//! delivered or not, a frame read, the clock) and that answers with what to send to whom.
use vstd::prelude::*;
use vstd::string::StringSliceAdditionalSpecFns;
use crate::frame::{encode_text_frame, text_frame};
use crate::quiz::{message_spec, parse_client_message, question_frame, question_payload, ClientMessage, Question};
use crate::registry::{
    active_ids,
    fresh_client,
    lemma_dropped_not_reported,
    score_report,
    with_all_closed,
    with_none_awaiting,
    Client,
    ClientRegistry,
    ClientStatus,
};

verus! {

/// Where the session stands. Questions are named by their position in the quiz.
#[derive(Clone, Copy, Debug, PartialEq, Eq, Structural)]
pub enum RoundState {
    WaitingToStart,
    /// The question is being sent to every active client.
    Broadcasting(usize),
    /// Answers to the question are taken until the deadline (in milliseconds of the host's clock).
    CollectingAnswers(usize, u64),
    Finished,
}

/// What became of a frame that a client sent while answers were being collected.
#[derive(Clone, Copy, Debug, PartialEq, Eq, Structural)]
pub enum AnswerOutcome {
    /// The first answer to the active question, and the right one: one point.
    Correct,
    /// The first answer to the active question, and a wrong one.
    Incorrect,
    /// No effect: late, unreadable, for another question, or after the client's first answer.
    Ignored,
    /// The client closed the connection and is dropped.
    Disconnected,
}

/// The text of the notice that every client gets when the session ends.
pub const FAREWELL: &'static str = "Game Finished! Closing Connection...";

/// The deadline `window` milliseconds after `now`, held at the clock's largest value.
pub open spec fn deadline_after(now: u64, window: u64) -> u64 {
    if now + window <= u64::MAX {
        (now + window) as u64
    } else {
        u64::MAX
    }
}

/// Every client dropped in `before` is still dropped in `after`, and none was removed.
pub open spec fn keeps_dropped(before: Seq<Client>, after: Seq<Client>) -> bool {
    &&& before.len() <= after.len()
    &&& forall|i: int|
        0 <= i < before.len() && before[i].status == ClientStatus::Dropped
            ==> #[trigger] after[i].status == ClientStatus::Dropped
}

/// No client lost points between `before` and `after`, and none was removed.
pub open spec fn keeps_scores(before: Seq<Client>, after: Seq<Client>) -> bool {
    &&& before.len() <= after.len()
    &&& forall|i: int| 0 <= i < before.len() ==> before[i].score <= #[trigger] after[i].score
}

/// A client after a read or write on its connection failed.
pub open spec fn dropped(c: Client) -> Client {
    if c.status == ClientStatus::Active {
        Client { score: c.score, status: ClientStatus::Dropped, awaiting: false }
    } else {
        c
    }
}

/// What a message from client `id` does while question `qid` (right answer `correct`) is
/// open: the outcome, and the clients afterwards.
pub open spec fn answer_effect(
    clients: Seq<Client>,
    id: int,
    qid: u8,
    correct: u8,
    msg: ClientMessage,
) -> (AnswerOutcome, Seq<Client>) {
    let c = clients[id];
    match msg {
        ClientMessage::Close => (AnswerOutcome::Disconnected, clients.update(id, dropped(c))),
        ClientMessage::Invalid => (AnswerOutcome::Ignored, clients),
        ClientMessage::Answer(q, a) => if q != qid || !c.awaiting {
            (AnswerOutcome::Ignored, clients)
        } else if a == correct {
            (
                AnswerOutcome::Correct,
                clients.update(
                    id,
                    Client { score: (c.score + 1) as u64, status: c.status, awaiting: false },
                ),
            )
        } else {
            (
                AnswerOutcome::Incorrect,
                clients.update(id, Client { score: c.score, status: c.status, awaiting: false }),
            )
        },
    }
}

/// The points a client can have earned once the session reached `state`.
pub open spec fn rounds_done(state: RoundState, n: nat) -> nat {
    match state {
        RoundState::WaitingToStart => 0,
        RoundState::Broadcasting(qi) => qi as nat,
        RoundState::CollectingAnswers(qi, _) => (qi + 1) as nat,
        RoundState::Finished => n,
    }
}

/// The points a client waiting to answer can have once the open round ends.
pub open spec fn open_round_end(state: RoundState) -> nat {
    match state {
        RoundState::Broadcasting(qi) => (qi + 1) as nat,
        RoundState::CollectingAnswers(qi, _) => (qi + 1) as nat,
        _ => 0,
    }
}

/// No client has more points than the rounds played, and one that waits to answer is active
/// and can still earn the open round's point.
pub open spec fn client_ok(c: Client, state: RoundState, n: nat) -> bool {
    &&& c.score <= rounds_done(state, n)
    &&& c.awaiting ==> c.status == ClientStatus::Active && c.score < open_round_end(state)
}

/// One quiz session: the questions, the clients, and where the session stands.
pub struct RoundEngine {
    questions: Vec<Question>,
    registry: ClientRegistry,
    state: RoundState,
    window_ms: u64,
}

impl RoundEngine {
    pub closed spec fn questions(&self) -> Seq<Question> {
        self.questions@
    }

    pub closed spec fn clients(&self) -> Seq<Client> {
        self.registry@
    }

    pub closed spec fn state(&self) -> RoundState {
        self.state
    }

    pub closed spec fn window(&self) -> u64 {
        self.window_ms
    }

    /// The open question is in the quiz, and every client is within the bounds of `client_ok`.
    pub closed spec fn wf(&self) -> bool {
        &&& match self.state {
            RoundState::Broadcasting(qi) => qi < self.questions@.len(),
            RoundState::CollectingAnswers(qi, _) => qi < self.questions@.len(),
            _ => true,
        }
        &&& forall|i: int|
            0 <= i < self.registry@.len() ==> client_ok(
                #[trigger] self.registry@[i],
                self.state,
                self.questions@.len(),
            )
    }

    /// A session over `questions` that takes answers for `answer_window_ms` milliseconds after
    /// each question is sent, waiting for the start signal.
    pub fn new(questions: Vec<Question>, answer_window_ms: u64) -> (r: Self)
        ensures
            r.wf(),
            r.questions() == questions@,
            r.clients() == Seq::<Client>::empty(),
            r.state() == RoundState::WaitingToStart,
            r.window() == answer_window_ms,
    {
        RoundEngine {
            questions,
            registry: ClientRegistry::new(),
            state: RoundState::WaitingToStart,
            window_ms: answer_window_ms,
        }
    }

    /// Where the session stands.
    pub fn round_state(&self) -> (r: RoundState)
        ensures
            r == self.state(),
    {
        self.state
    }

    /// The number of clients ever registered.
    pub fn client_count(&self) -> (r: usize)
        ensures
            r == self.clients().len(),
    {
        self.registry.len()
    }

    /// The client at position `id`.
    pub fn client(&self, id: usize) -> (r: Client)
        requires
            id < self.clients().len(),
        ensures
            r == self.clients()[id as int],
    {
        self.registry.get(id)
    }

    /// Adds a client that completed the handshake. It takes part from the next broadcast on.
    pub fn register(&mut self) -> (id: usize)
        requires
            old(self).wf(),
        ensures
            final(self).wf(),
            id == old(self).clients().len(),
            final(self).clients() == old(self).clients().push(fresh_client()),
            keeps_dropped(old(self).clients(), final(self).clients()),
            keeps_scores(old(self).clients(), final(self).clients()),
            final(self).state() == old(self).state(),
            final(self).questions() == old(self).questions(),
            final(self).window() == old(self).window(),
    {
        let id = self.registry.register();
        assert forall|i: int| 0 <= i < self.registry@.len() implies client_ok(
            #[trigger] self.registry@[i],
            self.state,
            self.questions@.len(),
        ) by {
            if i < id {
                assert(self.registry@[i] == old(self).registry@[i]);
            }
        }
        id
    }

    /// The start signal: the first question is to be broadcast, or, with no questions, the
    /// session is over. Has no effect once the session has started.
    pub fn start(&mut self)
        requires
            old(self).wf(),
        ensures
            final(self).wf(),
            final(self).state() == (if old(self).state() == RoundState::WaitingToStart {
                if old(self).questions().len() > 0 {
                    RoundState::Broadcasting(0)
                } else {
                    RoundState::Finished
                }
            } else {
                old(self).state()
            }),
            final(self).clients() == old(self).clients(),
            keeps_dropped(old(self).clients(), final(self).clients()),
            keeps_scores(old(self).clients(), final(self).clients()),
            final(self).questions() == old(self).questions(),
            final(self).window() == old(self).window(),
    {
        if self.state == RoundState::WaitingToStart {
            if self.questions.len() > 0 {
                self.state = RoundState::Broadcasting(0);
            } else {
                self.state = RoundState::Finished;
            }
        }
    }

    /// While a question is being broadcast: the clients to send it to and the frame to send.
    pub fn pending_broadcast(&self) -> (r: Option<(Vec<usize>, Vec<u8>)>)
        requires
            self.wf(),
        ensures
            match self.state() {
                RoundState::Broadcasting(qi) => r is Some && r->Some_0.0@ == active_ids(
                    self.clients(),
                    self.clients().len() as int,
                ) && r->Some_0.1@ == text_frame(
                    question_payload(self.questions()[qi as int].id, self.questions()[qi as int].text@),
                ),
                _ => r is None,
            },
    {
        match self.state {
            RoundState::Broadcasting(qi) => {
                let targets = self.registry.active_ids();
                let frame = question_frame(&self.questions[qi]);
                Some((targets, frame))
            },
            _ => None,
        }
    }

    /// The question reached client `id`: it may answer this round.
    pub fn mark_delivered(&mut self, id: usize)
        requires
            old(self).wf(),
        ensures
            final(self).wf(),
            final(self).clients() == (if old(self).state() is Broadcasting && id < old(
                self,
            ).clients().len() && old(self).clients()[id as int].status == ClientStatus::Active {
                old(self).clients().update(
                    id as int,
                    Client {
                        score: old(self).clients()[id as int].score,
                        status: ClientStatus::Active,
                        awaiting: true,
                    },
                )
            } else {
                old(self).clients()
            }),
            keeps_dropped(old(self).clients(), final(self).clients()),
            keeps_scores(old(self).clients(), final(self).clients()),
            final(self).state() == old(self).state(),
            final(self).questions() == old(self).questions(),
            final(self).window() == old(self).window(),
    {
        if let RoundState::Broadcasting(_) = self.state {
            if id < self.registry.len() {
                let c = self.registry.get(id);
                if c.status == ClientStatus::Active {
                    self.registry.set(
                        id,
                        Client { score: c.score, status: ClientStatus::Active, awaiting: true },
                    );
                    assert(forall|i: int|
                        0 <= i < self.registry@.len() && i != id ==> self.registry@[i]
                            == old(self).registry@[i]);
                }
            }
        }
    }

    /// A read or write on client `id`'s connection failed: it takes no further part.
    pub fn mark_dropped(&mut self, id: usize)
        requires
            old(self).wf(),
        ensures
            final(self).wf(),
            final(self).clients() == (if id < old(self).clients().len() {
                old(self).clients().update(id as int, dropped(old(self).clients()[id as int]))
            } else {
                old(self).clients()
            }),
            keeps_dropped(old(self).clients(), final(self).clients()),
            keeps_scores(old(self).clients(), final(self).clients()),
            final(self).state() == old(self).state(),
            final(self).questions() == old(self).questions(),
            final(self).window() == old(self).window(),
    {
        if id < self.registry.len() {
            let c = self.registry.get(id);
            if c.status == ClientStatus::Active {
                self.registry.set(
                    id,
                    Client { score: c.score, status: ClientStatus::Dropped, awaiting: false },
                );
                assert(forall|i: int|
                    0 <= i < self.registry@.len() && i != id ==> self.registry@[i]
                        == old(self).registry@[i]);
            }
        }
    }

    /// The broadcast is over: answers are taken until the window has passed from `now`.
    pub fn begin_collecting(&mut self, now: u64)
        requires
            old(self).wf(),
        ensures
            final(self).wf(),
            final(self).state() == match old(self).state() {
                RoundState::Broadcasting(qi) => RoundState::CollectingAnswers(
                    qi,
                    deadline_after(now, old(self).window()),
                ),
                s => s,
            },
            final(self).clients() == old(self).clients(),
            keeps_dropped(old(self).clients(), final(self).clients()),
            keeps_scores(old(self).clients(), final(self).clients()),
            final(self).questions() == old(self).questions(),
            final(self).window() == old(self).window(),
    {
        if let RoundState::Broadcasting(qi) = self.state {
            self.state = RoundState::CollectingAnswers(qi, now.saturating_add(self.window_ms));
        }
    }
    /// A frame `raw` from client `id` read at time `now`. While answers are collected and the
    /// deadline has not passed, an active client's first answer to the open question scores if
    /// right; a close frame drops the client. Everything else is ignored.
    pub fn receive_answer(&mut self, id: usize, raw: &[u8], now: u64) -> (r: AnswerOutcome)
        requires
            old(self).wf(),
        ensures
            final(self).wf(),
            (r, final(self).clients()) == match old(self).state() {
                RoundState::CollectingAnswers(qi, deadline) => if now <= deadline && id < old(
                    self,
                ).clients().len() && old(self).clients()[id as int].status
                    == ClientStatus::Active {
                    answer_effect(
                        old(self).clients(),
                        id as int,
                        old(self).questions()[qi as int].id,
                        old(self).questions()[qi as int].correct_answer_index,
                        message_spec(raw@),
                    )
                } else {
                    (AnswerOutcome::Ignored, old(self).clients())
                },
                _ => (AnswerOutcome::Ignored, old(self).clients()),
            },
            match message_spec(raw@) {
                ClientMessage::Answer(q, _) => match old(self).state() {
                    RoundState::CollectingAnswers(qi, _) => q != old(self).questions()[qi as int].id
                        ==> r == AnswerOutcome::Ignored && final(self).clients() == old(
                        self,
                    ).clients(),
                    _ => true,
                },
                _ => true,
            },
            keeps_dropped(old(self).clients(), final(self).clients()),
            keeps_scores(old(self).clients(), final(self).clients()),
            final(self).state() == old(self).state(),
            final(self).questions() == old(self).questions(),
            final(self).window() == old(self).window(),
    {
        let (qi, deadline) = match self.state {
            RoundState::CollectingAnswers(qi, deadline) => (qi, deadline),
            _ => {
                return AnswerOutcome::Ignored;
            },
        };
        if now > deadline || id >= self.registry.len() {
            return AnswerOutcome::Ignored;
        }
        let c = self.registry.get(id);
        if c.status != ClientStatus::Active {
            return AnswerOutcome::Ignored;
        }
        let ghost before = self.registry@;
        let n: usize = self.questions.len();
        let r = match parse_client_message(raw) {
            ClientMessage::Close => {
                self.registry.set(
                    id,
                    Client { score: c.score, status: ClientStatus::Dropped, awaiting: false },
                );
                AnswerOutcome::Disconnected
            },
            ClientMessage::Invalid => AnswerOutcome::Ignored,
            ClientMessage::Answer(q, a) => {
                let question = &self.questions[qi];
                if q != question.id || !c.awaiting {
                    AnswerOutcome::Ignored
                } else if a == question.correct_answer_index {
                    assert(client_ok(before[id as int], self.state, n as nat));
                    assert(c.score < qi + 1 <= n);
                    self.registry.set(
                        id,
                        Client { score: c.score + 1, status: c.status, awaiting: false },
                    );
                    AnswerOutcome::Correct
                } else {
                    self.registry.set(
                        id,
                        Client { score: c.score, status: c.status, awaiting: false },
                    );
                    AnswerOutcome::Incorrect
                }
            },
        };
        assert(forall|i: int|
            0 <= i < self.registry@.len() && i != id ==> self.registry@[i] == before[i]);
        r
    }

    /// The clock read `now`: if answers were being collected and the deadline has passed, the
    /// round ends and the next question is to be broadcast, or the session is finished after
    /// the last one. Clients that did not answer are passed over. Returns whether it moved on.
    pub fn advance(&mut self, now: u64) -> (r: bool)
        requires
            old(self).wf(),
        ensures
            final(self).wf(),
            match old(self).state() {
                RoundState::CollectingAnswers(qi, deadline) => if now >= deadline {
                    &&& r
                    &&& final(self).state() == if qi + 1 < old(self).questions().len() {
                        RoundState::Broadcasting((qi + 1) as usize)
                    } else {
                        RoundState::Finished
                    }
                    &&& final(self).clients() == with_none_awaiting(old(self).clients())
                } else {
                    !r && final(self).state() == old(self).state() && final(self).clients()
                        == old(self).clients()
                },
                _ => !r && final(self).state() == old(self).state() && final(self).clients()
                    == old(self).clients(),
            },
            keeps_dropped(old(self).clients(), final(self).clients()),
            keeps_scores(old(self).clients(), final(self).clients()),
            final(self).questions() == old(self).questions(),
            final(self).window() == old(self).window(),
    {
        if let RoundState::CollectingAnswers(qi, deadline) = self.state {
            if now >= deadline {
                self.registry.clear_awaiting();
                if qi < self.questions.len() - 1 {
                    self.state = RoundState::Broadcasting(qi + 1);
                } else {
                    self.state = RoundState::Finished;
                }
                assert forall|i: int| 0 <= i < self.registry@.len() implies client_ok(
                    #[trigger] self.registry@[i],
                    self.state,
                    self.questions@.len(),
                ) by {
                    assert(client_ok(old(self).registry@[i], old(self).state, self.questions@.len()));
                }
                return true;
            }
        }
        false
    }

    /// Ends the session for every active client: returns the positions of the connections that
    /// get the farewell and are shut down. A second call returns none.
    pub fn close_all(&mut self) -> (r: Vec<usize>)
        requires
            old(self).wf(),
        ensures
            final(self).wf(),
            r@ == active_ids(old(self).clients(), old(self).clients().len() as int),
            final(self).clients() == with_all_closed(old(self).clients()),
            keeps_dropped(old(self).clients(), final(self).clients()),
            keeps_scores(old(self).clients(), final(self).clients()),
            final(self).state() == old(self).state(),
            final(self).questions() == old(self).questions(),
            final(self).window() == old(self).window(),
    {
        let r = self.registry.close_all();
        assert forall|i: int| 0 <= i < self.registry@.len() implies client_ok(
            #[trigger] self.registry@[i],
            self.state,
            self.questions@.len(),
        ) by {
            assert(client_ok(old(self).registry@[i], self.state, self.questions@.len()));
        }
        r
    }

    /// (position, score) of every client that was not dropped, in registration order.
    pub fn final_scores(&self) -> (r: Vec<(usize, u64)>)
        ensures
            r@ == score_report(self.clients(), self.clients().len() as int),
    {
        self.registry.final_scores()
    }
}

/// A client that was dropped has no entry in any later score report: every operation of the
/// engine keeps a dropped client dropped, and the report leaves dropped clients out, while the
/// rounds go on for the others.
pub proof fn lemma_dropped_client_unreported(before: Seq<Client>, after: Seq<Client>, id: usize)
    requires
        keeps_dropped(before, after),
        id < before.len(),
        before[id as int].status == ClientStatus::Dropped,
        after.len() <= usize::MAX,
    ensures
        forall|k: int|
            0 <= k < score_report(after, after.len() as int).len() ==> (#[trigger] score_report(
                after,
                after.len() as int,
            )[k]).0 != id,
{
    lemma_dropped_not_reported(after, after.len() as int, id);
}

/// The frame that tells every client the session is over.
pub fn farewell_frame() -> (r: Vec<u8>)
    ensures
        r@ == text_frame(FAREWELL.spec_bytes()),
{
    encode_text_frame(FAREWELL.as_bytes())
}

} // verus!
