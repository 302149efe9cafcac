//! The connected clients: their scores and whether they still take part.
use vstd::prelude::*;

verus! {

/// Where a client connection stands.
#[derive(Clone, Copy, Debug, PartialEq, Eq, Structural)]
pub enum ClientStatus {
    /// Connected and taking part.
    Active,
    /// A read or write failed, or the client closed: it takes no further part and is left out
    /// of the final scores.
    Dropped,
    /// Shut down by the server at the end of the session.
    Closed,
}

/// One client, identified by its position in the registry.
#[derive(Clone, Copy, Debug, PartialEq, Eq, Structural)]
pub struct Client {
    /// One point for each question answered correctly.
    pub score: u64,
    pub status: ClientStatus,
    /// The client was sent the active question and has not answered it yet.
    pub awaiting: bool,
}

/// A client that has just completed the handshake.
pub open spec fn fresh_client() -> Client {
    Client { score: 0, status: ClientStatus::Active, awaiting: false }
}

/// The positions, in increasing order, of the active clients among the first `n`.
pub open spec fn active_ids(v: Seq<Client>, n: int) -> Seq<usize>
    decreases n,
{
    if n <= 0 {
        Seq::empty()
    } else if v[n - 1].status == ClientStatus::Active {
        active_ids(v, n - 1).push((n - 1) as usize)
    } else {
        active_ids(v, n - 1)
    }
}

/// (position, score) of each of the first `n` clients that was not dropped, in order.
pub open spec fn score_report(v: Seq<Client>, n: int) -> Seq<(usize, u64)>
    decreases n,
{
    if n <= 0 {
        Seq::empty()
    } else if v[n - 1].status != ClientStatus::Dropped {
        score_report(v, n - 1).push(((n - 1) as usize, v[n - 1].score))
    } else {
        score_report(v, n - 1)
    }
}

/// The clients after the session's shutdown: every active one closed.
pub open spec fn with_all_closed(v: Seq<Client>) -> Seq<Client> {
    Seq::new(
        v.len(),
        |i: int|
            if v[i].status == ClientStatus::Active {
                Client { score: v[i].score, status: ClientStatus::Closed, awaiting: false }
            } else {
                v[i]
            },
    )
}

/// The clients with no one waiting to answer.
pub open spec fn with_none_awaiting(v: Seq<Client>) -> Seq<Client> {
    Seq::new(
        v.len(),
        |i: int| Client { score: v[i].score, status: v[i].status, awaiting: false },
    )
}

/// The registry of upgraded connections, in the order they were registered.
pub struct ClientRegistry {
    clients: Vec<Client>,
}

impl View for ClientRegistry {
    type V = Seq<Client>;

    closed spec fn view(&self) -> Seq<Client> {
        self.clients@
    }
}

impl ClientRegistry {
    /// An empty registry.
    pub fn new() -> (r: Self)
        ensures
            r@ == Seq::<Client>::empty(),
    {
        ClientRegistry { clients: Vec::new() }
    }

    /// The number of clients ever registered.
    pub fn len(&self) -> (r: usize)
        ensures
            r == self@.len(),
    {
        self.clients.len()
    }

    /// The client at position `id`.
    pub fn get(&self, id: usize) -> (r: Client)
        requires
            id < self@.len(),
        ensures
            r == self@[id as int],
    {
        self.clients[id]
    }

    /// Replaces the client at position `id`.
    pub(crate) fn set(&mut self, id: usize, c: Client)
        requires
            id < old(self)@.len(),
        ensures
            final(self)@ == old(self)@.update(id as int, c),
    {
        self.clients.set(id, c);
    }

    /// Adds a newly upgraded client with score 0; returns its position.
    pub fn register(&mut self) -> (id: usize)
        ensures
            id == old(self)@.len(),
            final(self)@ == old(self)@.push(fresh_client()),
    {
        let id = self.clients.len();
        self.clients.push(Client { score: 0, status: ClientStatus::Active, awaiting: false });
        id
    }

    /// The positions of the clients that a broadcast goes to.
    pub fn active_ids(&self) -> (r: Vec<usize>)
        ensures
            r@ == active_ids(self@, self@.len() as int),
    {
        let mut r: Vec<usize> = Vec::new();
        let mut i: usize = 0;
        while i < self.clients.len()
            invariant
                i <= self@.len(),
                self@ == self.clients@,
                r@ == active_ids(self@, i as int),
            decreases self@.len() - i,
        {
            if self.clients[i].status == ClientStatus::Active {
                r.push(i);
            }
            i = i + 1;
        }
        r
    }

    /// Closes the session for every active client. Returns their positions: the connections
    /// that get the farewell and are shut down. Clients closed or dropped earlier are not
    /// among them, so a second call returns nothing.
    pub fn close_all(&mut self) -> (r: Vec<usize>)
        ensures
            r@ == active_ids(old(self)@, old(self)@.len() as int),
            final(self)@ == with_all_closed(old(self)@),
    {
        let r = self.active_ids();
        let ghost before = self@;
        let mut i: usize = 0;
        while i < self.clients.len()
            invariant
                i <= self@.len() == before.len(),
                forall|j: int| 0 <= j < i ==> self@[j] == with_all_closed(before)[j],
                forall|j: int| i <= j < self@.len() ==> self@[j] == before[j],
            decreases self@.len() - i,
        {
            let c = self.clients[i];
            if c.status == ClientStatus::Active {
                self.clients.set(
                    i,
                    Client { score: c.score, status: ClientStatus::Closed, awaiting: false },
                );
            }
            i = i + 1;
        }
        assert(self@ =~= with_all_closed(before));
        r
    }

    /// Ends the current question for everyone: no client is waiting to answer.
    pub fn clear_awaiting(&mut self)
        ensures
            final(self)@ == with_none_awaiting(old(self)@),
    {
        let ghost before = self@;
        let mut i: usize = 0;
        while i < self.clients.len()
            invariant
                i <= self@.len() == before.len(),
                forall|j: int| 0 <= j < i ==> self@[j] == with_none_awaiting(before)[j],
                forall|j: int| i <= j < self@.len() ==> self@[j] == before[j],
            decreases self@.len() - i,
        {
            let c = self.clients[i];
            self.clients.set(i, Client { score: c.score, status: c.status, awaiting: false });
            i = i + 1;
        }
        assert(self@ =~= with_none_awaiting(before));
    }

    /// (position, score) of every client that was not dropped, in registration order.
    pub fn final_scores(&self) -> (r: Vec<(usize, u64)>)
        ensures
            r@ == score_report(self@, self@.len() as int),
    {
        let mut r: Vec<(usize, u64)> = Vec::new();
        let mut i: usize = 0;
        while i < self.clients.len()
            invariant
                i <= self@.len(),
                self@ == self.clients@,
                r@ == score_report(self@, i as int),
            decreases self@.len() - i,
        {
            let c = self.clients[i];
            if c.status != ClientStatus::Dropped {
                r.push((i, c.score));
            }
            i = i + 1;
        }
        r
    }
}

/// With no active client among the first `n`, a broadcast reaches no one.
proof fn lemma_none_active(v: Seq<Client>, n: int)
    requires
        n <= v.len(),
        forall|i: int| 0 <= i < n ==> v[i].status != ClientStatus::Active,
    ensures
        active_ids(v, n) == Seq::<usize>::empty(),
    decreases n,
{
    if n > 0 {
        lemma_none_active(v, n - 1);
    }
}

/// Closing down twice is harmless: after one shutdown no client is active, so a second one
/// sends no farewell and changes nothing.
pub proof fn lemma_close_all_idempotent(v: Seq<Client>)
    ensures
        active_ids(with_all_closed(v), v.len() as int) == Seq::<usize>::empty(),
        with_all_closed(with_all_closed(v)) == with_all_closed(v),
{
    lemma_none_active(with_all_closed(v), v.len() as int);
    assert(with_all_closed(with_all_closed(v)) =~= with_all_closed(v));
}

/// A dropped client has no entry in the score report.
pub proof fn lemma_dropped_not_reported(v: Seq<Client>, n: int, id: usize)
    requires
        n <= v.len() <= usize::MAX,
        id < v.len(),
        v[id as int].status == ClientStatus::Dropped,
    ensures
        forall|k: int| 0 <= k < score_report(v, n).len() ==> (#[trigger] score_report(v, n)[k]).0 != id,
    decreases n,
{
    if n > 0 {
        lemma_dropped_not_reported(v, n - 1, id);
        assert forall|k: int| 0 <= k < score_report(v, n).len() implies (
        #[trigger] score_report(v, n)[k]).0 != id by {
            if k < score_report(v, n - 1).len() {
                assert(score_report(v, n)[k] == score_report(v, n - 1)[k]);
            } else {
                assert(v[n - 1].status != ClientStatus::Dropped);
                assert(n - 1 != id);
            }
        }
    }
}

} // verus!
