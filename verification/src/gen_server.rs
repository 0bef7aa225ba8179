//! The hub: one owner for the stroke history and the client registry.
//!
//! The hub takes one request at a time. For each it decides what becomes of
//! its state and which sends are due; the sends themselves are the caller's
//! work, and what came of them is handed back before the next request:
//!
//! * a `NewClient` request yields a [`HubAction::Replay`]; once the caller
//!   has sent the history to the newcomer it calls [`Hub::register`], and only
//!   a complete replay registers the client;
//! * a `NewLine` or `Clear` request yields a [`HubAction::Broadcast`] to
//!   every registered client; the caller sends to each on its own and
//!   reports the clients that could not be reached to [`Hub::prune`].
//!
//! The state and the transitions are first given as mathematics
//! ([`HubState`]); the executable [`Hub`] is proved to follow them. What
//! holds of every run of the hub is proved in [`crate::rounds`].

use vstd::prelude::*;
use crate::line::{copy_line, Line, Point};

verus! {

/// The identity of a live connection.
pub type ClientId = u64;

/// How many requests may wait for the hub before submitters are held back.
pub const QUEUE_CAPACITY: usize = 32;

/// A request to the hub, or a notification from it.
///
/// `NewLine` and `Clear` travel both ways; `NewClient` and `DeleteClient`
/// only ever go to the hub.
#[derive(Debug, PartialEq, Eq)]
pub enum GSMsg {
    NewClient(ClientId),
    DeleteClient(ClientId),
    NewLine(Line),
    Clear,
}

/// The mathematical content of a [`GSMsg`].
pub enum Msg {
    NewClient(ClientId),
    DeleteClient(ClientId),
    NewLine(Seq<Point>),
    Clear,
}

impl View for GSMsg {
    type V = Msg;

    open spec fn view(&self) -> Msg {
        match *self {
            GSMsg::NewClient(id) => Msg::NewClient(id),
            GSMsg::DeleteClient(id) => Msg::DeleteClient(id),
            GSMsg::NewLine(line) => Msg::NewLine(line@),
            GSMsg::Clear => Msg::Clear,
        }
    }
}

impl Clone for GSMsg {
    fn clone(&self) -> (copy: GSMsg)
        ensures
            copy@ == self@,
    {
        match self {
            GSMsg::NewClient(id) => GSMsg::NewClient(*id),
            GSMsg::DeleteClient(id) => GSMsg::DeleteClient(*id),
            GSMsg::NewLine(line) => GSMsg::NewLine(copy_line(line)),
            GSMsg::Clear => GSMsg::Clear,
        }
    }
}

/// The strokes of `lines`, each as the sequence of its points.
pub open spec fn strokes(lines: Seq<Line>) -> Seq<Seq<Point>> {
    Seq::new(lines.len(), |i: int| lines[i]@)
}

/// The sends that a request makes due.
#[derive(Debug, PartialEq, Eq)]
pub enum HubAction {
    /// Nothing to send.
    Idle,
    /// Send every stroke of `lines` to `client`, in order, each as a
    /// `NewLine`; then report to [`Hub::register`] whether all of them went
    /// out.
    Replay { client: ClientId, lines: Vec<Line> },
    /// Send `msg` to each client of `to`, one independently of the other;
    /// then report the clients that could not be reached to [`Hub::prune`].
    Broadcast { to: Vec<ClientId>, msg: GSMsg },
}

/// The mathematical content of a [`HubAction`].
pub enum Plan {
    Idle,
    Replay { client: ClientId, lines: Seq<Seq<Point>> },
    Broadcast { to: Seq<ClientId>, msg: Msg },
}

impl View for HubAction {
    type V = Plan;

    open spec fn view(&self) -> Plan {
        match *self {
            HubAction::Idle => Plan::Idle,
            HubAction::Replay { client, lines } => Plan::Replay { client, lines: strokes(lines@) },
            HubAction::Broadcast { to, msg } => Plan::Broadcast { to: to@, msg: msg@ },
        }
    }
}

/// The predicate "is none of `gone`".
pub open spec fn none_of(gone: Seq<ClientId>) -> spec_fn(ClientId) -> bool {
    |c: ClientId| !gone.contains(c)
}

/// What the hub owns: the committed strokes in commit order, and the
/// registered clients in the order in which they were registered.
pub struct HubState {
    pub lines: Seq<Seq<Point>>,
    pub clients: Seq<ClientId>,
}

impl HubState {
    /// No stroke of the history has fewer than two points, and no client is
    /// registered twice.
    pub open spec fn wf(self) -> bool {
        &&& forall|i: int| 0 <= i < self.lines.len() ==> (#[trigger] self.lines[i]).len() >= 2
        &&& self.clients.no_duplicates()
    }

    /// The hub before its first request.
    pub open spec fn empty() -> HubState {
        HubState { lines: Seq::empty(), clients: Seq::empty() }
    }

    /// The state after request `m`, before any send has been reported.
    ///
    /// A stroke of two or more points joins the history; a shorter one is
    /// no stroke and is dropped. `Clear` empties the history. `DeleteClient`
    /// takes the client off the registry, if it was there. `NewClient`
    /// changes nothing yet: registration waits for the replay.
    pub open spec fn next(self, m: Msg) -> HubState {
        match m {
            Msg::NewClient(_) => self,
            Msg::DeleteClient(id) => self.prune(seq![id]),
            Msg::NewLine(line) => if line.len() >= 2 {
                HubState { lines: self.lines.push(line), ..self }
            } else {
                self
            },
            Msg::Clear => HubState { lines: Seq::empty(), ..self },
        }
    }

    /// The sends that request `m` makes due in this state.
    ///
    /// A newcomer is owed the whole history. A stroke and a clear go to
    /// every registered client. A stroke of fewer than two points goes to
    /// nobody.
    pub open spec fn plan(self, m: Msg) -> Plan {
        match m {
            Msg::NewClient(id) => Plan::Replay { client: id, lines: self.lines },
            Msg::DeleteClient(_) => Plan::Idle,
            Msg::NewLine(line) => if line.len() >= 2 {
                Plan::Broadcast { to: self.clients, msg: m }
            } else {
                Plan::Idle
            },
            Msg::Clear => Plan::Broadcast { to: self.clients, msg: m },
        }
    }

    /// The state after the replay to `id` has ended: the client is
    /// registered if the whole history went out, and not otherwise.
    pub open spec fn register(self, id: ClientId, replayed: bool) -> HubState {
        if replayed && !self.clients.contains(id) {
            HubState { clients: self.clients.push(id), ..self }
        } else {
            self
        }
    }

    /// The state after the clients of `gone` have been taken off the
    /// registry; the others keep their order.
    pub open spec fn prune(self, gone: Seq<ClientId>) -> HubState {
        HubState { clients: self.clients.filter(none_of(gone)), ..self }
    }
}

/// Taking clients off a registry without duplicates leaves one without
/// duplicates, and exactly the clients that were not taken off.
pub proof fn lemma_prune_registry(clients: Seq<ClientId>, gone: Seq<ClientId>)
    requires
        clients.no_duplicates(),
    ensures
        clients.filter(none_of(gone)).no_duplicates(),
        forall|c: ClientId|
            clients.filter(none_of(gone)).contains(c) <==> clients.contains(c) && !gone.contains(c),
    decreases clients.len(),
{
    let pred = none_of(gone);
    reveal(Seq::filter);
    if clients.len() > 0 {
        let front = clients.drop_last();
        let last = clients.last();
        lemma_prune_registry(front, gone);
        let kept = front.filter(pred);
        assert(!front.contains(last)) by {
            if front.contains(last) {
                let i = choose|i: int| 0 <= i < front.len() && front[i] == last;
                assert(clients[i] == clients[clients.len() - 1]);
            }
        }
        assert forall|c: ClientId|
            clients.filter(pred).contains(c) <==> clients.contains(c) && !gone.contains(c) by {
            if clients.contains(c) {
                let i = choose|i: int| 0 <= i < clients.len() && clients[i] == c;
                if i < front.len() {
                    assert(front[i] == c);
                    assert(front.contains(c));
                }
            }
            if front.contains(c) {
                let i = choose|i: int| 0 <= i < front.len() && front[i] == c;
                assert(clients[i] == c);
            }
            if pred(last) {
                assert(kept.push(last).last() == last);
                if kept.push(last).contains(c) {
                    let i = choose|i: int| 0 <= i < kept.push(last).len() && kept.push(last)[i] == c;
                    if i < kept.len() {
                        assert(kept[i] == c);
                    }
                }
                if kept.contains(c) {
                    let i = choose|i: int| 0 <= i < kept.len() && kept[i] == c;
                    assert(kept.push(last)[i] == c);
                }
            }
        }
    }
}

/// Tells whether `id` occurs in `ids`.
fn contains_id(ids: &Vec<ClientId>, id: ClientId) -> (found: bool)
    ensures
        found == ids@.contains(id),
{
    let mut i: usize = 0;
    while i < ids.len()
        invariant
            0 <= i <= ids.len(),
            forall|k: int| 0 <= k < i ==> ids[k] != id,
        decreases ids.len() - i,
    {
        if ids[i] == id {
            return true;
        }
        i += 1;
    }
    false
}

/// The clients of `clients` that are none of `gone`, in their order.
fn remaining(clients: &Vec<ClientId>, gone: &Vec<ClientId>) -> (rest: Vec<ClientId>)
    ensures
        rest@ == clients@.filter(none_of(gone@)),
{
    let mut rest: Vec<ClientId> = Vec::new();
    let mut i: usize = 0;
    proof {
        reveal(Seq::filter);
        assert(clients@.take(0) =~= Seq::empty());
    }
    while i < clients.len()
        invariant
            0 <= i <= clients.len(),
            rest@ == clients@.take(i as int).filter(none_of(gone@)),
        decreases clients.len() - i,
    {
        let c: ClientId = clients[i];
        proof {
            clients@.take(i as int).lemma_filter_push(c, none_of(gone@));
            assert(clients@.take(i as int).push(c) =~= clients@.take(i + 1));
        }
        if !contains_id(gone, c) {
            rest.push(c);
        }
        i += 1;
    }
    assert(clients@.take(clients.len() as int) =~= clients@);
    rest
}

/// A copy of `ids`.
fn copy_ids(ids: &Vec<ClientId>) -> (copy: Vec<ClientId>)
    ensures
        copy@ == ids@,
{
    let mut copy: Vec<ClientId> = Vec::new();
    let mut i: usize = 0;
    while i < ids.len()
        invariant
            0 <= i <= ids.len(),
            copy@ == ids@.take(i as int),
        decreases ids.len() - i,
    {
        copy.push(ids[i]);
        assert(copy@ =~= ids@.take(i + 1));
        i += 1;
    }
    assert(ids@.take(ids.len() as int) =~= ids@);
    copy
}

/// A copy of `lines`, stroke for stroke.
fn copy_lines(lines: &Vec<Line>) -> (copy: Vec<Line>)
    ensures
        strokes(copy@) == strokes(lines@),
{
    let mut copy: Vec<Line> = Vec::new();
    let mut i: usize = 0;
    while i < lines.len()
        invariant
            0 <= i <= lines.len(),
            copy.len() == i,
            forall|k: int| 0 <= k < i ==> copy[k]@ == lines[k]@,
        decreases lines.len() - i,
    {
        let line = copy_line(&lines[i]);
        copy.push(line);
        i += 1;
    }
    assert(strokes(copy@) =~= strokes(lines@));
    copy
}

/// The hub's state.
///
/// A hub is well-formed ([`HubState::wf`]) at all times: each stroke of its
/// history has at least two points, and no client is registered twice.
pub struct Hub {
    lines: Vec<Line>,
    clients: Vec<ClientId>,
}

impl View for Hub {
    type V = HubState;

    closed spec fn view(&self) -> HubState {
        HubState { lines: strokes(self.lines@), clients: self.clients@ }
    }
}

impl Hub {
    #[verifier::type_invariant]
    spec fn inv(&self) -> bool {
        &&& forall|i: int| 0 <= i < self.lines@.len() ==> (#[trigger] self.lines@[i])@.len() >= 2
        &&& self.clients@.no_duplicates()
    }

    /// A hub with no history and no clients.
    pub fn new() -> (hub: Hub)
        ensures
            hub@ == HubState::empty(),
            hub@.wf(),
    {
        let hub = Hub { lines: Vec::new(), clients: Vec::new() };
        assert(hub@.lines =~= Seq::empty());
        hub
    }

    /// Applies one request and says which sends are due.
    ///
    /// The state moves as [`HubState::next`] says and the action is
    /// [`HubState::plan`] of the state before: a newcomer is owed a replay
    /// of the history as it stands, a stroke of two or more points is
    /// appended and goes to every registered client, a clear empties the
    /// history and goes to every registered client, and a departure is
    /// struck off the registry.
    pub fn handle(&mut self, msg: GSMsg) -> (act: HubAction)
        ensures
            final(self)@ == old(self)@.next(msg@),
            act@ == old(self)@.plan(msg@),
            final(self)@.wf(),
    {
        proof {
            use_type_invariant(&*self);
        }
        match msg {
            GSMsg::NewClient(id) => {
                HubAction::Replay { client: id, lines: copy_lines(&self.lines) }
            },
            GSMsg::DeleteClient(id) => {
                let mut gone: Vec<ClientId> = Vec::new();
                gone.push(id);
                assert(gone@ =~= seq![id]);
                let rest = remaining(&self.clients, &gone);
                proof {
                    lemma_prune_registry(self.clients@, gone@);
                }
                self.clients = rest;
                HubAction::Idle
            },
            GSMsg::NewLine(line) => {
                if line.len() >= 2 {
                    let to = copy_ids(&self.clients);
                    let copy = copy_line(&line);
                    let mut lines: Vec<Line> = Vec::new();
                    core::mem::swap(&mut self.lines, &mut lines);
                    assert(strokes(lines@.push(line)) =~= strokes(lines@).push(line@));
                    lines.push(line);
                    self.lines = lines;
                    HubAction::Broadcast { to, msg: GSMsg::NewLine(copy) }
                } else {
                    HubAction::Idle
                }
            },
            GSMsg::Clear => {
                let to = copy_ids(&self.clients);
                assert(strokes(Seq::<Line>::empty()) =~= Seq::empty());
                self.lines = Vec::new();
                HubAction::Broadcast { to, msg: GSMsg::Clear }
            },
        }
    }

    /// Ends the replay to `id`: the client is registered if `replayed`
    /// says that the whole history reached it, and skipped otherwise.
    pub fn register(&mut self, id: ClientId, replayed: bool)
        ensures
            final(self)@ == old(self)@.register(id, replayed),
            final(self)@.wf(),
    {
        proof {
            use_type_invariant(&*self);
        }
        if replayed && !contains_id(&self.clients, id) {
            let mut clients: Vec<ClientId> = Vec::new();
            core::mem::swap(&mut self.clients, &mut clients);
            clients.push(id);
            self.clients = clients;
        }
    }

    /// Ends a fan-out: the clients of `failed`, those that a send could not
    /// reach, leave the registry; every other client stays where it was.
    pub fn prune(&mut self, failed: &Vec<ClientId>)
        ensures
            final(self)@ == old(self)@.prune(failed@),
            final(self)@.wf(),
    {
        proof {
            use_type_invariant(&*self);
            lemma_prune_registry(self.clients@, failed@);
        }
        self.clients = remaining(&self.clients, failed);
    }

    /// The registered clients, in the order in which they were registered.
    pub fn clients(&self) -> (ids: Vec<ClientId>)
        ensures
            ids@ == self@.clients,
            self@.wf(),
    {
        proof {
            use_type_invariant(self);
        }
        copy_ids(&self.clients)
    }

    /// The history, in commit order.
    pub fn lines(&self) -> (lines: Vec<Line>)
        ensures
            strokes(lines@) == self@.lines,
            self@.wf(),
    {
        proof {
            use_type_invariant(self);
        }
        copy_lines(&self.lines)
    }
}

} // verus!
