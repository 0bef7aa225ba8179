//! Runs of the hub, and what holds of every run.
//!
//! A round is one turn of the hub's loop: a request, together with what came
//! of the sends that the request made due. A run is a sequence of rounds.
//! The laws below speak of runs of any length and are proved from the
//! transitions of [`HubState`] alone, so they hold of the executable hub,
//! which follows those transitions.

use vstd::prelude::*;
use crate::gen_server::{none_of, lemma_prune_registry, ClientId, HubState, Msg, Plan};
use crate::line::Point;

verus! {

/// One turn of the hub's loop.
pub struct Round {
    /// The request.
    pub msg: Msg,
    /// Whether the whole replay went out; read after a `NewClient` request.
    pub replayed: bool,
    /// The clients that a send could not reach; read after a fan-out.
    pub failed: Seq<ClientId>,
}

/// Whether `m` is a request that the hub fans out: a clear, or a stroke of
/// two or more points.
pub open spec fn is_fanned_out(m: Msg) -> bool {
    match m {
        Msg::Clear => true,
        Msg::NewLine(line) => line.len() >= 2,
        _ => false,
    }
}

/// What `plan` addresses to client `id`, in sending order.
pub open spec fn addressed(plan: Plan, id: ClientId) -> Seq<Msg> {
    match plan {
        Plan::Idle => Seq::empty(),
        Plan::Replay { client, lines } => if client == id {
            Seq::new(lines.len(), |i: int| Msg::NewLine(lines[i]))
        } else {
            Seq::empty()
        },
        Plan::Broadcast { to, msg } => if to.contains(id) {
            seq![msg]
        } else {
            Seq::empty()
        },
    }
}

/// The strokes that the requests of `rounds` commit, in request order.
pub open spec fn committed(rounds: Seq<Round>) -> Seq<Seq<Point>>
    decreases rounds.len(),
{
    if rounds.len() == 0 {
        Seq::empty()
    } else {
        let before = committed(rounds.drop_last());
        match rounds.last().msg {
            Msg::NewLine(line) => if line.len() >= 2 {
                before.push(line)
            } else {
                before
            },
            _ => before,
        }
    }
}

/// The requests of `rounds` that the hub fans out, in request order.
pub open spec fn announced(rounds: Seq<Round>) -> Seq<Msg>
    decreases rounds.len(),
{
    if rounds.len() == 0 {
        Seq::empty()
    } else if is_fanned_out(rounds.last().msg) {
        announced(rounds.drop_last()).push(rounds.last().msg)
    } else {
        announced(rounds.drop_last())
    }
}

/// No request of `rounds` is a clear.
pub open spec fn clear_free(rounds: Seq<Round>) -> bool {
    forall|k: int| 0 <= k < rounds.len() ==> !((#[trigger] rounds[k]).msg is Clear)
}

impl HubState {
    /// The state after one round: the request is applied, and then the
    /// outcome of its sends.
    pub open spec fn round(self, r: Round) -> HubState {
        let after = self.next(r.msg);
        match self.plan(r.msg) {
            Plan::Idle => after,
            Plan::Replay { client, .. } => after.register(client, r.replayed),
            Plan::Broadcast { .. } => after.prune(r.failed),
        }
    }

    /// The state after the rounds of `rounds`, first to last.
    pub open spec fn run(self, rounds: Seq<Round>) -> HubState
        decreases rounds.len(),
    {
        if rounds.len() == 0 {
            self
        } else {
            self.run(rounds.drop_last()).round(rounds.last())
        }
    }

    /// Everything the hub addresses to client `id` over `rounds`, in order.
    pub open spec fn stream(self, rounds: Seq<Round>, id: ClientId) -> Seq<Msg>
        decreases rounds.len(),
    {
        if rounds.len() == 0 {
            Seq::empty()
        } else {
            let before = rounds.drop_last();
            self.stream(before, id) + addressed(self.run(before).plan(rounds.last().msg), id)
        }
    }

    /// Client `id` is registered before, between and after all rounds of
    /// `rounds`, and none of them connects it anew.
    pub open spec fn connected_throughout(self, rounds: Seq<Round>, id: ClientId) -> bool {
        &&& forall|k: int|
            0 <= k <= rounds.len() ==> (#[trigger] self.run(rounds.take(k))).clients.contains(id)
        &&& forall|k: int|
            0 <= k < rounds.len() ==> (#[trigger] rounds[k]).msg != Msg::NewClient(id)
    }
}

/// A round keeps the hub well-formed: the history holds no stroke of fewer
/// than two points and the registry no client twice.
pub proof fn lemma_round_keeps_wf(s: HubState, r: Round)
    requires
        s.wf(),
    ensures
        s.round(r).wf(),
{
    let after = s.next(r.msg);
    match r.msg {
        Msg::DeleteClient(id) => {
            lemma_prune_registry(s.clients, seq![id]);
        },
        _ => {},
    }
    assert(after.wf());
    lemma_prune_registry(after.clients, r.failed);
}

/// So does every run.
pub proof fn lemma_run_keeps_wf(s: HubState, rounds: Seq<Round>)
    requires
        s.wf(),
    ensures
        s.run(rounds).wf(),
    decreases rounds.len(),
{
    if rounds.len() > 0 {
        lemma_run_keeps_wf(s, rounds.drop_last());
        lemma_round_keeps_wf(s.run(rounds.drop_last()), rounds.last());
    }
}

/// Running `a` and then `b` is running `a + b`.
pub proof fn lemma_run_concat(s: HubState, a: Seq<Round>, b: Seq<Round>)
    ensures
        s.run(a + b) == s.run(a).run(b),
    decreases b.len(),
{
    if b.len() == 0 {
        assert(a + b =~= a);
    } else {
        assert((a + b).drop_last() =~= a + b.drop_last());
        assert((a + b).last() == b.last());
        lemma_run_concat(s, a, b.drop_last());
    }
}

/// Without a clear, the history only grows: after the run it is the history
/// from before, followed by the strokes that the run committed, in order.
pub proof fn lemma_history_without_clear(s: HubState, rounds: Seq<Round>)
    requires
        clear_free(rounds),
    ensures
        s.run(rounds).lines == s.lines + committed(rounds),
    decreases rounds.len(),
{
    if rounds.len() == 0 {
        assert(s.lines + committed(rounds) =~= s.lines);
    } else {
        let before = rounds.drop_last();
        assert forall|k: int| 0 <= k < before.len() implies !((#[trigger] before[k]).msg is Clear) by {
            assert(before[k] == rounds[k]);
        }
        lemma_history_without_clear(s, before);
        let last = rounds.last();
        assert(last == rounds[rounds.len() - 1]);
        let mid = s.run(before);
        match last.msg {
            Msg::NewLine(line) => {
                if line.len() >= 2 {
                    assert(s.lines + committed(before).push(line) =~= (s.lines + committed(
                        before,
                    )).push(line));
                }
            },
            _ => {},
        }
    }
}

/// A client that connects after a clear is replayed exactly the strokes
/// committed since that clear, in commit order, and none from before it.
///
/// Whatever the state `s` and the rounds `before` the clear, if no round of
/// `after` is a clear, then the history after all of them is the strokes
/// that `after` committed, and that is what a `NewClient` request is then
/// answered with.
pub proof fn lemma_replay_after_clear(
    s: HubState,
    before: Seq<Round>,
    clear: Round,
    after: Seq<Round>,
    id: ClientId,
)
    requires
        clear.msg is Clear,
        clear_free(after),
    ensures
        s.run(before.push(clear) + after).lines == committed(after),
        s.run(before.push(clear) + after).plan(Msg::NewClient(id)) == (Plan::Replay {
            client: id,
            lines: committed(after),
        }),
{
    let cleared = s.run(before.push(clear));
    assert(before.push(clear).drop_last() =~= before);
    assert(before.push(clear).last() == clear);
    assert(cleared.lines =~= Seq::empty());
    lemma_run_concat(s, before.push(clear), after);
    lemma_history_without_clear(cleared, after);
    assert(cleared.lines + committed(after) =~= committed(after));
}

/// A client that stays connected is addressed exactly the requests that the
/// hub fans out, in the order in which the hub took them.
pub proof fn lemma_stream_of_connected(s: HubState, rounds: Seq<Round>, id: ClientId)
    requires
        s.connected_throughout(rounds, id),
    ensures
        s.stream(rounds, id) == announced(rounds),
    decreases rounds.len(),
{
    if rounds.len() > 0 {
        let before = rounds.drop_last();
        let last = rounds.last();
        assert(last == rounds[rounds.len() - 1]);
        assert forall|k: int| 0 <= k <= before.len() implies (#[trigger] s.run(
            before.take(k),
        )).clients.contains(id) by {
            assert(before.take(k) =~= rounds.take(k));
        }
        assert forall|k: int| 0 <= k < before.len() implies (#[trigger] before[k]).msg
            != Msg::NewClient(id) by {
            assert(before[k] == rounds[k]);
        }
        lemma_stream_of_connected(s, before, id);
        assert(rounds.take(rounds.len() - 1) =~= before);
        let mid = s.run(before);
        assert(mid.clients.contains(id));
        let sent = addressed(mid.plan(last.msg), id);
        if is_fanned_out(last.msg) {
            assert(sent =~= seq![last.msg]);
            assert(announced(before) + sent =~= announced(before).push(last.msg));
        } else {
            assert(sent =~= Seq::empty());
            assert(announced(before) + sent =~= announced(before));
        }
    }
}

/// Two clients that both stay connected over a run see the same stream:
/// the same strokes and clears in the same order.
pub proof fn lemma_same_order(s: HubState, rounds: Seq<Round>, a: ClientId, b: ClientId)
    requires
        s.connected_throughout(rounds, a),
        s.connected_throughout(rounds, b),
    ensures
        s.stream(rounds, a) == s.stream(rounds, b),
{
    lemma_stream_of_connected(s, rounds, a);
    lemma_stream_of_connected(s, rounds, b);
}

/// A client whose channel is broken does not stand in the way of the
/// others.
///
/// Let round `r` be a fan-out in which the sends to the clients of
/// `r.failed` fail, and let `c` be a registered client that is none of
/// them. Then the fan-out is addressed to `c` all the same; afterwards every
/// failed client is off the registry and `c` is still on it; and the next
/// fan-out, of `later`, is addressed to `c` and to none of the failed.
pub proof fn lemma_broken_client_is_isolated(s: HubState, r: Round, later: Msg, c: ClientId)
    requires
        s.wf(),
        is_fanned_out(r.msg),
        is_fanned_out(later),
        s.clients.contains(c),
        !r.failed.contains(c),
    ensures
        addressed(s.plan(r.msg), c) == seq![r.msg],
        s.round(r).clients == s.clients.filter(none_of(r.failed)),
        s.round(r).clients.contains(c),
        addressed(s.round(r).plan(later), c) == seq![later],
        forall|b: ClientId|
            r.failed.contains(b) ==> !s.round(r).clients.contains(b) && addressed(
                s.round(r).plan(later),
                b,
            ) == Seq::<Msg>::empty(),
{
    lemma_prune_registry(s.clients, r.failed);
    assert(s.next(r.msg).clients == s.clients);
}

/// Taking off clients of whom none is registered leaves the registry as it
/// is.
proof fn lemma_prune_strangers(clients: Seq<ClientId>, gone: Seq<ClientId>)
    requires
        forall|c: ClientId| gone.contains(c) ==> !clients.contains(c),
    ensures
        clients.filter(none_of(gone)) == clients,
    decreases clients.len(),
{
    reveal(Seq::filter);
    if clients.len() > 0 {
        let front = clients.drop_last();
        assert forall|c: ClientId| gone.contains(c) implies !front.contains(c) by {
            if front.contains(c) {
                let i = choose|i: int| 0 <= i < front.len() && front[i] == c;
                assert(clients[i] == c);
            }
        }
        lemma_prune_strangers(front, gone);
        assert(clients.contains(clients.last())) by {
            assert(clients[clients.len() - 1] == clients.last());
        }
        assert(front.push(clients.last()) =~= clients);
    }
}

/// A departure takes that client off the registry and no other; the
/// departure of a client that is not registered changes nothing, so a
/// second notice of the same departure is harmless.
pub proof fn lemma_departure(s: HubState, id: ClientId)
    requires
        s.wf(),
    ensures
        !s.next(Msg::DeleteClient(id)).clients.contains(id),
        forall|c: ClientId|
            c != id ==> (s.next(Msg::DeleteClient(id)).clients.contains(c) <==> s.clients.contains(
                c,
            )),
        !s.clients.contains(id) ==> s.next(Msg::DeleteClient(id)) == s,
        s.next(Msg::DeleteClient(id)).next(Msg::DeleteClient(id)) == s.next(
            Msg::DeleteClient(id),
        ),
{
    let gone = seq![id];
    assert(gone[0] == id);
    lemma_prune_registry(s.clients, gone);
    let after = s.next(Msg::DeleteClient(id));
    if !s.clients.contains(id) {
        lemma_prune_strangers(s.clients, gone);
    }
    lemma_prune_strangers(after.clients, gone);
}

} // verus!
