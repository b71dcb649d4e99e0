//! The chain benchmark: a request bounces between an intermediate handler on
//! the client and one on the server, each counting the invocations it has
//! seen, until one of them has seen its number of steps and invokes the
//! client's final handler, which ends the run.
use vstd::prelude::*;

verus! {

/// Id of the server's start handler, which the client invokes first.
pub const CHAIN_START_CAP: u64 = 100;

/// Id of the server's intermediate handler.
pub const CHAIN_SERVER_HOP_CAP: u64 = 200;

/// Id of the client's final handler, which ends a run.
pub const CHAIN_FINAL_CAP: u64 = 50;

/// Id of the client's intermediate handler.
pub const CHAIN_CLIENT_HOP_CAP: u64 = 400;

/// Position of the final handler in the continuation that travels with the
/// request.
pub const FINAL_SLOT: usize = 0;

/// Position of the client's intermediate handler in the continuation.
pub const CLIENT_HOP_SLOT: usize = 1;

/// Position of the server's intermediate handler in the continuation.
pub const SERVER_HOP_SLOT: usize = 2;

/// The side of the chain a handler runs on.
#[derive(Clone, Copy, Debug, PartialEq, Eq, Structural)]
pub enum ChainSide {
    Client,
    Server,
}

/// What an intermediate handler does when it is invoked.
#[derive(Clone, Copy, Debug, PartialEq, Eq, Structural)]
pub enum ChainAction {
    /// Invoke the final handler (continuation slot `FINAL_SLOT`): the run ends.
    Finish,
    /// Pass the request on to the handler in the given continuation slot,
    /// handing it the continuation again.
    Forward(usize),
}

/// The continuation slot a handler on `side` passes the request on to: the
/// intermediate handler on the other side.
pub open spec fn forward_slot(side: ChainSide) -> usize {
    match side {
        ChainSide::Client => SERVER_HOP_SLOT,
        ChainSide::Server => CLIENT_HOP_SLOT,
    }
}

/// What the handler on `side` with `steps` steps does at its `k`-th
/// invocation (counting from 1) since its counter was reset.
pub open spec fn chain_action_at(side: ChainSide, steps: int, k: int) -> ChainAction {
    if k == steps {
        ChainAction::Finish
    } else {
        ChainAction::Forward(forward_slot(side))
    }
}

/// The continuation slot a handler on `side` passes the request on to.
pub fn next_slot(side: ChainSide) -> (r: usize)
    ensures
        r == forward_slot(side),
{
    match side {
        ChainSide::Client => SERVER_HOP_SLOT,
        ChainSide::Server => CLIENT_HOP_SLOT,
    }
}

/// The continuation that travels with the request: the final handler, the
/// client's intermediate handler and the server's intermediate handler, in
/// the slots `FINAL_SLOT`, `CLIENT_HOP_SLOT` and `SERVER_HOP_SLOT`.
pub fn continuation(final_cap: u64, client_hop_cap: u64, server_hop_cap: u64) -> (r: Vec<u64>)
    ensures
        r@ == seq![final_cap, client_hop_cap, server_hop_cap],
        r@[FINAL_SLOT as int] == final_cap,
        r@[CLIENT_HOP_SLOT as int] == client_hop_cap,
        r@[SERVER_HOP_SLOT as int] == server_hop_cap,
{
    let mut r: Vec<u64> = Vec::new();
    r.push(final_cap);
    r.push(client_hop_cap);
    r.push(server_hop_cap);
    assert(r@ =~= seq![final_cap, client_hop_cap, server_hop_cap]);
    r
}

/// The number of steps the handler on `side` counts for a chain of the given
/// depth: half the depth, less one on the client and less two on the server.
pub open spec fn spec_steps_for_depth(side: ChainSide, depth: int) -> int {
    match side {
        ChainSide::Client => depth / 2 - 1,
        ChainSide::Server => depth / 2 - 2,
    }
}

/// The number of steps the handler on `side` counts for a chain of the given
/// depth. The depth must leave that number non-negative.
pub fn steps_for_depth(side: ChainSide, depth: u128) -> (r: u128)
    requires
        spec_steps_for_depth(side, depth as int) >= 0,
    ensures
        r == spec_steps_for_depth(side, depth as int),
        2 * (r + match side {
            ChainSide::Client => 1int,
            ChainSide::Server => 2int,
        }) <= depth <= 2 * (r + match side {
            ChainSide::Client => 1int,
            ChainSide::Server => 2int,
        }) + 1,
{
    match side {
        ChainSide::Client => depth / 2 - 1,
        ChainSide::Server => depth / 2 - 2,
    }
}

/// The invocation counter of an intermediate handler.
pub struct ChainHop {
    pub side: ChainSide,
    pub steps: u128,
    pub count: u128,
}

impl ChainHop {
    /// A handler on `side` that ends the run at its `steps`-th invocation,
    /// with its counter reset.
    pub fn new(side: ChainSide, steps: u128) -> (h: Self)
        ensures
            h.side == side,
            h.steps == steps,
            h.count == 0,
    {
        ChainHop { side, steps, count: 0 }
    }

    /// Resets the counter, as at the start of each run.
    pub fn reset(&mut self)
        ensures
            final(self).side == old(self).side,
            final(self).steps == old(self).steps,
            final(self).count == 0,
    {
        self.count = 0;
    }

    /// Counts one invocation and says what the handler does for it: it ends
    /// the run exactly when the count reaches `steps`, and passes the request
    /// on otherwise.
    pub fn on_invocation(&mut self) -> (a: ChainAction)
        requires
            old(self).count < u128::MAX,
        ensures
            final(self).side == old(self).side,
            final(self).steps == old(self).steps,
            final(self).count == old(self).count + 1,
            a == chain_action_at(old(self).side, old(self).steps as int, old(self).count + 1),
            (a == ChainAction::Finish) <==> old(self).count + 1 == old(self).steps,
            a != ChainAction::Finish ==> a == ChainAction::Forward(
                match old(self).side {
                    ChainSide::Client => SERVER_HOP_SLOT,
                    ChainSide::Server => CLIENT_HOP_SLOT,
                },
            ),
    {
        self.count = self.count + 1;
        if self.count == self.steps {
            ChainAction::Finish
        } else {
            ChainAction::Forward(next_slot(self.side))
        }
    }
}

/// The action at hop `h` (counting from 1) of a run in which the client's
/// handler counts `client_steps` and the server's `server_steps`: the request
/// first reaches the client's handler, then the server's, and so on in turn.
pub open spec fn run_action_at(client_steps: int, server_steps: int, h: int) -> ChainAction {
    if h % 2 == 1 {
        chain_action_at(ChainSide::Client, client_steps, (h + 1) / 2)
    } else {
        chain_action_at(ChainSide::Server, server_steps, h / 2)
    }
}

/// The run ends at hop `h`: every earlier hop passes the request on and hop
/// `h` invokes the final handler.
pub open spec fn run_ends_at(client_steps: int, server_steps: int, h: int) -> bool {
    &&& h >= 1
    &&& run_action_at(client_steps, server_steps, h) == ChainAction::Finish
    &&& forall|g: int|
        1 <= g < h ==> run_action_at(client_steps, server_steps, g) != ChainAction::Finish
}

/// The hop at which a run of a chain of the given depth ends.
pub open spec fn chain_length(depth: int) -> int {
    if depth / 2 - 2 == 0 {
        1
    } else {
        2 * (depth / 2 - 2)
    }
}

/// For every depth of at least four, a run whose handlers count the steps
/// that `steps_for_depth` gives ends: at the client's first hop when the
/// depth is four or five, and otherwise at the server's handler, after
/// `2 * (depth / 2 - 2)` hops. At depth four or five the server's handler
/// counts zero steps, so it never ends the run and the server side never
/// returns.
pub proof fn lemma_chain_run_ends(depth: int)
    requires
        depth >= 4,
    ensures
        run_ends_at(
            spec_steps_for_depth(ChainSide::Client, depth),
            spec_steps_for_depth(ChainSide::Server, depth),
            chain_length(depth),
        ),
        depth >= 6 ==> chain_length(depth) % 2 == 0,
{
    let cs = spec_steps_for_depth(ChainSide::Client, depth);
    let ss = spec_steps_for_depth(ChainSide::Server, depth);
    let h = chain_length(depth);
    assert(cs == ss + 1);
    assert forall|g: int| 1 <= g < h implies run_action_at(cs, ss, g) != ChainAction::Finish by {
        if g % 2 == 1 {
            assert((g + 1) / 2 <= ss);
        } else {
            assert(g / 2 < ss);
        }
    }
    if ss == 0 {
        assert(run_action_at(cs, ss, 1) == ChainAction::Finish);
    } else {
        assert((2 * ss) % 2 == 0);
        assert((2 * ss) / 2 == ss);
    }
}

/// When the server's handler counts fewer steps than the client's, and at
/// least one, the run ends at the server's handler after `2 * server_steps`
/// hops. The odd hops are the client's and the even hops the server's, so
/// each handler has then run exactly `server_steps` times, and the final
/// handler is invoked once, by the server's handler at its
/// `server_steps`-th invocation.
pub proof fn lemma_chain_server_ends(client_steps: int, server_steps: int)
    requires
        1 <= server_steps < client_steps,
    ensures
        run_ends_at(client_steps, server_steps, 2 * server_steps),
        run_action_at(client_steps, server_steps, 2 * server_steps) == chain_action_at(
            ChainSide::Server,
            server_steps,
            server_steps,
        ),
        (2 * server_steps) % 2 == 0,
        (2 * server_steps) / 2 == server_steps,
{
    let cs = client_steps;
    let ss = server_steps;
    assert forall|g: int| 1 <= g < 2 * ss implies run_action_at(cs, ss, g) != ChainAction::Finish by {
        if g % 2 == 1 {
            assert((g + 1) / 2 <= ss);
        } else {
            assert(g / 2 < ss);
        }
    }
    assert((2 * ss) % 2 == 0);
    assert((2 * ss) / 2 == ss);
}

/// When the client's handler counts at least one step and no more than the
/// server's, the run ends at the client's handler, at hop
/// `2 * client_steps - 1`: the server's handler never ends it, and the
/// server side never returns.
pub proof fn lemma_chain_client_ends(client_steps: int, server_steps: int)
    requires
        1 <= client_steps <= server_steps,
    ensures
        run_ends_at(client_steps, server_steps, 2 * client_steps - 1),
        (2 * client_steps - 1) % 2 == 1,
        forall|h: int|
            1 <= h <= 2 * client_steps - 1 && h % 2 == 0 ==> run_action_at(
                client_steps,
                server_steps,
                h,
            ) != ChainAction::Finish,
{
    let cs = client_steps;
    let ss = server_steps;
    let e = 2 * cs - 1;
    assert forall|g: int| 1 <= g < e implies run_action_at(cs, ss, g) != ChainAction::Finish by {
        if g % 2 == 1 {
            assert((g + 1) / 2 < cs);
        } else {
            assert(g / 2 < cs);
        }
    }
    assert forall|h: int|
        1 <= h <= e && h % 2 == 0 implies run_action_at(cs, ss, h) != ChainAction::Finish by {
        assert(h / 2 < cs);
    }
    assert(e % 2 == 1);
    assert((e + 1) / 2 == cs);
}

/// When the server's handler counts zero steps, none of its invocations
/// ends the run, however long the run goes on: the server side never
/// returns. When neither handler counts a step, no hop ends the run.
pub proof fn lemma_chain_server_never_ends(client_steps: int, server_steps: int)
    requires
        server_steps == 0,
    ensures
        forall|h: int|
            h >= 1 && h % 2 == 0 ==> run_action_at(client_steps, server_steps, h)
                != ChainAction::Finish,
        client_steps == 0 ==> forall|h: int|
            h >= 1 ==> run_action_at(client_steps, server_steps, h) != ChainAction::Finish,
{
    assert forall|h: int| h >= 1 && h % 2 == 0 implies run_action_at(
        client_steps,
        server_steps,
        h,
    ) != ChainAction::Finish by {
        assert(h / 2 >= 1);
    }
    if client_steps == 0 {
        assert forall|h: int| h >= 1 implies run_action_at(client_steps, server_steps, h)
            != ChainAction::Finish by {
            if h % 2 == 1 {
                assert((h + 1) / 2 >= 1);
            } else {
                assert(h / 2 >= 1);
            }
        }
    }
}

/// Starting from a reset counter, the handler's `k`-th invocation ends the
/// run exactly when `k` equals its number of steps; with zero steps no
/// invocation ends it.
pub proof fn lemma_hop_finishes_once(side: ChainSide, steps: int, k: int)
    requires
        k >= 1,
    ensures
        (chain_action_at(side, steps, k) == ChainAction::Finish) <==> k == steps,
        steps == 0 ==> chain_action_at(side, steps, k) == ChainAction::Forward(forward_slot(side)),
{
}

/// A handler that does not end the run passes the request on to the other
/// side's intermediate handler, whatever its step count and invocation: the
/// client's to the server's handler, the server's back to the client's. In
/// the continuation that `continuation` builds, `[final, client hop, server
/// hop]`, that slot holds the other side's handler, never the final handler.
pub proof fn lemma_hop_forwards_to_other_side(side: ChainSide, steps: int, k: int)
    ensures
        chain_action_at(side, steps, k) == ChainAction::Finish || chain_action_at(side, steps, k)
            == ChainAction::Forward(forward_slot(side)),
        side == ChainSide::Server && chain_action_at(side, steps, k) != ChainAction::Finish
            ==> chain_action_at(side, steps, k) == ChainAction::Forward(CLIENT_HOP_SLOT),
        side == ChainSide::Client && chain_action_at(side, steps, k) != ChainAction::Finish
            ==> chain_action_at(side, steps, k) == ChainAction::Forward(SERVER_HOP_SLOT),
        forward_slot(side) != FINAL_SLOT,
        forward_slot(ChainSide::Client) != forward_slot(ChainSide::Server),
{
}

/// For any depth of at least four the client's handler counts one step more
/// than the server's, and twice the client's count plus two is the depth
/// rounded down to an even number.
pub proof fn lemma_depth_steps(depth: int)
    requires
        depth >= 4,
    ensures
        spec_steps_for_depth(ChainSide::Client, depth) == spec_steps_for_depth(
            ChainSide::Server,
            depth,
        ) + 1,
        spec_steps_for_depth(ChainSide::Server, depth) >= 0,
        2 * spec_steps_for_depth(ChainSide::Client, depth) + 2 <= depth,
        depth <= 2 * spec_steps_for_depth(ChainSide::Client, depth) + 3,
{
}

} // verus!
