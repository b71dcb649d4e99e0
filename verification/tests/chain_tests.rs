use tcap_bench::chain::{
    continuation, next_slot, steps_for_depth, ChainAction, ChainHop, ChainSide, CHAIN_CLIENT_HOP_CAP,
    CHAIN_FINAL_CAP, CHAIN_SERVER_HOP_CAP, CLIENT_HOP_SLOT, FINAL_SLOT, SERVER_HOP_SLOT,
};

#[test]
fn continuation_holds_the_three_handlers_in_their_slots() {
    let c = continuation(CHAIN_FINAL_CAP, CHAIN_CLIENT_HOP_CAP, CHAIN_SERVER_HOP_CAP);
    assert_eq!(c, vec![50, 400, 200]);
    assert_eq!(c[FINAL_SLOT], 50);
    assert_eq!(c[CLIENT_HOP_SLOT], 400);
    assert_eq!(c[SERVER_HOP_SLOT], 200);
}

#[test]
fn each_side_forwards_to_the_other() {
    assert_eq!(next_slot(ChainSide::Client), SERVER_HOP_SLOT);
    assert_eq!(next_slot(ChainSide::Server), CLIENT_HOP_SLOT);
}

#[test]
fn steps_for_depth_on_each_side() {
    assert_eq!(steps_for_depth(ChainSide::Client, 10), 4);
    assert_eq!(steps_for_depth(ChainSide::Server, 10), 3);
    assert_eq!(steps_for_depth(ChainSide::Client, 10000), 4999);
    assert_eq!(steps_for_depth(ChainSide::Server, 10000), 4998);
    assert_eq!(steps_for_depth(ChainSide::Client, 3), 0);
    assert_eq!(steps_for_depth(ChainSide::Server, 5), 0);
}

#[test]
fn hop_finishes_exactly_at_its_steps() {
    let mut h = ChainHop::new(ChainSide::Client, 3);
    assert_eq!(h.on_invocation(), ChainAction::Forward(SERVER_HOP_SLOT));
    assert_eq!(h.on_invocation(), ChainAction::Forward(SERVER_HOP_SLOT));
    assert_eq!(h.on_invocation(), ChainAction::Finish);
    assert_eq!(h.count, 3);
    assert_eq!(h.on_invocation(), ChainAction::Forward(SERVER_HOP_SLOT));
    h.reset();
    assert_eq!(h.count, 0);
    assert_eq!(h.steps, 3);
}

#[test]
fn hop_with_zero_steps_never_finishes() {
    let mut h = ChainHop::new(ChainSide::Server, 0);
    for _ in 0..1000 {
        assert_eq!(h.on_invocation(), ChainAction::Forward(CLIENT_HOP_SLOT));
    }
}

/// Runs both handlers in turn, client first, and returns the hop (counting
/// from 1) at which one of them finishes, with its side.
fn run(depth: u128) -> (u128, ChainSide) {
    run_steps(
        steps_for_depth(ChainSide::Client, depth),
        steps_for_depth(ChainSide::Server, depth),
        1_000_000,
    )
    .unwrap()
}

/// Like `run`, for any step counts, giving up after `limit` hops.
fn run_steps(client_steps: u128, server_steps: u128, limit: u128) -> Option<(u128, ChainSide)> {
    let mut client = ChainHop::new(ChainSide::Client, client_steps);
    let mut server = ChainHop::new(ChainSide::Server, server_steps);
    let mut hop: u128 = 0;
    while hop < limit {
        hop += 1;
        let (side, action) = if hop % 2 == 1 {
            (ChainSide::Client, client.on_invocation())
        } else {
            (ChainSide::Server, server.on_invocation())
        };
        if action == ChainAction::Finish {
            return Some((hop, side));
        }
    }
    None
}

#[test]
fn server_ends_a_run_when_it_counts_fewer_steps() {
    assert_eq!(run_steps(5, 2, 1000), Some((4, ChainSide::Server)));
    assert_eq!(run_steps(100, 1, 1000), Some((2, ChainSide::Server)));
}

#[test]
fn client_ends_a_run_when_it_counts_no_more_steps() {
    assert_eq!(run_steps(2, 5, 1000), Some((3, ChainSide::Client)));
    assert_eq!(run_steps(3, 3, 1000), Some((5, ChainSide::Client)));
}

#[test]
fn run_without_steps_never_ends() {
    assert_eq!(run_steps(0, 0, 10000), None);
    assert_eq!(run_steps(0, 0, 1), None);
}

#[test]
fn chain_of_depth_ten_ends_at_the_server_after_six_hops() {
    assert_eq!(run(10), (6, ChainSide::Server));
}

#[test]
fn chain_length_follows_the_depth() {
    assert_eq!(run(4), (1, ChainSide::Client));
    assert_eq!(run(5), (1, ChainSide::Client));
    assert_eq!(run(6), (2, ChainSide::Server));
    assert_eq!(run(7), (2, ChainSide::Server));
    assert_eq!(run(1000), (996, ChainSide::Server));
}
