use middleware_chain::middleware::{Event, Noop, Phase, Recorder, Status};
use middleware_chain::stackchain::StackChain;

fn count(log: &[Event], id: u64, phase: Phase) -> usize {
    log.iter().filter(|e| e.id == id && e.phase == phase).count()
}

fn enter(id: u64) -> Event {
    Event { id, phase: Phase::Enter }
}

fn exit(id: u64) -> Event {
    Event { id, phase: Phase::Exit }
}

fn dispatch_once(chain: &mut StackChain<Recorder>) -> (Status, Vec<Event>) {
    let mut log: Vec<Event> = Vec::new();
    let status = chain.dispatch(&mut (), &mut (), &mut log);
    (status, log)
}

#[test]
fn calls_middleware_enter() {
    let mut testchain: StackChain<Recorder> = StackChain::new();
    testchain.link(Recorder::new(0));
    let (_, log) = dispatch_once(&mut testchain);
    assert_eq!(count(&log, 0, Phase::Enter), 1);
}

#[test]
fn calls_middleware_exit() {
    let mut testchain: StackChain<Recorder> = StackChain::new();
    testchain.link(Recorder::new(0));
    let (_, log) = dispatch_once(&mut testchain);
    assert_eq!(count(&log, 0, Phase::Exit), 1);
}

#[test]
fn calls_all_middleware_enter_exit() {
    let mut testchain: StackChain<Recorder> = StackChain::new();
    for id in 0..10u64 {
        testchain.link(Recorder::new(id));
    }
    let (_, log) = dispatch_once(&mut testchain);
    for id in 0..10u64 {
        assert_eq!(count(&log, id, Phase::Enter), 1);
        assert_eq!(count(&log, id, Phase::Exit), 1);
    }
}

#[test]
fn stackchain_calls_middleware_enter() {
    let mut testchain: StackChain<Recorder> = StackChain::new();
    testchain.link(Recorder::new(0));
    let mut log: Vec<Event> = Vec::new();
    let _ = testchain.chain_enter(&mut (), &mut (), &mut log);
    assert_eq!(count(&log, 0, Phase::Enter), 1);
}

#[test]
fn doesnt_call_middleware_exit() {
    let mut testchain: StackChain<Recorder> = StackChain::new();
    testchain.link(Recorder::new(0));
    let mut log: Vec<Event> = Vec::new();
    let _ = testchain.chain_enter(&mut (), &mut (), &mut log);
    assert_eq!(count(&log, 0, Phase::Exit), 0);
}

#[test]
fn stackchain_calls_middleware_exit() {
    let mut testchain: StackChain<Recorder> = StackChain::new();
    testchain.link(Recorder::new(0));
    let mut entered: Vec<Event> = Vec::new();
    let _ = testchain.chain_enter(&mut (), &mut (), &mut entered);
    let mut log: Vec<Event> = Vec::new();
    let _ = testchain.chain_exit(&mut (), &mut (), &mut log);
    assert_eq!(count(&log, 0, Phase::Exit), 1);
}

#[test]
fn doesnt_call_middleware_enter() {
    let mut testchain: StackChain<Recorder> = StackChain::new();
    testchain.link(Recorder::new(0));
    let mut entered: Vec<Event> = Vec::new();
    let _ = testchain.chain_enter(&mut (), &mut (), &mut entered);
    let mut log: Vec<Event> = Vec::new();
    let _ = testchain.chain_exit(&mut (), &mut (), &mut log);
    assert_eq!(count(&log, 0, Phase::Enter), 0);
}

#[test]
fn all_continue_enters_in_order_and_exits_in_reverse() {
    let mut chain: StackChain<Recorder> = StackChain::new();
    chain.link(Recorder::new(1));
    chain.link(Recorder::new(2));
    chain.link(Recorder::new(3));
    let (status, log) = dispatch_once(&mut chain);
    assert_eq!(status, Status::Continue);
    assert_eq!(log, vec![enter(1), enter(2), enter(3), exit(3), exit(2), exit(1)]);
    for id in 1..4u64 {
        assert_eq!(count(&log, id, Phase::Enter), 1);
        assert_eq!(count(&log, id, Phase::Exit), 1);
    }
}

#[test]
fn unwind_stops_enter_and_exits_only_what_entered() {
    let mut chain: StackChain<Recorder> = StackChain::new();
    chain.link(Recorder::new(1));
    chain.link(Recorder::with_signals(2, Status::Unwind, Status::Continue));
    chain.link(Recorder::new(3));
    let (status, log) = dispatch_once(&mut chain);
    assert_eq!(status, Status::Unwind);
    assert_eq!(log, vec![enter(1), enter(2), exit(1)]);
    assert_eq!(count(&log, 3, Phase::Enter), 0);
    assert_eq!(count(&log, 3, Phase::Exit), 0);
}

#[test]
fn unwinding_middleware_is_not_exited() {
    let mut chain: StackChain<Recorder> = StackChain::new();
    chain.link(Recorder::with_signals(7, Status::Unwind, Status::Continue));
    let (status, log) = dispatch_once(&mut chain);
    assert_eq!(status, Status::Unwind);
    assert_eq!(log, vec![enter(7)]);
}

#[test]
fn exit_runs_after_partial_enter() {
    let mut chain: StackChain<Recorder> = StackChain::new();
    chain.link(Recorder::new(1));
    chain.link(Recorder::new(2));
    chain.link(Recorder::with_signals(3, Status::Unwind, Status::Continue));
    let (status, log) = dispatch_once(&mut chain);
    assert_eq!(status, Status::Unwind);
    assert_eq!(log, vec![enter(1), enter(2), enter(3), exit(2), exit(1)]);
}

#[test]
fn empty_chain_continues_without_calls() {
    let mut chain: StackChain<Recorder> = StackChain::new();
    let mut log: Vec<Event> = Vec::new();
    assert_eq!(chain.chain_enter(&mut (), &mut (), &mut log), Status::Continue);
    assert_eq!(chain.chain_exit(&mut (), &mut (), &mut log), Status::Continue);
    assert_eq!(chain.dispatch(&mut (), &mut (), &mut log), Status::Continue);
    assert!(log.is_empty());
}

#[test]
fn exit_signal_does_not_stop_exit_phase() {
    let mut chain: StackChain<Recorder> = StackChain::new();
    chain.link(Recorder::new(1));
    chain.link(Recorder::with_signals(2, Status::Continue, Status::Unwind));
    chain.link(Recorder::with_signals(3, Status::Continue, Status::Unwind));
    let (status, log) = dispatch_once(&mut chain);
    assert_eq!(status, Status::Continue);
    assert_eq!(log, vec![enter(1), enter(2), enter(3), exit(3), exit(2), exit(1)]);
}

#[test]
fn second_dispatch_repeats_the_first() {
    let mut chain: StackChain<Recorder> = StackChain::new();
    chain.link(Recorder::new(1));
    chain.link(Recorder::with_signals(2, Status::Continue, Status::Unwind));
    chain.link(Recorder::with_signals(3, Status::Unwind, Status::Continue));
    let first = dispatch_once(&mut chain);
    let second = dispatch_once(&mut chain);
    assert_eq!(first, second);
    assert_eq!(first.1, vec![enter(1), enter(2), enter(3), exit(2), exit(1)]);
}

#[test]
fn exit_phase_reverses_the_trace_in_place() {
    let mut chain: StackChain<Recorder> = StackChain::new();
    chain.link(Recorder::new(1));
    chain.link(Recorder::new(2));
    let mut log: Vec<Event> = Vec::new();
    let _ = chain.chain_enter(&mut (), &mut (), &mut log);
    let _ = chain.chain_exit(&mut (), &mut (), &mut log);
    let _ = chain.chain_exit(&mut (), &mut (), &mut log);
    assert_eq!(log, vec![enter(1), enter(2), exit(2), exit(1), exit(1), exit(2)]);
}

#[test]
fn from_iter_links_in_order() {
    let mut chain = StackChain::from_iter(vec![Recorder::new(4), Recorder::new(5)]);
    let (status, log) = dispatch_once(&mut chain);
    assert_eq!(status, Status::Continue);
    assert_eq!(log, vec![enter(4), enter(5), exit(5), exit(4)]);
}

#[test]
fn clone_dispatches_like_the_original() {
    let mut chain: StackChain<Recorder> = StackChain::new();
    chain.link(Recorder::new(1));
    chain.link(Recorder::with_signals(2, Status::Unwind, Status::Continue));
    let mut copy = chain.clone();
    assert_eq!(dispatch_once(&mut chain), dispatch_once(&mut copy));
}

#[test]
fn noop_chain_continues_and_leaves_values() {
    let mut chain: StackChain<Noop> = StackChain::new();
    chain.link(Noop);
    chain.link(Noop);
    let mut req: u32 = 5;
    let mut res: String = String::from("body");
    let mut extras: Vec<u8> = vec![1, 2];
    assert_eq!(chain.dispatch(&mut req, &mut res, &mut extras), Status::Continue);
    assert_eq!(req, 5);
    assert_eq!(res, "body");
    assert_eq!(extras, vec![1, 2]);
}
