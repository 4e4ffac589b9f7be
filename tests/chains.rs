use courier::chain::{resolve_all, CallArgs, CallChain, Operation, Step, StepKind};
use courier::inbox::Inbox;
use courier::messenger::Messenger;

fn step(leg: usize, kind: StepKind) -> Step {
    Step { leg, kind }
}

fn three_legs(continue_on_failure: bool) -> CallChain {
    CallChain::schedule("p".to_string(), Operation::CreateAccount, 0, 1, continue_on_failure)
        .chain("p".to_string(), Operation::Transfer, 5, 2)
        .chain("p".to_string(), Operation::FunctionCall("f".to_string(), CallArgs::Empty), 0, 3)
}

#[test]
fn legs_resolve_in_order() {
    let c = three_legs(true);
    let t = c.resolve(&vec![true, false, true]);
    assert_eq!(
        t,
        vec![
            step(0, StepKind::Dispatched),
            step(0, StepKind::Succeeded),
            step(1, StepKind::Dispatched),
            step(1, StepKind::Failed),
            step(2, StepKind::Dispatched),
            step(2, StepKind::Succeeded),
        ]
    );
}

#[test]
fn abort_policy_skips_later_legs() {
    let c = three_legs(false);
    let t = c.resolve(&vec![false, true, true]);
    assert_eq!(
        t,
        vec![
            step(0, StepKind::Dispatched),
            step(0, StepKind::Failed),
            step(1, StepKind::Aborted),
            step(2, StepKind::Aborted),
        ]
    );
}

#[test]
fn failure_in_one_child_leaves_others_complete() {
    let chains = vec![three_legs(false), three_legs(false), three_legs(false)];
    let rows = vec![vec![true, true, true], vec![true, false, true], vec![true, true, true]];
    let all = resolve_all(&chains, &rows);
    let done = vec![
        step(0, StepKind::Dispatched),
        step(0, StepKind::Succeeded),
        step(1, StepKind::Dispatched),
        step(1, StepKind::Succeeded),
        step(2, StepKind::Dispatched),
        step(2, StepKind::Succeeded),
    ];
    assert_eq!(all[0], done);
    assert_eq!(all[2], done);
    assert_eq!(all[1][3], step(1, StepKind::Failed));
    assert_eq!(all[1][4], step(2, StepKind::Aborted));
}

#[test]
fn messenger_send_chains_delivery_then_fetch() {
    let m = Messenger::default();
    let c = m.send("bob".to_string(), "Hey!".to_string(), 900, "alice".to_string());
    assert!(c.continue_on_failure);
    assert_eq!(c.legs.len(), 2);
    assert_eq!(c.legs[0].peer, "bob");
    assert_eq!(
        c.legs[0].operation,
        Operation::FunctionCall("leave_message".to_string(), CallArgs::LeaveMessage("Hey!".to_string()))
    );
    assert_eq!(c.legs[0].budget, 300);
    assert_eq!(c.legs[1].peer, "bob");
    assert_eq!(
        c.legs[1].operation,
        Operation::FunctionCall("get_unread_messages".to_string(), CallArgs::GetUnreadMessages("alice".to_string()))
    );
    assert_eq!(c.legs[1].budget, 300);
}

#[test]
fn inbox_send_attaches_half_the_gas() {
    let i = Inbox::default();
    let c = i.send("bob".to_string(), "Hey!".to_string(), 1001);
    assert_eq!(c.legs.len(), 1);
    assert_eq!(c.legs[0].budget, 500);
    assert_eq!(c.legs[0].balance, 0);
}

#[test]
fn batches_split_at_calls_and_peers() {
    let c = CallChain::schedule("a".to_string(), Operation::CreateAccount, 0, 0, false)
        .chain("a".to_string(), Operation::Transfer, 5, 0)
        .chain("a".to_string(), Operation::FunctionCall("f".to_string(), CallArgs::Empty), 0, 1)
        .chain("a".to_string(), Operation::Transfer, 1, 0)
        .chain("b".to_string(), Operation::Transfer, 1, 0);
    assert_eq!(c.batch_starts(), vec![true, false, true, true, true]);
}
