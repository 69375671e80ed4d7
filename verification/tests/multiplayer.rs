use zed_web::serve::multiplayer::{
    dispatch, is_identity, DispatchAction, Dispatcher, JoinStep, ReclaimStep,
};
use zed_web::serve::session::BrokerCommand;

fn pid(n: usize) -> String {
    format!("p_{n:032x}")
}

fn join(dispatcher: &mut Dispatcher<usize>, n: usize) -> u32 {
    let pid = pid(n);
    match dispatcher.attach(Some(&pid)) {
        JoinStep::Join { peer } => {
            assert!(matches!(dispatcher.joined(&pid, peer, Some(n)), JoinStep::Route));
            peer
        }
        JoinStep::Route => dispatcher.participants.last().unwrap().peer,
        _ => panic!("could not join"),
    }
}

fn reason(step: JoinStep) -> (u16, &'static str) {
    match step {
        JoinStep::Refuse(order) => (order.code, order.reason),
        _ => panic!("not refused"),
    }
}

#[test]
fn identities_have_a_form() {
    assert!(is_identity(&pid(7)));
    assert!(is_identity("p_0123456789abcdefABCDEF0123456789"));
    for bad in ["", "p_", "q_0123456789abcdef0123456789abcdef", "p_0123456789abcdef0123456789abcde",
        "p_0123456789abcdef0123456789abcdeg", "p_0123456789abcdef0123456789abcdef0"] {
        assert!(!is_identity(bad), "{bad}");
    }
    let mut dispatcher: Dispatcher<usize> = Dispatcher::new();
    assert_eq!(reason(dispatcher.attach(None)), (1008, "participant identity required"));
    assert_eq!(reason(dispatcher.attach(Some("bob"))), (1008, "invalid participant identity"));
}

#[test]
fn replica_ids_are_unique_and_stay() {
    let mut dispatcher = Dispatcher::new();
    assert_eq!(join(&mut dispatcher, 1), 8);
    assert_eq!(join(&mut dispatcher, 2), 9);
    assert_eq!(join(&mut dispatcher, 1), 8);
    // The one that attached last is at the end.
    assert_eq!(dispatcher.participants.iter().map(|p| p.peer).collect::<Vec<_>>(), vec![9, 8]);
    // A broker that was taken back leaves the identity its id.
    assert!(matches!(dispatcher.reclaim_detached(0, true), ReclaimStep::Ask(1)));
    assert!(matches!(dispatcher.reclaim_detached(1, true), ReclaimStep::Full));
    match dispatcher.reclaim_detached(0, false) {
        ReclaimStep::Release(participant) => assert_eq!(participant.peer, 9),
        _ => panic!("not released"),
    }
    assert_eq!(join(&mut dispatcher, 3), 10);
    assert_eq!(join(&mut dispatcher, 2), 9);
}

#[test]
fn a_participant_that_cannot_join_is_refused_and_forgotten() {
    let mut dispatcher: Dispatcher<usize> = Dispatcher::new();
    let pid = pid(1);
    assert!(matches!(dispatcher.attach(Some(&pid)), JoinStep::Join { peer: 8 }));
    assert_eq!(reason(dispatcher.joined(&pid, 8, None)), (1011, "project hub unavailable"));
    assert_eq!(join(&mut dispatcher, 2), 8);
}

#[test]
fn brokers_are_bounded() {
    let mut dispatcher = Dispatcher::new();
    for n in 0..32 {
        assert_eq!(join(&mut dispatcher, n), 8 + n as u32);
    }
    let late = pid(40);
    assert!(matches!(dispatcher.attach(Some(&late)), JoinStep::Reclaim));
    assert_eq!(
        reason(dispatcher.reclaimed(&late, false)),
        (1008, "workspace has 32 connected participants; try again when someone leaves")
    );
    assert!(matches!(dispatcher.reclaim_detached(0, false), ReclaimStep::Release(_)));
    assert!(matches!(dispatcher.reclaimed(&late, true), JoinStep::Join { peer: 40 }));
    assert!(matches!(dispatcher.joined(&late, 40, Some(40)), JoinStep::Route));
    assert_eq!(dispatcher.participants.len(), 32);
    // Someone who is there needs no room.
    assert!(matches!(dispatcher.attach(Some(&pid(3))), JoinStep::Route));
}

#[test]
fn replica_ids_run_out() {
    let mut dispatcher: Dispatcher<usize> = Dispatcher::new();
    for n in 0..65_528 {
        dispatcher.identities.push(pid(n));
    }
    assert!(matches!(dispatcher.attach(Some(&pid(65_527))), JoinStep::Join { peer: 65_535 }));
    assert_eq!(
        reason(dispatcher.attach(Some(&pid(65_528)))),
        (1008, "workspace replica identities exhausted; restart the workspace")
    );
}

#[test]
fn a_browser_cannot_shut_the_server_down() {
    let close: BrokerCommand<(), u8> =
        BrokerCommand::CloseSession { code: 1000, reason: "done".into() };
    assert!(matches!(dispatch(close), DispatchAction::Ignore));
    let retire: BrokerCommand<(), u8> = BrokerCommand::RetireIfDetached { done: 1 };
    assert!(matches!(dispatch(retire), DispatchAction::Stay { done: 1 }));
    let stop: BrokerCommand<(), u8> = BrokerCommand::Shutdown { done: 2 };
    assert!(matches!(dispatch(stop), DispatchAction::ShutDown { done: 2 }));
}
