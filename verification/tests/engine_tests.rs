//! The cancellation protocol, launching, and the action state machine.

use keal::dispatch::{dispatch, DispatchState, Effect};
use keal::engine::{move_selection, Engine};
use keal::plugin::{Action, Candidate, Command, Label, Plugin, Registry};

fn registry() -> Registry {
    Registry {
        plugins: vec![
            Plugin {
                prefix: "run".to_string(),
                candidates: vec![
                    Candidate {
                        name: "format".to_string(),
                        comment: Some("reformat the tree".to_string()),
                        icon: None,
                        action: Action::PrintAndClose("format".to_string()),
                    },
                    Candidate {
                        name: "found".to_string(),
                        comment: None,
                        icon: Some("magnifier".to_string()),
                        action: Action::Exec(Command {
                            program: "found".to_string(),
                            args: vec!["--fast".to_string()],
                        }),
                    },
                ],
            },
        ],
    }
}

#[test]
fn stale_generation_is_dropped_inside_the_worker() {
    let mut eng = Engine::new(registry());
    let t1 = eng.update_input("run fo");
    let t2 = eng.update_input("run fou");
    assert_ne!(t1.generation, t2.generation);
    // the first search finishes late: its generation was superseded
    let e1 = eng.compute(&t1);
    assert!(eng.complete(t1.generation, e1).is_none());
    // the current search is delivered, tagged with its own generation
    let e2 = eng.compute(&t2);
    let msg = eng.complete(t2.generation, e2).expect("current batch must be delivered");
    assert_eq!(msg.0, t2.generation);
    // only "found" has f, o, u as an ordered subsequence
    assert_eq!(msg.1.len(), 1);
    assert_eq!(msg.1[0].name, "found");
    // the candidate's texts travel with the entry
    assert_eq!(msg.1[0].comment, None);
    assert_eq!(msg.1[0].icon.as_deref(), Some("magnifier"));
    assert_eq!(msg.1[0].label, Label { plugin: 0, index: 1 });
    // and only once: a second finish for the same generation delivers nothing
    let e3 = eng.compute(&t2);
    assert!(eng.complete(t2.generation, e3).is_none());
}

#[test]
fn kill_cancels_the_in_flight_generation() {
    let mut eng = Engine::new(registry());
    let t1 = eng.update_input("run fo");
    eng.kill();
    let e1 = eng.compute(&t1);
    assert!(eng.complete(t1.generation, e1).is_none());
    // a new input right after the kill starts a younger generation that
    // still gets delivered
    let t2 = eng.update_input("run fou");
    assert!(t2.generation > t1.generation);
    let e2 = eng.compute(&t2);
    let msg = eng.complete(t2.generation, e2).expect("fresh batch must be delivered");
    assert_eq!(msg.0, t2.generation);
}

#[test]
fn current_follows_the_addressed_plugin() {
    let mut eng = Engine::new(registry());
    assert_eq!(eng.current(), None);
    eng.update_input("run fo");
    assert_eq!(eng.current(), Some(0));
    assert_eq!(eng.current_prefix().map(|p| p.as_str()), Some("run"));
    eng.update_input("no prefix here");
    assert_eq!(eng.current(), None);
    assert!(eng.current_prefix().is_none());
}

#[test]
fn launch_resolves_a_label_to_its_action() {
    let mut eng = Engine::new(registry());
    eng.update_input("run fo");
    match eng.launch(Some(Label { plugin: 0, index: 0 })) {
        Action::PrintAndClose(t) => assert_eq!(t, "format"),
        _ => panic!("wrong action"),
    }
    match eng.launch(Some(Label { plugin: 0, index: 1 })) {
        Action::Exec(c) => {
            assert_eq!(c.program, "found");
            assert_eq!(c.args, vec!["--fast".to_string()]);
        },
        _ => panic!("wrong action"),
    }
}

#[test]
fn launch_of_a_stale_label_is_a_no_op() {
    let eng = Engine::new(registry());
    assert!(matches!(eng.launch(None), Action::Nothing));
    assert!(matches!(eng.launch(Some(Label { plugin: 0, index: 99 })), Action::Nothing));
    assert!(matches!(eng.launch(Some(Label { plugin: 7, index: 0 })), Action::Nothing));
}

#[test]
fn change_query_keeps_the_active_prefix() {
    let mut eng = Engine::new(registry());
    eng.update_input("run fo");
    let (state, effect) = dispatch(Action::ChangeQuery("bar".to_string()), eng.current_prefix());
    assert_eq!(state, DispatchState::Idle);
    match effect {
        Effect::SetInput(s) => assert_eq!(s, "run bar"),
        _ => panic!("wrong effect"),
    }
}

#[test]
fn change_query_without_active_plugin_is_verbatim() {
    let (state, effect) = dispatch(Action::ChangeQuery("bar".to_string()), None);
    assert_eq!(state, DispatchState::Idle);
    match effect {
        Effect::SetInput(s) => assert_eq!(s, "bar"),
        _ => panic!("wrong effect"),
    }
}

#[test]
fn terminal_actions_close_the_launcher() {
    let (s, e) = dispatch(Action::Nothing, None);
    assert_eq!(s, DispatchState::Idle);
    assert!(matches!(e, Effect::Nothing));

    let (s, e) = dispatch(Action::ChangeInput("verbatim".to_string()), None);
    assert_eq!(s, DispatchState::Idle);
    match e {
        Effect::SetInput(t) => assert_eq!(t, "verbatim"),
        _ => panic!("wrong effect"),
    }

    let cmd = Command { program: "ls".to_string(), args: vec![] };
    let (s, e) = dispatch(Action::Exec(cmd), None);
    assert_eq!(s, DispatchState::ClosedExec);
    match e {
        Effect::RunExec(c) => assert_eq!(c.program, "ls"),
        _ => panic!("wrong effect"),
    }

    let (s, e) = dispatch(Action::PrintAndClose("bye".to_string()), None);
    assert_eq!(s, DispatchState::ClosedAfterPrint);
    match e {
        Effect::PrintLine(t) => assert_eq!(t, "bye"),
        _ => panic!("wrong effect"),
    }

    let (s, e) = dispatch(Action::Fork, None);
    assert_eq!(s, DispatchState::ClosedFork);
    assert!(matches!(e, Effect::ForkProcess));

    let (s, e) = dispatch(Action::WaitAndClose, None);
    assert_eq!(s, DispatchState::ClosedAfterWait);
    assert!(matches!(e, Effect::WaitChild));
}

#[test]
fn selection_stays_clamped_to_the_list() {
    assert_eq!(move_selection(0, 0, true), 0);
    assert_eq!(move_selection(0, 0, false), 0);
    assert_eq!(move_selection(0, 3, true), 1);
    assert_eq!(move_selection(2, 3, true), 2);
    assert_eq!(move_selection(9, 3, true), 2);
    assert_eq!(move_selection(2, 3, false), 1);
    assert_eq!(move_selection(0, 3, false), 0);
}
