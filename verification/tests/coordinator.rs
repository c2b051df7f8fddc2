use consensus_core::coordinator::{Coordinator, Responder, Verdict};

fn responder(name: &str, domain: &str) -> Responder {
    Responder {
        name: name.to_string(),
        domain: domain.to_string(),
        tuning: "* breadth\n* depth".to_string(),
    }
}

fn two_member_board() -> Coordinator {
    let mut c = Coordinator::new();
    assert!(c.register(responder("A", "X")));
    assert!(c.register(responder("B", "Y")));
    c
}

#[test]
fn submit_rejected_on_empty_registry() {
    let mut c = Coordinator::new();
    assert_eq!(c.submit("Q1".to_string()), None);
    assert!(!c.is_ready());
}

#[test]
fn submit_selects_some_registered_responder() {
    let mut c = Coordinator::new();
    c.register(responder("A", "X"));
    c.register(responder("B", "Y"));
    c.register(responder("C", "Z"));
    for _ in 0..50 {
        let chosen = c.submit("Q".to_string()).expect("registry is non-empty");
        assert!(chosen < c.registry_len());
        c.reset();
    }
}

#[test]
fn submit_selection_reaches_every_responder() {
    let mut c = two_member_board();
    let mut seen = [false, false];
    for _ in 0..200 {
        let chosen = c.submit("Q".to_string()).expect("registry is non-empty");
        seen[chosen] = true;
        c.reset();
    }
    assert!(seen[0] && seen[1]);
}

#[test]
fn answer_clears_votes_before_any_evaluation_reply() {
    let mut c = two_member_board();
    assert!(c.submit_choosing("Q1".to_string(), 0));
    assert!(c.handle_answered("42".to_string()));
    assert!(c.no_votes_recorded());
    assert!(c.has_answer());
    assert_eq!(c.rounds_run(), 1);
    assert!(!c.is_ready());
}

#[test]
fn consensus_after_one_revision() {
    let mut c = two_member_board();
    assert!(c.submit_choosing("Q1".to_string(), 0));
    assert!(c.handle_answered("42".to_string()));
    assert_eq!(c.handle_evaluated(0, Verdict::Accept), None);
    // B's dissent completes the round; B is the only dissenter, so it must
    // be the one picked to revise.
    assert_eq!(c.handle_evaluated(1, Verdict::NeedsRefinement), Some(1));
    assert!(!c.is_ready());
    assert!(c.handle_revised("43".to_string()));
    assert!(c.no_votes_recorded());
    assert_eq!(c.handle_evaluated(0, Verdict::Accept), None);
    assert!(!c.is_ready());
    assert_eq!(c.handle_evaluated(1, Verdict::Accept), None);
    assert!(c.is_ready());
    assert_eq!(c.fetch_answer(), "43");
}

#[test]
fn round_cap_forces_acceptance_after_five_rounds() {
    let mut c = two_member_board();
    assert!(c.submit_choosing("Q1".to_string(), 1));
    assert!(c.handle_answered("first try".to_string()));
    for round in 1..=5u32 {
        assert_eq!(c.rounds_run(), round);
        assert_eq!(c.handle_evaluated(0, Verdict::NeedsRefinement), None);
        let target = c.handle_evaluated(1, Verdict::NeedsRefinement);
        assert!(target == Some(0) || target == Some(1));
        assert!(!c.is_ready());
        let rebroadcast = c.handle_revised(format!("try {}", round + 1));
        if round < 5 {
            assert!(rebroadcast);
            assert!(c.no_votes_recorded());
        } else {
            // At the cap the recorded votes are forced to Accept and no
            // further evaluation round starts.
            assert!(!rebroadcast);
        }
    }
    assert!(c.is_ready());
    assert_eq!(c.rounds_run(), 5);
    assert_eq!(c.fetch_answer(), "try 6");
}

#[test]
fn fetch_before_submit_returns_sentinel() {
    let c = Coordinator::new();
    assert_eq!(
        c.fetch_answer(),
        "System error: Requested answer when answer was not ready."
    );
    assert!(!c.is_ready());
}

#[test]
fn fetch_before_answer_returns_sentinel() {
    let mut c = two_member_board();
    c.submit_choosing("Q1".to_string(), 0);
    assert_eq!(
        c.fetch_answer(),
        "System error: Requested answer when answer was not ready."
    );
}

#[test]
fn reset_is_idempotent() {
    let mut c = two_member_board();
    c.submit_choosing("Q1".to_string(), 0);
    c.handle_answered("42".to_string());
    c.handle_evaluated(0, Verdict::Accept);
    assert!(c.reset());
    let once = (
        c.registry_len(),
        c.has_answer(),
        c.no_votes_recorded(),
        c.rounds_run(),
        c.is_ready(),
        c.fetch_answer(),
    );
    assert!(c.reset());
    let twice = (
        c.registry_len(),
        c.has_answer(),
        c.no_votes_recorded(),
        c.rounds_run(),
        c.is_ready(),
        c.fetch_answer(),
    );
    assert_eq!(once, twice);
    assert_eq!(once.0, 2);
    assert!(!once.1);
    assert!(once.2);
    assert_eq!(once.3, 0);
    assert!(!once.4);
}

#[test]
fn late_registration_raises_the_completion_bar() {
    let mut c = two_member_board();
    c.submit_choosing("Q1".to_string(), 0);
    c.handle_answered("42".to_string());
    assert_eq!(c.handle_evaluated(0, Verdict::Accept), None);
    // A third responder joins mid-round: the round now needs three votes.
    c.register(responder("C", "Z"));
    assert_eq!(c.handle_evaluated(1, Verdict::Accept), None);
    assert!(!c.is_ready());
    assert_eq!(c.handle_evaluated(2, Verdict::Accept), None);
    assert!(c.is_ready());
}

#[test]
fn reregistering_a_name_does_not_grow_the_registry() {
    let mut c = two_member_board();
    assert_eq!(c.registry_len(), 2);
    assert!(c.register(responder("A", "X revised")));
    assert_eq!(c.registry_len(), 2);
    assert!(c.register(responder("D", "W")));
    assert_eq!(c.registry_len(), 3);
}
