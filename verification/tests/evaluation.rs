use consensus_core::coordinator::Verdict;
use consensus_core::evaluation::parse_evaluation;

#[test]
fn accept_with_one_rationale_line() {
    let p = parse_evaluation("Good\nIt is correct.").expect("usable reply");
    assert_eq!(p.verdict, Verdict::Accept);
    assert!(p.recognized);
    assert_eq!(p.rationale, "It is correct.");
}

#[test]
fn refinement_rationale_lines_joined_by_blank_line() {
    let p = parse_evaluation("NeedsRefinement\nToo vague.\nAlso wrong.").expect("usable reply");
    assert_eq!(p.verdict, Verdict::NeedsRefinement);
    assert!(p.recognized);
    assert_eq!(p.rationale, "Too vague.\n\nAlso wrong.");
}

#[test]
fn internal_spaces_in_the_verdict_line_are_ignored() {
    let p = parse_evaluation(" G o o d \nfine").expect("usable reply");
    assert_eq!(p.verdict, Verdict::Accept);
    assert!(p.recognized);
    assert_eq!(p.rationale, "fine");
}

#[test]
fn unexpected_first_line_fails_safe_to_refinement() {
    let p = parse_evaluation("Maybe\nhard to say").expect("usable reply");
    assert_eq!(p.verdict, Verdict::NeedsRefinement);
    assert!(!p.recognized);
    assert_eq!(p.rationale, "hard to say");
}

#[test]
fn a_token_prefix_is_not_the_token() {
    let p = parse_evaluation("Goodish\nalmost").expect("usable reply");
    assert_eq!(p.verdict, Verdict::NeedsRefinement);
    assert!(!p.recognized);
}

#[test]
fn empty_reply_is_unusable() {
    assert!(parse_evaluation("").is_none());
    assert!(parse_evaluation("\n\n\n").is_none());
}

#[test]
fn leading_empty_lines_are_skipped() {
    let p = parse_evaluation("\n\nGood\n\nreason").expect("usable reply");
    assert_eq!(p.verdict, Verdict::Accept);
    assert!(p.recognized);
    assert_eq!(p.rationale, "reason");
}

#[test]
fn verdict_alone_has_empty_rationale() {
    let p = parse_evaluation("Good").expect("usable reply");
    assert_eq!(p.verdict, Verdict::Accept);
    assert_eq!(p.rationale, "");
}

#[test]
fn empty_lines_between_rationale_lines_collapse() {
    let p = parse_evaluation("NeedsRefinement\n\nfirst\n\n\nsecond\n").expect("usable reply");
    assert_eq!(p.verdict, Verdict::NeedsRefinement);
    assert_eq!(p.rationale, "first\n\nsecond");
}
