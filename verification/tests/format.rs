use githerb::format::{check_line, comments, list, show, Scope, Shape};
use githerb::{
    Anchor, Author, Branch, Check, CheckName, CheckStatus, Comment, FilePath, Proposal,
    ProposalId, Record, Sha, Side, Span, Timestamp,
};

fn sha(letter: char) -> Sha {
    Sha::parse(&std::iter::repeat_n(letter, 40).collect::<String>()).unwrap()
}

fn proposal() -> Proposal {
    Proposal::open(
        ProposalId::parse("land-the-gate-aaaaaaa").unwrap(),
        "Land this gate",
        Branch::parse("main").unwrap(),
        sha('b'),
        sha('a'),
        Timestamp::from_unix(1_760_000_000),
    )
    .unwrap()
}

fn note(proposal: &Proposal) -> Comment {
    Comment::new(
        proposal.head().sha().clone(),
        Anchor::new(
            FilePath::parse("src/main.rs").unwrap(),
            Span::new(Side::New, 12, 14).unwrap(),
        ),
        "say why",
        Author::parse("ada").unwrap(),
        Timestamp::from_unix(1_760_000_100),
    )
    .unwrap()
}

#[test]
fn nothing_proposed_says_so() {
    assert_eq!(list(&[]), "no proposals yet\n");
}

#[test]
fn a_row_lines_up_with_the_next_one() {
    let row = list(&[proposal()]);

    assert_eq!(
        row,
        "land-the-gate-aaaaaaa                        open      r1   0 open  no checks onto main\n"
    );
}

#[test]
fn a_proposal_with_nothing_open_says_so() {
    assert_eq!(
        show(&proposal()),
        "land-the-gate-aaaaaaa\n\
         Land this gate\n\
         \n\
         onto main, cut from bbbbbbb\n\
         state open, revision 1 of 1\n\
         \n\
         \x20 r1   aaaaaaa\n\
         \n\
         no agent on it\n\
         \n\
         nothing open\n"
    );
}

#[test]
fn a_check_and_a_note_take_their_own_lines() {
    let mut proposal = proposal();
    let comment = note(&proposal);
    proposal
        .apply(Record::Check(Check::new(
            CheckName::parse("gate").unwrap(),
            CheckStatus::Passed,
            proposal.head().sha().clone(),
            7,
            Author::parse("ada").unwrap(),
            Timestamp::from_unix(1_760_000_050),
        )))
        .unwrap();
    proposal.apply(Record::Comment(comment.clone())).unwrap();

    let text = show(&proposal);

    assert!(text.contains("gate             passed in 7s\n\n"), "{text}");
    assert!(
        text.ends_with(&format!(
            "{}  src/main.rs:12:14\n  say why\n",
            comment.id().as_str()
        )),
        "{text}"
    );
}

#[test]
fn a_thread_reads_one_way_for_a_person_and_another_for_an_agent() {
    let mut proposal = proposal();
    let comment = note(&proposal);
    proposal.apply(Record::Comment(comment.clone())).unwrap();

    assert_eq!(
        comments(&proposal, Scope::Open, Shape::Text),
        format!("{}  src/main.rs:12  say why\n", comment.id().as_str())
    );
    assert_eq!(
        comments(&proposal, Scope::Open, Shape::Json),
        format!("{}\n", Record::Comment(comment).to_line())
    );
}

#[test]
fn a_result_reads_as_a_column() {
    let line = check_line(&Check::new(
        CheckName::parse("gate").unwrap(),
        CheckStatus::Failed,
        sha('a'),
        12,
        Author::parse("ada").unwrap(),
        Timestamp::from_unix(1_760_000_050),
    ));

    assert_eq!(line, "gate             failed  12s");
}

#[test]
fn every_unresolved_note_is_read_when_the_scope_is_all() {
    let mut proposal = proposal();
    let comment = note(&proposal);
    proposal.apply(Record::Comment(comment.clone())).unwrap();
    proposal.add_revision(sha('c')).unwrap();

    assert_eq!(comments(&proposal, Scope::Open, Shape::Text), "");
    assert_eq!(
        comments(&proposal, Scope::All, Shape::Text),
        format!("{}  src/main.rs:12  say why\n", comment.id().as_str())
    );
}
