use githerb::{Author, Error, FilePath, ProposalId, RecordId, Sha};

const HEAD: &str = "9f6c1e2a3b4d5e6f708192a3b4c5d6e7f8091a2b";

#[test]
fn a_sha_is_forty_lowercase_hex_characters() -> Result<(), Error> {
    assert_eq!(Sha::parse(HEAD)?.as_str(), HEAD);
    Ok(())
}

#[test]
fn a_sha_shows_its_first_seven_characters() -> Result<(), Error> {
    assert_eq!(Sha::parse(HEAD)?.short(), "9f6c1e2");
    Ok(())
}

#[test]
fn anything_that_is_not_a_commit_name_is_refused() {
    for raw in [
        "",
        "abc",
        "9F6C1E2A3B4D5E6F708192A3B4C5D6E7F8091A2B",
        "9f6c1e2a3b4d5e6f708192a3b4c5d6e7f8091a2",
        "9f6c1e2a3b4d5e6f708192a3b4c5d6e7f8091a2bb",
        "9f6c1e2a3b4d5e6f708192a3b4c5d6e7f8091a2g",
    ] {
        assert_eq!(Sha::parse(raw), Err(Error::NoRevision(raw.to_owned())));
    }
}

#[test]
fn a_blank_record_id_is_a_resolution_that_names_nothing() {
    assert_eq!(RecordId::parse("   "), Err(Error::NoTarget));
}

#[test]
fn a_proposal_id_is_one_ref_segment() -> Result<(), Error> {
    assert_eq!(
        ProposalId::parse(" land-the-gate ")?.as_str(),
        "land-the-gate"
    );
    assert_eq!(ProposalId::parse(""), Err(Error::NoProposalId));
    assert_eq!(
        ProposalId::parse("feat/gate"),
        Err(Error::BadProposalId("feat/gate".to_owned()))
    );
    assert_eq!(
        ProposalId::parse("land this gate"),
        Err(Error::BadProposalId("land this gate".to_owned()))
    );
    Ok(())
}

#[test]
fn an_author_is_trimmed_and_never_blank() -> Result<(), Error> {
    assert_eq!(Author::parse("  leandro ")?.as_str(), "leandro");
    assert_eq!(Author::parse(" \t "), Err(Error::NoAuthor));
    Ok(())
}

#[test]
fn a_file_path_is_trimmed_and_never_blank() -> Result<(), Error> {
    assert_eq!(FilePath::parse(" a.go ")?.as_str(), "a.go");
    assert_eq!(FilePath::parse(""), Err(Error::NoFile));
    Ok(())
}

#[test]
fn a_short_sha_is_the_start_of_the_name() -> Result<(), Error> {
    let sha = Sha::parse(HEAD)?;
    assert_eq!(sha.short().len(), 7);
    assert!(HEAD.starts_with(sha.short().as_str()));
    Ok(())
}
