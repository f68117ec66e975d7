use githerb::{Branch, Error};

#[test]
fn the_names_git_accepts_are_accepted() -> Result<(), Error> {
    for raw in ["main", "trunk", "feature/gate", "release-2.1", "a"] {
        assert_eq!(Branch::parse(raw)?.as_str(), raw);
    }
    Ok(())
}

#[test]
fn a_branch_knows_the_ref_it_lives_in() -> Result<(), Error> {
    assert_eq!(
        Branch::parse("feature/gate")?.git_ref(),
        "refs/heads/feature/gate"
    );
    Ok(())
}

#[test]
fn a_blank_branch_is_a_proposal_that_lands_nowhere() {
    assert_eq!(Branch::parse("   "), Err(Error::NoBranch));
}

#[test]
fn the_names_git_would_refuse_are_refused() {
    for raw in [
        "-force",
        "/main",
        "main/",
        "a..b",
        "a//b",
        "main.lock",
        "my branch",
        "main^",
        "a:b",
        "a~1",
        "a?b",
        "a*b",
        "a[b",
        "a\\b",
    ] {
        assert_eq!(Branch::parse(raw), Err(Error::BadBranch(raw.to_owned())));
    }
}

#[test]
fn a_branch_name_is_kept_trimmed() -> Result<(), Error> {
    assert_eq!(Branch::parse("  main ")?.as_str(), "main");
    Ok(())
}
