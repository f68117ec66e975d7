use githerb::usecase::error::Error;
use githerb::usecase::propose::{name, slug};
use githerb::Sha;

type Result<T> = std::result::Result<T, Error>;

fn head() -> Sha {
    Sha::parse("0123456789abcdef0123456789abcdef01234567").unwrap()
}

#[test]
fn propose_a_proposal_is_named_after_its_title() -> Result<()> {
    assert_eq!(
        slug("Land this gate, finally!", &head())?.as_str(),
        "land-this-gate-finally-0123456"
    );
    Ok(())
}

#[test]
fn a_title_that_says_nothing_a_ref_can_carry_is_still_a_proposal() -> Result<()> {
    assert_eq!(slug("!!! ???", &head())?.as_str(), "proposal-0123456");
    assert_eq!(slug("", &head())?.as_str(), "proposal-0123456");
    Ok(())
}

#[test]
fn a_long_title_is_cut_and_never_ends_on_a_dash() -> Result<()> {
    assert_eq!(
        slug(
            "the quick brown fox jumps over the lazy dog and keeps going",
            &head()
        )?
        .as_str(),
        "the-quick-brown-fox-jumps-over-the-lazy-0123456"
    );
    assert_eq!(
        slug("a title that runs right up to the ceiling", &head())?.as_str(),
        "a-title-that-runs-right-up-to-the-ceilin-0123456"
    );
    Ok(())
}

#[test]
fn capitals_are_lowered_before_anything_else() -> Result<()> {
    assert_eq!(slug("GATE", &head())?.as_str(), "gate-0123456");
    Ok(())
}

#[test]
fn a_lowercased_title_is_dashed_and_carries_the_short_commit() {
    assert_eq!(
        name("--fix   the latch!--", &head()).as_str(),
        "fix-the-latch-0123456"
    );
    assert_eq!(name("ÄÖ", &head()).as_str(), "proposal-0123456");
}
