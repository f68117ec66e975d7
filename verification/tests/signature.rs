use githerb::usecase::identity::{literal, named, Identity, RUNNER, UNKNOWN};

#[test]
fn a_blank_name_is_nobody() {
    assert_eq!(named(Some("   ".to_owned())), None);
    assert_eq!(named(None), None);
    assert_eq!(
        named(Some(" ada ".to_owned())).map(|author| author.as_str().to_owned()),
        Some("ada".to_owned())
    );
}

#[test]
fn nobody_in_particular_is_still_an_author() {
    assert_eq!(literal(UNKNOWN).as_str(), "unknown");
    assert_eq!(literal(RUNNER).as_str(), "githerb-run");
}

#[test]
fn the_environment_wins_then_git_then_nobody() {
    assert_eq!(
        Identity::detect(Some("ci".to_owned()), Some("ada".to_owned())).as_str(),
        "ci"
    );
    assert_eq!(
        Identity::detect(Some(" ".to_owned()), Some("ada".to_owned())).as_str(),
        "ada"
    );
    assert_eq!(Identity::detect(None, Some("".to_owned())).as_str(), "unknown");
    assert_eq!(Identity::runner(None).as_str(), "githerb-run");
    assert_eq!(Identity::runner(Some("bot".to_owned())).as_str(), "bot");
}
