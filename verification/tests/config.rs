use githerb::usecase::config::{Config, ConfigError};

/// What the program does with the text of `.githerb.toml`: TOML in, the
/// declared checks and agent out. No file at all is `None`.
fn parse(text: Option<&str>) -> Result<Config, ConfigError> {
    let Some(text) = text else {
        return Ok(Config::empty());
    };
    let table: toml::Table = text
        .parse()
        .map_err(|err: toml::de::Error| ConfigError::Bad(err.to_string()))?;
    let mut checks = Vec::new();
    if let Some(declared) = table.get("checks") {
        let declared = declared
            .as_table()
            .ok_or_else(|| ConfigError::Bad("checks is not a table".to_owned()))?;
        for (name, command) in declared {
            let command = command
                .as_str()
                .ok_or_else(|| ConfigError::Bad(format!("checks.{name} is not a string")))?;
            checks.push((name.clone(), command.to_owned()));
        }
    }
    let command = table
        .get("agent")
        .and_then(|agent| agent.get("command"))
        .and_then(|command| command.as_str())
        .unwrap_or("");
    Ok(Config::new(checks, command))
}

#[test]
fn reads_checks_and_sorts_the_required_names() -> Result<(), ConfigError> {
    let config = parse(Some("[checks]\nsuite = \"make test\"\nlint = \"make lint\"\n"))?;
    assert_eq!(config.required(), vec!["lint", "suite"]);
    assert_eq!(config.check("suite"), Some("make test"));
    Ok(())
}

#[test]
fn reads_the_agent_command() -> Result<(), ConfigError> {
    let config = parse(Some("[agent]\ncommand = \"agent -p\"\n"))?;
    assert_eq!(config.agent(), Some("agent -p"));
    Ok(())
}

#[test]
fn a_blank_agent_command_is_no_agent() -> Result<(), ConfigError> {
    assert_eq!(parse(Some("[agent]\ncommand = \"  \"\n"))?.agent(), None);
    assert_eq!(parse(Some(""))?.agent(), None);
    Ok(())
}

#[test]
fn no_file_is_the_empty_configuration() -> Result<(), ConfigError> {
    let config = parse(None)?;
    assert_eq!(config, Config::empty());
    assert!(config.required().is_empty());
    Ok(())
}

#[test]
fn a_file_that_does_not_parse_is_refused() {
    let err = parse(Some("[checks\nbroken")).unwrap_err();
    assert!(matches!(err, ConfigError::Bad(_)), "{err:?}");
    assert!(err
        .to_string()
        .starts_with(".githerb.toml: bad configuration"));
}

#[test]
fn a_check_declared_twice_keeps_its_last_command_and_its_place() {
    let config = Config::new(
        vec![
            ("suite".to_owned(), "make test".to_owned()),
            ("gate".to_owned(), "make gate".to_owned()),
            ("suite".to_owned(), "make all".to_owned()),
        ],
        "",
    );
    assert_eq!(config.required(), vec!["gate", "suite"]);
    assert_eq!(config.check("suite"), Some("make all"));
    assert_eq!(config.check("lint"), None);
}
