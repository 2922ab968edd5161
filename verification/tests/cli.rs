use hermes::cli::{build_email_config, build_targets, parse_port_selection, EmailOptions};
use hermes::masscan_cli::MasscanError;

fn ports(text: &str) -> Result<String, MasscanError> {
    parse_port_selection(text).map(|selection| selection.as_cli_value())
}

#[test]
fn default_port_list_parses() {
    assert_eq!(ports("41641,443,80,22").unwrap(), "41641,443,80,22");
}

#[test]
fn port_list_skips_blank_pieces_and_trims() {
    assert_eq!(ports(" 80 , ,\t443,").unwrap(), "80,443");
    assert_eq!(ports("1-1024,8080").unwrap(), "1-1024,8080");
}

#[test]
fn port_numbers_follow_integer_parsing() {
    assert_eq!(ports("+80,007").unwrap(), "80,7");
    assert!(matches!(ports("65536"), Err(MasscanError::EmptyValue("port"))));
    assert!(matches!(ports("-80"), Err(MasscanError::EmptyValue("port range start"))));
    assert!(matches!(ports("0"), Err(MasscanError::EmptyValue("port"))));
    assert!(matches!(ports("http"), Err(MasscanError::EmptyValue("port"))));
}

#[test]
fn port_range_errors() {
    assert!(matches!(ports("a-80"), Err(MasscanError::EmptyValue("port range start"))));
    assert!(matches!(ports("80-"), Err(MasscanError::EmptyValue("port range end"))));
    assert!(matches!(ports("80 - 90"), Err(MasscanError::EmptyValue("port range start"))));
    assert!(matches!(ports("1-2-3"), Err(MasscanError::EmptyValue("port range end"))));
    assert!(matches!(
        ports("22,90-80,x"),
        Err(MasscanError::InvalidPortRange { start: 90, end: 80 })
    ));
}

#[test]
fn empty_port_list_is_refused() {
    assert!(matches!(ports(""), Err(MasscanError::EmptyValue("port"))));
    assert!(matches!(ports(" , ,"), Err(MasscanError::EmptyValue("port"))));
}

#[test]
fn first_bad_piece_decides_the_error() {
    assert!(matches!(ports("x,0-1"), Err(MasscanError::EmptyValue("port"))));
    assert!(matches!(ports("0-1,x"), Err(MasscanError::EmptyValue("port range start"))));
}

#[test]
fn targets_keep_their_order() {
    let values = vec!["10.0.0.1".to_string(), "example.org".to_string()];
    let targets = build_targets(&values).unwrap();
    assert_eq!(targets.first().as_str(), "10.0.0.1");
    assert_eq!(targets.rest().len(), 1);
    assert_eq!(targets.rest()[0].as_str(), "example.org");
}

#[test]
fn targets_must_be_present_and_not_blank() {
    assert!(matches!(build_targets(&[]), Err(MasscanError::EmptyValue("target"))));
    let values = vec!["10.0.0.1".to_string(), "  ".to_string()];
    assert!(matches!(build_targets(&values), Err(MasscanError::EmptyValue("target"))));
}

fn no_email() -> EmailOptions {
    EmailOptions {
        smtp_server: None,
        smtp_port: 587,
        smtp_username: None,
        smtp_password: None,
        email_from: None,
        email_to: None,
        email_subject: "Masscan Results".to_string(),
    }
}

#[test]
fn email_config_absent_without_settings() {
    assert!(build_email_config(&no_email()).unwrap().is_none());
}

#[test]
fn email_config_names_the_first_missing_setting() {
    let mut options = no_email();
    options.email_to = Some("ops@example.org".to_string());
    assert_eq!(
        build_email_config(&options).unwrap_err(),
        "missing --smtp-server for email notifications"
    );
    options.smtp_server = Some("smtp.example.org".to_string());
    options.smtp_password = Some("secret".to_string());
    assert_eq!(
        build_email_config(&options).unwrap_err(),
        "missing --smtp-username for email notifications"
    );
    options.smtp_username = Some("scanner".to_string());
    assert_eq!(
        build_email_config(&options).unwrap_err(),
        "missing --email-from for email notifications"
    );
    options.email_to = None;
    options.email_from = Some("scanner@example.org".to_string());
    assert_eq!(
        build_email_config(&options).unwrap_err(),
        "missing --email-to for email notifications"
    );
    let mut only_password = no_email();
    only_password.smtp_password = Some("secret".to_string());
    only_password.smtp_server = Some("smtp.example.org".to_string());
    only_password.smtp_username = Some("scanner".to_string());
    only_password.smtp_password = None;
    assert_eq!(
        build_email_config(&only_password).unwrap_err(),
        "missing --smtp-password for email notifications"
    );
}

#[test]
fn email_config_complete() {
    let options = EmailOptions {
        smtp_server: Some("smtp.example.org".to_string()),
        smtp_port: 2525,
        smtp_username: Some("scanner".to_string()),
        smtp_password: Some("secret".to_string()),
        email_from: Some("scanner@example.org".to_string()),
        email_to: Some("ops@example.org".to_string()),
        email_subject: "Scan".to_string(),
    };
    let config = build_email_config(&options).unwrap().unwrap();
    assert_eq!(config.smtp_server, "smtp.example.org");
    assert_eq!(config.smtp_port, 2525);
    assert_eq!(config.smtp_username, "scanner");
    assert_eq!(config.smtp_password, "secret");
    assert_eq!(config.from, "scanner@example.org");
    assert_eq!(config.to, "ops@example.org");
    assert_eq!(config.subject, "Scan");
}

#[test]
fn written_port_list_reads_back_the_same() {
    let first = parse_port_selection(" 22 ,80-90,,+443 ").unwrap();
    let written = first.as_cli_value();
    assert_eq!(written, "22,80-90,443");
    let again = parse_port_selection(&written).unwrap();
    assert_eq!(again.as_cli_value(), written);
}
