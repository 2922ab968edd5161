use hermes::notifications::{build_email_body, compose_email, EmailConfig};
use hermes::results::PortStatusRecord;

fn record(ip: &str, port: i32) -> PortStatusRecord {
    PortStatusRecord {
        ip: ip.to_string(),
        proto: "tcp".to_string(),
        port,
        status: "open".to_string(),
        reason: "syn-ack".to_string(),
    }
}

fn config(from: &str, to: &str) -> EmailConfig {
    EmailConfig {
        smtp_server: "smtp.example.org".to_string(),
        smtp_port: 587,
        smtp_username: "scanner".to_string(),
        smtp_password: "secret".to_string(),
        from: from.to_string(),
        to: to.to_string(),
        subject: "Masscan Results".to_string(),
    }
}

#[test]
fn email_body_without_rows() {
    assert_eq!(build_email_body(&[]), "No open ports found for requested targets.");
}

#[test]
fn email_body_lists_rows() {
    let body = build_email_body(&[record("10.0.0.1", 22), record("10.0.0.2", 443)]);
    assert_eq!(
        body,
        "Open ports detected:\n\n10.0.0.1 tcp 22 status=open reason=syn-ack\n10.0.0.2 tcp 443 status=open reason=syn-ack\n"
    );
}

#[test]
fn compose_email_accepts_valid_addresses() {
    let message = compose_email(
        &config("Scanner <scanner@example.org>", "ops@example.org"),
        &[record("10.0.0.1", 22)],
    );
    let email = message.ok().unwrap();
    let text = String::from_utf8(email.message().formatted()).unwrap();
    assert!(text.contains("From: Scanner <scanner@example.org>"), "{text}");
    assert!(text.contains("To: ops@example.org"), "{text}");
    assert!(text.contains("Subject: Masscan Results"), "{text}");
    assert!(text.contains("10.0.0.1 tcp 22 status=open reason=syn-ack"), "{text}");
}

#[test]
fn compose_email_reports_bad_sender_first() {
    let err = compose_email(&config("not an address", "also bad"), &[]).err().unwrap();
    assert!(err.starts_with("invalid sender email 'not an address': "), "{err}");
}

#[test]
fn compose_email_reports_bad_recipient() {
    let err = compose_email(&config("scanner@example.org", "also bad"), &[]).err().unwrap();
    assert!(err.starts_with("invalid recipient email 'also bad': "), "{err}");
}
