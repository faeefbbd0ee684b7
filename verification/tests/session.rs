use mail_send::pipeline::batch_payload;
use mail_send::pipeline::hello_command;
use mail_send::reply::Capabilities;
use mail_send::reply::Reply;
use mail_send::reply::ReplyClass;
use mail_send::reply::EXT_START_TLS;
use mail_send::session::connect_step;
use mail_send::session::Credentials;
use mail_send::session::EstablishState;
use mail_send::session::Error;
use mail_send::session::SecurityMode;
use mail_send::session::SessionAction;
use mail_send::session::SessionEvent;
use mail_send::session::SmtpClientBuilder;
use mail_send::session::DEFAULT_TIMEOUT_MS;

fn reply(code: u16, message: &str) -> Reply {
    Reply {
        code,
        esc: [0, 0, 0],
        message: message.to_string(),
    }
}

fn caps(bits: u32) -> Capabilities {
    Capabilities {
        hostname: "mx.example.org".to_string(),
        caps: bits,
        auth_mechanisms: 0,
    }
}

#[test]
fn builder_defaults() {
    let cfg = SmtpClientBuilder::new("mail.example.org".to_string(), 587, SecurityMode::StartTls);
    assert_eq!(cfg.timeout_ms, DEFAULT_TIMEOUT_MS);
    assert_eq!(cfg.timeout_ms, 3_600_000);
    assert_eq!(cfg.hostname, "mail.example.org");
    assert_eq!(cfg.port, 587);
    assert_eq!(cfg.secure_transport, SecurityMode::StartTls);
    assert!(!cfg.is_lmtp);
    assert_eq!(cfg.local_host, "[127.0.0.1]");
    assert!(cfg.credentials.is_none());
    assert!(cfg.say_ehlo);
}

#[test]
fn builder_setters() {
    let cfg = SmtpClientBuilder::new("h".to_string(), 24, SecurityMode::Plain)
        .lmtp(true)
        .say_ehlo(false)
        .helo_host("client.example.net".to_string())
        .credentials(Credentials {
            username: "user".to_string(),
            secret: "secret".to_string(),
        })
        .timeout(25_000);
    assert!(cfg.is_lmtp);
    assert!(!cfg.say_ehlo);
    assert_eq!(cfg.local_host, "client.example.net");
    assert_eq!(cfg.credentials.as_ref().unwrap().username, "user");
    assert_eq!(cfg.timeout_ms, 25_000);
}

#[test]
fn missing_upgrade_support_fails_and_never_upgrades() {
    let cfg = SmtpClientBuilder::new("mail.example.org".to_string(), 587, SecurityMode::StartTls);
    let (state, action) = connect_step(
        &cfg,
        EstablishState::AwaitingTlsCapabilities,
        SessionEvent::CapabilitiesRead(caps(0)),
    );
    assert_eq!(state, EstablishState::Failed);
    assert!(matches!(action, SessionAction::Abort(Error::MissingStartTls)));
}

#[test]
fn announced_upgrade_support_is_taken() {
    let cfg = SmtpClientBuilder::new("mail.example.org".to_string(), 587, SecurityMode::StartTls);
    let (state, action) = connect_step(
        &cfg,
        EstablishState::AwaitingTlsCapabilities,
        SessionEvent::CapabilitiesRead(caps(EXT_START_TLS)),
    );
    assert_eq!(state, EstablishState::Upgrading);
    assert!(matches!(action, SessionAction::UpgradeTransport));
}

#[test]
fn timeout_aborts_in_every_state() {
    let cfg = SmtpClientBuilder::new("h".to_string(), 25, SecurityMode::Plain);
    for state in [
        EstablishState::AwaitingGreeting,
        EstablishState::AwaitingTlsCapabilities,
        EstablishState::Upgrading,
        EstablishState::AwaitingCapabilities,
        EstablishState::Authenticating,
    ] {
        let (next, action) = connect_step(&cfg, state, SessionEvent::TimedOut);
        assert_eq!(next, EstablishState::Failed);
        assert!(matches!(action, SessionAction::Abort(Error::Timeout)));
    }
}

#[test]
fn rejected_greeting_aborts() {
    let cfg = SmtpClientBuilder::new("h".to_string(), 25, SecurityMode::Plain);
    let (state, action) = connect_step(
        &cfg,
        EstablishState::AwaitingGreeting,
        SessionEvent::Greeting(reply(554, "no service")),
    );
    assert_eq!(state, EstablishState::Failed);
    match action {
        SessionAction::Abort(Error::UnexpectedReply(r)) => assert_eq!(r.code, 554),
        _ => panic!("expected the rejected greeting to abort"),
    }
}

#[test]
fn plain_session_with_authentication_walks_to_ready() {
    let cfg = SmtpClientBuilder::new("h".to_string(), 587, SecurityMode::Plain).credentials(
        Credentials {
            username: "user".to_string(),
            secret: "secret".to_string(),
        },
    );
    let (state, action) = connect_step(
        &cfg,
        EstablishState::AwaitingGreeting,
        SessionEvent::Greeting(reply(220, "ready")),
    );
    assert_eq!(state, EstablishState::AwaitingCapabilities);
    assert!(matches!(action, SessionAction::SendHello));

    let (state, action) = connect_step(
        &cfg,
        state,
        SessionEvent::CapabilitiesRead(caps(EXT_START_TLS)),
    );
    assert_eq!(state, EstablishState::Authenticating);
    assert!(matches!(action, SessionAction::Authenticate(_)));

    let (state, action) = connect_step(&cfg, state, SessionEvent::AuthOutcome(true));
    assert_eq!(state, EstablishState::Ready);
    assert!(matches!(action, SessionAction::Finish));
}

#[test]
fn rejected_authentication_aborts() {
    let cfg = SmtpClientBuilder::new("h".to_string(), 587, SecurityMode::Plain);
    let (state, action) = connect_step(
        &cfg,
        EstablishState::Authenticating,
        SessionEvent::AuthOutcome(false),
    );
    assert_eq!(state, EstablishState::Failed);
    assert!(matches!(
        action,
        SessionAction::Abort(Error::AuthenticationFailed)
    ));
}

#[test]
fn session_without_announcement_is_ready_after_greeting() {
    let cfg = SmtpClientBuilder::new("h".to_string(), 25, SecurityMode::Plain).say_ehlo(false);
    let (state, action) = connect_step(
        &cfg,
        EstablishState::AwaitingGreeting,
        SessionEvent::Greeting(reply(220, "ready")),
    );
    assert_eq!(state, EstablishState::Ready);
    assert!(matches!(action, SessionAction::Finish));
}

#[test]
fn reply_classification_follows_leading_digit() {
    assert_eq!(reply(250, "").classify(), ReplyClass::PositiveCompletion);
    assert_eq!(reply(354, "").classify(), ReplyClass::PositiveIntermediate);
    assert_eq!(reply(421, "").classify(), ReplyClass::TransientNegative);
    assert_eq!(reply(554, "").classify(), ReplyClass::PermanentNegative);
    assert_eq!(reply(17, "").classify(), ReplyClass::Invalid);
    assert!(reply(220, "").is_positive_completion());
    assert!(!reply(334, "").is_positive_completion());
}

#[test]
fn hello_command_bytes() {
    assert_eq!(hello_command(false, "[127.0.0.1]"), b"EHLO [127.0.0.1]\r\n");
    assert_eq!(
        hello_command(true, "client.example.net"),
        b"LHLO client.example.net\r\n"
    );
}

#[test]
fn batch_payload_concatenates_and_counts() {
    let cmds = vec![
        b"MAIL FROM:<a@example.org>\r\n".to_vec(),
        b"RCPT TO:<b@example.org>\r\n".to_vec(),
        b"DATA\r\n".to_vec(),
    ];
    let (payload, count) = batch_payload(&cmds);
    assert_eq!(count, 3);
    assert_eq!(
        payload,
        b"MAIL FROM:<a@example.org>\r\nRCPT TO:<b@example.org>\r\nDATA\r\n"
    );
}
