//! Session establishment: connect, greeting check, capability announcement,
//! optional transport upgrade, optional authentication.
//!
//! The decisions stand here as a state machine from state and event to next
//! state and action; the surrounding program performs each action (a write, a
//! read, the TLS upgrade, the authentication exchange) and hands the outcome
//! back as the next event. A partial session is never produced: every failing
//! event leads to the Failed state and an aborting action.

use vstd::prelude::*;

use crate::reply::Capabilities;
use crate::reply::Reply;
use crate::reply::ReplyClass;
use crate::reply::EXT_START_TLS;
use crate::reply::class_of;
use vstd::string::StringExecFns;

verus! {

/// Why an operation failed. Every failure is terminal for the session.
#[derive(Clone, Debug)]
pub enum Error {
    /// A transport-level read or write failed.
    Transport,
    /// The peer's bytes do not parse as a reply, or the peer closed early.
    UnparseableReply,
    /// The call exceeded its deadline; the session must not be reused.
    Timeout,
    /// An upgrade was required but the peer did not announce support for it.
    MissingStartTls,
    /// The peer answered negatively where success was required.
    UnexpectedReply(Reply),
    /// The authentication exchange was rejected.
    AuthenticationFailed,
    /// An event arrived that the current state cannot take.
    Misuse,
}

/// Authentication credential material.
#[derive(Clone, Debug)]
pub struct Credentials {
    pub username: String,
    pub secret: String,
}

/// How the connection is secured.
#[derive(Clone, Copy, Debug, PartialEq, Eq, Structural)]
pub enum SecurityMode {
    /// Plain bytes for the whole session.
    Plain,
    /// Connect in plain, then upgrade to an encrypted channel mid-session.
    StartTls,
    /// The transport is encrypted from the first byte.
    ImplicitTls,
}

/// The default per-call timeout: one hour, in milliseconds.
pub const DEFAULT_TIMEOUT_MS: u64 = 3600000;

/// Configuration of one connection attempt.
pub struct SmtpClientBuilder {
    pub timeout_ms: u64,
    pub hostname: String,
    pub port: u16,
    pub secure_transport: SecurityMode,
    pub is_lmtp: bool,
    pub local_host: String,
    pub credentials: Option<Credentials>,
    pub say_ehlo: bool,
}

impl SmtpClientBuilder {
    /// A configuration with the defaults: one-hour timeout, SMTP mode, the
    /// loopback literal as local identity, no credentials, capabilities
    /// announced.
    pub fn new(hostname: String, port: u16, secure_transport: SecurityMode) -> (r: Self)
        ensures
            r.timeout_ms == DEFAULT_TIMEOUT_MS,
            r.hostname == hostname,
            r.port == port,
            r.secure_transport == secure_transport,
            r.is_lmtp == false,
            r.local_host@ == "[127.0.0.1]"@,
            r.credentials is None,
            r.say_ehlo == true,
    {
        SmtpClientBuilder {
            timeout_ms: DEFAULT_TIMEOUT_MS,
            hostname,
            port,
            secure_transport,
            is_lmtp: false,
            local_host: String::from_str("[127.0.0.1]"),
            credentials: None,
            say_ehlo: true,
        }
    }

    /// Use LMTP instead of SMTP.
    pub fn lmtp(self, is_lmtp: bool) -> (r: Self)
        ensures
            r == (SmtpClientBuilder { is_lmtp, ..self }),
    {
        SmtpClientBuilder { is_lmtp, ..self }
    }

    /// Whether to announce capabilities (EHLO/LHLO) at all.
    pub fn say_ehlo(self, say_ehlo: bool) -> (r: Self)
        ensures
            r == (SmtpClientBuilder { say_ehlo, ..self }),
    {
        SmtpClientBuilder { say_ehlo, ..self }
    }

    /// Set the local identity sent in the greeting command.
    pub fn helo_host(self, host: String) -> (r: Self)
        ensures
            r == (SmtpClientBuilder { local_host: host, ..self }),
    {
        SmtpClientBuilder { local_host: host, ..self }
    }

    /// Set the authentication credentials.
    pub fn credentials(self, credentials: Credentials) -> (r: Self)
        ensures
            r == (SmtpClientBuilder { credentials: Some(credentials), ..self }),
    {
        SmtpClientBuilder { credentials: Some(credentials), ..self }
    }

    /// Set the per-call timeout, in milliseconds.
    pub fn timeout(self, timeout_ms: u64) -> (r: Self)
        ensures
            r == (SmtpClientBuilder { timeout_ms, ..self }),
    {
        SmtpClientBuilder { timeout_ms, ..self }
    }
}

/// Where the establishment stands.
#[derive(Clone, Copy, Debug, PartialEq, Eq, Structural)]
pub enum EstablishState {
    /// Connected; the peer's greeting reply is owed.
    AwaitingGreeting,
    /// The pre-upgrade capability reply is owed.
    AwaitingTlsCapabilities,
    /// The transport upgrade is in progress.
    Upgrading,
    /// The capability reply is owed (post-upgrade if one occurred).
    AwaitingCapabilities,
    /// The authentication exchange is in progress.
    Authenticating,
    /// The session is usable.
    Ready,
    /// The establishment was aborted; no session is produced.
    Failed,
}

/// What the outside work handed back.
pub enum SessionEvent {
    /// The greeting reply was read.
    Greeting(Reply),
    /// The multi-line capability reply was read and parsed.
    CapabilitiesRead(Capabilities),
    /// The transport upgrade completed.
    Upgraded,
    /// The authentication exchange reported success or rejection.
    AuthOutcome(bool),
    /// The current call exceeded its deadline.
    TimedOut,
    /// A transport read or write failed.
    TransportFailed,
}

/// What to do next.
pub enum SessionAction {
    /// Write the greeting command and read the capability reply.
    SendHello,
    /// Perform the transport upgrade.
    UpgradeTransport,
    /// Run the authentication exchange against these capabilities.
    Authenticate(Capabilities),
    /// The session is Ready; hand it to the caller.
    Finish,
    /// Abort: close the transport and report this error.
    Abort(Error),
}

/// The establishment transition relation: from configuration, state and event
/// to next state and action.
pub open spec fn step_spec(
    cfg: SmtpClientBuilder,
    state: EstablishState,
    event: SessionEvent,
) -> (EstablishState, SessionAction) {
    match (state, event) {
        (EstablishState::AwaitingGreeting, SessionEvent::Greeting(r)) => {
            if class_of(r.code) != ReplyClass::PositiveCompletion {
                (EstablishState::Failed, SessionAction::Abort(Error::UnexpectedReply(r)))
            } else if cfg.secure_transport == SecurityMode::StartTls {
                (EstablishState::AwaitingTlsCapabilities, SessionAction::SendHello)
            } else if cfg.say_ehlo {
                (EstablishState::AwaitingCapabilities, SessionAction::SendHello)
            } else {
                (EstablishState::Ready, SessionAction::Finish)
            }
        },
        (EstablishState::AwaitingTlsCapabilities, SessionEvent::CapabilitiesRead(c)) => {
            if c.caps & EXT_START_TLS != 0 {
                (EstablishState::Upgrading, SessionAction::UpgradeTransport)
            } else {
                (EstablishState::Failed, SessionAction::Abort(Error::MissingStartTls))
            }
        },
        (EstablishState::Upgrading, SessionEvent::Upgraded) => {
            if cfg.say_ehlo {
                (EstablishState::AwaitingCapabilities, SessionAction::SendHello)
            } else {
                (EstablishState::Ready, SessionAction::Finish)
            }
        },
        (EstablishState::AwaitingCapabilities, SessionEvent::CapabilitiesRead(c)) => {
            if cfg.credentials is Some {
                (EstablishState::Authenticating, SessionAction::Authenticate(c))
            } else {
                (EstablishState::Ready, SessionAction::Finish)
            }
        },
        (EstablishState::Authenticating, SessionEvent::AuthOutcome(ok)) => {
            if ok {
                (EstablishState::Ready, SessionAction::Finish)
            } else {
                (EstablishState::Failed, SessionAction::Abort(Error::AuthenticationFailed))
            }
        },
        (_, SessionEvent::TimedOut) => (
            EstablishState::Failed,
            SessionAction::Abort(Error::Timeout),
        ),
        (_, SessionEvent::TransportFailed) => (
            EstablishState::Failed,
            SessionAction::Abort(Error::Transport),
        ),
        _ => (EstablishState::Failed, SessionAction::Abort(Error::Misuse)),
    }
}

/// Take one establishment step: decide the next state and the next action for
/// an event arriving in a state.
pub fn connect_step(cfg: &SmtpClientBuilder, state: EstablishState, event: SessionEvent) -> (r: (
    EstablishState,
    SessionAction,
))
    ensures
        r == step_spec(*cfg, state, event),
{
    match (state, event) {
        (EstablishState::AwaitingGreeting, SessionEvent::Greeting(r)) => {
            if r.classify() != ReplyClass::PositiveCompletion {
                (EstablishState::Failed, SessionAction::Abort(Error::UnexpectedReply(r)))
            } else if cfg.secure_transport == SecurityMode::StartTls {
                (EstablishState::AwaitingTlsCapabilities, SessionAction::SendHello)
            } else if cfg.say_ehlo {
                (EstablishState::AwaitingCapabilities, SessionAction::SendHello)
            } else {
                (EstablishState::Ready, SessionAction::Finish)
            }
        },
        (EstablishState::AwaitingTlsCapabilities, SessionEvent::CapabilitiesRead(c)) => {
            if c.caps & EXT_START_TLS != 0 {
                (EstablishState::Upgrading, SessionAction::UpgradeTransport)
            } else {
                (EstablishState::Failed, SessionAction::Abort(Error::MissingStartTls))
            }
        },
        (EstablishState::Upgrading, SessionEvent::Upgraded) => {
            if cfg.say_ehlo {
                (EstablishState::AwaitingCapabilities, SessionAction::SendHello)
            } else {
                (EstablishState::Ready, SessionAction::Finish)
            }
        },
        (EstablishState::AwaitingCapabilities, SessionEvent::CapabilitiesRead(c)) => {
            if cfg.credentials.is_some() {
                (EstablishState::Authenticating, SessionAction::Authenticate(c))
            } else {
                (EstablishState::Ready, SessionAction::Finish)
            }
        },
        (EstablishState::Authenticating, SessionEvent::AuthOutcome(ok)) => {
            if ok {
                (EstablishState::Ready, SessionAction::Finish)
            } else {
                (EstablishState::Failed, SessionAction::Abort(Error::AuthenticationFailed))
            }
        },
        (_, SessionEvent::TimedOut) => (
            EstablishState::Failed,
            SessionAction::Abort(Error::Timeout),
        ),
        (_, SessionEvent::TransportFailed) => (
            EstablishState::Failed,
            SessionAction::Abort(Error::Transport),
        ),
        _ => (EstablishState::Failed, SessionAction::Abort(Error::Misuse)),
    }
}

/// Law (downgrade protection): the machine orders the upgrade handshake only
/// from the pre-upgrade capability wait, and only for a capability set that
/// announces support for the upgrade.
pub proof fn lemma_upgrade_only_when_announced(
    cfg: SmtpClientBuilder,
    state: EstablishState,
    event: SessionEvent,
)
    ensures
        step_spec(cfg, state, event).1 is UpgradeTransport ==> state
            == EstablishState::AwaitingTlsCapabilities && (event matches
        SessionEvent::CapabilitiesRead(c) && c.caps & EXT_START_TLS != 0),
{
}

/// Law: configured to require an upgrade, the machine fails with the
/// missing-upgrade-support error on a capability set that lacks the upgrade
/// feature, and never attempts the upgrade handshake for it.
pub proof fn lemma_missing_upgrade_support(cfg: SmtpClientBuilder, c: Capabilities)
    requires
        cfg.secure_transport == SecurityMode::StartTls,
        c.caps & EXT_START_TLS == 0,
    ensures
        step_spec(cfg, EstablishState::AwaitingTlsCapabilities, SessionEvent::CapabilitiesRead(c))
            == (EstablishState::Failed, SessionAction::Abort(Error::MissingStartTls)),
{
}

/// Law: a timed-out call fails with the timeout error in every state; no
/// session and no reply comes out of it.
pub proof fn lemma_timeout_aborts(cfg: SmtpClientBuilder, state: EstablishState)
    ensures
        step_spec(cfg, state, SessionEvent::TimedOut) == (
            EstablishState::Failed,
            SessionAction::Abort(Error::Timeout),
        ),
{
}

} // verus!
