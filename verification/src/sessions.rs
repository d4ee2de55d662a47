//! The per-session lifecycle: which requests a session accepts at each
//! stage, and how the stage moves.  A session is created on first
//! contact, initialized once the handshake completes, and closed for
//! good on disconnect.

use vstd::prelude::*;
use crate::mcp_payload::{McpInputData, SpecRequest};

verus! {

/// The transport header that correlates a request to its session.
pub fn session_header() -> (r: &'static str)
    ensures
        r@ == "mcp-session-id"@,
{
    "mcp-session-id"
}

/// Where a session stands in its lifecycle.
#[derive(Debug, Clone, Copy, PartialEq, Eq, Structural)]
pub enum SessionStage {
    /// First contact made; only the handshake and pings are accepted.
    Created,
    /// Handshake complete; every request kind is accepted.
    Initialized,
    /// Terminal: nothing is accepted and nothing more is written.
    Closed,
}

/// Which request kinds a stage lets through: a created session takes
/// only `initialize`, `ping` and the initialized notification; an
/// initialized session takes everything; a closed one nothing.
pub open spec fn spec_accepts(stage: SessionStage, req: SpecRequest) -> bool {
    match stage {
        SessionStage::Created => req is Initialize || req is Ping
            || req is NotificationsInitialize,
        SessionStage::Initialized => true,
        SessionStage::Closed => false,
    }
}

/// One client session: its identity, its lifecycle stage, and whether
/// the `initialize` exchange has been answered yet — promotion needs
/// both that answer and the initialized notification.
#[derive(Debug)]
pub struct Session {
    pub id: String,
    pub stage: SessionStage,
    pub initialize_sent: bool,
}

impl Session {
    /// A fresh session in the `Created` stage, before any handshake.
    pub fn new(id: String) -> (r: Session)
        ensures
            r.id@ == id@,
            r.stage == SessionStage::Created,
            !r.initialize_sent,
    {
        Session { id, stage: SessionStage::Created, initialize_sent: false }
    }

    /// Records that the `initialize` response went out on this
    /// session's stream; only then can the notification promote it.
    pub fn note_initialize_sent(&mut self)
        ensures
            final(self).id@ == old(self).id@,
            final(self).stage == old(self).stage,
            final(self).initialize_sent == (old(self).initialize_sent || old(self).stage
                == SessionStage::Created),
    {
        if self.stage == SessionStage::Created {
            self.initialize_sent = true;
        }
    }

    /// Whether this session lets `data` through, as [`spec_accepts`]
    /// defines.
    pub fn accepts(&self, data: &McpInputData) -> (r: bool)
        ensures
            r == spec_accepts(self.stage, data@),
    {
        match self.stage {
            SessionStage::Created => match data {
                McpInputData::Initialize(_) => true,
                McpInputData::Ping => true,
                McpInputData::NotificationsInitialize => true,
                _ => false,
            },
            SessionStage::Initialized => true,
            SessionStage::Closed => false,
        }
    }

    /// Takes the initialized notification: a created session whose
    /// `initialize` exchange was answered is promoted, anything else
    /// stands.
    pub fn note_initialized(&mut self)
        ensures
            final(self).id@ == old(self).id@,
            final(self).initialize_sent == old(self).initialize_sent,
            final(self).stage == (if old(self).stage == SessionStage::Created && old(
                self,
            ).initialize_sent {
                SessionStage::Initialized
            } else {
                old(self).stage
            }),
    {
        if self.stage == SessionStage::Created && self.initialize_sent {
            self.stage = SessionStage::Initialized;
        }
    }

    /// Closes the session for good: `Closed` is terminal.
    pub fn close(&mut self)
        ensures
            final(self).id@ == old(self).id@,
            final(self).initialize_sent == old(self).initialize_sent,
            final(self).stage == SessionStage::Closed,
    {
        self.stage = SessionStage::Closed;
    }
}

} // verus!
