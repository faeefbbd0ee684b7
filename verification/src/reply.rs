//! The structured protocol reply and the peer's announced capability set.

use vstd::prelude::*;

verus! {

/// One structured protocol reply: a status code, an enhanced status code,
/// and the reply text.
#[derive(Clone, Debug)]
pub struct Reply {
    pub code: u16,
    pub esc: [u8; 3],
    pub message: String,
}

/// Classification of a reply by the leading digit of its status code.
#[derive(Clone, Copy, Debug, PartialEq, Eq, Structural)]
pub enum ReplyClass {
    PositiveCompletion,
    PositiveIntermediate,
    TransientNegative,
    PermanentNegative,
    Invalid,
}

/// The class a status code falls in, by its leading digit.
pub open spec fn class_of(code: u16) -> ReplyClass {
    if code / 100 == 2 {
        ReplyClass::PositiveCompletion
    } else if code / 100 == 3 {
        ReplyClass::PositiveIntermediate
    } else if code / 100 == 4 {
        ReplyClass::TransientNegative
    } else if code / 100 == 5 {
        ReplyClass::PermanentNegative
    } else {
        ReplyClass::Invalid
    }
}

impl Reply {
    /// Classify this reply by the leading digit of its status code.
    pub fn classify(&self) -> (c: ReplyClass)
        ensures
            c == class_of(self.code),
    {
        let leading = self.code / 100;
        if leading == 2 {
            ReplyClass::PositiveCompletion
        } else if leading == 3 {
            ReplyClass::PositiveIntermediate
        } else if leading == 4 {
            ReplyClass::TransientNegative
        } else if leading == 5 {
            ReplyClass::PermanentNegative
        } else {
            ReplyClass::Invalid
        }
    }

    /// Whether the peer reported success (a 2xx status code).
    pub fn is_positive_completion(&self) -> (r: bool)
        ensures
            r == (class_of(self.code) == ReplyClass::PositiveCompletion),
    {
        self.code / 100 == 2
    }
}

/// Feature bit announced for the protocol-upgrade command, with the value the
/// grammar parser assigns it (smtp_proto::EXT_START_TLS).
pub const EXT_START_TLS: u32 = 0x0100_0000;

/// The capability set announced by the peer in its multi-line greeting reply:
/// the peer's hostname, its feature bits, and its authentication mechanisms.
#[derive(Clone, Debug)]
pub struct Capabilities {
    pub hostname: String,
    pub caps: u32,
    pub auth_mechanisms: u64,
}

impl Capabilities {
    /// Whether the feature with the given bit was announced.
    pub fn has_capability(&self, cap: u32) -> (r: bool)
        ensures
            r == (self.caps & cap != 0),
    {
        self.caps & cap != 0
    }
}

} // verus!
