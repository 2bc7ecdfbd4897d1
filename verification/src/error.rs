//! What can go wrong while a session is served, and the text shown for it.

use vstd::prelude::*;
use vstd::string::StringExecFns;
use crate::authfile::AuthfileError;
use crate::entity::EntityError;
use crate::text::{chain, debug_quoted, decimal, decimal_text, quote};

verus! {

/// `russh::Error`, the error type of the SSH transport.  Nothing is known
/// of its values.
#[verifier::external_type_specification]
#[verifier::external_body]
pub struct ExTransportError(russh::Error);

/// An error of one session.  None of them ends another session.
#[derive(Debug)]
pub enum LoungeError {
    /// Closing the channel of the client with this id failed.
    ClientDisconnectFailed(usize),
    /// The SSH transport failed.
    Russh(russh::Error),
    /// The authorization file could not be loaded.
    Authfile(AuthfileError),
    /// The terminal of client `id` could not be resized.
    FrameResize { source: std::io::Error, id: usize },
    /// The text starts like a command and is none; holds the text.
    CommandParse(String),
    /// No terminal could be made for client `id`.
    TerminalSessionSpawn { source: std::io::Error, id: usize },
    /// The text refers to no entity in either form; holds the text.
    EntityLookup(String),
    /// The named user issued a command that only admins may issue.
    NotAnAdmin(String),
    /// The line given to `/add` names no entity.
    EntityParsing(EntityError),
    /// An admin tried to ban their own key.
    NoBanSelf,
}

impl LoungeError {
    /// The text that a client's status line shows for the error.
    pub open spec fn message_spec(self) -> Seq<char> {
        match self {
            LoungeError::ClientDisconnectFailed(id) => "failed to disconnect client with id "@
                + decimal(id as nat),
            LoungeError::Russh(_) => "russh error"@,
            LoungeError::Authfile(_) => "failed to read authorization file"@,
            LoungeError::FrameResize { id, .. } =>
                "failed to resize frame as requested by client "@ + decimal(id as nat),
            LoungeError::CommandParse(text) => "failed to parse command "@ + debug_quoted(text@),
            LoungeError::TerminalSessionSpawn { id, .. } =>
                "unable to spawn a terminal for client "@ + decimal(id as nat),
            LoungeError::EntityLookup(text) => "failed to parse entity lookup: "@ + text@,
            LoungeError::NotAnAdmin(name) => "user "@ + debug_quoted(name@) + " is not an admin"@,
            LoungeError::EntityParsing(_) => "failed to parse SSH key string to an entity"@,
            LoungeError::NoBanSelf => "users cannot ban themselves"@,
        }
    }

    /// The text that a client's status line shows for the error.
    pub fn message(&self) -> (text: String)
        ensures
            text@ == self.message_spec(),
    {
        match self {
            LoungeError::ClientDisconnectFailed(id) => chain(
                "failed to disconnect client with id ",
                decimal_text(*id).as_str(),
            ),
            LoungeError::Russh(_) => String::from_str("russh error"),
            LoungeError::Authfile(_) => String::from_str("failed to read authorization file"),
            LoungeError::FrameResize { id, .. } => chain(
                "failed to resize frame as requested by client ",
                decimal_text(*id).as_str(),
            ),
            LoungeError::CommandParse(text) => chain(
                "failed to parse command ",
                quote(text.as_str()).as_str(),
            ),
            LoungeError::TerminalSessionSpawn { id, .. } => chain(
                "unable to spawn a terminal for client ",
                decimal_text(*id).as_str(),
            ),
            LoungeError::EntityLookup(text) => chain(
                "failed to parse entity lookup: ",
                text.as_str(),
            ),
            LoungeError::NotAnAdmin(name) => {
                let mut text = chain("user ", quote(name.as_str()).as_str());
                text.append(" is not an admin");
                text
            },
            LoungeError::EntityParsing(_) => String::from_str(
                "failed to parse SSH key string to an entity",
            ),
            LoungeError::NoBanSelf => String::from_str("users cannot ban themselves"),
        }
    }
}

} // verus!
