//! Connection state labels and the pure lookup saying which commands are
//! legal in which phase.  The caller owns and advances the state; this
//! module only defines the relation.

use vstd::prelude::*;
use crate::command::CommandBody;

verus! {

/// The phase of an IMAP connection.
#[derive(Debug, Clone, Copy, PartialEq, Eq, Structural)]
pub enum ConnectionState {
    NotAuthenticated,
    Authenticated,
    Selected,
    Logout,
}

/// Which commands are legal in which state, per the protocol's state
/// diagram: some commands are valid in any state, some only before
/// authentication, some once authenticated, and some only with a mailbox
/// selected.
pub open spec fn spec_allowed_in(body: CommandBody, state: ConnectionState) -> bool {
    match body {
        CommandBody::Capability => true,
        CommandBody::Noop => true,
        CommandBody::Logout => true,
        CommandBody::StartTLS { .. } => state is NotAuthenticated,
        CommandBody::Login { .. } => state is NotAuthenticated,
        CommandBody::Select { .. } => state is Authenticated || state is Selected,
        CommandBody::Examine { .. } => state is Authenticated || state is Selected,
        CommandBody::Create { .. } => state is Authenticated || state is Selected,
        CommandBody::Delete { .. } => state is Authenticated || state is Selected,
        CommandBody::Rename { .. } => state is Authenticated || state is Selected,
        CommandBody::Subscribe { .. } => state is Authenticated || state is Selected,
        CommandBody::Unsubscribe { .. } => state is Authenticated || state is Selected,
        CommandBody::Check => state is Selected,
        CommandBody::Close => state is Selected,
        CommandBody::Expunge => state is Selected,
        CommandBody::Search { .. } => state is Selected,
        CommandBody::Fetch { .. } => state is Selected,
        CommandBody::Store { .. } => state is Selected,
        CommandBody::Copy { .. } => state is Selected,
    }
}

/// The executable form of the lookup.
pub fn allowed_in(body: &CommandBody, state: ConnectionState) -> (r: bool)
    ensures
        r == spec_allowed_in(*body, state),
{
    match body {
        CommandBody::Capability => true,
        CommandBody::Noop => true,
        CommandBody::Logout => true,
        CommandBody::StartTLS { .. } => matches!(state, ConnectionState::NotAuthenticated),
        CommandBody::Login { .. } => matches!(state, ConnectionState::NotAuthenticated),
        CommandBody::Select { .. } => matches!(
            state,
            ConnectionState::Authenticated | ConnectionState::Selected,
        ),
        CommandBody::Examine { .. } => matches!(
            state,
            ConnectionState::Authenticated | ConnectionState::Selected,
        ),
        CommandBody::Create { .. } => matches!(
            state,
            ConnectionState::Authenticated | ConnectionState::Selected,
        ),
        CommandBody::Delete { .. } => matches!(
            state,
            ConnectionState::Authenticated | ConnectionState::Selected,
        ),
        CommandBody::Rename { .. } => matches!(
            state,
            ConnectionState::Authenticated | ConnectionState::Selected,
        ),
        CommandBody::Subscribe { .. } => matches!(
            state,
            ConnectionState::Authenticated | ConnectionState::Selected,
        ),
        CommandBody::Unsubscribe { .. } => matches!(
            state,
            ConnectionState::Authenticated | ConnectionState::Selected,
        ),
        CommandBody::Check => matches!(state, ConnectionState::Selected),
        CommandBody::Close => matches!(state, ConnectionState::Selected),
        CommandBody::Expunge => matches!(state, ConnectionState::Selected),
        CommandBody::Search { .. } => matches!(state, ConnectionState::Selected),
        CommandBody::Fetch { .. } => matches!(state, ConnectionState::Selected),
        CommandBody::Store { .. } => matches!(state, ConnectionState::Selected),
        CommandBody::Copy { .. } => matches!(state, ConnectionState::Selected),
    }
}

} // verus!
