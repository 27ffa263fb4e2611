//! The framework bootstrap: from configuration and environment-provided
//! credential to the parameters of the long-lived connection, and the
//! one-time setup step that runs after the handshake and before the first
//! event is delivered.
//!
//! The caller performs the connection itself; it can only do so with a
//! `ConnectionParams` value in hand, and the only way to one is
//! `assemble_connection`, which fails without a credential. A missing
//! credential therefore aborts the startup before any connection attempt.

use vstd::prelude::*;

use crate::commands::CommandDescriptor;
use crate::commands::command_registry;
use crate::commands::spec_registry;
use crate::commands::unique_ids;
use crate::config::Config;
use crate::context::SharedContext;

verus! {

/// The fixed numeric identifier of the one deployment scope this build
/// synchronizes its commands to.
pub const DEPLOYMENT_SCOPE_ID: u64 = 1065373537591894086;

/// The event categories the connection handshake subscribes to. The set is
/// fixed at build time.
#[derive(Clone, Copy, PartialEq, Eq, Structural, Debug)]
pub struct EventCategories {
    /// The platform's baseline, non-privileged category set.
    pub non_privileged: bool,
    pub message_content: bool,
    pub guild_members: bool,
    pub guild_messages: bool,
    pub guild_message_reactions: bool,
}

/// The categories this build subscribes to: the non-privileged baseline plus
/// message content, membership, guild messages and guild reactions.
pub open spec fn spec_subscribed_categories() -> EventCategories {
    EventCategories {
        non_privileged: true,
        message_content: true,
        guild_members: true,
        guild_messages: true,
        guild_message_reactions: true,
    }
}

/// Everything the caller needs to open the long-lived connection: the
/// credential, the subscribed categories, the command descriptors to
/// synchronize, and the scope to synchronize them to.
pub struct ConnectionParams {
    pub token: Vec<u8>,
    pub categories: EventCategories,
    pub commands: Vec<CommandDescriptor>,
    pub scope: u64,
}

/// Why a startup aborted. Any of these is fatal: there is no degraded mode.
#[derive(Clone, Copy, PartialEq, Eq, Structural, Debug)]
pub enum StartupError {
    /// The credential variable was absent from the environment.
    MissingCredential,
    /// The one-time setup step failed, command synchronization included.
    SetupFailed { code: u64 },
}

/// What the remote command synchronization came back with, as the caller
/// observed it.
#[derive(Clone, Copy, PartialEq, Eq, Structural, Debug)]
pub enum SyncOutcome {
    Synchronized,
    Failed { code: u64 },
}

/// Returns the fixed event-category subscription of this build.
pub fn subscribed_categories() -> (c: EventCategories)
    ensures
        c == spec_subscribed_categories(),
{
    EventCategories {
        non_privileged: true,
        message_content: true,
        guild_members: true,
        guild_messages: true,
        guild_message_reactions: true,
    }
}

/// Assembles the connection parameters from the environment-provided
/// credential. Fails with `MissingCredential` exactly when the credential is
/// absent — and then no `ConnectionParams` value exists, so no connection can
/// be attempted. On success the parameters carry the credential unchanged,
/// the fixed category subscription, the fixed command registry, and the fixed
/// deployment scope.
pub fn assemble_connection(credential: Option<Vec<u8>>) -> (r: Result<
    ConnectionParams,
    StartupError,
>)
    ensures
        r is Err <==> credential is None,
        r is Err ==> r matches Err(StartupError::MissingCredential),
        credential matches Some(t) ==> r matches Ok(p) && p.token@ == t@ && p.categories
            == spec_subscribed_categories() && p.commands@ == spec_registry() && unique_ids(
            p.commands@,
        ) && p.scope == DEPLOYMENT_SCOPE_ID,
{
    match credential {
        None => Err(StartupError::MissingCredential),
        Some(t) => Ok(
            ConnectionParams {
                token: t,
                categories: subscribed_categories(),
                commands: command_registry(),
                scope: DEPLOYMENT_SCOPE_ID,
            },
        ),
    }
}

/// Completes the one-time setup step that runs after the connection
/// handshake and before the first event is delivered: the caller has pushed
/// the command registry to the platform and hands in what the push came back
/// with. A failed synchronization aborts the startup — no context is built —
/// and a successful one yields the shared context, built from the loaded
/// configuration and nothing else.
pub fn complete_setup(config: Config, sync: SyncOutcome) -> (r: Result<
    SharedContext,
    StartupError,
>)
    ensures
        r is Ok <==> sync is Synchronized,
        r matches Ok(ctx) ==> ctx@ == config@,
        sync matches SyncOutcome::Failed { code } ==> r matches Err(
            StartupError::SetupFailed { code: c },
        ) && c == code,
{
    match sync {
        SyncOutcome::Synchronized => Ok(SharedContext::new(config)),
        SyncOutcome::Failed { code } => Err(StartupError::SetupFailed { code }),
    }
}

} // verus!
