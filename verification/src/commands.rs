//! The command registry: the fixed set of named actions the agent exposes,
//! and its synchronization against the remote platform's registry.
//!
//! The set is fixed at build time — no runtime registration or removal. The
//! remote platform applies a synchronization as a bulk overwrite of the
//! designated scope's registry, so synchronizing is idempotent.

use vstd::prelude::*;

verus! {

/// The identity of one command. Identities are the registry's names: two
/// commands are the same action exactly when their identities are equal.
#[derive(Clone, Copy, PartialEq, Eq, Structural, Debug)]
pub enum CommandId {
    Register,
    ChangeTextDetectCooldown,
    CreateClassCategory,
    AddBotRole,
    RemoveBotRole,
}

/// One immutable command descriptor: its identity, how many parameters its
/// schema declares, and whether invoking it demands administrative rights.
#[derive(Clone, Copy, PartialEq, Eq, Structural, Debug)]
pub struct CommandDescriptor {
    pub id: CommandId,
    pub param_count: u64,
    pub admin_only: bool,
}

/// The remote platform's command registry for one deployment scope, as the
/// core models it: the scope's fixed numeric identifier and the descriptors
/// currently registered there.
pub struct RemoteRegistry {
    pub scope: u64,
    pub entries: Vec<CommandDescriptor>,
}

/// The mathematical value of a remote registry.
pub ghost struct RemoteRegistryV {
    pub scope: u64,
    pub entries: Seq<CommandDescriptor>,
}

impl View for RemoteRegistry {
    type V = RemoteRegistryV;

    open spec fn view(&self) -> RemoteRegistryV {
        RemoteRegistryV { scope: self.scope, entries: self.entries@ }
    }
}

/// The descriptor set this build exposes.
pub open spec fn spec_registry() -> Seq<CommandDescriptor> {
    seq![
        CommandDescriptor { id: CommandId::Register, param_count: 0, admin_only: true },
        CommandDescriptor {
            id: CommandId::ChangeTextDetectCooldown,
            param_count: 1,
            admin_only: true,
        },
        CommandDescriptor { id: CommandId::CreateClassCategory, param_count: 1, admin_only: true },
        CommandDescriptor { id: CommandId::AddBotRole, param_count: 1, admin_only: true },
        CommandDescriptor { id: CommandId::RemoveBotRole, param_count: 1, admin_only: true },
    ]
}

/// No identity occurs twice in a descriptor sequence.
pub open spec fn unique_ids(s: Seq<CommandDescriptor>) -> bool {
    forall|i: int, j: int| 0 <= i < j < s.len() ==> (#[trigger] s[i]).id != (#[trigger] s[j]).id
}

/// What a synchronization leaves on the remote side: the desired descriptors,
/// exactly, in the same scope. The platform applies the set as a whole — a
/// bulk overwrite — so nothing of the previous registry survives.
pub open spec fn spec_sync(r: RemoteRegistryV, desired: Seq<CommandDescriptor>) -> RemoteRegistryV {
    RemoteRegistryV { scope: r.scope, entries: desired }
}

/// Builds the fixed command registry of this build.
pub fn command_registry() -> (r: Vec<CommandDescriptor>)
    ensures
        r@ == spec_registry(),
        unique_ids(r@),
{
    let mut r: Vec<CommandDescriptor> = Vec::new();
    r.push(CommandDescriptor { id: CommandId::Register, param_count: 0, admin_only: true });
    r.push(
        CommandDescriptor { id: CommandId::ChangeTextDetectCooldown, param_count: 1, admin_only: true },
    );
    r.push(
        CommandDescriptor { id: CommandId::CreateClassCategory, param_count: 1, admin_only: true },
    );
    r.push(CommandDescriptor { id: CommandId::AddBotRole, param_count: 1, admin_only: true });
    r.push(CommandDescriptor { id: CommandId::RemoveBotRole, param_count: 1, admin_only: true });
    proof {
        assert(r@ =~= spec_registry());
    }
    r
}

/// Synchronizes the remote registry to the desired descriptor set: afterwards
/// the scope holds exactly the desired descriptors, whatever it held before.
pub fn synchronize(remote: &mut RemoteRegistry, desired: Vec<CommandDescriptor>)
    ensures
        final(remote)@ == spec_sync(old(remote)@, desired@),
{
    remote.entries = desired;
}

/// Synchronization is idempotent: pushing an unchanged descriptor set a
/// second time leaves the remote registry exactly as the first push did — in
/// particular, no duplicate entries accumulate.
pub proof fn lemma_synchronization_idempotent(r: RemoteRegistryV, desired: Seq<CommandDescriptor>)
    ensures
        spec_sync(spec_sync(r, desired), desired) == spec_sync(r, desired),
{
}

/// A synchronized scope holds no duplicate commands whenever the desired set
/// has no duplicate identities — as this build's registry has not.
pub proof fn lemma_sync_keeps_ids_unique(r: RemoteRegistryV, desired: Seq<CommandDescriptor>)
    requires
        unique_ids(desired),
    ensures
        unique_ids(spec_sync(r, desired).entries),
{
}

} // verus!
