use botcore::bootstrap::DEPLOYMENT_SCOPE_ID;
use botcore::bootstrap::StartupError;
use botcore::bootstrap::SyncOutcome;
use botcore::bootstrap::assemble_connection;
use botcore::bootstrap::complete_setup;
use botcore::bootstrap::subscribed_categories;
use botcore::commands::CommandDescriptor;
use botcore::commands::CommandId;
use botcore::commands::RemoteRegistry;
use botcore::commands::command_registry;
use botcore::commands::synchronize;
use botcore::config::Config;

fn sample_config() -> Config {
    Config {
        text_detect_cooldown: 45,
        starboard_channel: 9000,
        starboard_threshold: 3,
        bot_roles: vec![11, 22],
        moderated_patterns: vec![b"badword".to_vec()],
    }
}

#[test]
fn missing_credential_fails_before_any_connection() {
    // Without a credential there is no ConnectionParams value, so nothing to
    // open a connection with: the bootstrap fails first.
    let r = assemble_connection(None);
    assert_eq!(r.err(), Some(StartupError::MissingCredential));
}

#[test]
fn present_credential_yields_the_fixed_connection_parameters() {
    let params = assemble_connection(Some(b"SECRET-REDACTED".to_vec()))
        .expect("a present credential must assemble");
    assert_eq!(params.token, b"SECRET-REDACTED".to_vec());
    assert_eq!(params.scope, DEPLOYMENT_SCOPE_ID);
    assert_eq!(params.scope, 1065373537591894086);
    assert_eq!(params.categories, subscribed_categories());
    assert!(params.categories.non_privileged);
    assert!(params.categories.message_content);
    assert!(params.categories.guild_members);
    assert!(params.categories.guild_messages);
    assert!(params.categories.guild_message_reactions);
    assert_eq!(params.commands, command_registry());
}

#[test]
fn registry_is_fixed_with_unique_names() {
    let cmds = command_registry();
    assert_eq!(cmds.len(), 5);
    let expected = [
        CommandId::Register,
        CommandId::ChangeTextDetectCooldown,
        CommandId::CreateClassCategory,
        CommandId::AddBotRole,
        CommandId::RemoveBotRole,
    ];
    for (c, id) in cmds.iter().zip(expected.iter()) {
        assert_eq!(c.id, *id);
    }
    for i in 0..cmds.len() {
        for j in 0..i {
            assert_ne!(cmds[i].id, cmds[j].id);
        }
    }
}

#[test]
fn synchronization_twice_leaves_no_duplicates() {
    let mut remote = RemoteRegistry {
        scope: DEPLOYMENT_SCOPE_ID,
        entries: vec![
            // A stale entry from an earlier build, present twice.
            CommandDescriptor { id: CommandId::Register, param_count: 3, admin_only: false },
            CommandDescriptor { id: CommandId::Register, param_count: 3, admin_only: false },
        ],
    };
    synchronize(&mut remote, command_registry());
    let after_first = remote.entries.clone();
    assert_eq!(after_first, command_registry());

    synchronize(&mut remote, command_registry());
    assert_eq!(remote.entries, after_first);
    assert_eq!(remote.scope, DEPLOYMENT_SCOPE_ID);
    for i in 0..remote.entries.len() {
        for j in 0..i {
            assert_ne!(remote.entries[i].id, remote.entries[j].id);
        }
    }
}

#[test]
fn successful_setup_builds_the_context_from_the_configuration() {
    let config = sample_config();
    let ctx = complete_setup(config.clone(), SyncOutcome::Synchronized)
        .expect("setup must succeed after a successful synchronization");
    assert_eq!(ctx.text_detect_cooldown(), 45);
    assert_eq!(ctx.starboard_channel(), 9000);
    assert_eq!(ctx.starboard_threshold(), 3);
    assert_eq!(ctx.bot_roles(), &vec![11, 22]);
    assert_eq!(ctx.moderated_patterns(), &vec![b"badword".to_vec()]);
    assert_eq!(ctx.configuration(), &config);
}

#[test]
fn failed_synchronization_aborts_the_setup() {
    let r = complete_setup(sample_config(), SyncOutcome::Failed { code: 21 });
    assert_eq!(r.err(), Some(StartupError::SetupFailed { code: 21 }));
}
