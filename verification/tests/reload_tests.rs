use config_manager::reload::{
    cleanup_target_for, reload_target_for, starts_with, ChangeReaction, ChangeType, CleanupTarget,
    ConfigChangeEvent, ReloadTarget,
};

fn event(key: &str, change_type: ChangeType) -> ConfigChangeEvent {
    ConfigChangeEvent { key: key.to_string(), change_type }
}

#[test]
fn changes_reload_the_section_of_their_key() {
    assert_eq!(event("server.port", ChangeType::Modified).reaction(), ChangeReaction::Reload(ReloadTarget::Server));
    assert_eq!(event("database.url", ChangeType::Added).reaction(), ChangeReaction::Reload(ReloadTarget::Database));
    assert_eq!(event("logging.level", ChangeType::Added).reaction(), ChangeReaction::Reload(ReloadTarget::Logging));
    assert_eq!(
        event("application.name", ChangeType::Modified).reaction(),
        ChangeReaction::Reload(ReloadTarget::Application)
    );
    assert_eq!(event("server", ChangeType::Modified).reaction(), ChangeReaction::Reload(ReloadTarget::General));
}

#[test]
fn removals_release_the_section_of_their_key() {
    assert_eq!(event("server.port", ChangeType::Removed).reaction(), ChangeReaction::Cleanup(CleanupTarget::Server));
    assert_eq!(event("database.url", ChangeType::Removed).reaction(), ChangeReaction::Cleanup(CleanupTarget::Database));
    assert_eq!(event("logging.level", ChangeType::Removed).reaction(), ChangeReaction::Cleanup(CleanupTarget::General));
}

#[test]
fn prefixes() {
    assert!(starts_with("server.port", "server."));
    assert!(starts_with("abc", ""));
    assert!(!starts_with("serv", "server."));
    assert!(!starts_with("Server.port", "server."));
    assert_eq!(reload_target_for("servers.x"), ReloadTarget::General);
    assert_eq!(cleanup_target_for("database."), CleanupTarget::Database);
}
