use aihasto_bot::models::allowed_role::CreateAllowedRole;
use aihasto_bot::models::moderation_log::{CreateModerationLog, ModerationAction};
use aihasto_bot::models::voice_channel::CreateVoiceChannel;

#[test]
fn test_embed_titles() {
    assert_eq!(ModerationAction::Warning.embed_title(), "🔔 Warning");
    assert_eq!(ModerationAction::Flood.embed_title(), "🔒 Flood");
    assert_eq!(ModerationAction::Timeout.embed_title(), "🔇 Timeout");
    assert_eq!(ModerationAction::Ban.embed_title(), "🚫 Ban");
}

#[test]
fn test_create_moderation_log_fields() {
    let log = CreateModerationLog::new(
        10,
        ModerationAction::Timeout,
        20,
        Some(30),
        Some("spamming"),
    );
    assert_eq!(log.guild, 10);
    assert_eq!(log.kind, ModerationAction::Timeout);
    assert_eq!(log.member, 20);
    assert_eq!(log.actor, Some(30));
    assert_eq!(log.reason, Some("spamming".to_string()));

    let bare = CreateModerationLog::new(1, ModerationAction::Ban, 2, None::<u64>, None::<&str>);
    assert_eq!(bare.actor, None);
    assert_eq!(bare.reason, None);
}

#[test]
fn test_create_allowed_role_fields() {
    let row = CreateAllowedRole::new(7, 8, 9);
    assert_eq!(row.guild, 7);
    assert_eq!(row.operator_role, 8);
    assert_eq!(row.role_id, 9);
}

#[test]
fn test_create_voice_channel_fields() {
    let row = CreateVoiceChannel::new(100, 200, 300);
    assert_eq!(row.id, 100);
    assert_eq!(row.guild, 200);
    assert_eq!(row.creator, 300);
}
