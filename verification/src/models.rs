pub mod allowed_role;
pub mod guild_settings;
pub mod moderation_log;
pub mod voice_channel;
