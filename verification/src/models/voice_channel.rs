use vstd::prelude::*;

verus! {

/// The fields a caller supplies for a fresh voice-channel row: the channel,
/// its guild, and the member who created it, kept as the signed 64-bit
/// values the row stores.
pub struct CreateVoiceChannel {
    pub id: i64,
    pub guild: i64,
    pub creator: i64,
}

impl CreateVoiceChannel {
    /// Narrows the unsigned identifiers into the row's signed fields.
    /// Identifiers above `i64::MAX` do not fit a signed row field.
    pub fn new(channel_id: u64, guild: u64, creator: u64) -> (r: CreateVoiceChannel)
        requires
            channel_id <= i64::MAX,
            guild <= i64::MAX,
            creator <= i64::MAX,
        ensures
            r.id == channel_id as i64,
            r.guild == guild as i64,
            r.creator == creator as i64,
    {
        CreateVoiceChannel {
            id: channel_id as i64,
            guild: guild as i64,
            creator: creator as i64,
        }
    }
}

} // verus!
