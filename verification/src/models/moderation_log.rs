use vstd::prelude::*;

verus! {

/// The kind of act a moderation log row records.
#[derive(Clone, Debug, PartialEq, Eq, Hash)]
pub enum ModerationAction {
    Warning,
    Flood,
    Timeout,
    Ban,
}

impl ModerationAction {
    /// The title of the embed that announces an action of this kind.
    pub open spec fn embed_title_spec(self) -> Seq<char> {
        match self {
            ModerationAction::Warning => "🔔 Warning"@,
            ModerationAction::Flood => "🔒 Flood"@,
            ModerationAction::Timeout => "🔇 Timeout"@,
            ModerationAction::Ban => "🚫 Ban"@,
        }
    }

    pub fn embed_title(&self) -> (r: &str)
        ensures
            r@ == self.embed_title_spec(),
    {
        match self {
            ModerationAction::Warning => "🔔 Warning",
            ModerationAction::Flood => "🔒 Flood",
            ModerationAction::Timeout => "🔇 Timeout",
            ModerationAction::Ban => "🚫 Ban",
        }
    }
}

/// The fields a caller supplies for a fresh moderation log row; the
/// identifiers are kept as the signed 64-bit values the row stores.
pub struct CreateModerationLog {
    pub guild: i64,
    pub kind: ModerationAction,
    pub member: i64,
    pub actor: Option<i64>,
    pub reason: Option<String>,
}

impl CreateModerationLog {
    /// Narrows the unsigned identifiers into the row's signed fields.
    /// Identifiers above `i64::MAX` do not fit a signed row field.
    pub fn new(
        guild: u64,
        kind: ModerationAction,
        member: u64,
        actor: Option<u64>,
        reason: Option<&str>,
    ) -> (r: CreateModerationLog)
        requires
            guild <= i64::MAX,
            member <= i64::MAX,
            actor matches Some(a) ==> a <= i64::MAX,
        ensures
            r.guild == guild as i64,
            r.kind == kind,
            r.member == member as i64,
            match actor {
                Some(a) => r.actor matches Some(x) && x == a as i64,
                None => r.actor is None,
            },
            match reason {
                Some(s) => r.reason matches Some(t) && t@ == s@,
                None => r.reason is None,
            },
    {
        CreateModerationLog {
            guild: guild as i64,
            kind,
            member: member as i64,
            actor: match actor {
                Some(a) => Some(a as i64),
                None => None,
            },
            reason: match reason {
                Some(s) => Some(s.to_string()),
                None => None,
            },
        }
    }
}

} // verus!
