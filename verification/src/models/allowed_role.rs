use vstd::prelude::*;

verus! {

/// The fields a caller supplies for a fresh allowed-role row: the guild, the
/// role that may be granted, and the role allowed to grant it, kept as the
/// signed 64-bit values the row stores.
pub struct CreateAllowedRole {
    pub guild: i64,
    pub role_id: i64,
    pub operator_role: i64,
}

impl CreateAllowedRole {
    /// Narrows the unsigned identifiers into the row's signed fields.
    /// Identifiers above `i64::MAX` do not fit a signed row field.
    pub fn new(guild: u64, operator_role: u64, role: u64) -> (r: CreateAllowedRole)
        requires
            guild <= i64::MAX,
            operator_role <= i64::MAX,
            role <= i64::MAX,
        ensures
            r.guild == guild as i64,
            r.role_id == role as i64,
            r.operator_role == operator_role as i64,
    {
        CreateAllowedRole {
            guild: guild as i64,
            role_id: role as i64,
            operator_role: operator_role as i64,
        }
    }
}

} // verus!
