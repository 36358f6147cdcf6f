//! Client status constants: actions, presence filters, play-mod bits, and
//! the pure game-mode derivation rule.

use vstd::prelude::*;

verus! {

/// Play-mod bit for Relax.
pub const MOD_RELAX: u32 = 128;

/// Play-mod bit for AutoPilot.
pub const MOD_AUTOPILOT: u32 = 8192;

/// Base wire mode of the standard ruleset.
pub const MODE_STANDARD: u8 = 0;

/// Base wire mode of the mania ruleset.
pub const MODE_MANIA: u8 = 3;

pub open spec fn spec_has_relax(mods: u32) -> bool {
    mods & MOD_RELAX != 0
}

pub open spec fn spec_has_autopilot(mods: u32) -> bool {
    mods & MOD_AUTOPILOT != 0
}

/// Derived game mode: the base wire mode shifted into its Relax or
/// AutoPilot variant.
///
/// Total over base modes `0..=3` and every mod set: Relax on a non-mania
/// base adds four; AutoPilot on the standard base yields eight; Relax
/// together with AutoPilot, Relax on mania, AutoPilot off standard, and any
/// base above three are rejected.
pub open spec fn spec_derive_mode(base: u8, mods: u32) -> Option<u8> {
    if base > 3 {
        None
    } else if spec_has_relax(mods) && spec_has_autopilot(mods) {
        None
    } else if spec_has_relax(mods) {
        if base == MODE_MANIA {
            None
        } else {
            Some((base + 4) as u8)
        }
    } else if spec_has_autopilot(mods) {
        if base != MODE_STANDARD {
            None
        } else {
            Some(8)
        }
    } else {
        Some(base)
    }
}

/// The set of derived mode values.
pub open spec fn spec_valid_mode(m: u8) -> bool {
    m <= 6 || m == 8
}

pub proof fn lemma_derived_mode_valid(base: u8, mods: u32)
    ensures
        spec_derive_mode(base, mods) matches Some(m) ==> spec_valid_mode(m),
{
}

/// Derives the game mode from the base wire mode and the play-mod bits.
pub fn derive_game_mode(base: u8, mods: u32) -> (r: Option<u8>)
    ensures
        r == spec_derive_mode(base, mods),
        r is Some <==> {
            &&& base <= 3
            &&& !(spec_has_relax(mods) && spec_has_autopilot(mods))
            &&& !(spec_has_relax(mods) && base == MODE_MANIA)
            &&& !(spec_has_autopilot(mods) && !spec_has_relax(mods) && base != MODE_STANDARD)
        },
{
    if base > 3 {
        return None;
    }
    let relax = mods & MOD_RELAX != 0;
    let autopilot = mods & MOD_AUTOPILOT != 0;
    if relax && autopilot {
        None
    } else if relax {
        if base == MODE_MANIA {
            None
        } else {
            Some(base + 4)
        }
    } else if autopilot {
        if base != MODE_STANDARD {
            None
        } else {
            Some(8)
        }
    } else {
        Some(base)
    }
}

/// What a connected player is doing, as reported by the client.
#[derive(Clone, Copy, Debug, PartialEq, Eq, Structural)]
pub enum Action {
    Idle,
    Afk,
    Playing,
    Editing,
    Modding,
    Multiplayer,
    Watching,
    Unknown,
    Testing,
    Submitting,
    Paused,
    Lobby,
    Multiplaying,
    Direct,
}

pub open spec fn spec_action_from_u8(b: u8) -> Option<Action> {
    if b == 0 {
        Some(Action::Idle)
    } else if b == 1 {
        Some(Action::Afk)
    } else if b == 2 {
        Some(Action::Playing)
    } else if b == 3 {
        Some(Action::Editing)
    } else if b == 4 {
        Some(Action::Modding)
    } else if b == 5 {
        Some(Action::Multiplayer)
    } else if b == 6 {
        Some(Action::Watching)
    } else if b == 7 {
        Some(Action::Unknown)
    } else if b == 8 {
        Some(Action::Testing)
    } else if b == 9 {
        Some(Action::Submitting)
    } else if b == 10 {
        Some(Action::Paused)
    } else if b == 11 {
        Some(Action::Lobby)
    } else if b == 12 {
        Some(Action::Multiplaying)
    } else if b == 13 {
        Some(Action::Direct)
    } else {
        None
    }
}

pub open spec fn spec_action_to_u8(a: Action) -> u8 {
    match a {
        Action::Idle => 0,
        Action::Afk => 1,
        Action::Playing => 2,
        Action::Editing => 3,
        Action::Modding => 4,
        Action::Multiplayer => 5,
        Action::Watching => 6,
        Action::Unknown => 7,
        Action::Testing => 8,
        Action::Submitting => 9,
        Action::Paused => 10,
        Action::Lobby => 11,
        Action::Multiplaying => 12,
        Action::Direct => 13,
    }
}

impl Action {
    pub fn from_u8(b: u8) -> (r: Option<Action>)
        ensures
            r == spec_action_from_u8(b),
    {
        if b == 0 {
            Some(Action::Idle)
        } else if b == 1 {
            Some(Action::Afk)
        } else if b == 2 {
            Some(Action::Playing)
        } else if b == 3 {
            Some(Action::Editing)
        } else if b == 4 {
            Some(Action::Modding)
        } else if b == 5 {
            Some(Action::Multiplayer)
        } else if b == 6 {
            Some(Action::Watching)
        } else if b == 7 {
            Some(Action::Unknown)
        } else if b == 8 {
            Some(Action::Testing)
        } else if b == 9 {
            Some(Action::Submitting)
        } else if b == 10 {
            Some(Action::Paused)
        } else if b == 11 {
            Some(Action::Lobby)
        } else if b == 12 {
            Some(Action::Multiplaying)
        } else if b == 13 {
            Some(Action::Direct)
        } else {
            None
        }
    }

    pub fn to_u8(self) -> (r: u8)
        ensures
            r == spec_action_to_u8(self),
    {
        match self {
            Action::Idle => 0,
            Action::Afk => 1,
            Action::Playing => 2,
            Action::Editing => 3,
            Action::Modding => 4,
            Action::Multiplayer => 5,
            Action::Watching => 6,
            Action::Unknown => 7,
            Action::Testing => 8,
            Action::Submitting => 9,
            Action::Paused => 10,
            Action::Lobby => 11,
            Action::Multiplaying => 12,
            Action::Direct => 13,
        }
    }
}

/// Client-declared scope for ambient presence updates.
#[derive(Clone, Copy, Debug, PartialEq, Eq, Structural)]
pub enum PresenceFilter {
    NoFilter,
    All,
    Friends,
}

pub open spec fn spec_presence_filter_from_i32(v: i32) -> Option<PresenceFilter> {
    if v == 0 {
        Some(PresenceFilter::NoFilter)
    } else if v == 1 {
        Some(PresenceFilter::All)
    } else if v == 2 {
        Some(PresenceFilter::Friends)
    } else {
        None
    }
}

impl PresenceFilter {
    pub fn from_i32(v: i32) -> (r: Option<PresenceFilter>)
        ensures
            r == spec_presence_filter_from_i32(v),
    {
        if v == 0 {
            Some(PresenceFilter::NoFilter)
        } else if v == 1 {
            Some(PresenceFilter::All)
        } else if v == 2 {
            Some(PresenceFilter::Friends)
        } else {
            None
        }
    }
}

} // verus!
