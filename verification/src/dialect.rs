//! Game identification and the two plugin dialect families.

use vstd::prelude::*;

use crate::signature::Signature;

verus! {

/// Identifies which Bethesda game a plugin belongs to.
#[derive(Debug, Clone, Copy, PartialEq, Eq, Hash, Structural)]
pub enum GameId {
    /// TES3: Morrowind - flat record list, no GRUPs
    Morrowind,
    /// TES4: Oblivion
    Oblivion,
    /// FO3: Fallout 3
    Fallout3,
    /// FNV: Fallout New Vegas
    FalloutNV,
    /// TES5: Skyrim (original, Special and Anniversary Edition)
    SkyrimSE,
    /// FO4: Fallout 4
    Fallout4,
    /// FO76: Fallout 76
    Fallout76,
    /// SF1: Starfield
    Starfield,
}

/// The two major dialect families of Bethesda plugin formats.
#[derive(Debug, Clone, Copy, PartialEq, Eq, Structural)]
pub enum DialectFamily {
    /// Morrowind: flat record list, no FormIDs, 8-byte subrecord headers
    TES3,
    /// Oblivion onwards: GRUP hierarchy, FormIDs, 6-byte subrecord headers
    TES4Plus,
}

/// The dialect family of a game.
pub open spec fn spec_family(g: GameId) -> DialectFamily {
    match g {
        GameId::Morrowind => DialectFamily::TES3,
        _ => DialectFamily::TES4Plus,
    }
}

/// The bytes of the file header signature of a game's plugins.
pub open spec fn spec_header_sig(g: GameId) -> Seq<u8> {
    match g {
        GameId::Morrowind => seq![0x54u8, 0x45, 0x53, 0x33],
        _ => seq![0x54u8, 0x45, 0x53, 0x34],
    }
}

/// The short display name of a game.
pub open spec fn spec_short_name(g: GameId) -> Seq<char> {
    match g {
        GameId::Morrowind => seq!['T', 'E', 'S', '3'],
        GameId::Oblivion => seq!['T', 'E', 'S', '4'],
        GameId::Fallout3 => seq!['F', 'O', '3'],
        GameId::FalloutNV => seq!['F', 'N', 'V'],
        GameId::SkyrimSE => seq!['S', 'S', 'E'],
        GameId::Fallout4 => seq!['F', 'O', '4'],
        GameId::Fallout76 => seq!['F', 'O', '7', '6'],
        GameId::Starfield => seq!['S', 'F', '1'],
    }
}

impl GameId {
    /// Which dialect family this game belongs to.
    pub fn dialect_family(&self) -> (f: DialectFamily)
        ensures
            f == spec_family(*self),
    {
        match self {
            GameId::Morrowind => DialectFamily::TES3,
            _ => DialectFamily::TES4Plus,
        }
    }

    /// The expected file header signature of this game's plugins.
    pub fn header_signature(&self) -> (s: Signature)
        ensures
            s.0@ == spec_header_sig(*self),
    {
        match self {
            GameId::Morrowind => Signature::TES3(),
            _ => Signature::TES4(),
        }
    }

    /// Short display name of this game.
    pub fn short_name(&self) -> (s: &'static str)
        ensures
            s@ == spec_short_name(*self),
    {
        proof {
            reveal_strlit("TES3");
            reveal_strlit("TES4");
            reveal_strlit("FO3");
            reveal_strlit("FNV");
            reveal_strlit("SSE");
            reveal_strlit("FO4");
            reveal_strlit("FO76");
            reveal_strlit("SF1");
        }
        match self {
            GameId::Morrowind => "TES3",
            GameId::Oblivion => "TES4",
            GameId::Fallout3 => "FO3",
            GameId::FalloutNV => "FNV",
            GameId::SkyrimSE => "SSE",
            GameId::Fallout4 => "FO4",
            GameId::Fallout76 => "FO76",
            GameId::Starfield => "SF1",
        }
    }
}

/// Game-specific plugin handling behaviour, implemented by users of the
/// library for the games they support.
pub trait GameDialect {
    /// Which game this dialect handles.
    fn game_id(&self) -> GameId;

    /// Whether this game uses compressed records.
    fn supports_record_compression(&self) -> bool;

    /// Whether this game uses ESL (light master) flags.
    fn supports_esl(&self) -> bool;

    /// Whether this game uses localized strings.
    fn supports_localization(&self) -> bool;

    /// Maximum number of masters a plugin can reference.
    fn max_masters(&self) -> usize;
}

} // verus!
