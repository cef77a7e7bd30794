//! The supported game generations.
//!
//! Each generation selects a PAK entry shape and, for the newest two, an
//! archive-wide decryption key; both live with the archive code itself.

use vstd::prelude::*;

verus! {

/// An enum of supported games.
#[derive(Debug, Copy, Clone, PartialEq, Eq, Structural)]
pub enum GameVersion {
    /// Atelier Sophie: The Alchemist of the Mysterious Book
    A17,
    /// Atelier Firis: The Alchemist and the Mysterious Journey
    A18,
    /// Atelier Lydie & Suelle: The Alchemists and the Mysterious Paintings
    A19,
    /// Atelier Ryza: Ever Darkness & the Secret Hideout
    A21,
    /// Atelier Ryza 2: Lost Legends & the Secret Fairy
    A22,
    /// Atelier Sophie 2: The Alchemist of the Mysterious Dream
    A23,
    /// Atelier Ryza 3: Alchemist of the End & the Secret Key
    A24,
}

/// The short name of each game.
pub open spec fn spec_short_name(v: GameVersion) -> Seq<char> {
    match v {
        GameVersion::A17 => "Atelier Sophie"@,
        GameVersion::A18 => "Atelier Firis"@,
        GameVersion::A19 => "Atelier Lydie & Suelle"@,
        GameVersion::A21 => "Atelier Ryza"@,
        GameVersion::A22 => "Atelier Ryza 2"@,
        GameVersion::A23 => "Atelier Sophie 2"@,
        GameVersion::A24 => "Atelier Ryza 3"@,
    }
}

/// The full name of each game.
pub open spec fn spec_full_name(v: GameVersion) -> Seq<char> {
    match v {
        GameVersion::A17 => "Atelier Sophie: The Alchemist of the Mysterious Book"@,
        GameVersion::A18 => "Atelier Firis: The Alchemist and the Mysterious Journey"@,
        GameVersion::A19 => "Atelier Lydie & Suelle: The Alchemists and the Mysterious Paintings"@,
        GameVersion::A21 => "Atelier Ryza: Ever Darkness & the Secret Hideout"@,
        GameVersion::A22 => "Atelier Ryza 2: Lost Legends & the Secret Fairy"@,
        GameVersion::A23 => "Atelier Sophie 2: The Alchemist of the Mysterious Dream"@,
        GameVersion::A24 => "Atelier Ryza 3: Alchemist of the End & the Secret Key"@,
    }
}

impl GameVersion {
    /// Returns the short name of the game, eg. `Atelier Ryza 3`.
    pub fn get_short_name(self) -> (r: &'static str)
        ensures
            r@ == spec_short_name(self),
    {
        match self {
            GameVersion::A17 => "Atelier Sophie",
            GameVersion::A18 => "Atelier Firis",
            GameVersion::A19 => "Atelier Lydie & Suelle",
            GameVersion::A21 => "Atelier Ryza",
            GameVersion::A22 => "Atelier Ryza 2",
            GameVersion::A23 => "Atelier Sophie 2",
            GameVersion::A24 => "Atelier Ryza 3",
        }
    }

    /// Returns the full name of the game, eg. `Atelier Ryza 3: Alchemist of
    /// the End & the Secret Key`.
    pub fn get_name(self) -> (r: &'static str)
        ensures
            r@ == spec_full_name(self),
    {
        match self {
            GameVersion::A17 => "Atelier Sophie: The Alchemist of the Mysterious Book",
            GameVersion::A18 => "Atelier Firis: The Alchemist and the Mysterious Journey",
            GameVersion::A19 => "Atelier Lydie & Suelle: The Alchemists and the Mysterious Paintings",
            GameVersion::A21 => "Atelier Ryza: Ever Darkness & the Secret Hideout",
            GameVersion::A22 => "Atelier Ryza 2: Lost Legends & the Secret Fairy",
            GameVersion::A23 => "Atelier Sophie 2: The Alchemist of the Mysterious Dream",
            GameVersion::A24 => "Atelier Ryza 3: Alchemist of the End & the Secret Key",
        }
    }

    /// Every supported generation, in release order.
    pub fn all() -> (r: Vec<GameVersion>)
        ensures
            r@ == seq![
                GameVersion::A17,
                GameVersion::A18,
                GameVersion::A19,
                GameVersion::A21,
                GameVersion::A22,
                GameVersion::A23,
                GameVersion::A24,
            ],
    {
        let v: Vec<GameVersion> = vec![
            GameVersion::A17,
            GameVersion::A18,
            GameVersion::A19,
            GameVersion::A21,
            GameVersion::A22,
            GameVersion::A23,
            GameVersion::A24,
        ];
        proof {
            assert(v@ =~= seq![
                GameVersion::A17,
                GameVersion::A18,
                GameVersion::A19,
                GameVersion::A21,
                GameVersion::A22,
                GameVersion::A23,
                GameVersion::A24,
            ]);
        }
        v
    }
}

} // verus!
