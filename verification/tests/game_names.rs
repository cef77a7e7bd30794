//! Tests for the game-generation registry.

use gust_assets::common::GameVersion;

#[test]
fn each_game_has_name() {
    for game in GameVersion::all() {
        // run to ensure every generation carries both names
        assert!(!game.get_short_name().is_empty());
        assert!(!game.get_name().is_empty());
    }
}

#[test]
fn names_are_exact() {
    assert_eq!(GameVersion::A17.get_short_name(), "Atelier Sophie");
    assert_eq!(GameVersion::A24.get_short_name(), "Atelier Ryza 3");
    assert_eq!(
        GameVersion::A24.get_name(),
        "Atelier Ryza 3: Alchemist of the End & the Secret Key"
    );
    assert_eq!(GameVersion::all().len(), 7);
}
