//! The editor's modes and settings.
use vstd::prelude::*;

verus! {

/// What the editor edits.
#[derive(Clone, Copy, PartialEq, Eq, Structural, Debug)]
pub enum EditorMode {
    Experience,
    Terrain,
    Build,
    Atmosphere,
    NaturalLayers,
    TerrainMaterial,
}

/// What the editor shows.
#[derive(Clone, Copy, PartialEq, Eq, Structural, Debug)]
pub struct EditorSettings {
    pub debug_mode: bool,
    pub debug_intents: bool,
    pub show_hud: bool,
}

/// Which server instance the editor puts the player in.
#[derive(Clone, Copy, PartialEq, Eq, Structural, Debug)]
pub enum InstanceChoice {
    /// Fork the main instance into the play instance, with static physics
    /// off and the game in play mode, and join it.
    ForkAndJoinPlay,
    /// Join the main instance.
    JoinMain,
}

/// The instance that the editor joins in `mode`: playing the experience
/// forks a play instance and joins it; every other mode edits the main
/// instance.
pub fn instance_for_mode(mode: EditorMode) -> (r: InstanceChoice)
    ensures
        r == (if mode == EditorMode::Experience { InstanceChoice::ForkAndJoinPlay } else { InstanceChoice::JoinMain }),
{
    match mode {
        EditorMode::Experience => InstanceChoice::ForkAndJoinPlay,
        _ => InstanceChoice::JoinMain,
    }
}

} // verus!
