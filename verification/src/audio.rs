//! Audio vocabulary: mixer buses, fade curves and playback handles.

use vstd::prelude::*;

verus! {

/// Mixer bus.
#[derive(Debug, Clone, Copy, PartialEq, Eq, Hash, Structural)]
pub enum Bus {
    /// Global volume multiplier applied to all other buses.
    Master,
    /// Background music (usually looping).
    Music,
    /// One-shot sound effects.
    Sfx,
    /// Voice-over dialog.
    Voice,
}

impl Bus {
    /// All non-master buses (routing targets for clips).
    pub fn routable() -> (r: [Bus; 3])
        ensures
            r@ == seq![Bus::Music, Bus::Sfx, Bus::Voice],
    {
        let r = [Bus::Music, Bus::Sfx, Bus::Voice];
        assert(r@ =~= seq![Bus::Music, Bus::Sfx, Bus::Voice]);
        r
    }
}

/// Fade / crossfade curve.
#[derive(Debug, Clone, Copy, PartialEq, Eq, Structural)]
pub enum Curve {
    /// Constant speed (the default).
    Linear,
    /// Logarithmic-ish.
    Logarithmic,
    /// Equal-power — preferred for music crossfades.
    EqualPower,
}

impl Default for Curve {
    fn default() -> (r: Curve)
        ensures
            r == Curve::Linear,
    {
        Curve::Linear
    }
}

/// Opaque playback handle returned by looping / voice / music plays.
#[derive(Debug, Clone, Copy, PartialEq, Eq, Hash, Structural)]
pub struct Handle(u64);

impl Handle {
    /// The handle with raw id `id` (minted by the mixer).
    pub fn new(id: u64) -> (r: Handle)
        ensures
            r.id_spec() == id,
    {
        Handle(id)
    }

    /// Raw id.
    pub closed spec fn id_spec(self) -> u64 {
        self.0
    }

    /// Raw id (for debugging / save correlation).
    pub fn id(self) -> (r: u64)
        ensures
            r == self.id_spec(),
    {
        self.0
    }
}

} // verus!
