//! What a traced ray's color encodes.
use vstd::prelude::*;

verus! {

#[derive(Clone, Copy, Debug, PartialEq, Eq, Structural)]
pub enum ViewMode {
    /// Shaded object colors with diffuse reflections and shadows.
    Color,
    /// The surface normal of the first hit, remapped to [0, 1].
    Normal,
    /// The distance to the first hit over the far-plane distance.
    Depth,
    /// How many rays the pixel cost, through the heat palette.
    Complexity,
}

impl ViewMode {
    /// The modes that stop a trace at its first hit and sample only that.
    pub open spec fn stops_at_first_hit(self) -> bool {
        self is Normal || self is Depth
    }

    /// The mode's display name.
    pub open spec fn spec_name(self) -> Seq<char> {
        match self {
            ViewMode::Color => "color"@,
            ViewMode::Normal => "normal"@,
            ViewMode::Depth => "depth"@,
            ViewMode::Complexity => "complexity"@,
        }
    }

    pub fn name(&self) -> (r: &'static str)
        ensures
            r@ == self.spec_name(),
    {
        match self {
            ViewMode::Color => "color",
            ViewMode::Normal => "normal",
            ViewMode::Depth => "depth",
            ViewMode::Complexity => "complexity",
        }
    }

    /// Executable form of `stops_at_first_hit`.
    pub fn is_single_sample(&self) -> (r: bool)
        ensures
            r == self.stops_at_first_hit(),
    {
        match self {
            ViewMode::Normal | ViewMode::Depth => true,
            _ => false,
        }
    }
}

impl Default for ViewMode {
    fn default() -> (r: Self)
        ensures
            r == ViewMode::Color,
    {
        ViewMode::Color
    }
}

} // verus!
