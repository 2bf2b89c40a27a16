//! Small value types shared with the calling shell: which text field an edit
//! targets, and which file format a save uses.

use vstd::prelude::*;

verus! {

/// Which user-typed numeric field an edit addresses.
#[derive(Debug, Clone, Copy, PartialEq, Eq, Structural)]
pub enum TextInput {
    Width,
    Height,
    Offset,
    PaletteOffset,
    TileWidth,
    TileHeight,
}

/// The file format a decoded canvas is saved in.
#[derive(Debug, Clone, Copy, PartialEq, Eq, Structural)]
pub enum SaveFormat {
    /// The raw RGBA bytes, no container.
    Rgba,
    Png,
}

impl Default for SaveFormat {
    fn default() -> (r: Self)
        ensures
            r == SaveFormat::Png,
    {
        SaveFormat::Png
    }
}

impl SaveFormat {
    /// The file-name extensions offered when saving in this format.
    pub fn extension(&self) -> (r: &'static [&'static str])
        ensures
            self == SaveFormat::Rgba ==> r@.len() == 0,
            self == SaveFormat::Png ==> r@.len() == 1 && r@[0]@ == "png"@,
    {
        match self {
            SaveFormat::Rgba => &[],
            SaveFormat::Png => &["png"],
        }
    }
}

} // verus!
