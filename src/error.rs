use vstd::prelude::*;

verus! {

/// Why a job description cannot be rendered.
#[derive(Debug, Clone, Copy, PartialEq, Eq, Structural)]
pub enum ConfigurationError {
    ZeroWidth,
    ZeroHeight,
    ZeroMaxIter,
    /// The tile count is not in `[1, height]`.
    TileCount { num_tiles: usize, height: u32 },
}

/// Why an artifact could not be written or read.
#[derive(Debug, Clone, Copy, PartialEq, Eq, Structural)]
pub enum StorageError {
    /// The PNG encoder refused the raster.
    Encode,
    /// The artifact is not a readable PNG.
    Unreadable,
    /// The artifact at this position of the merge list is not a readable PNG.
    Decode { index: usize },
}

/// Every failure of a render.
#[derive(Debug, Clone, Copy, PartialEq, Eq, Structural)]
pub enum RenderError {
    Configuration(ConfigurationError),
    /// A buffer's length differs from its declared `width * height`.
    SizeMismatch { len: usize, width: u32, height: u32 },
    Storage(StorageError),
}

} // verus!
