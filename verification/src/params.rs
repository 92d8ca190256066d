use vstd::prelude::*;

verus! {

/// An immutable thumbnail request: a target box plus optional tonal
/// adjustment parameters. The source image identifier travels beside it.
#[derive(Clone, Copy, Debug)]
pub struct ThumbnailParams {
    pub width: u32,
    pub height: u32,
    pub min: Option<u8>,
    pub max: Option<u8>,
    pub autocontrast: Option<bool>,
}

/// Both target dimensions must be positive; a zero dimension is a caller
/// error and is rejected before any cache or engine interaction.
pub open spec fn valid_dims(p: ThumbnailParams) -> bool {
    p.width > 0 && p.height > 0
}

} // verus!
