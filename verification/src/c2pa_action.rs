//! The fixed action vocabulary: the standard labels an [`Action`] may
//! carry, as defined by the content-provenance specification.
//!
//! [`Action`]: crate::actions::Action

use vstd::prelude::*;

verus! {

    /// Changes to tone, saturation, etc.
    pub const COLOR_ADJUSTMENTS: &'static str = "c2pa.color_adjustments";

    /// The format of the asset was changed.
    pub const CONVERTED: &'static str = "c2pa.converted";

    /// The asset was first created, usually the asset's origin.
    pub const CREATED: &'static str = "c2pa.created";

    /// Areas of the asset's "editorial" content were cropped out.
    pub const CROPPED: &'static str = "c2pa.cropped";

    /// Changes using drawing tools including brushes or eraser.
    pub const DRAWING: &'static str = "c2pa.drawing";

    /// Generalized actions that affect the "editorial" meaning of the content.
    pub const EDITED: &'static str = "c2pa.edited";

    /// Changes to appearance with applied filters, styles, etc.
    pub const FILTERED: &'static str = "c2pa.filtered";

    /// An existing asset was opened and is being set as the `parentOf` ingredient.
    pub const OPENED: &'static str = "c2pa.opened";

    /// Changes to the direction and position of content.
    pub const ORIENTATION: &'static str = "c2pa.orientation";

    /// Added or placed a `componentOf` ingredient into the asset.
    pub const PLACED: &'static str = "c2pa.placed";

    /// A `componentOf` ingredient was removed.
    pub const REMOVED: &'static str = "c2pa.removed";

    /// A portion of the asset was redacted; a reason is required.
    pub const REDACTED: &'static str = "c2pa.redacted";

    /// Asset is released to a wider audience.
    pub const PUBLISHED: &'static str = "c2pa.published";

    /// Repackage from one container to another without transcoding.
    pub const REPACKAGED: &'static str = "c2pa.repackaged";

    /// Changes to content dimensions and/or file size.
    pub const RESIZED: &'static str = "c2pa.resized";

    /// Direct conversion of one encoding to another.
    pub const TRANSCODED: &'static str = "c2pa.transcoded";

    /// Something happened, but the claim generator cannot specify what.
    pub const UNKNOWN: &'static str = "c2pa.unknown";

} // verus!
