//! Recolouring of panel icons.
//!
//! An icon that a panel is given may be a plain grey shape, a shape of two greys, a grey shape
//! with a coloured badge on it, or a picture. The first three can take the colours of the
//! panel's theme; a picture has to stay as it is. [`paint::recolour`] decides which of these an
//! icon is and paints it.
//!
//! - [`raster`] splits an image into pixels, [`theme`] holds the colours of a panel.
//! - [`tone`] measures brightness and how much of each brightness there is.
//! - [`badge`] finds a coloured mark at the edge of an icon.
//! - [`contour`] counts how often the inks of an icon alternate along its lines.
//! - [`palette`] finds the tones of an antialiased icon.
//! - [`paint`] decides and paints; [`decision`] holds the outcome.
//! - [`share`] measures shares in percent, [`sums`] takes masses and counts as sums.
//! - [`greys`], [`marks`], [`strokes`], [`blends`], [`verdicts`] and [`inks`] state what each of
//!   these does in terms of pixels alone.
//! - [`laws`], [`padding`], [`turning`] and [`shading`] state what holds of every icon.

pub mod badge;
pub mod blends;
pub mod contour;
pub mod decision;
pub mod greys;
pub mod inks;
pub mod laws;
pub mod marks;
pub mod padding;
pub mod paint;
pub mod palette;
pub mod raster;
pub mod shading;
pub mod share;
pub mod strokes;
pub mod sums;
pub mod theme;
pub mod tone;
pub mod turning;
pub mod verdicts;
