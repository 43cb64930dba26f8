//! Host-side logic of the Omarchy component gallery: colour parsing and
//! formatting, theme palettes, the calendar month model, the toast timer,
//! the file tree state and the gallery's page catalogue.

pub mod calendar;
pub mod color;
pub mod gallery;
pub mod text;
pub mod theme;
pub mod toast;
pub mod tree;
