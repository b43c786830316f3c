//! OpenDraw, a raster drawing editor: its layered document model and
//! compositing rules, the `.odraw`, PNG and BMP formats, undo history and
//! editing session, the new-document screen, immediate-mode widgets, and the
//! pure parts of platform input, with contracts checked by Verus.

pub mod document;
pub mod editor;
pub mod file;
pub mod graphics;
pub mod platform;
pub mod support;
pub mod ui;
