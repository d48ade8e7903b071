//! What the library promises, stated in terms of the bytes, characters and
//! lines that go in and come out.
pub mod appimage;
pub mod commands;
pub mod desktop;
pub mod i18n;
pub mod installer;
pub mod metadata;
pub mod mime;
pub mod paths;
pub mod registry;
pub mod text;
pub mod views;
