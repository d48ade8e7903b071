//! AppImage integration for KDE: recognition, installation planning and bookkeeping.
pub mod appimage;
pub mod cli;
pub mod commands;
pub mod desktop;
pub mod failure;
pub mod i18n;
pub mod installer;
pub mod kdialog;
pub mod laws;
pub mod locale;
pub mod messages;
pub mod metadata;
pub mod mime;
pub mod paths;
pub mod registry;
pub mod text;
