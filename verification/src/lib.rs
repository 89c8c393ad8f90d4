/// Character-level string helpers and their specifications.
pub mod text;
/// Appending names to a list without repeating them.
pub mod lists;
/// Screen state and installer events.
pub mod model;
/// The browser, terminal, editor and coding-agent choices.
pub mod selection;
/// GPU detection and driver packages.
pub mod drivers;
/// Package lists and the command line.
pub mod packages;
/// The installer steps: their order, commands and progress.
pub mod installer;
/// Texts and key handling of the screens.
pub mod ui;
