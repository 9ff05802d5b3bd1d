//! Usage-budget logic of a desktop break reminder: which state the budget
//! machine is in, how it moves on each sensing tick, the settings it keeps and
//! the text it shows.
pub mod budget;
pub mod commands;
pub mod overlay;
pub mod sensing;
pub mod text;
pub mod tray;
