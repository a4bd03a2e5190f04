pub mod tui;
