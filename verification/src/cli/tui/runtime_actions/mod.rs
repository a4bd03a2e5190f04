pub mod updates;
