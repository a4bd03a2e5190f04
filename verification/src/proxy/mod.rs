pub mod providers;
