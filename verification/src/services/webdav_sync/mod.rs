pub mod archive;
