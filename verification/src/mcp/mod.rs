pub mod pi;
