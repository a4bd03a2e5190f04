pub mod runtime_actions;
