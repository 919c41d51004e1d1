pub mod typed;
