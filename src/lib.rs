pub mod compiler;
pub mod daruscript_v1;
pub mod language;
