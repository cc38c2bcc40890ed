pub mod ast;
pub mod env;
pub mod interpret;
pub mod part_eval;
pub mod reduce;
pub mod route;
pub mod show;
pub mod synth;
pub mod text;
pub mod typer;
pub mod types;
pub mod value;
pub mod vars;
