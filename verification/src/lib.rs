//! A ray caster's scene queries and image buffer, with numbers compared and
//! encoded exactly.

pub mod cli;
pub mod img;
pub mod lighting;
pub mod scalar;
pub mod shapes;
pub mod world;
