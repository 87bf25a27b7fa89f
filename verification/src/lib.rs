//! A live-coding scene language: a line parser, five scalar parameter
//! generators, and a statement interpreter that builds a scene registry of
//! named images with position, size and effect-chain bindings.
//!
//! Scalars are fixed-point micros (`fixed`).  Lines of source text become
//! token lists (`line_parser`); a whole program text becomes a fresh
//! `SceneRegistry` (`interpreter`); the registry's generators yield one
//! value per rendered frame (`parameter`).

pub mod fixed;
pub mod interpreter;
pub mod line_parser;
pub mod parameter;
