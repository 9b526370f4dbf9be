//! Checking student programs against reference input/output: the logic of a
//! testrunner (diff rendering, command lines, i/o scripts, build decisions).
pub mod text;
pub mod pattern;
pub mod project;
pub mod testrunner;
