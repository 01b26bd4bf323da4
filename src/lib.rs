//! Renders a declarative description of an instruction pipeline into the
//! text of a clock-driven hardware monitor.
//!
//! The core is a filter, map, join and re-indent combinator over ordered
//! collections; the per-entity renderers and the monitor assembler are built
//! on top of it.

pub mod text;
pub mod template;
pub mod model;
pub mod report;
