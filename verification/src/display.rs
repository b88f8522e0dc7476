//! Display topologies: capturing, checking and restoring them.

pub mod apply;
pub mod capture;
pub mod checks;
pub mod paths;
pub mod restore;
pub mod routing;
pub mod selection;
pub mod steps;
