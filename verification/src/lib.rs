//! A directory-listing library: classify filesystem entries, format their
//! sizes, colorize their names, and lay them out column-major in a grid
//! sized to the terminal width.
//!
//! The core is the layout solver: a feasibility predicate saying whether a
//! uniform column-major grid of a given column count fits the terminal, and a
//! binary search for the largest feasible count. The renderer then prints one
//! fixed-width cell per grid column, padding on the visible name width.

pub mod digits;
pub mod entry;
pub mod layout;
pub mod render;

pub use entry::classify;
pub use entry::max_name_len;
pub use entry::CustomTerminal;
pub use entry::File;
pub use entry::FileType;
pub use layout::can_be_printed;
pub use layout::solve_columns;
pub use render::render_grid;
