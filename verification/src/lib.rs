//! A block-tree renderer: turns a flat table of hierarchically linked content
//! blocks into nested HTML markup, preserving document order, inline text
//! formatting, and the grouping of consecutive sibling list items into one
//! enclosing list container.

pub mod blocks;
pub mod markup;
pub mod table;
pub mod renderer;
pub mod laws;
