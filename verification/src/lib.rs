//! Verified core of a tiling-window financial-analytics workspace: the panel
//! catalogue, the economic-calendar filter, named and current layouts, the
//! pruning of toolbar-managed panels out of persisted dock layouts, and the
//! text rules behind orders and prompts.
pub mod text;
pub mod panels;
pub mod calendar;
pub mod layouts;
pub mod dock;
pub mod workspace;
