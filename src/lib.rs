//! A virtualized table engine: it keeps the visible window of a large grid as
//! rows of cell elements, reusing, retagging and trimming them as the window
//! moves, merges equal neighbouring headers into spanning cells, and derives
//! column widths from measured cells. The element tree itself belongs to the
//! host: the engine models it and logs each structural change for the host to
//! replay.
pub mod events;
pub mod model;
pub mod redraw;
pub mod sizes;
pub mod table;
pub mod tbody;
pub mod thead;
pub mod view_model;
