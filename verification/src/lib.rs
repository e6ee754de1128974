//! Pixie Wrangler's game rules: the geometry of roads on the grid, the
//! collision rules that decide where a road may be drawn, the fixed-step
//! simulation clock, scoring and the bookkeeping of the road network.

pub mod geom;
pub mod collision;
pub mod lines;
pub mod sim;
pub mod road_drawing;
pub mod pathfinding;
pub mod net_ripping;
pub mod save;
pub mod level;
pub mod controls;
pub mod radio_button;
pub mod pixie;
pub mod commit;
pub mod graph;
pub mod network;
