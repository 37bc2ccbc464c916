pub mod disp_vel_graph;
pub mod line_manager;
pub mod suspension_graph;
pub mod wave_gen;
