//! The verified core of a CAN bus analysis tool: frames, signal decoding,
//! databases, the bus engine and the workspace around it.

pub mod can;
pub mod decode;
pub mod decode_laws;
pub mod text;
pub mod doubles;
pub mod mux;
pub mod dbc_source;
pub mod dbc;
pub mod xml;
pub mod fr_text;
pub mod fr_params;
pub mod fr_db;
pub mod fr_fibex;
pub mod fr_arxml;
pub mod cli;
pub mod cli_report;
pub mod cli_probe;
pub mod observe;
pub mod sim;
pub mod channel;
pub mod generator;
pub mod block;
pub mod table;
pub mod trace;
pub mod line_laws;
pub mod report_laws;
pub mod run_laws;
pub mod command_laws;
pub mod fr_laws;
pub mod setup_laws;
pub mod text_laws;
pub mod step_laws;
pub mod traffic_laws;
pub mod tree_laws;
pub mod watch_laws;
pub mod window_laws;
pub mod aggregate;
pub mod monitor;
pub mod triggers;
pub mod bus_types;
pub mod dbc_laws;
pub mod dbc_merge;
pub mod observers;
pub mod app;
pub mod bus;
pub mod bus_channels;
pub mod bus_ingest;
pub mod bus_ingest_laws;
pub mod bus_run;
pub mod bus_nodes;
pub mod bus_command;
pub mod bus_step;
pub mod bus_view;
pub mod bus_reload;
pub mod bus_scripts;
pub mod bus_walk;
pub mod core_loop;
pub mod workspace;
pub mod app_bus;
pub mod app_text;
pub mod export;
pub mod paths;
pub mod config;
pub mod config_apply;
pub mod config_laws;
pub mod app_entries;
pub mod desktops;
