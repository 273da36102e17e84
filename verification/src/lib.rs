//! PANopt: the verified core of a coordination plane for coding agents.

pub mod auth;
pub mod draw_laws;
pub mod error;
pub mod event_laws;
pub mod file_laws;
pub mod finding_laws;
pub mod gate_laws;
pub mod host;
pub mod idmap;
pub mod index_laws;
pub mod inputs;
pub mod launch;
pub mod launch_laws;
pub mod line_laws;
pub mod list_laws;
pub mod lists;
pub mod locks;
pub mod migrations;
pub mod model;
pub mod modes;
pub mod notes;
pub mod pane_laws;
pub mod panes;
pub mod params;
pub mod paths;
pub mod picking;
pub mod pattern_laws;
pub mod poll_laws;
pub mod presence_laws;
pub mod processes;
pub mod profile_laws;
pub mod profile_set;
pub mod profiles;
pub mod project;
pub mod project_laws;
pub mod projected;
pub mod projection;
pub mod projection_laws;
pub mod reading_laws;
pub mod record_laws;
pub mod registry;
pub mod rows;
pub mod search_laws;
pub mod sidebar;
pub mod sidebar_draw;
pub mod sidebar_events;
pub mod sidebar_gate;
pub mod sidebar_ingest;
pub mod sidebar_items;
pub mod sidebar_pipe;
pub mod sidebar_poll;
pub mod sidebar_reload;
pub mod sidebar_slots;
pub mod sidebar_update;
pub mod sidebar_watch;
pub mod slot_laws;
pub mod sorting;
pub mod status;
pub mod store;
pub mod store_agents;
pub mod store_files;
pub mod store_inputs;
pub mod store_load;
pub mod store_notes;
pub mod store_processes;
pub mod store_projects;
pub mod store_sweeps;
pub mod store_todos;
pub mod table;
pub mod templates;
pub mod text;
pub mod text_laws;
pub mod textmap;
pub mod title_laws;
pub mod titles;
pub mod todo_laws;
pub mod todo_ops;
pub mod todos;
pub mod tool_surface;
pub mod tools;
pub mod tree;
pub mod watch_laws;
pub mod wire;
pub mod wire_laws;
pub mod word_laws;
