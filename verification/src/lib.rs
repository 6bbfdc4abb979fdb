pub mod binary64;
pub mod command;
pub mod daemon;
pub mod daemon_laws;
pub mod data;
pub mod disk;
pub mod file_laws;
pub mod group_order;
pub mod images;
pub mod ipc;
pub mod network_laws;
pub mod network_watcher;
pub mod notification;
pub mod notification_data;
pub mod notification_laws;
pub mod notification_model;
pub mod path;
pub mod ringbuf;
pub mod shown_laws;
pub mod table;
pub mod text;
pub mod type_map;
pub mod watcher;
pub mod wrap;
