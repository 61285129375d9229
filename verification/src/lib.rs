//! Airwave: the verified core of a UPnP/DLNA media server and WiiM control plane.

pub mod text;
pub mod models;
pub mod queue;
pub mod groups;
pub mod monitor;
pub mod xml;
pub mod soap;
pub mod ssdp;
pub mod streaming;
pub mod media;
pub mod library;
pub mod grouping;
pub mod dlna_library;
pub mod didl;
pub mod content_directory;
pub mod connection_manager;
pub mod catalog_api;
pub mod xml_tree;
pub mod soap_client;
pub mod urls;
pub mod config;
pub mod dlna_config;
pub mod bulk;
pub mod scpd;
pub mod collector;
pub mod device_config;
pub mod playlist;
pub mod art;
pub mod rescan;
pub mod tags;
pub mod wiim_api;
