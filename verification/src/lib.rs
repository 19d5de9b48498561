//! Verified core of a desktop search index and its preview host.

pub mod archive;
pub mod av;
pub mod cache_sweep;
pub mod calendar;
pub mod canvas;
pub mod code;
pub mod documents;
pub mod email;
pub mod fields;
pub mod files;
pub mod fingerprint;
pub mod folder;
pub mod frames;
pub mod gui;
pub mod hits;
pub mod html;
pub mod image;
pub mod index;
pub mod index_service;
pub mod indexer;
pub mod info;
pub mod ipc;
pub mod layout;
pub mod mime;
pub mod model;
pub mod mutation;
pub mod name_map;
pub mod normalize;
pub mod ocr_tick;
pub mod office;
pub mod order;
pub mod paths;
pub mod plugin_fs_watcher;
pub mod plugin_schema;
pub mod preview_host;
pub mod preview_ipc;
pub mod psi_gate;
pub mod query;
pub mod query_alias;
pub mod registry;
pub mod resolver;
pub mod round_trip;
pub mod scoring;
pub mod search_cache;
pub mod sizes;
pub mod text;
pub mod tokenizer;
pub mod warmer;
pub mod watcher;
pub mod writer_sink;
