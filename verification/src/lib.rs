pub mod alerts;
pub mod async_traffic;
pub mod app_names;
pub mod auth;
pub mod body;
pub mod chat;
pub mod completion;
pub mod bytes;
pub mod codec;
pub mod dto;
pub mod endpoints;
pub mod config;
pub mod frame_detail;
pub mod frames;
pub mod groups;
pub mod headers;
pub mod ip_text;
pub mod keyed;
pub mod metrics;
pub mod notifications;
pub mod passthrough;
pub mod pending;
pub mod push;
pub mod query;
pub mod registry;
pub mod replay;
pub mod replay_api;
pub mod replay_edit;
pub mod responses;
pub mod router;
pub mod rules_api;
pub mod scripts_api;
pub mod search;
pub mod search_scan;
pub mod sse;
pub mod system_proxy;
pub mod text;
pub mod traffic_api;
pub mod trust;
pub mod usage;
pub mod ws_frame;
pub mod ws_handshake;
