//! Verified policy core of the VaultMesh local Agent broker.
pub mod error;
pub mod http_path;
pub mod ids;
pub mod json;
pub mod model;
pub mod text;
pub mod policy;
pub mod authz_rules;
pub mod authz_envelope;
pub mod direct_policy;
pub mod direct_http;
pub mod direct_ssh;
pub mod connector;
pub mod direct_permission;
pub mod request_gate;
pub mod active_plans;
pub mod confirmation;
pub mod listing;
pub mod text_order;
pub mod account_catalog;
pub mod account_page;
pub mod connector_state;
pub mod sessions;
pub mod http_safety;
pub mod web;
pub mod permission_desk;
pub mod unlock;
pub mod window;
pub mod frame;
pub mod canonical;
pub mod json_text;
pub mod catalog_revision;
pub mod admission;
pub mod native_wait;
pub mod broker;
pub mod native_ui;
