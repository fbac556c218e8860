//! Server-driven UI state handling.
//!
//! Components carry their visible configuration in three competing places:
//! the request's query parameters, cookies persisted on the client, and the
//! state type's defaults. This crate holds the engine that reconciles them:
//! per-field resolution with strict precedence (query over cookie over
//! default, with a reserved sentinel that unsets a field), the persistence
//! policy that writes resolved values back to cookies, the URL builder that
//! composes bookmarkable links while preserving sibling components'
//! parameters, the bookmark-redirect decision that promotes cookie-only
//! state into the visible URL, and the startup component registry with its
//! collision check.

pub mod body;
pub mod client_helpers;
pub mod component;
pub mod decimal;
pub mod encoding;
pub mod params;
pub mod persist;
pub mod qs_form;
pub mod scalar;
pub mod state;
pub mod state_loader;
pub mod state_urls_middleware;
pub mod strutil;
pub mod url_builder;
pub mod view_state;
