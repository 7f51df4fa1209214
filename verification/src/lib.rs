//! Product-owned document core: protocol values, sessions, anchors, render buffers,
//! feature composition and worker framing, each with its contracts proved by Verus.

pub mod text;
pub mod bytes;
pub mod protocol;
pub mod engine;
pub mod session;
pub mod mock_engine;
pub mod app_core;
pub mod reconciliation;
pub mod anchors;
pub mod snapshot;
pub mod transport;
pub mod worker;
pub mod extension;
pub mod registry;
pub mod feature_host;
pub mod render_pool;
pub mod backed_pool;
pub mod ui_qualification;
pub mod file_backing;

use vstd::prelude::*;

verus! {

} // verus!
