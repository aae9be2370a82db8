//! The values that options take when they are left out.

use vstd::prelude::*;

verus! {

pub const MAX_URI_BYTES: usize = 8_192;

pub const MAX_REQUEST_HEADERS: usize = 100;

pub const MAX_SINGLE_HEADER_BYTES: usize = 8_192;

pub const MAX_REQUEST_HEADER_BYTES: usize = 64 * 1024;

pub const MAX_REQUEST_BODY_BYTES: u64 = 16 * 1024 * 1024;

pub const DOWNSTREAM_HEADER_TIMEOUT_MS: u32 = 10_000;

pub const DOWNSTREAM_BODY_IDLE_TIMEOUT_MS: u32 = 60_000;

pub const UPSTREAM_CONNECT_TIMEOUT_MS: u32 = 5_000;

pub const UPSTREAM_READ_TIMEOUT_MS: u32 = 60_000;

pub const UPSTREAM_WRITE_TIMEOUT_MS: u32 = 60_000;

pub const DOWNSTREAM_KEEP_ALIVE_TIMEOUT_SECONDS: u32 = 75;

pub const HEALTH_CHECK_INTERVAL_MS: u32 = 5_000;

pub const STICKY_TTL_MS: u32 = 600_000;

pub const STICKY_MAX_ENTRIES: u32 = 20_000;

} // verus!
