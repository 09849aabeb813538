//! Settings of the application icon cache.

use vstd::prelude::*;

use crate::text::{count_parse, parse_count};

verus! {

pub const DEFAULT_MAX_BYTES: u64 = 33_554_432;

pub const DEFAULT_POSITIVE_TTL_S: u64 = 86_400;

pub const DEFAULT_NEGATIVE_TTL_S: u64 = 3_600;

pub const DEFAULT_FETCH_TIMEOUT_MS: u64 = 3_000;

pub const DEFAULT_MAX_OBJECT_BYTES: usize = 524_288;

/// Cache size, how long found and missing icons are remembered, how long a
/// fetch may take, and the largest icon kept.
#[derive(Clone, Copy, Debug, PartialEq, Eq, Structural)]
pub struct IconCacheConfig {
    pub max_bytes: u64,
    pub positive_ttl_s: u64,
    pub negative_ttl_s: u64,
    pub fetch_timeout_ms: u64,
    pub max_object_bytes: usize,
}

/// A setting's value when it is a decimal number, else the default.
pub open spec fn setting_or(value: Option<Seq<char>>, default: u64) -> u64 {
    match value {
        Some(v) => match count_parse(v, u64::MAX as int) {
            Ok(n) => n,
            Err(_) => default,
        },
        None => default,
    }
}

fn setting(value: Option<&str>, default: u64) -> (r: u64)
    ensures
        r == setting_or(
            match value {
                Some(v) => Some(v@),
                None => None,
            },
            default,
        ),
{
    match value {
        Some(v) => match parse_count(v, u64::MAX) {
            Ok(n) => n,
            Err(_) => default,
        },
        None => default,
    }
}

pub open spec fn opt_view(value: Option<&str>) -> Option<Seq<char>> {
    match value {
        Some(v) => Some(v@),
        None => None,
    }
}

impl IconCacheConfig {
    /// The settings from their configured values (absent where unset); a
    /// value that is not a number, or an object size beyond `usize`, falls
    /// back to its default.
    pub fn from_settings(
        max_bytes: Option<&str>,
        positive_ttl_s: Option<&str>,
        negative_ttl_s: Option<&str>,
        fetch_timeout_ms: Option<&str>,
        max_object_bytes: Option<&str>,
    ) -> (r: IconCacheConfig)
        ensures
            r.max_bytes == setting_or(opt_view(max_bytes), DEFAULT_MAX_BYTES),
            r.positive_ttl_s == setting_or(opt_view(positive_ttl_s), DEFAULT_POSITIVE_TTL_S),
            r.negative_ttl_s == setting_or(opt_view(negative_ttl_s), DEFAULT_NEGATIVE_TTL_S),
            r.fetch_timeout_ms == setting_or(opt_view(fetch_timeout_ms), DEFAULT_FETCH_TIMEOUT_MS),
            r.max_object_bytes == match opt_view(max_object_bytes) {
                Some(v) => match count_parse(v, u64::MAX as int) {
                    Ok(n) => if n <= usize::MAX {
                        n as usize
                    } else {
                        DEFAULT_MAX_OBJECT_BYTES
                    },
                    Err(_) => DEFAULT_MAX_OBJECT_BYTES,
                },
                None => DEFAULT_MAX_OBJECT_BYTES,
            },
    {
        let object = match max_object_bytes {
            Some(v) => match parse_count(v, u64::MAX) {
                Ok(n) => if n <= usize::MAX as u64 {
                    n as usize
                } else {
                    DEFAULT_MAX_OBJECT_BYTES
                },
                Err(_) => DEFAULT_MAX_OBJECT_BYTES,
            },
            None => DEFAULT_MAX_OBJECT_BYTES,
        };
        IconCacheConfig {
            max_bytes: setting(max_bytes, DEFAULT_MAX_BYTES),
            positive_ttl_s: setting(positive_ttl_s, DEFAULT_POSITIVE_TTL_S),
            negative_ttl_s: setting(negative_ttl_s, DEFAULT_NEGATIVE_TTL_S),
            fetch_timeout_ms: setting(fetch_timeout_ms, DEFAULT_FETCH_TIMEOUT_MS),
            max_object_bytes: object,
        }
    }

    /// How long a fetched icon (`found`) or a missing one is remembered, in
    /// seconds.
    pub fn lifetime_s(&self, found: bool) -> (r: u64)
        ensures
            r == if found {
                self.positive_ttl_s
            } else {
                self.negative_ttl_s
            },
    {
        if found {
            self.positive_ttl_s
        } else {
            self.negative_ttl_s
        }
    }
}

impl Default for IconCacheConfig {
    /// The built-in settings.
    fn default() -> (r: IconCacheConfig)
        ensures
            r.max_bytes == DEFAULT_MAX_BYTES,
            r.positive_ttl_s == DEFAULT_POSITIVE_TTL_S,
            r.negative_ttl_s == DEFAULT_NEGATIVE_TTL_S,
            r.fetch_timeout_ms == DEFAULT_FETCH_TIMEOUT_MS,
            r.max_object_bytes == DEFAULT_MAX_OBJECT_BYTES,
    {
        IconCacheConfig {
            max_bytes: DEFAULT_MAX_BYTES,
            positive_ttl_s: DEFAULT_POSITIVE_TTL_S,
            negative_ttl_s: DEFAULT_NEGATIVE_TTL_S,
            fetch_timeout_ms: DEFAULT_FETCH_TIMEOUT_MS,
            max_object_bytes: DEFAULT_MAX_OBJECT_BYTES,
        }
    }
}

} // verus!
