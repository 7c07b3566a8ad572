//! Run configuration: which archives to try, with which passwords, how many
//! workers, and what to do after a success. The settings file itself is read
//! and deserialised outside the library; this module owns the types and the
//! normalisation rule for the worker count.

use vstd::prelude::*;

verus! {

/// Extraction behaviour settings.
pub struct ConfigSettings {
    pub delete_archive: bool,
    pub recursive_search: bool,
    pub threads: u8,
    pub dest: String,
    pub smart_mode: bool,
}

/// User-supplied password dictionary and watched folders.
pub struct UserConfig {
    pub passwords: Option<Vec<String>>,
    pub watch_folders: Option<Vec<String>>,
}

/// The whole run configuration.
pub struct Config {
    pub config: ConfigSettings,
    pub user: UserConfig,
}

/// Worker-thread count used when the configured value is out of range.
pub fn default_threads() -> (r: u8)
    ensures
        r == 4,
{
    4
}

/// A usable worker count: at least one worker, at most eight.
pub open spec fn threads_in_range(t: u8) -> bool {
    1 <= t <= 8
}

/// The normalisation rule for the configured worker count: a value outside
/// `1..=8` falls back to the default.
pub open spec fn normalized_threads(t: u8) -> u8 {
    if threads_in_range(t) {
        t
    } else {
        4
    }
}

/// Clamp a configured worker count into the accepted range.
pub fn normalize_threads(t: u8) -> (r: u8)
    ensures
        r == normalized_threads(t),
        threads_in_range(r),
{
    if t < 1 || t > 8 {
        default_threads()
    } else {
        t
    }
}

/// Apply the normalisation rule to a freshly parsed configuration: only the
/// worker count changes, and only when it is out of range.
pub fn normalize_config(c: &mut Config)
    ensures
        final(c).config.threads == normalized_threads(old(c).config.threads),
        threads_in_range(final(c).config.threads),
        final(c).config.delete_archive == old(c).config.delete_archive,
        final(c).config.recursive_search == old(c).config.recursive_search,
        final(c).config.dest == old(c).config.dest,
        final(c).config.smart_mode == old(c).config.smart_mode,
        final(c).user == old(c).user,
{
    c.config.threads = normalize_threads(c.config.threads);
}

} // verus!
