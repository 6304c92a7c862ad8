//! Runtime configuration: the device list, the scrape listener address and
//! the two timing knobs. The surrounding binary parses flags and environment
//! variables into this plain struct.

use vstd::prelude::*;
use crate::text::{
    find_str, spec_find, spec_starts_with, spec_uint_string, starts_with_str, uint_to_string,
};
use vstd::string::StrSliceExecFns;
use vstd::string::StringExecFns;

verus! {

/// Exporter configuration.
#[derive(Debug, Clone)]
pub struct Config {
    /// Device base URLs.
    pub hosts: Vec<String>,
    /// Optional device display names, same order as `hosts`.
    pub names: Option<Vec<String>>,
    /// Port the metrics listener binds.
    pub port: u16,
    /// Address the metrics listener binds.
    pub bind: String,
    /// Poll interval in seconds.
    pub poll_interval: u64,
    /// Per-request HTTP timeout in seconds.
    pub http_timeout: u64,
    /// Log level name.
    pub log_level: String,
}

/// The duration `Duration::from_secs` builds for a second count.
pub uninterp spec fn duration_from_secs(secs: u64) -> core::time::Duration;

/// Relies on `core::time::Duration::from_secs`: the result depends on the
/// second count alone.
pub assume_specification[ core::time::Duration::from_secs ](secs: u64) -> (r:
    core::time::Duration)
    ensures
        r == duration_from_secs(secs),
;

/// A sequence with every leading occurrence of a non-empty prefix removed.
pub open spec fn spec_strip_all(u: Seq<char>, p: Seq<char>) -> Seq<char>
    decreases u.len(),
{
    if p.len() > 0 && spec_starts_with(u, p) {
        spec_strip_all(u.skip(p.len() as int), p)
    } else {
        u
    }
}

/// The device name in a URL: the text after any `http://` or `https://`
/// scheme prefix, up to the first colon.
pub open spec fn spec_extract_device_name(u: Seq<char>) -> Seq<char> {
    let stripped = spec_strip_all(spec_strip_all(u, "http://"@), "https://"@);
    match spec_find(stripped, ":"@) {
        Some(pos) => stripped.take(pos),
        None => stripped,
    }
}

/// Remove every leading occurrence of a prefix.
fn strip_all<'a>(u: &'a str, p: &str) -> (r: &'a str)
    requires
        p@.len() > 0,
    ensures
        r@ == spec_strip_all(u@, p@),
{
    let pl = p.unicode_len();
    let mut cur: &str = u;
    while starts_with_str(cur, p)
        invariant
            p@.len() == pl,
            pl > 0,
            spec_strip_all(u@, p@) == spec_strip_all(cur@, p@),
        decreases cur@.len(),
    {
        let cl = cur.unicode_len();
        cur = cur.substring_char(pl, cl);
    }
    cur
}

/// Extract a display name from a device URL: strip the scheme, keep what
/// stands before the first colon.
pub fn extract_device_name(url: &str) -> (r: String)
    ensures
        r@ == spec_extract_device_name(url@),
{
    proof {
        reveal_strlit("http://");
        reveal_strlit("https://");
    }
    let s1 = strip_all(url, "http://");
    let s2 = strip_all(s1, "https://");
    match find_str(s2, ":") {
        Some(pos) => {
            let cut = s2.substring_char(0, pos);
            proof {
                assert(cut@ =~= s2@.take(pos as int));
            }
            String::from_str(cut)
        },
        None => String::from_str(s2),
    }
}

impl Config {
    /// The listener address: `bind:port`.
    pub fn metrics_bind_address(&self) -> (r: String)
        ensures
            r@ == self.bind@ + ":"@ + spec_uint_string(self.port as nat),
    {
        let mut s = self.bind.clone();
        s.append(":");
        let p = uint_to_string(self.port as u64);
        s.append(p.as_str());
        s
    }

    /// The poll interval as a duration.
    pub fn poll_interval_duration(&self) -> (r: core::time::Duration)
        ensures
            r == duration_from_secs(self.poll_interval),
    {
        core::time::Duration::from_secs(self.poll_interval)
    }

    /// The HTTP timeout as a duration.
    pub fn http_timeout_duration(&self) -> (r: core::time::Duration)
        ensures
            r == duration_from_secs(self.http_timeout),
    {
        core::time::Duration::from_secs(self.http_timeout)
    }

    /// Pair every host with its display name: the configured name at the
    /// same position when one is given, else the name extracted from the
    /// host URL.
    pub fn get_device_names(&self) -> (r: Vec<(String, String)>)
        ensures
            r@.len() == self.hosts@.len(),
            forall|i: int|
                0 <= i < r@.len() ==> (#[trigger] r@[i]).0@ == self.hosts@[i]@ && r@[i].1@
                    == match self.names {
                    Some(ns) => if i < ns@.len() {
                        ns@[i]@
                    } else {
                        spec_extract_device_name(self.hosts@[i]@)
                    },
                    None => spec_extract_device_name(self.hosts@[i]@),
                },
    {
        let mut result: Vec<(String, String)> = Vec::new();
        let n = self.hosts.len();
        let mut idx: usize = 0;
        while idx < n
            invariant
                idx <= n,
                n == self.hosts@.len(),
                result@.len() == idx,
                forall|i: int|
                    0 <= i < idx ==> (#[trigger] result@[i]).0@ == self.hosts@[i]@ && result@[i].1@
                        == match self.names {
                        Some(ns) => if i < ns@.len() {
                            ns@[i]@
                        } else {
                            spec_extract_device_name(self.hosts@[i]@)
                        },
                        None => spec_extract_device_name(self.hosts@[i]@),
                    },
            decreases n - idx,
        {
            let host = &self.hosts[idx];
            let name: String = match &self.names {
                Some(ns) => {
                    if idx < ns.len() {
                        ns[idx].clone()
                    } else {
                        extract_device_name(host.as_str())
                    }
                },
                None => extract_device_name(host.as_str()),
            };
            result.push((host.clone(), name));
            idx += 1;
        }
        result
    }
}

} // verus!
