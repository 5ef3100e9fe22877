//! Core logic of a strategy and service orchestrator for a local
//! traffic-bypass tool: strategy storage and discovery, argument-template
//! expansion, conversion of legacy batch scripts, service lifecycle
//! decisions, remote-sync comparisons, and a marker-delimited merge engine
//! for the system hosts file.
//!
//! Everything here is pure computation over plain values; reading files,
//! network fetches, the OS service manager and the system configuration
//! store are driven by a thin unverified shell around this crate.

use vstd::prelude::*;

pub mod args;
pub mod hosts;
pub mod paths;
pub mod proxy;
pub mod service;
pub mod settings;
pub mod strategy;
pub mod sync;
pub mod text;

verus! {

/// True when a directory entry found at the legacy location is present and
/// really is a directory, i.e. when the legacy-folder migration must run.
pub fn check_legacy_folder(exists: bool, is_dir: bool) -> (r: bool)
    ensures
        r == (exists && is_dir),
{
    exists && is_dir
}

/// A log line as the sink receives it: the timestamp in brackets, a space,
/// the message.
pub fn log(time: &str, text: &str) -> (r: String)
    ensures
        r@ == seq!['['] + time@ + "] "@ + text@,
{
    let mut out: Vec<char> = Vec::new();
    out.push('[');
    let t = text::chars_of(time);
    text::push_all(&mut out, &t);
    let mid = text::chars_of("] ");
    text::push_all(&mut out, &mid);
    let m = text::chars_of(text);
    text::push_all(&mut out, &m);
    proof {
        assert(out@ =~= seq!['['] + time@ + "] "@ + text@);
    }
    text::string_from_chars(out)
}

} // verus!
