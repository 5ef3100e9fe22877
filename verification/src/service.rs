//! The service lifecycle controller: strategy resolution by position, the
//! fixed cleanup set, the install command line, and the persisted pointer
//! to the strategy last started.

use vstd::prelude::*;

use crate::text::{chars_of, push_all, string_from_chars};

verus! {

/// The arguments of a start request: a one-based position in the strategy
/// listing and an optional ipset selector.
pub struct StartServiceArgs {
    /// One-based position in the current strategy listing.
    pub index: i32,
    /// The ipset selector, if any.
    pub ipset_config: Option<String>,
}

/// The sentinel shown when no strategy was ever started.
pub open spec fn absent_strategy() -> Seq<char> {
    "Отсутствует"@
}

/// The strategy at a one-based position of the listing; nothing when the
/// position is out of range.
pub open spec fn resolved_strategy(names: Seq<Seq<char>>, index: int) -> Option<Seq<char>> {
    if 1 <= index <= names.len() {
        Some(names[index - 1])
    } else {
        None
    }
}

/// Resolve a one-based index against the current strategy listing.  An
/// index of zero, a negative one, and one past the end all resolve to
/// nothing.
pub fn resolve_strategy(list: &Vec<String>, index: i32) -> (r: Option<String>)
    ensures
        match r {
            Some(name) => resolved_strategy(list.deep_view(), index as int) == Some(name@),
            None => resolved_strategy(list.deep_view(), index as int) is None,
        },
{
    if index < 1 {
        return None;
    }
    let idx = (index - 1) as usize;
    if idx >= list.len() {
        return None;
    }
    proof {
        assert(list.deep_view()[idx as int] == list@[idx as int]@);
    }
    Some(list[idx].clone())
}

/// An out-of-range index resolves to no strategy at all.
pub proof fn lemma_bad_index_resolves_nothing(names: Seq<Seq<char>>, index: int)
    requires
        index <= 0 || index > names.len(),
    ensures
        resolved_strategy(names, index) is None,
{
}

/// The display form of the persisted pointer: the stored name, or the
/// absent sentinel when nothing was ever stored.
pub fn get_strategy(stored: Option<String>) -> (r: String)
    ensures
        match stored {
            Some(name) => r@ == name@,
            None => r@ == absent_strategy(),
        },
{
    match stored {
        Some(name) => name,
        None => String::from_str("Отсутствует"),
    }
}

/// The services removed by every stop, in order: the kernel drivers the
/// bypass binary depends on, then the bypass service itself.
pub fn service_cleanup_names() -> (r: Vec<String>)
    ensures
        r.deep_view() == seq!["WinDivert"@, "WinDivert14"@, "zapret"@],
{
    let mut out: Vec<String> = Vec::new();
    out.push(String::from_str("WinDivert"));
    out.push(String::from_str("WinDivert14"));
    out.push(String::from_str("zapret"));
    proof {
        assert(out.deep_view() =~~= seq!["WinDivert"@, "WinDivert14"@, "zapret"@]);
    }
    out
}

/// The shell command that installs the service with the binary and its
/// finalized arguments as one command line.
pub fn service_install_command(bin_path: &str, final_args: &str) -> (r: String)
    ensures
        r@ == "New-Service -Name 'zapret' -BinaryPathName '\""@ + bin_path@ + "\" "@ + final_args@
            + "' -DisplayName 'zapret' -StartupType Automatic"@,
{
    let mut out = chars_of("New-Service -Name 'zapret' -BinaryPathName '\"");
    let b = chars_of(bin_path);
    push_all(&mut out, &b);
    let mid = chars_of("\" ");
    push_all(&mut out, &mid);
    let a = chars_of(final_args);
    push_all(&mut out, &a);
    let tailtext = chars_of("' -DisplayName 'zapret' -StartupType Automatic");
    push_all(&mut out, &tailtext);
    proof {
        assert(out@ =~= "New-Service -Name 'zapret' -BinaryPathName '\""@ + bin_path@ + "\" "@
            + final_args@ + "' -DisplayName 'zapret' -StartupType Automatic"@);
    }
    string_from_chars(out)
}

/// The service lifecycle state: whether the service runs and under which
/// strategy, and the persisted pointer to the strategy last started
/// successfully.  The surrounding shell performs the operating-system
/// calls and reports their outcomes to these transitions.
pub struct ServiceController {
    /// The strategy the running service was started with, if it runs.
    pub running: Option<String>,
    /// The persisted pointer; nothing when no strategy was ever started.
    pub pointer: Option<String>,
}

impl ServiceController {
    /// A controller over the stored pointer, with the service stopped.
    pub fn new(pointer: Option<String>) -> (r: ServiceController)
        ensures
            r.running is None,
            r.pointer == pointer,
    {
        ServiceController { running: None, pointer }
    }

    /// Stopping always succeeds and never touches the pointer: the cleanup
    /// itself is unconditional and best-effort.
    pub fn stop(&mut self)
        ensures
            final(self).running is None,
            final(self).pointer == old(self).pointer,
    {
        self.running = None;
    }

    /// Begin a start: the service is stopped first, then the index is
    /// resolved against the given listing.  An out-of-range index aborts
    /// the start with the pointer untouched and nothing to install.
    pub fn begin_start(&mut self, list: &Vec<String>, index: i32) -> (r: Option<String>)
        ensures
            final(self).running is None,
            final(self).pointer == old(self).pointer,
            match r {
                Some(name) => resolved_strategy(list.deep_view(), index as int) == Some(name@),
                None => resolved_strategy(list.deep_view(), index as int) is None,
            },
    {
        self.stop();
        resolve_strategy(list, index)
    }

    /// Record the outcome of the install-and-start attempt: on success the
    /// service runs under the strategy and the pointer moves to it; on
    /// failure both stay as the preceding stop left them.
    pub fn finish_start(&mut self, name: String, install_ok: bool)
        ensures
            install_ok ==> final(self).running == Some(name) && final(self).pointer == Some(name),
            !install_ok ==> final(self).running == old(self).running && final(self).pointer == old(
                self,
            ).pointer,
    {
        if install_ok {
            self.running = Some(name.clone());
            self.pointer = Some(name);
        }
    }
}

} // verus!
