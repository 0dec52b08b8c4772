//! The network of a VM: the sockets that it goes through, and waiting for them.
use vstd::prelude::*;

use crate::paths;
use crate::text;

verus! {

/// The socket of the proxy that a VM's network goes through.
pub fn gvproxy_socket(run_dir: &str) -> (p: String)
    ensures
        p@ == paths::joined(run_dir@, "gvproxy.sock"@),
{
    paths::join(run_dir, "gvproxy.sock")
}

/// The log of that proxy.
pub fn gvproxy_log(run_dir: &str) -> (p: String)
    ensures
        p@ == paths::joined(run_dir@, "gvproxy.log"@),
{
    paths::join(run_dir, "gvproxy.log")
}

/// The socket that the hypervisor makes beside that of the proxy.
pub open spec fn krun_socket_of(socket: Seq<char>) -> Option<Seq<char>> {
    match (paths::parent_of(socket), paths::name_of(socket)) {
        (Some(parent), Some(name)) => Some(paths::joined(parent, name + "-krun.sock"@)),
        _ => None,
    }
}

/// The socket that the hypervisor makes beside that of the proxy. It is removed with it.
pub fn krun_socket(socket: &str) -> (r: Option<String>)
    ensures
        text::opt_string(r) == krun_socket_of(socket@),
{
    match (paths::parent(socket), paths::file_name(socket)) {
        (Some(parent), Some(name)) => {
            let mut own: String = name;
            own.append("-krun.sock");
            Some(paths::join(parent.as_str(), own.as_str()))
        },
        _ => None,
    }
}

/// The address and the gateway that a guest is told: none, so that it takes the ones that
/// it has for the proxy.
pub fn guest_env() -> (r: (String, String))
    ensures
        r.0@.len() == 0,
        r.1@.len() == 0,
{
    (String::new(), String::new())
}

/// How long the proxy may take to make its socket, in milliseconds.
pub const GVPROXY_WAIT_MS: u64 = 30000;

/// What is done while a path is waited for.
#[derive(Clone, Copy, PartialEq, Eq, Structural, Debug)]
pub enum WaitStep {
    Found,
    TimedOut,
    /// Let another thread run, then look again.
    Yield,
    /// Look again at once.
    Spin,
}

/// What is done while a path is waited for. `attempts` counts the looks. Nothing sleeps:
/// a nested guest may not be woken.
pub fn wait_for_path_step(attempts: &mut u64, visible: bool, elapsed_ms: u64, timeout_ms: u64) -> (r:
    WaitStep)
    ensures
        *final(attempts) == (if visible || elapsed_ms >= timeout_ms {
            *old(attempts) as int
        } else if *old(attempts) == u64::MAX {
            0
        } else {
            *old(attempts) + 1
        }),
        r == (if visible {
            WaitStep::Found
        } else if elapsed_ms >= timeout_ms {
            WaitStep::TimedOut
        } else if *final(attempts) % 128 == 0 {
            WaitStep::Yield
        } else {
            WaitStep::Spin
        }),
{
    if visible {
        return WaitStep::Found;
    }
    if elapsed_ms >= timeout_ms {
        return WaitStep::TimedOut;
    }
    if *attempts == u64::MAX {
        *attempts = 0;
    } else {
        *attempts = *attempts + 1;
    }
    if *attempts % 128 == 0 {
        WaitStep::Yield
    } else {
        WaitStep::Spin
    }
}

/// The message for a path that did not come.
pub fn wait_timeout_message(path: &str) -> (m: String)
    ensures
        m@ == "timed out waiting for "@ + path@,
{
    let mut m: String = "timed out waiting for ".to_owned();
    m.append(path);
    m
}

/// Whether a path is there: it can be looked up, or its directory lists it.
pub fn path_is_visible(path: &str, found: bool, listed: &Vec<String>) -> (r: bool)
    ensures
        r == (found || (paths::parent_of(path@) is Some && paths::name_of(path@) is Some
            && text::views(listed@).contains(paths::name_of(path@)->Some_0))),
{
    if found {
        return true;
    }
    let name: String = match (paths::parent(path), paths::file_name(path)) {
        (Some(_), Some(name)) => name,
        _ => {
            return false;
        },
    };
    let ghost all = text::views(listed@);
    let mut i: usize = 0;
    while i < listed.len()
        invariant
            i <= listed@.len(),
            all == text::views(listed@),
            !found,
            paths::parent_of(path@) is Some,
            paths::name_of(path@) == Some(name@),
            forall|k: int| 0 <= k < i ==> #[trigger] all[k] != name@,
        decreases listed@.len() - i,
    {
        if text::same(listed[i].as_str(), name.as_str()) {
            assert(all[i as int] == name@);
            return true;
        }
        i = i + 1;
    }
    false
}

/// How often a socket is tried that another process may still have.
pub const BIND_ATTEMPTS: u32 = 20;

/// What came of making a socket.
#[derive(Clone, Copy, PartialEq, Eq, Structural, Debug)]
pub enum BindSeen {
    Bound,
    InUse,
    Failed,
}

/// What is done after a socket was to be made.
#[derive(Clone, Copy, PartialEq, Eq, Structural, Debug)]
pub enum BindStep {
    Use,
    /// Try again after a moment.
    Again { attempt: u32 },
    Fail,
}

/// What is done after a socket was to be made.
pub fn bind_step(attempt: u32, seen: BindSeen) -> (r: BindStep)
    ensures
        r == (match seen {
            BindSeen::Bound => BindStep::Use,
            BindSeen::Failed => BindStep::Fail,
            BindSeen::InUse => if attempt < BIND_ATTEMPTS - 1 {
                BindStep::Again { attempt: (attempt + 1) as u32 }
            } else {
                BindStep::Fail
            },
        }),
        r matches BindStep::Again { attempt: n } ==> n == attempt + 1 && n < 20,
        r is Again <==> seen is InUse && attempt < 19,
        r is Use <==> seen is Bound,
{
    match seen {
        BindSeen::Bound => BindStep::Use,
        BindSeen::Failed => BindStep::Fail,
        BindSeen::InUse => if attempt < BIND_ATTEMPTS - 1 {
            BindStep::Again { attempt: attempt + 1 }
        } else {
            BindStep::Fail
        },
    }
}

/// The socket for the hypervisor lies beside the other, under its name with `-krun.sock`
/// behind; there is one exactly where the path has a directory and a name.
pub proof fn lemma_krun_socket_lies_beside(socket: Seq<char>)
    ensures
        krun_socket_of(socket) is Some <==> paths::parent_of(socket) is Some && paths::name_of(
            socket,
        ) is Some,
        krun_socket_of(socket) matches Some(s) ==> paths::components(s) == paths::components(
            socket,
        ).drop_last().push(paths::name_of(socket)->Some_0 + "-krun.sock"@),
{
    if let Some(dir) = paths::parent_of(socket) {
        if let Some(name) = paths::name_of(socket) {
            reveal_strlit("-krun.sock");
            let full = name + "-krun.sock"@;
            paths::lemma_components_are_parts(socket);
            paths::lemma_parent_and_name(socket);
            let parts = paths::components(socket);
            assert(parts[parts.len() - 1] == name);
            assert(!full.contains('/')) by {
                if full.contains('/') {
                    let k = choose|k: int| 0 <= k < full.len() && full[k] == '/';
                    if k < name.len() {
                        assert(name[k] == '/');
                    }
                }
            }
            assert(full.len() > 9);
            paths::lemma_name_in_directory(dir, full);
        }
    }
}

} // verus!
