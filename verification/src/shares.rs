//! The host's directories as the guest sees them.
use vstd::prelude::*;

use crate::paths;
use crate::text;

verus! {

/// Where the guest sees the user's home: where the host has it.
pub fn guest_home(host_home: &str) -> (s: String)
    ensures
        s@ == host_home@,
{
    host_home.to_owned()
}

/// Where the guest sees the working directory: where the host has it.
pub fn guest_cwd(cwd: &str) -> (s: String)
    ensures
        s@ == cwd@,
{
    cwd.to_owned()
}

/// What a command may write to below the home: the working directory where it lies there.
pub open spec fn home_writes(cwd: Seq<char>, home: Seq<char>) -> Seq<Seq<char>> {
    match paths::relative_to(cwd, home) {
        None => Seq::empty(),
        Some(relative) => if relative.len() == 0 {
            seq!["."@]
        } else {
            seq![relative]
        },
    }
}

/// What a command may write to below the home is the working directory and nothing else: a
/// single entry that leads from the home to it where it lies there, and no entry where it
/// lies elsewhere.
pub proof fn lemma_home_writes(cwd: Seq<char>, home: Seq<char>)
    ensures
        (exists|rest: Seq<Seq<char>>|
            paths::components(cwd) == #[trigger] (paths::components(home) + rest)) ==> {
            &&& home_writes(cwd, home).len() == 1
            &&& (home_writes(cwd, home)[0] == "."@ && paths::components(cwd) == paths::components(
                home,
            )) || paths::components(home) + paths::components(home_writes(cwd, home)[0])
                == paths::components(cwd)
        },
        !(exists|rest: Seq<Seq<char>>|
            paths::components(cwd) == #[trigger] (paths::components(home) + rest)) ==> home_writes(
            cwd,
            home,
        ).len() == 0,
{
    paths::lemma_relative(cwd, home);
}

/// What a command may write to below the home, relative to it.
pub fn home_write_allowlist(cwd: &str, host_home: &str) -> (r: Vec<String>)
    ensures
        text::views(r@) == home_writes(cwd@, host_home@),
        paths::lies_in(cwd@, host_home@) ==> r@.len() == 1 && ((r@[0]@ == "."@
            && paths::components(cwd@) == paths::components(host_home@)) || paths::components(
            host_home@,
        ) + paths::components(r@[0]@) == paths::components(cwd@)),
        !paths::lies_in(cwd@, host_home@) ==> r@.len() == 0,
{
    proof {
        paths::lemma_relative(cwd@, host_home@);
    }
    let mut r: Vec<String> = Vec::new();
    if let Some(relative) = paths::strip_prefix(cwd, host_home) {
        if relative.as_str().is_empty() {
            r.push(".".to_owned());
        } else {
            r.push(relative);
        }
    }
    assert(text::views(r@) =~= home_writes(cwd@, host_home@));
    r
}

/// What a command may write to below a working directory outside the home: all of it.
pub fn cwd_write_allowlist() -> (r: Vec<String>)
    ensures
        text::views(r@) == seq!["."@],
{
    let mut r: Vec<String> = Vec::new();
    r.push(".".to_owned());
    assert(text::views(r@) =~= seq!["."@]);
    r
}

/// Where an instance keeps what a guest has written over or hidden of the host's files.
pub fn host_share_state_root(layout: &paths::Layout) -> (p: String)
    ensures
        p@ == paths::joined(layout.instance_dir@, "host-share-state"@),
{
    paths::join(layout.instance_dir.as_str(), "host-share-state")
}

/// Where an instance keeps that for one share.
pub fn host_share_unshare_dir(layout: &paths::Layout, tag: &str) -> (p: String)
    ensures
        p@ == paths::joined(paths::joined(layout.instance_dir@, "host-share-state"@), tag@),
{
    paths::join(host_share_state_root(layout).as_str(), tag)
}

/// A share that holds the working directory, and what hides it there.
#[derive(Debug, PartialEq, Eq)]
pub struct ShareState {
    pub share_root: String,
    /// The hidden directory, relative to the share, that the working directory is or lies
    /// in.
    pub covering_whiteout: Option<String>,
}

/// Why a command cannot start in its working directory.
#[derive(Debug, PartialEq, Eq)]
pub enum CwdError {
    Missing { cwd: String },
    Hidden { cwd: String, hidden: String },
}

impl CwdError {
    /// The message shown to the user.
    pub open spec fn text(self) -> Seq<char> {
        match self {
            CwdError::Missing { cwd } => "working directory does not exist on macOS: "@ + cwd@,
            CwdError::Hidden { cwd, hidden } => "working directory is hidden by host-share copy-on-write state before the command can start: "@
                + cwd@ + "\nhidden path: "@ + hidden@ + "\ninspect: lnx fs unshare "@ + cwd@
                + "\nrestore visibility: lnx fs unshare --remove "@ + hidden@,
        }
    }

    /// The message shown to the user.
    pub fn message(&self) -> (m: String)
        ensures
            m@ == self.text(),
    {
        match self {
            CwdError::Missing { cwd } => {
                let mut m: String = "working directory does not exist on macOS: ".to_owned();
                m.append(cwd.as_str());
                m
            },
            CwdError::Hidden { cwd, hidden } => {
                let mut m: String =
                    "working directory is hidden by host-share copy-on-write state before the command can start: ".to_owned();
                m.append(cwd.as_str());
                m.append("\nhidden path: ");
                m.append(hidden.as_str());
                m.append("\ninspect: lnx fs unshare ");
                m.append(cwd.as_str());
                m.append("\nrestore visibility: lnx fs unshare --remove ");
                m.append(hidden.as_str());
                m
            },
        }
    }
}

/// The first thing that hides the working directory, as a path of the host.
pub open spec fn hidden_by(shares: Seq<ShareState>) -> Option<Seq<char>>
    decreases shares.len(),
{
    if shares.len() == 0 {
        None
    } else {
        match shares[0].covering_whiteout {
            Some(covering) => Some(paths::joined(shares[0].share_root@, covering@)),
            None => hidden_by(shares.skip(1)),
        }
    }
}

/// Checks that a command can start in its working directory: it is there, and the guest
/// has not hidden it. `shares` are the shares that hold it, in the order they are looked
/// at.
pub fn preflight_host_share_cwd_with_home(
    cwd: &str,
    no_host_shares: bool,
    cwd_exists: bool,
    shares: &Vec<ShareState>,
) -> (r: Result<(), CwdError>)
    ensures
        if no_host_shares {
            r is Ok
        } else if !cwd_exists {
            r matches Err(CwdError::Missing { cwd: d }) && d@ == cwd@
        } else {
            match hidden_by(shares@) {
                Some(path) => r matches Err(CwdError::Hidden { cwd: d, hidden }) && d@ == cwd@
                    && hidden@ == path,
                None => r is Ok,
            }
        },
{
    if no_host_shares {
        return Ok(());
    }
    if !cwd_exists {
        return Err(CwdError::Missing { cwd: cwd.to_owned() });
    }
    let mut i: usize = 0;
    assert(shares@.skip(0) =~= shares@);
    while i < shares.len()
        invariant
            i <= shares@.len(),
            !no_host_shares,
            cwd_exists,
            hidden_by(shares@) == hidden_by(shares@.skip(i as int)),
        decreases shares@.len() - i,
    {
        proof {
            assert(shares@.skip(i as int)[0] == shares@[i as int]);
            assert(shares@.skip(i as int).skip(1) =~= shares@.skip(i + 1));
        }
        if let Some(covering) = &shares[i].covering_whiteout {
            let hidden: String = paths::join(shares[i].share_root.as_str(), covering.as_str());
            return Err(CwdError::Hidden { cwd: cwd.to_owned(), hidden });
        }
        i = i + 1;
    }
    assert(shares@.skip(i as int) =~= Seq::<ShareState>::empty());
    Ok(())
}

/// A working directory is hidden exactly where one of its shares has it covered, and then
/// by the first that does.
pub proof fn lemma_hidden_by(shares: Seq<ShareState>)
    ensures
        match hidden_by(shares) {
            Some(path) => exists|i: int|
                0 <= i < shares.len() && ((#[trigger] shares[i]).covering_whiteout matches Some(c)
                    && path == paths::joined(shares[i].share_root@, c@)) && (forall|j: int|
                    0 <= j < i ==> (#[trigger] shares[j]).covering_whiteout is None),
            None => forall|i: int|
                0 <= i < shares.len() ==> (#[trigger] shares[i]).covering_whiteout is None,
        },
    decreases shares.len(),
{
    if shares.len() > 0 && shares[0].covering_whiteout is None {
        let rest = shares.skip(1);
        lemma_hidden_by(rest);
        match hidden_by(rest) {
            Some(path) => {
                let i = choose|i: int|
                    0 <= i < rest.len() && ((#[trigger] rest[i]).covering_whiteout matches Some(c)
                        && path == paths::joined(rest[i].share_root@, c@)) && (forall|j: int|
                        0 <= j < i ==> (#[trigger] rest[j]).covering_whiteout is None);
                assert(shares[i + 1] == rest[i]);
                assert forall|j: int| 0 <= j < i + 1 implies (
                #[trigger] shares[j]).covering_whiteout is None by {
                    if j > 0 {
                        assert(rest[j - 1] == shares[j]);
                    }
                }
            },
            None => {
                assert forall|i: int| 0 <= i < shares.len() implies (
                #[trigger] shares[i]).covering_whiteout is None by {
                    if i > 0 {
                        assert(rest[i - 1] == shares[i]);
                    }
                }
            },
        }
    } else if shares.len() > 0 {
        assert(shares[0].covering_whiteout is Some);
    }
}

} // verus!
