//! What a client asks the guest to run: the command, who runs it, where, and with which
//! terminal and environment.
use vstd::prelude::*;

use crate::deterministic;
use crate::deterministic::DeterministicConfig;
use crate::digest;
use crate::protocol::Message;
use crate::stamps;
use crate::text;

verus! {

/// The user that runs commands in deterministic mode.
pub const DETERMINISTIC_EXEC_UID: u32 = 1000;

/// The group that runs commands in deterministic mode.
pub const DETERMINISTIC_EXEC_GID: u32 = 1000;

/// The name of that group.
pub const DETERMINISTIC_EXEC_GROUP: &'static str = "lnxuser";

/// The terminal of commands in deterministic mode.
pub const DETERMINISTIC_TERM: &'static str = "xterm-256color";

/// How many rows that terminal has.
pub const DETERMINISTIC_ROWS: u16 = 24;

/// How many columns that terminal has.
pub const DETERMINISTIC_COLS: u16 = 80;

/// A user of the host.
#[derive(Debug, PartialEq, Eq)]
pub struct HostUser {
    pub uid: u32,
    pub gid: u32,
    /// The name of the primary group; empty where the host knows none.
    pub group: String,
}

/// Who runs a command: root where that is asked for, a fixed user in deterministic mode,
/// and else the user of the host.
pub fn exec_identity(run_as_root: bool, deterministic: bool, host: HostUser) -> (r: (
    u32,
    u32,
    String,
))
    ensures
        run_as_root ==> r.0 == 0 && r.1 == 0 && r.2@.len() == 0,
        !run_as_root && deterministic ==> r.0 == DETERMINISTIC_EXEC_UID && r.1
            == DETERMINISTIC_EXEC_GID && r.2@ == DETERMINISTIC_EXEC_GROUP@,
        !run_as_root && !deterministic ==> r == (host.uid, host.gid, host.group),
        !run_as_root && deterministic ==> r.0 == 1000 && r.1 == 1000 && r.2@ == "lnxuser"@,
{
    if run_as_root {
        (0, 0, String::new())
    } else if deterministic {
        (DETERMINISTIC_EXEC_UID, DETERMINISTIC_EXEC_GID, DETERMINISTIC_EXEC_GROUP.to_owned())
    } else {
        (host.uid, host.gid, host.group)
    }
}

// ---------------------------------------------------------------------------
// The environment
// ---------------------------------------------------------------------------

/// The environment of a command in deterministic mode.
pub open spec fn fixed_env() -> Seq<(Seq<char>, Seq<char>)> {
    seq![
        ("TERM"@, DETERMINISTIC_TERM@),
        ("LANG"@, "C.UTF-8"@),
        ("LC_ALL"@, "C.UTF-8"@),
        ("TZ"@, "UTC"@),
    ]
}

/// The variables that are handed on by name.
pub open spec fn forwarded_names() -> Seq<Seq<char>> {
    seq![
        "TERM"@,
        "COLORTERM"@,
        "LANG"@,
        "LANGUAGE"@,
        "TZ"@,
        "NO_COLOR"@,
        "CLICOLOR"@,
        "CLICOLOR_FORCE"@,
    ]
}

/// The value of a variable: the first of that name.
pub open spec fn lookup(vars: Seq<(Seq<char>, Seq<char>)>, name: Seq<char>) -> Option<Seq<char>>
    decreases vars.len(),
{
    if vars.len() == 0 {
        None
    } else if vars[0].0 == name {
        Some(vars[0].1)
    } else {
        lookup(vars.skip(1), name)
    }
}

/// The named variables that are set to something.
pub open spec fn named_env(
    vars: Seq<(Seq<char>, Seq<char>)>,
    names: Seq<Seq<char>>,
) -> Seq<(Seq<char>, Seq<char>)>
    decreases names.len(),
{
    if names.len() == 0 {
        Seq::empty()
    } else {
        let rest = named_env(vars, names.drop_last());
        match lookup(vars, names.last()) {
            Some(value) => if value.len() > 0 {
                rest.push((names.last(), value))
            } else {
                rest
            },
            None => rest,
        }
    }
}

/// The environment with the locale variables added that are set to something and not yet
/// there.
pub open spec fn with_locale(
    env: Seq<(Seq<char>, Seq<char>)>,
    vars: Seq<(Seq<char>, Seq<char>)>,
) -> Seq<(Seq<char>, Seq<char>)>
    decreases vars.len(),
{
    if vars.len() == 0 {
        env
    } else {
        let rest = with_locale(env, vars.drop_last());
        let (name, value) = vars.last();
        if text::begins(name, "LC_"@) && value.len() > 0 && lookup(rest, name) is None {
            rest.push((name, value))
        } else {
            rest
        }
    }
}

/// The part of the host's environment that a command sees: the variables that are handed
/// on by name, the locale, and the host's time zone where none is set.
pub open spec fn forwarded_env(
    vars: Seq<(Seq<char>, Seq<char>)>,
    zone: Option<Seq<char>>,
) -> Seq<(Seq<char>, Seq<char>)> {
    let env = with_locale(named_env(vars, forwarded_names()), vars);
    match zone {
        Some(z) => if lookup(env, "TZ"@) is None {
            env.push(("TZ"@, z))
        } else {
            env
        },
        None => env,
    }
}

/// A variable has the value of an earlier place before that of the last.
pub proof fn lemma_lookup_last(vars: Seq<(Seq<char>, Seq<char>)>, name: Seq<char>)
    requires
        vars.len() > 0,
    ensures
        lookup(vars, name) == (match lookup(vars.drop_last(), name) {
            Some(v) => Some(v),
            None => if vars.last().0 == name {
                Some(vars.last().1)
            } else {
                None
            },
        }),
    decreases vars.len(),
{
    if vars.len() > 1 && vars[0].0 != name {
        lemma_lookup_last(vars.skip(1), name);
        assert(vars.skip(1).drop_last() =~= vars.drop_last().skip(1));
    } else if vars.len() == 1 {
        assert(vars.drop_last() =~= Seq::<(Seq<char>, Seq<char>)>::empty());
        assert(vars.skip(1) =~= Seq::<(Seq<char>, Seq<char>)>::empty());
    }
}

fn find<'a>(vars: &'a Vec<(String, String)>, name: &str) -> (r: Option<&'a str>)
    ensures
        text::opt_view(r) == lookup(stamps::pair_views(vars@), name@),
{
    let ghost all = stamps::pair_views(vars@);
    let mut i: usize = 0;
    assert(all.skip(0) =~= all);
    while i < vars.len()
        invariant
            i <= vars@.len(),
            all == stamps::pair_views(vars@),
            lookup(all, name@) == lookup(all.skip(i as int), name@),
        decreases vars@.len() - i,
    {
        proof {
            assert(all.skip(i as int)[0] == (vars@[i as int].0@, vars@[i as int].1@));
            assert(all.skip(i as int).skip(1) =~= all.skip(i + 1));
        }
        if text::same(vars[i].0.as_str(), name) {
            return Some(vars[i].1.as_str());
        }
        i = i + 1;
    }
    assert(all.skip(i as int) =~= Seq::<(Seq<char>, Seq<char>)>::empty());
    None
}

/// Adds a variable.
pub fn push_var(env: &mut Vec<(String, String)>, name: &str, value: &str)
    ensures
        stamps::pair_views(final(env)@) == stamps::pair_views(old(env)@).push((name@, value@)),
{
    let ghost before = stamps::pair_views(env@);
    env.push((name.to_owned(), value.to_owned()));
    assert(stamps::pair_views(env@) =~= before.push((name@, value@)));
}

/// Adds the named variables that are set to something.
pub fn push_named(
    env: &mut Vec<(String, String)>,
    vars: &Vec<(String, String)>,
    names: &Vec<&str>,
)
    ensures
        stamps::pair_views(final(env)@) == stamps::pair_views(old(env)@) + named_env(
            stamps::pair_views(vars@),
            Seq::new(names@.len(), |i: int| names@[i]@),
        ),
{
    let ghost all = Seq::new(names@.len(), |i: int| names@[i]@);
    let ghost before = stamps::pair_views(env@);
    let mut i: usize = 0;
    assert(all.take(0) =~= Seq::<Seq<char>>::empty());
    assert(before + Seq::<(Seq<char>, Seq<char>)>::empty() =~= before);
    while i < names.len()
        invariant
            i <= names@.len(),
            all == Seq::new(names@.len(), |k: int| names@[k]@),
            before == stamps::pair_views(old(env)@),
            stamps::pair_views(env@) == before + named_env(
                stamps::pair_views(vars@),
                all.take(i as int),
            ),
        decreases names@.len() - i,
    {
        let name: &str = names[i];
        proof {
            assert(all.take(i + 1).drop_last() =~= all.take(i as int));
            assert(all.take(i + 1).last() == name@);
        }
        if let Some(value) = find(vars, name) {
            if !value.is_empty() {
                let ghost had = stamps::pair_views(env@);
                push_var(env, name, value);
                assert(had.push((name@, value@)) =~= before + named_env(
                    stamps::pair_views(vars@),
                    all.take(i + 1),
                ));
            }
        }
        i = i + 1;
    }
    assert(all.take(i as int) =~= all);
}

/// Adds the locale variables that are set to something and not yet there.
pub fn push_locale(env: &mut Vec<(String, String)>, vars: &Vec<(String, String)>)
    ensures
        stamps::pair_views(final(env)@) == with_locale(
            stamps::pair_views(old(env)@),
            stamps::pair_views(vars@),
        ),
{
    let ghost before = stamps::pair_views(env@);
    let ghost all = stamps::pair_views(vars@);
    let mut i: usize = 0;
    assert(all.take(0) =~= Seq::<(Seq<char>, Seq<char>)>::empty());
    while i < vars.len()
        invariant
            i <= vars@.len(),
            all == stamps::pair_views(vars@),
            before == stamps::pair_views(old(env)@),
            stamps::pair_views(env@) == with_locale(before, all.take(i as int)),
        decreases vars@.len() - i,
    {
        let name: &str = vars[i].0.as_str();
        let value: &str = vars[i].1.as_str();
        proof {
            assert(all.take(i + 1).drop_last() =~= all.take(i as int));
            assert(all.take(i + 1).last() == (name@, value@));
        }
        if text::starts_with(name, "LC_") && !value.is_empty() && find(env, name).is_none() {
            push_var(env, name, value);
        }
        i = i + 1;
    }
    assert(all.take(i as int) =~= all);
}

/// The part of the host's environment that a command sees. `vars` is the environment of
/// the host and `zone` its time zone.
pub fn forwarded_exec_env(vars: &Vec<(String, String)>, zone: Option<&str>) -> (env: Vec<
    (String, String),
>)
    ensures
        stamps::pair_views(env@) == forwarded_env(stamps::pair_views(vars@), text::opt_view(zone)),
{
    let mut names: Vec<&str> = Vec::new();
    names.push("TERM");
    names.push("COLORTERM");
    names.push("LANG");
    names.push("LANGUAGE");
    names.push("TZ");
    names.push("NO_COLOR");
    names.push("CLICOLOR");
    names.push("CLICOLOR_FORCE");
    assert(Seq::new(names@.len(), |i: int| names@[i]@) =~= forwarded_names());
    let mut env: Vec<(String, String)> = Vec::new();
    push_named(&mut env, vars, &names);
    assert(stamps::pair_views(env@) =~= named_env(stamps::pair_views(vars@), forwarded_names()));
    push_locale(&mut env, vars);
    if let Some(z) = zone {
        if find(&env, "TZ").is_none() {
            push_var(&mut env, "TZ", z);
        }
    }
    env
}

/// The environment of a command: a fixed one in deterministic mode, and else what the
/// host hands on.
pub fn exec_env(deterministic: bool, vars: &Vec<(String, String)>, zone: Option<&str>) -> (env: Vec<
    (String, String),
>)
    ensures
        stamps::pair_views(env@) == (if deterministic {
            fixed_env()
        } else {
            forwarded_env(stamps::pair_views(vars@), text::opt_view(zone))
        }),
{
    if !deterministic {
        return forwarded_exec_env(vars, zone);
    }
    let mut env: Vec<(String, String)> = Vec::new();
    push_var(&mut env, "TERM", DETERMINISTIC_TERM);
    push_var(&mut env, "LANG", "C.UTF-8");
    push_var(&mut env, "LC_ALL", "C.UTF-8");
    push_var(&mut env, "TZ", "UTC");
    assert(stamps::pair_views(env@) =~= fixed_env());
    env
}

/// No variable is handed on twice where the host sets none twice by name: what a command
/// sees under a name that is handed on is the first value that the host has for it.
pub proof fn lemma_named_variables_are_the_hosts(
    vars: Seq<(Seq<char>, Seq<char>)>,
    names: Seq<Seq<char>>,
    name: Seq<char>,
)
    requires
        names.contains(name),
    ensures
        lookup(named_env(vars, names), name) == (match lookup(vars, name) {
            Some(value) => if value.len() > 0 {
                Some(value)
            } else {
                None
            },
            None => None,
        }),
    decreases names.len(),
{
    let front = names.drop_last();
    let rest = named_env(vars, front);
    let last = names.last();
    if front.contains(name) {
        lemma_named_variables_are_the_hosts(vars, front, name);
    } else {
        lemma_unnamed_is_absent(vars, front, name);
        let at = choose|i: int| 0 <= i < names.len() && names[i] == name;
        if at < front.len() {
            assert(front[at] == name);
        }
        assert(last == name);
    }
    if named_env(vars, names) != rest {
        let all = named_env(vars, names);
        lemma_lookup_last(all, name);
        assert(all.drop_last() =~= rest);
    }
}

/// A variable that is not handed on by its name is not there.
pub proof fn lemma_unnamed_is_absent(
    vars: Seq<(Seq<char>, Seq<char>)>,
    names: Seq<Seq<char>>,
    name: Seq<char>,
)
    requires
        !names.contains(name),
    ensures
        lookup(named_env(vars, names), name) is None,
    decreases names.len(),
{
    if names.len() > 0 {
        let front = names.drop_last();
        let rest = named_env(vars, front);
        if front.contains(name) {
            let i = choose|i: int| 0 <= i < front.len() && front[i] == name;
            assert(names[i] == name);
        }
        assert(names[names.len() - 1] != name);
        lemma_unnamed_is_absent(vars, front, name);
        if named_env(vars, names) != rest {
            let all = named_env(vars, names);
            lemma_lookup_last(all, name);
            assert(all.drop_last() =~= rest);
        }
    }
}

// ---------------------------------------------------------------------------
// The terminal
// ---------------------------------------------------------------------------

/// What the operating system says about the terminal: its size, where it answers.
pub open spec fn known_size(answered: bool, rows: u16, cols: u16) -> (u16, u16) {
    (
        if answered && rows > 0 {
            rows
        } else {
            24
        },
        if answered && cols > 0 {
            cols
        } else {
            80
        },
    )
}

/// The size of a terminal, with the usual size where it is not known.
pub fn terminal_size(answered: bool, rows: u16, cols: u16) -> (r: (u16, u16))
    ensures
        r == known_size(answered, rows, cols),
{
    let r: u16 = if answered && rows > 0 {
        rows
    } else {
        24
    };
    let c: u16 = if answered && cols > 0 {
        cols
    } else {
        80
    };
    (r, c)
}

/// Whether a command gets a terminal: where the client has one for its input and output,
/// but never in deterministic mode.
pub fn use_pty(deterministic: bool, stdin_is_tty: bool, stdout_is_tty: bool) -> (r: bool)
    ensures
        r == (!deterministic && stdin_is_tty && stdout_is_tty),
{
    !deterministic && stdin_is_tty && stdout_is_tty
}

/// A terminal, as the guest is told of it.
#[derive(Debug, PartialEq, Eq)]
pub struct Terminal {
    pub term: String,
    pub colorterm: String,
    pub rows: u16,
    pub cols: u16,
}

/// The terminal of a command: a fixed one in deterministic mode, that of the client where
/// it has one, and else none.
pub fn exec_terminal(
    deterministic: bool,
    pty: bool,
    term: Option<&str>,
    colorterm: Option<&str>,
    size: (u16, u16),
) -> (t: Terminal)
    ensures
        deterministic ==> t.term@ == DETERMINISTIC_TERM@ && t.colorterm@.len() == 0 && t.rows
            == DETERMINISTIC_ROWS && t.cols == DETERMINISTIC_COLS,
        !deterministic && pty ==> {
            &&& t.term@ == (match text::opt_view(term) {
                Some(name) => if name.len() > 0 && name != "dumb"@ {
                    name
                } else {
                    "xterm-256color"@
                },
                None => "xterm-256color"@,
            })
            &&& t.colorterm@ == (match text::opt_view(colorterm) {
                Some(value) => value,
                None => Seq::<char>::empty(),
            })
            &&& t.rows == size.0
            &&& t.cols == size.1
        },
        !deterministic && !pty ==> t.term@.len() == 0 && t.colorterm@.len() == 0 && t.rows == 1
            && t.cols == 1,
        deterministic ==> t.term@ == "xterm-256color"@ && t.rows == 24 && t.cols == 80,
{
    if deterministic {
        return Terminal {
            term: DETERMINISTIC_TERM.to_owned(),
            colorterm: String::new(),
            rows: DETERMINISTIC_ROWS,
            cols: DETERMINISTIC_COLS,
        };
    }
    if !pty {
        return Terminal { term: String::new(), colorterm: String::new(), rows: 1, cols: 1 };
    }
    let name: String = match term {
        Some(name) => if !name.is_empty() && !text::same(name, "dumb") {
            name.to_owned()
        } else {
            "xterm-256color".to_owned()
        },
        None => "xterm-256color".to_owned(),
    };
    let color: String = match colorterm {
        Some(value) => value.to_owned(),
        None => String::new(),
    };
    Terminal { term: name, colorterm: color, rows: size.0, cols: size.1 }
}

// ---------------------------------------------------------------------------
// The request
// ---------------------------------------------------------------------------

/// A request id of the host: its clock, mixed with the process that asks.
pub fn new_request_id(unix_nanos: u128, pid: u32) -> (id: u64)
    ensures
        id == ((unix_nanos % 0x1_0000_0000_0000_0000) as u64) ^ (pid as u64) << 32u64,
{
    let low: u64 = (unix_nanos % 0x1_0000_0000_0000_0000) as u64;
    let high: u64 = (pid as u64) << 32u64;
    low ^ high
}

/// What a client asks the guest to run.
#[derive(Debug, PartialEq, Eq)]
pub struct ExecRequest<'a> {
    pub command: &'a Vec<String>,
    pub cwd: &'a str,
    pub no_host_shares: bool,
    pub run_as_root: bool,
    pub deterministic: Option<&'a DeterministicConfig>,
    pub instance: &'a str,
    pub ingress_domain: &'a str,
}

/// What is known of the client.
#[derive(Debug, PartialEq, Eq)]
pub struct ClientHost<'a> {
    pub user: HostUser,
    pub vars: &'a Vec<(String, String)>,
    pub zone: Option<&'a str>,
    pub stdin_is_tty: bool,
    pub stdout_is_tty: bool,
    pub term: Option<&'a str>,
    pub colorterm: Option<&'a str>,
    pub size: (u16, u16),
    /// An id that no other request of the host has.
    pub fresh_id: u64,
}

/// Where a command runs: in the client's directory, or at the root where nothing of the
/// host is shared.
pub open spec fn exec_dir(cwd: Seq<char>, no_host_shares: bool) -> Seq<char> {
    if no_host_shares {
        seq!['/']
    } else {
        cwd
    }
}

/// The environment of a request.
pub open spec fn request_env(
    deterministic: bool,
    vars: Seq<(Seq<char>, Seq<char>)>,
    zone: Option<Seq<char>>,
    instance: Seq<char>,
    domain: Seq<char>,
) -> Seq<(Seq<char>, Seq<char>)> {
    (if deterministic {
        fixed_env()
    } else {
        forwarded_env(vars, zone)
    }).push(("LNX_INSTANCE"@, instance)).push(("LNX_INGRESS_DOMAIN"@, domain))
}

/// The id of a request: in deterministic mode it follows from the request alone.
pub open spec fn request_id(
    seed: Option<Seq<char>>,
    command: Seq<Seq<char>>,
    dir: Seq<char>,
    run_as_root: bool,
    fresh: u64,
) -> int {
    match seed {
        Some(s) => deterministic::id_of_digest(
            digest::sha256_of(
                deterministic::exec_input(
                    s,
                    command,
                    dir,
                    run_as_root,
                    false,
                    DETERMINISTIC_ROWS,
                    DETERMINISTIC_COLS,
                ),
            ),
        ) as int,
        None => fresh as int,
    }
}

/// Asks the guest to run a command.
pub fn open_exec(request: ExecRequest, host: ClientHost) -> (m: Message)
    ensures
        m matches Message::OpenExec {
            channel_id,
            argv,
            cwd,
            pty,
            term,
            colorterm,
            rows,
            cols,
            uid,
            gid,
            group,
            env,
        } && {
            let fixed = request.deterministic is Some;
            let seed = deterministic::seed_of(request.deterministic);
            let dir = exec_dir(request.cwd@, request.no_host_shares);
            let has_pty = !fixed && host.stdin_is_tty && host.stdout_is_tty;
            &&& channel_id == request_id(
                seed,
                text::views(request.command@),
                dir,
                request.run_as_root,
                host.fresh_id,
            )
            &&& text::views(argv@) == text::views(request.command@)
            &&& cwd@ == dir
            &&& pty == has_pty
            &&& fixed ==> term@ == DETERMINISTIC_TERM@ && colorterm@.len() == 0 && rows
                == DETERMINISTIC_ROWS && cols == DETERMINISTIC_COLS
            &&& has_pty ==> (term@, colorterm@) == (
                match text::opt_view(host.term) {
                    Some(name) => if name.len() > 0 && name != "dumb"@ {
                        name
                    } else {
                        "xterm-256color"@
                    },
                    None => "xterm-256color"@,
                },
                match text::opt_view(host.colorterm) {
                    Some(value) => value,
                    None => Seq::<char>::empty(),
                },
            ) && (rows, cols) == host.size
            &&& !fixed && !has_pty ==> term@.len() == 0 && colorterm@.len() == 0 && rows == 1
                && cols == 1
            &&& request.run_as_root ==> uid == 0 && gid == 0 && group@.len() == 0
            &&& !request.run_as_root && fixed ==> uid == DETERMINISTIC_EXEC_UID && gid
                == DETERMINISTIC_EXEC_GID && group@ == DETERMINISTIC_EXEC_GROUP@
            &&& !request.run_as_root && !fixed ==> uid == host.user.uid && gid == host.user.gid
                && group == host.user.group
            &&& stamps::pair_views(env@) == request_env(
                fixed,
                stamps::pair_views(host.vars@),
                text::opt_view(host.zone),
                request.instance@,
                request.ingress_domain@,
            )
        },
{
    let fixed: bool = request.deterministic.is_some();
    let dir: String = if request.no_host_shares {
        let mut root: String = String::new();
        root.push('/');
        assert(root@ =~= seq!['/']);
        root
    } else {
        request.cwd.to_owned()
    };
    let pty: bool = use_pty(fixed, host.stdin_is_tty, host.stdout_is_tty);
    let terminal: Terminal = exec_terminal(fixed, pty, host.term, host.colorterm, host.size);
    let (uid, gid, group) = exec_identity(request.run_as_root, fixed, host.user);
    let mut env: Vec<(String, String)> = exec_env(fixed, host.vars, host.zone);
    push_var(&mut env, "LNX_INSTANCE", request.instance);
    push_var(&mut env, "LNX_INGRESS_DOMAIN", request.ingress_domain);
    let channel_id: u64 = match request.deterministic {
        Some(config) => deterministic::deterministic_exec_request_id(
            config.seed.as_str(),
            request.command,
            dir.as_str(),
            request.run_as_root,
            pty,
            terminal.rows,
            terminal.cols,
        ),
        None => host.fresh_id,
    };
    let argv: Vec<String> = text::copy_all(request.command);
    Message::OpenExec {
        channel_id,
        argv,
        cwd: dir,
        pty,
        term: terminal.term,
        colorterm: terminal.colorterm,
        rows: terminal.rows,
        cols: terminal.cols,
        uid,
        gid,
        group,
        env,
    }
}

// ---------------------------------------------------------------------------
// Laws of the environment
// ---------------------------------------------------------------------------

/// The value of a variable is that of its first place, and there is none only where no
/// place has the name.
pub proof fn lemma_lookup(vars: Seq<(Seq<char>, Seq<char>)>, name: Seq<char>)
    ensures
        match lookup(vars, name) {
            Some(value) => exists|i: int|
                0 <= i < vars.len() && #[trigger] vars[i] == (name, value) && (forall|j: int|
                    0 <= j < i ==> (#[trigger] vars[j]).0 != name),
            None => forall|i: int| 0 <= i < vars.len() ==> (#[trigger] vars[i]).0 != name,
        },
    decreases vars.len(),
{
    if vars.len() > 0 && vars[0].0 != name {
        let rest = vars.skip(1);
        lemma_lookup(rest, name);
        match lookup(rest, name) {
            Some(value) => {
                let i = choose|i: int|
                    0 <= i < rest.len() && #[trigger] rest[i] == (name, value) && (forall|j: int|
                        0 <= j < i ==> (#[trigger] rest[j]).0 != name);
                assert(vars[i + 1] == (name, value));
                assert forall|j: int| 0 <= j < i + 1 implies (#[trigger] vars[j]).0 != name by {
                    if j > 0 {
                        assert(rest[j - 1] == vars[j]);
                    }
                }
            },
            None => {
                assert forall|i: int| 0 <= i < vars.len() implies (#[trigger] vars[i]).0
                    != name by {
                    if i > 0 {
                        assert(rest[i - 1] == vars[i]);
                    }
                }
            },
        }
    } else if vars.len() > 0 {
        assert(vars[0] == (name, vars[0].1));
    }
}

/// Whether a name is that of a locale category.
pub open spec fn names_locale(name: Seq<char>) -> bool {
    name.len() >= 3 && name[0] == 'L' && name[1] == 'C' && name[2] == '_'
}

proof fn lemma_names_locale(name: Seq<char>)
    ensures
        text::begins(name, "LC_"@) <==> names_locale(name),
{
    reveal_strlit("LC_");
    let p = "LC_"@;
    if text::begins(name, p) {
        assert(name.subrange(0, 3) == p);
        assert(name.subrange(0, 3)[0] == p[0] && name.subrange(0, 3)[1] == p[1]
            && name.subrange(0, 3)[2] == p[2]);
    }
    if names_locale(name) {
        assert(name.subrange(0, 3) =~= p);
    }
}

/// Adding the locale keeps what is there, and adds for each category that is not the first
/// value of the host that is not empty.
pub proof fn lemma_with_locale(
    env: Seq<(Seq<char>, Seq<char>)>,
    vars: Seq<(Seq<char>, Seq<char>)>,
    name: Seq<char>,
)
    ensures
        lookup(env, name) is Some ==> lookup(with_locale(env, vars), name) == lookup(env, name),
        !names_locale(name) ==> lookup(with_locale(env, vars), name) == lookup(env, name),
        names_locale(name) && lookup(env, name) is None ==> match lookup(
            with_locale(env, vars),
            name,
        ) {
            Some(value) => exists|i: int|
                0 <= i < vars.len() && #[trigger] vars[i] == (name, value) && value.len() > 0 && (
                forall|j: int|
                    0 <= j < i && (#[trigger] vars[j]).0 == name ==> vars[j].1.len() == 0),
            None => forall|i: int|
                0 <= i < vars.len() && (#[trigger] vars[i]).0 == name ==> vars[i].1.len() == 0,
        },
    decreases vars.len(),
{
    if vars.len() > 0 {
        let front = vars.drop_last();
        let rest = with_locale(env, front);
        let (last, value) = vars.last();
        lemma_with_locale(env, front, name);
        lemma_names_locale(last);
        let all = with_locale(env, vars);
        if all != rest {
            lemma_lookup_last(all, name);
            assert(all.drop_last() =~= rest);
        }
        if names_locale(name) && lookup(env, name) is None {
            match lookup(rest, name) {
                Some(v) => {
                    let i = choose|i: int|
                        0 <= i < front.len() && #[trigger] front[i] == (name, v) && v.len() > 0 && (
                        forall|j: int|
                            0 <= j < i && (#[trigger] front[j]).0 == name ==> front[j].1.len()
                                == 0);
                    assert(vars[i] == (name, v));
                    assert forall|j: int|
                        0 <= j < i && (#[trigger] vars[j]).0 == name implies vars[j].1.len()
                        == 0 by {
                        assert(front[j] == vars[j]);
                    }
                },
                None => {
                    assert forall|j: int|
                        0 <= j < front.len() && (#[trigger] vars[j]).0
                            == name implies vars[j].1.len() == 0 by {
                        assert(front[j] == vars[j]);
                    }
                    if last == name && value.len() > 0 {
                        assert(vars[vars.len() - 1] == (name, value));
                    }
                },
            }
        }
    }
}

/// Whether a variable is handed on by its name.
pub open spec fn is_handed_on(name: Seq<char>) -> bool {
    ||| name == "TERM"@
    ||| name == "COLORTERM"@
    ||| name == "LANG"@
    ||| name == "LANGUAGE"@
    ||| name == "TZ"@
    ||| name == "NO_COLOR"@
    ||| name == "CLICOLOR"@
    ||| name == "CLICOLOR_FORCE"@
}

#[verifier::spinoff_prover]
#[verifier::rlimit(40)]
proof fn lemma_forwarded_names(name: Seq<char>)
    ensures
        forwarded_names().contains(name) <==> is_handed_on(name),
        is_handed_on(name) ==> !names_locale(name),
{
    reveal_strlit("TERM");
    reveal_strlit("COLORTERM");
    reveal_strlit("LANG");
    reveal_strlit("LANGUAGE");
    reveal_strlit("TZ");
    reveal_strlit("NO_COLOR");
    reveal_strlit("CLICOLOR");
    reveal_strlit("CLICOLOR_FORCE");
    let names = forwarded_names();
    assert(names[0] == "TERM"@ && names[1] == "COLORTERM"@ && names[2] == "LANG"@ && names[3]
        == "LANGUAGE"@ && names[4] == "TZ"@ && names[5] == "NO_COLOR"@ && names[6] == "CLICOLOR"@
        && names[7] == "CLICOLOR_FORCE"@);
    if names.contains(name) {
        let i = choose|i: int| 0 <= i < names.len() && names[i] == name;
        assert(0 <= i < 8);
    }
}

/// What a command sees of the host's environment, name by name. A variable that is handed
/// on has the host's value where that is not empty; `TZ` is else the zone of the host's
/// clock; a locale category has the first value of the host that is not empty; and there
/// is nothing else.
pub proof fn lemma_forwarded_environment(
    vars: Seq<(Seq<char>, Seq<char>)>,
    zone: Option<Seq<char>>,
    name: Seq<char>,
)
    ensures
        is_handed_on(name) ==> lookup(forwarded_env(vars, zone), name) == (match lookup(
            vars,
            name,
        ) {
            Some(value) => if value.len() > 0 {
                Some(value)
            } else if name == "TZ"@ {
                zone
            } else {
                None
            },
            None => if name == "TZ"@ {
                zone
            } else {
                None
            },
        }),
        names_locale(name) ==> match lookup(forwarded_env(vars, zone), name) {
            Some(value) => exists|i: int|
                0 <= i < vars.len() && #[trigger] vars[i] == (name, value) && value.len() > 0 && (
                forall|j: int|
                    0 <= j < i && (#[trigger] vars[j]).0 == name ==> vars[j].1.len() == 0),
            None => forall|i: int|
                0 <= i < vars.len() && (#[trigger] vars[i]).0 == name ==> vars[i].1.len() == 0,
        },
        !is_handed_on(name) && !names_locale(name) ==> lookup(forwarded_env(vars, zone), name)
            is None,
{
    let names = forwarded_names();
    let named = named_env(vars, names);
    let env = with_locale(named, vars);
    lemma_forwarded_names(name);
    lemma_forwarded_names("TZ"@);
    if names.contains(name) {
        lemma_named_variables_are_the_hosts(vars, names, name);
    } else {
        lemma_unnamed_is_absent(vars, names, name);
    }
    lemma_with_locale(named, vars, name);
    let all = forwarded_env(vars, zone);
    if zone is Some && lookup(env, "TZ"@) is None {
        lemma_lookup_last(all, name);
        assert(all.drop_last() =~= env);
    }
}

/// What a command sees besides is where it runs: the two names that a request adds come
/// last, and hide nothing that the host handed on.
#[verifier::spinoff_prover]
#[verifier::rlimit(40)]
pub proof fn lemma_request_environment(
    deterministic: bool,
    vars: Seq<(Seq<char>, Seq<char>)>,
    zone: Option<Seq<char>>,
    instance: Seq<char>,
    domain: Seq<char>,
    name: Seq<char>,
)
    ensures
        lookup(request_env(deterministic, vars, zone, instance, domain), "LNX_INSTANCE"@) == Some(
            instance,
        ),
        lookup(request_env(deterministic, vars, zone, instance, domain), "LNX_INGRESS_DOMAIN"@)
            == Some(domain),
        name != "LNX_INSTANCE"@ && name != "LNX_INGRESS_DOMAIN"@ ==> lookup(
            request_env(deterministic, vars, zone, instance, domain),
            name,
        ) == (if !deterministic {
            lookup(forwarded_env(vars, zone), name)
        } else if name == "TERM"@ {
            Some("xterm-256color"@)
        } else if name == "LANG"@ || name == "LC_ALL"@ {
            Some("C.UTF-8"@)
        } else if name == "TZ"@ {
            Some("UTC"@)
        } else {
            None
        }),
{
    reveal_strlit("LNX_INSTANCE");
    reveal_strlit("LNX_INGRESS_DOMAIN");
    reveal_strlit("TERM");
    reveal_strlit("LANG");
    reveal_strlit("LC_ALL");
    reveal_strlit("TZ");
    reveal_strlit("COLORTERM");
    reveal_strlit("LANGUAGE");
    reveal_strlit("NO_COLOR");
    reveal_strlit("CLICOLOR");
    reveal_strlit("CLICOLOR_FORCE");
    let a = "LNX_INSTANCE"@;
    let b = "LNX_INGRESS_DOMAIN"@;
    assert(a.len() == 12 && b.len() == 18);
    let base = if deterministic {
        fixed_env()
    } else {
        forwarded_env(vars, zone)
    };
    let one = base.push((a, instance));
    let two = one.push((b, domain));
    assert(one.drop_last() =~= base);
    assert(two.drop_last() =~= one);
    assert(two == request_env(deterministic, vars, zone, instance, domain));
    lemma_lookup_last(one, a);
    lemma_lookup_last(one, b);
    lemma_lookup_last(one, name);
    lemma_lookup_last(two, a);
    lemma_lookup_last(two, b);
    lemma_lookup_last(two, name);
    if deterministic {
        reveal_with_fuel(lookup, 6);
        assert(base.skip(1)[0] == base[1]);
        assert(base.skip(1).skip(1)[0] == base[2]);
        assert(base.skip(1).skip(1).skip(1)[0] == base[3]);
        assert("TERM"@ != a && "LANG"@ != a && "LC_ALL"@ != a && "TZ"@ != a);
        assert("TERM"@ != b && "LANG"@ != b && "LC_ALL"@ != b && "TZ"@ != b);
    } else {
        lemma_forwarded_environment(vars, zone, a);
        lemma_forwarded_environment(vars, zone, b);
        assert(a[1] == 'N' && b[1] == 'N');
        assert(!is_handed_on(a) && !is_handed_on(b));
    }
}

/// A terminal has the size that the operating system tells, and 24 rows of 80 columns as
/// far as it tells none.
pub proof fn lemma_known_size(rows: u16, cols: u16)
    ensures
        rows > 0 && cols > 0 ==> known_size(true, rows, cols) == (rows, cols),
        known_size(false, rows, cols) == (24u16, 80u16),
        known_size(true, 0, cols).0 == 24,
        known_size(true, rows, 0).1 == 80,
        cols > 0 ==> known_size(true, 0, cols).1 == cols,
        rows > 0 ==> known_size(true, rows, 0).0 == rows,
{
}

/// A command runs in the client's directory, and at the root where nothing is shared.
pub proof fn lemma_exec_dir(cwd: Seq<char>)
    ensures
        exec_dir(cwd, false) == cwd,
        exec_dir(cwd, true) == seq!['/'],
{
}

/// In deterministic mode the id of a request follows from the request alone; otherwise it
/// is the fresh one, whatever is asked for.
pub proof fn lemma_request_id(
    seed: Seq<char>,
    command: Seq<Seq<char>>,
    dir: Seq<char>,
    run_as_root: bool,
    fresh: u64,
    other_fresh: u64,
)
    ensures
        request_id(Some(seed), command, dir, run_as_root, fresh) == request_id(
            Some(seed),
            command,
            dir,
            run_as_root,
            other_fresh,
        ),
        request_id(Some(seed), command, dir, run_as_root, fresh) > 0,
        request_id(Some(seed), command, dir, run_as_root, fresh) == deterministic::id_of_digest(
            digest::sha256_of(
                deterministic::exec_input(seed, command, dir, run_as_root, false, 24, 80),
            ),
        ),
        request_id(None, command, dir, run_as_root, fresh) == fresh,
{
}

} // verus!
