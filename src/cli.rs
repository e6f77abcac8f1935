//! What one invocation does, decided from its arguments and the loaded
//! sessions.
use vstd::prelude::*;
use vstd::string::*;
use crate::paths::{expand_tilde, expanded};
use crate::registry::{find_session_index, is_first_named, list_sessions, listed, none_named, same_text, Session};

verus! {

/// The outcome of an invocation.
pub enum Plan {
    /// Print the help banner; success.
    Help,
    /// Print these names, one per line; success.
    Print(Vec<String>),
    /// Run the session at this position of the registry.
    Launch(usize),
    /// Do nothing; success.
    Quiet,
    /// Report this message; failure.
    Fail(String),
}

/// The filter of `list`: its second argument, if any.
pub open spec fn list_filter(args: Seq<String>) -> Option<Seq<char>> {
    if args.len() > 1 {
        Some(args[1]@)
    } else {
        None
    }
}

/// Decides what to do for the arguments `args` (the program name left out)
/// given the loaded `sessions`: no argument asks for help; `list [filter]`
/// prints the names that pass the filter; `connect <name>` launches the
/// first session of that name, does nothing for an empty name, and fails
/// for a missing or unknown name; anything else fails as unknown.
pub fn plan(args: &[String], sessions: &[Session]) -> (r: Plan)
    ensures
        args@.len() == 0 ==> r is Help,
        args@.len() > 0 && args@[0]@ == "list"@ ==> (r matches Plan::Print(v)
            && v@.map_values(|s: String| s@) == listed(sessions@, list_filter(args@))),
        args@.len() == 1 && args@[0]@ == "connect"@ ==> (r matches Plan::Fail(m)
            && m@ == "connect requires a session name"@),
        args@.len() > 1 && args@[0]@ == "connect"@ && args@[1]@.len() == 0 ==> r is Quiet,
        args@.len() > 1 && args@[0]@ == "connect"@ && args@[1]@.len() > 0 ==> {
            ||| r matches Plan::Launch(i) && is_first_named(sessions@, args@[1]@, i as int)
            ||| r matches Plan::Fail(m) && none_named(sessions@, args@[1]@)
                && m@ == "No such session: "@ + args@[1]@
        },
        args@.len() > 0 && args@[0]@ != "list"@ && args@[0]@ != "connect"@ ==> (r matches Plan::Fail(m)
            && m@ == "Unknown command: "@ + args@[0]@),
{
    if args.len() == 0 {
        return Plan::Help;
    }
    proof {
        reveal_strlit("list");
        reveal_strlit("connect");
        assert("list"@[0] != "connect"@[0]);
    }
    let cmd = args[0].as_str();
    if same_text(cmd, "list") {
        let names = if args.len() > 1 {
            list_sessions(sessions, Some(args[1].as_str()))
        } else {
            list_sessions(sessions, None)
        };
        return Plan::Print(names);
    }
    if same_text(cmd, "connect") {
        if args.len() < 2 {
            return Plan::Fail(String::from_str("connect requires a session name"));
        }
        let name = args[1].as_str();
        if name.unicode_len() == 0 {
            return Plan::Quiet;
        }
        return match find_session_index(sessions, name) {
            Some(i) => Plan::Launch(i),
            None => Plan::Fail(String::from_str("No such session: ").concat(name)),
        };
    }
    Plan::Fail(String::from_str("Unknown command: ").concat(cmd))
}

/// The directory a session's command runs in: its own path with the home
/// marker expanded against the current user's home directory, or `None`
/// for the caller's current directory.
pub fn working_dir(session: &Session) -> (r: Option<String>)
    ensures
        match session.path {
            Some(p) => r matches Some(d) && exists|h: Option<Seq<char>>| d@ == expanded(p@, h),
            None => r is None,
        },
{
    match &session.path {
        Some(p) => Some(expand_tilde(p.as_str())),
        None => None,
    }
}

} // verus!
