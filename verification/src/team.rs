//! The subteams a report can be written for.

use vstd::prelude::*;

verus! {

/// One of the subteams.
#[derive(Debug, Copy, Clone, PartialEq, Eq, Structural)]
pub enum Team {
    Tools,
    Libs,
    Compiler,
    Lang,
}

/// The directory name that stands for `team`.
pub open spec fn dir_of(team: Team) -> Seq<char> {
    match team {
        Team::Tools => "tools"@,
        Team::Libs => "libs"@,
        Team::Compiler => "compiler"@,
        Team::Lang => "lang"@,
    }
}

/// The tracker label that marks the issues of `team`.
pub open spec fn label_of(team: Team) -> Seq<char> {
    match team {
        Team::Tools => "T-tools"@,
        Team::Libs => "T-libs"@,
        Team::Compiler => "T-compiler"@,
        Team::Lang => "T-lang"@,
    }
}

/// The team whose directory name is `name`, if there is one.
pub open spec fn team_named(name: Seq<char>) -> Option<Team> {
    if name == dir_of(Team::Tools) {
        Some(Team::Tools)
    } else if name == dir_of(Team::Libs) {
        Some(Team::Libs)
    } else if name == dir_of(Team::Compiler) {
        Some(Team::Compiler)
    } else if name == dir_of(Team::Lang) {
        Some(Team::Lang)
    } else {
        None
    }
}

/// Whether `a` and `b` hold the same text.
fn same_text(a: &str, b: &str) -> (r: bool)
    ensures
        r == (a@ == b@),
{
    let x = String::from_str(a);
    let y = String::from_str(b);
    x == y
}

impl Team {
    /// Looks a team up by its directory name; an unknown name comes back as the error.
    pub fn with_name(s: &str) -> (r: Result<Team, &str>)
        ensures
            match r {
                Ok(team) => team_named(s@) == Some(team),
                Err(bad) => team_named(s@).is_none() && bad@ == s@,
            },
    {
        if same_text(s, "tools") {
            Ok(Team::Tools)
        } else if same_text(s, "libs") {
            Ok(Team::Libs)
        } else if same_text(s, "compiler") {
            Ok(Team::Compiler)
        } else if same_text(s, "lang") {
            Ok(Team::Lang)
        } else {
            Err(s)
        }
    }

    /// The directory under which the reports of this team are kept.
    pub fn dir(self) -> (r: &'static str)
        ensures
            r@ == dir_of(self),
    {
        match self {
            Team::Tools => "tools",
            Team::Libs => "libs",
            Team::Compiler => "compiler",
            Team::Lang => "lang",
        }
    }

    /// The label under which the tracker files the issues of this team.
    pub fn label(&self) -> (r: &str)
        ensures
            r@ == label_of(*self),
    {
        match *self {
            Team::Tools => "T-tools",
            Team::Libs => "T-libs",
            Team::Compiler => "T-compiler",
            Team::Lang => "T-lang",
        }
    }
}

} // verus!
