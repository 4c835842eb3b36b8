//! How far the bot heeds the author of a message.
use vstd::prelude::*;

verus! {

/// The user whose commands the bot always obeys.
pub const THE_BIG_RAT: u64 = 310702108997320705;

/// How far the bot heeds an author, from least to most.
#[derive(Clone, Copy, Debug, PartialEq, Eq, Structural, PartialOrd, Ord)]
pub enum AuthorPerms {
    Ignore,
    Answer,
    Obey,
}

/// The place of `p` in the order `Ignore < Answer < Obey`.
pub open spec fn rank(p: AuthorPerms) -> nat {
    match p {
        AuthorPerms::Ignore => 0,
        AuthorPerms::Answer => 1,
        AuthorPerms::Obey => 2,
    }
}

impl AuthorPerms {
    /// At least `Answer`.
    pub fn should_reply(&self) -> (r: bool)
        ensures
            r == (rank(*self) >= rank(AuthorPerms::Answer)),
    {
        match self {
            AuthorPerms::Ignore => false,
            _ => true,
        }
    }

    /// At least `Obey`.
    pub fn should_obey(&self) -> (r: bool)
        ensures
            r == (rank(*self) >= rank(AuthorPerms::Obey)),
    {
        match self {
            AuthorPerms::Obey => true,
            _ => false,
        }
    }
}

/// The standing of a message's author: bots are ignored; the bot's owner and
/// holders of the obey role are obeyed; everyone else is answered.
pub fn author_perms(is_bot: bool, author_id: u64, holds_obey_role: bool) -> (r: AuthorPerms)
    ensures
        r == (if is_bot {
            AuthorPerms::Ignore
        } else if author_id == THE_BIG_RAT || holds_obey_role {
            AuthorPerms::Obey
        } else {
            AuthorPerms::Answer
        }),
{
    if is_bot {
        return AuthorPerms::Ignore;
    }
    if author_id == THE_BIG_RAT {
        return AuthorPerms::Obey;
    }
    if holds_obey_role {
        return AuthorPerms::Obey;
    }
    AuthorPerms::Answer
}

} // verus!
