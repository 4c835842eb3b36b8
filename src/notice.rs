//! The texts the bot posts about the count.
use vstd::prelude::*;

use crate::counting::TipDeleted;
use crate::number::{digit_char, digits_of};

verus! {

fn digit_str(d: u64) -> (r: &'static str)
    requires
        d < 10,
    ensures
        r@ == seq![digit_char(d as nat)],
{
    proof {
        reveal_strlit("0");
        reveal_strlit("1");
        reveal_strlit("2");
        reveal_strlit("3");
        reveal_strlit("4");
        reveal_strlit("5");
        reveal_strlit("6");
        reveal_strlit("7");
        reveal_strlit("8");
        reveal_strlit("9");
    }
    let r = if d == 0 {
        "0"
    } else if d == 1 {
        "1"
    } else if d == 2 {
        "2"
    } else if d == 3 {
        "3"
    } else if d == 4 {
        "4"
    } else if d == 5 {
        "5"
    } else if d == 6 {
        "6"
    } else if d == 7 {
        "7"
    } else if d == 8 {
        "8"
    } else {
        "9"
    };
    assert(r@ =~= seq![digit_char(d as nat)]);
    r
}

/// `v` in decimal digits.
pub fn decimal(v: u64) -> (r: String)
    ensures
        r@ == digits_of(v as nat, 10),
{
    let mut q = v;
    let mut out = String::new();
    while q >= 10
        invariant
            digits_of(v as nat, 10) == digits_of(q as nat, 10) + out@,
        decreases q,
    {
        let d = q % 10;
        let next = String::from_str(digit_str(d)).concat(out.as_str());
        assert(digits_of(q as nat, 10) == digits_of((q / 10) as nat, 10).push(
            digit_char(d as nat),
        ));
        assert(digits_of(q as nat, 10) + out@ =~= digits_of((q / 10) as nat, 10) + next@);
        out = next;
        q = q / 10;
    }
    let r = String::from_str(digit_str(q)).concat(out.as_str());
    assert(digits_of(q as nat, 10) =~= seq![digit_char(q as nat)]);
    r
}

/// How a message mentions user `user`.
pub open spec fn mention_text(user: u64) -> Seq<char> {
    "<@"@ + digits_of(user as nat, 10) + ">"@
}

/// The text that mentions user `user`.
pub fn mention(user: u64) -> (r: String)
    ensures
        r@ == mention_text(user),
{
    let mut r = String::from_str("<@");
    let digits = decimal(user);
    r.append(digits.as_str());
    r.append(">");
    r
}

/// The body of the notice that follows a deleted tip, between the lost
/// count and the mention of its holder.
pub open spec fn notice_middle() -> Seq<char> {
    " — Hi, it is me — cute little mouse — and i am here to provide you with some help. It has come to my attention that recently someone has deleted a message in this channel. Not to worry, I have remembered their number. "@
}

/// The notice that restates count `count`, posted by `user`, after its
/// message was deleted.
pub open spec fn deletion_notice_text(count: u64, user: u64) -> Seq<char> {
    digits_of(count as nat, 10) + notice_middle() + mention_text(user) + " recently posted "@
        + digits_of(count as nat, 10) + "."@
}

/// The public notice that restates the count of a deleted tip and who
/// posted it.
pub fn deletion_notice(deleted: &TipDeleted) -> (r: String)
    ensures
        r@ == deletion_notice_text(deleted.count, deleted.user),
{
    let count = decimal(deleted.count);
    let mut r = String::from_str(count.as_str());
    r.append(
        " — Hi, it is me — cute little mouse — and i am here to provide you with some help. It has come to my attention that recently someone has deleted a message in this channel. Not to worry, I have remembered their number. ",
    );
    let who = mention(deleted.user);
    r.append(who.as_str());
    r.append(" recently posted ");
    r.append(count.as_str());
    r.append(".");
    r
}

/// The name of the role that marks the tier `tier`.
pub fn tier_role_name(tier: u64) -> (r: String)
    ensures
        r@ == "counting: "@ + digits_of(tier as nat, 10),
{
    let mut r = String::from_str("counting: ");
    let digits = decimal(tier);
    r.append(digits.as_str());
    r
}

} // verus!
