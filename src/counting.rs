//! The counting game: which message may extend the shared count, what
//! becomes of the tip, and what answers a rejection or a deleted tip.
use vstd::prelude::*;

use crate::message::{
    candidate_of, extract_number, recover_tip, recovered_tip, seed_from, sentinel, ChannelMessage,
    LastNumber, THE_NO_ONE,
};
use crate::number::NumberFormat;

verus! {

/// How long a user may not post after a rejected message, in seconds.
pub const PUNISHMENT_SECS: u64 = 3600;

/// How long the holder of a deleted tip may not post, in seconds.
pub const TIP_DELETION_SECS: u64 = 86400;

/// The largest count that has a tier: its tier, ten to the nineteenth, is
/// the largest power of ten a `u64` holds.
pub const LARGEST_TIER: u64 = 10000000000000000000;

/// Why a message did not extend the count.
#[derive(Clone, Copy, Debug, PartialEq, Eq, Structural)]
pub enum Rejection {
    /// Its first word is no number.
    Malformed,
    /// Its number is not one more than the tip.
    WrongValue,
    /// Its author also holds the tip.
    SameSubmitter,
}

/// The decision on one message of the counting channel.
#[derive(Clone, Copy, Debug, PartialEq, Eq, Structural)]
pub enum Verdict {
    /// The message carries the next count, which is now the tip.
    Accepted(LastNumber),
    /// The message is deleted and its author restricted.
    Rejected(Rejection),
}

/// The answer to the deletion of the message that carries the tip: a public
/// notice of the lost count and a restriction on its holder.
#[derive(Clone, Copy, Debug, PartialEq, Eq, Structural)]
pub struct TipDeleted {
    pub count: u64,
    pub user: u64,
    pub restriction_secs: u64,
}

/// `candidate` judged against `tip`: accepted where it is one more than
/// the tip and posted by someone else.
pub open spec fn judge(candidate: LastNumber, tip: LastNumber) -> Verdict {
    if candidate.count != tip.count + 1 {
        Verdict::Rejected(Rejection::WrongValue)
    } else if candidate.user == tip.user {
        Verdict::Rejected(Rejection::SameSubmitter)
    } else {
        Verdict::Accepted(candidate)
    }
}

/// One message handled against the tip, or, where there is none yet,
/// against the tip recovered from `history`: the tip afterwards and the
/// verdict. A recovered tip is kept whatever the verdict.
pub open spec fn count_step(
    tip: Option<LastNumber>,
    m: ChannelMessage,
    history: Seq<ChannelMessage>,
) -> (Option<LastNumber>, Verdict) {
    match candidate_of(m) {
        None => (tip, Verdict::Rejected(Rejection::Malformed)),
        Some(c) => {
            let current = match tip {
                Some(t) => t,
                None => recovered_tip(history, m.id),
            };
            match judge(c, current) {
                Verdict::Accepted(n) => (Some(n), Verdict::Accepted(n)),
                v => (Some(current), v),
            }
        },
    }
}

/// What the deletion of message `deleted` calls for.
pub open spec fn deletion_response(tip: Option<LastNumber>, deleted: u64) -> Option<TipDeleted> {
    match tip {
        Some(t) => if t.message_id == deleted {
            Some(TipDeleted { count: t.count, user: t.user, restriction_secs: TIP_DELETION_SECS })
        } else {
            None
        },
        None => None,
    }
}

/// The tip of the count, absent until the first message is handled.
pub struct CountingState {
    tip: Option<LastNumber>,
}

impl View for CountingState {
    type V = Option<LastNumber>;

    closed spec fn view(&self) -> Option<LastNumber> {
        self.tip
    }
}

impl CountingState {
    /// A cold state: no tip yet.
    pub fn new() -> (r: CountingState)
        ensures
            r@ is None,
    {
        CountingState { tip: None }
    }

    /// The tip, where there is one.
    pub fn tip(&self) -> (r: Option<LastNumber>)
        ensures
            r == self@,
    {
        self.tip
    }

    /// Whether handling `msg` needs the channel's history: there is no tip
    /// yet and the message carries a number.
    pub fn needs_history(&self, msg: &ChannelMessage) -> (r: bool)
        ensures
            r == (self@ is None && candidate_of(*msg) is Some),
    {
        self.tip.is_none() && extract_number(msg).is_some()
    }

    /// The tip; where there is none, the one recovered from `history`
    /// (newest first, `trigger` left out), which is kept.
    pub fn read_or_recover(&mut self, history: &Vec<ChannelMessage>, trigger: u64) -> (r:
        LastNumber)
        ensures
            old(self)@ is Some ==> r == old(self)@->0 && final(self)@ == old(self)@,
            old(self)@ is None ==> r == recovered_tip(history@, trigger) && final(self)@ == Some(
                r,
            ),
    {
        match self.tip {
            Some(t) => t,
            None => {
                let t = recover_tip(history, trigger);
                self.tip = Some(t);
                t
            },
        }
    }

    /// Makes `entry` the tip, whatever stood before.
    pub fn replace(&mut self, entry: LastNumber)
        ensures
            final(self)@ == Some(entry),
    {
        self.tip = Some(entry);
    }

    /// Handles a message posted in the counting channel. `history` is the
    /// channel's recent messages, newest first; it is read only where
    /// `needs_history` holds.
    pub fn on_count(&mut self, msg: &ChannelMessage, history: &Vec<ChannelMessage>) -> (r: Verdict)
        ensures
            (final(self)@, r) == count_step(old(self)@, *msg, history@),
    {
        let given = match extract_number(msg) {
            Some(g) => g,
            None => {
                return Verdict::Rejected(Rejection::Malformed);
            },
        };
        let current = self.read_or_recover(history, msg.id);
        if current.count == u64::MAX || given.count != current.count + 1 {
            return Verdict::Rejected(Rejection::WrongValue);
        }
        if given.user == current.user {
            return Verdict::Rejected(Rejection::SameSubmitter);
        }
        self.replace(given);
        Verdict::Accepted(given)
    }

    /// Handles the deletion of message `deleted`; the tip stays as it is.
    pub fn on_delete(&self, deleted: u64) -> (r: Option<TipDeleted>)
        ensures
            r == deletion_response(self@, deleted),
    {
        match self.tip {
            Some(t) => if t.message_id == deleted {
                Some(TipDeleted { count: t.count, user: t.user, restriction_secs: TIP_DELETION_SECS })
            } else {
                None
            },
            None => None,
        }
    }
}

/// The reaction that acknowledges an accepted count: one for decimal
/// numerals, another for every other notation.
pub fn reaction_for(format: NumberFormat) -> (r: &'static str)
    ensures
        format == NumberFormat::Decimal ==> r@ == "🔢"@,
        format != NumberFormat::Decimal ==> r@ == "🤓"@,
{
    match format {
        NumberFormat::Decimal => "🔢",
        _ => "🤓",
    }
}

/// Ten to the power `k`.
pub open spec fn pow10(k: nat) -> nat
    decreases k,
{
    if k == 0 {
        1
    } else {
        10 * pow10((k - 1) as nat)
    }
}

/// `n` is ten to some power.
pub open spec fn is_power_of_ten(n: nat) -> bool {
    exists|k: nat| pow10(k) == n
}

proof fn lemma_pow10_positive(k: nat)
    ensures
        pow10(k) >= 1,
    decreases k,
{
    if k > 0 {
        lemma_pow10_positive((k - 1) as nat);
    }
}

proof fn lemma_pow10_grows(i: nat, j: nat)
    requires
        i < j,
    ensures
        pow10(i) < pow10(j),
    decreases j,
{
    lemma_pow10_positive(i);
    if i + 1 < j {
        lemma_pow10_grows(i, (j - 1) as nat);
    }
}

/// `t` is the tier of count `c`: zero for zero, else the power of ten at
/// or above `c` and below ten times `c`, which is the smallest power of ten
/// at or above `c`.
pub open spec fn is_tier_of(c: nat, t: nat) -> bool {
    if c == 0 {
        t == 0
    } else {
        is_power_of_ten(t) && c <= t && t < 10 * c
    }
}

/// The tier of a count: the smallest power of ten at or above it, and zero
/// for zero.
pub fn next_power_of_ten(c: u64) -> (r: u64)
    requires
        c <= LARGEST_TIER,
    ensures
        is_tier_of(c as nat, r as nat),
{
    if c == 0 {
        return 0;
    }
    proof {
        reveal_with_fuel(pow10, 20);
        assert(pow10(19) == LARGEST_TIER);
    }
    let mut p: u64 = 1;
    let ghost mut k: nat = 0;
    while p < c
        invariant
            0 < c <= LARGEST_TIER,
            p == pow10(k),
            1 <= p < 10 * c,
            pow10(19) == LARGEST_TIER,
        decreases 10 * c - p,
    {
        proof {
            if k >= 19 {
                if k > 19 {
                    lemma_pow10_grows(19, k);
                }
                assert(false);
            }
            if k < 18 {
                lemma_pow10_grows(k, 18);
            }
            assert(pow10(18) * 10 == LARGEST_TIER);
        }
        p = p * 10;
        proof {
            k = k + 1;
        }
    }
    assert(pow10(k) == p);
    p
}

/// A larger count never has a smaller tier.
pub proof fn lemma_tiers_do_not_decrease(a: nat, b: nat, tier_a: nat, tier_b: nat)
    requires
        a <= b,
        is_tier_of(a, tier_a),
        is_tier_of(b, tier_b),
    ensures
        tier_a <= tier_b,
{
    if a > 0 {
        let i = choose|i: nat| pow10(i) == tier_a;
        let j = choose|j: nat| pow10(j) == tier_b;
        if j < i {
            if j + 1 < i {
                lemma_pow10_grows(j + 1, i);
            }
            assert(false);
        }
        if i < j {
            lemma_pow10_grows(i, j);
        }
    }
}

/// The moment a restriction of `duration_secs` that starts at `now_secs`
/// ends, in seconds since the epoch; `None` where it is past the largest
/// `i64`.
pub fn restriction_end(now_secs: u64, duration_secs: u64) -> (r: Option<i64>)
    ensures
        r is Some <==> now_secs + duration_secs <= i64::MAX,
        r is Some ==> r->0 == now_secs + duration_secs,
{
    if now_secs <= i64::MAX as u64 && duration_secs <= i64::MAX as u64 - now_secs {
        Some((now_secs + duration_secs) as i64)
    } else {
        None
    }
}

/// No message of `history` other than `trigger` carries a count.
pub open spec fn history_without_counts(history: Seq<ChannelMessage>, trigger: u64) -> bool {
    forall|i: int|
        0 <= i < history.len() ==> #[trigger] history[i].id == trigger || candidate_of(
            history[i],
        ) is None
}

proof fn lemma_seed_without_counts(history: Seq<ChannelMessage>, trigger: u64, i: int)
    requires
        0 <= i <= history.len(),
        history_without_counts(history, trigger),
    ensures
        seed_from(history, trigger, i) == sentinel(),
    decreases history.len() - i,
{
    if i < history.len() {
        assert(history[i].id == trigger || candidate_of(history[i]) is None);
        lemma_seed_without_counts(history, trigger, i + 1);
    }
}

/// Recovery from a history that carries no count seeds the tip at zero
/// from nobody, so that the first count accepted is one.
pub proof fn lemma_recovery_without_counts(history: Seq<ChannelMessage>, m: ChannelMessage)
    requires
        history_without_counts(history, m.id),
    ensures
        recovered_tip(history, m.id) == sentinel(),
        candidate_of(m) is Some ==> count_step(None, m, history).0 is Some,
        count_step(None, m, history).1 is Accepted ==> candidate_of(m)->0.count == 1,
        candidate_of(m) is Some && candidate_of(m)->0.count != 1 ==> count_step(None, m, history)
            == (Some(sentinel()), Verdict::Rejected(Rejection::WrongValue)),
{
    lemma_seed_without_counts(history, m.id, 0);
}

/// From a cold state and a history that carries no count, a count of one
/// from one user and then a count of two from another are both accepted,
/// and the second becomes the tip.
pub proof fn lemma_cold_start_counts(
    first: ChannelMessage,
    second: ChannelMessage,
    history: Seq<ChannelMessage>,
    later_history: Seq<ChannelMessage>,
)
    requires
        candidate_of(first) is Some && candidate_of(first)->0.count == 1,
        candidate_of(second) is Some && candidate_of(second)->0.count == 2,
        first.author != THE_NO_ONE,
        first.author != second.author,
        history_without_counts(history, first.id),
    ensures
        count_step(None, first, history) == (
            Some(candidate_of(first)->0),
            Verdict::Accepted(candidate_of(first)->0),
        ),
        count_step(count_step(None, first, history).0, second, later_history) == (
            Some(candidate_of(second)->0),
            Verdict::Accepted(candidate_of(second)->0),
        ),
{
    lemma_seed_without_counts(history, first.id, 0);
}

/// Two messages that both carry the successor of the tip, from users other
/// than its holder, handled one after the other: the first is accepted,
/// the second meets the new tip and is rejected for its value.
pub proof fn lemma_race_has_one_winner(
    tip: LastNumber,
    b: ChannelMessage,
    c: ChannelMessage,
    history_b: Seq<ChannelMessage>,
    history_c: Seq<ChannelMessage>,
)
    requires
        candidate_of(b) is Some && candidate_of(b)->0.count == tip.count + 1,
        candidate_of(c) is Some && candidate_of(c)->0.count == tip.count + 1,
        b.author != tip.user,
        c.author != tip.user,
    ensures
        count_step(Some(tip), b, history_b) == (
            Some(candidate_of(b)->0),
            Verdict::Accepted(candidate_of(b)->0),
        ),
        count_step(count_step(Some(tip), b, history_b).0, c, history_c) == (
            Some(candidate_of(b)->0),
            Verdict::Rejected(Rejection::WrongValue),
        ),
{
}

/// Deleting the message that carries the tip calls for one notice of its
/// count and a day's restriction on its holder; deleting any other message
/// calls for nothing.
pub proof fn lemma_tip_deletion(tip: Option<LastNumber>, deleted: u64)
    ensures
        tip is Some && tip->0.message_id == deleted ==> deletion_response(tip, deleted) == Some(
            TipDeleted { count: tip->0.count, user: tip->0.user, restriction_secs: 86400 },
        ),
        !(tip is Some && tip->0.message_id == deleted) ==> deletion_response(tip, deleted)
            is None,
{
}

} // verus!
