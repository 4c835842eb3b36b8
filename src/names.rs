//! Finding a place by the words of its names: each word searched for must
//! begin some word of a name.
use vstd::prelude::*;

use crate::message::{char_is_white_space, is_white_space, skip_white_space, skip_word};
use crate::number::chars_of;

verus! {

/// The Unicode case folding of `s`.
pub uninterp spec fn folded_case(s: Seq<char>) -> Seq<char>;

/// Relies on `unicase::UniCase::to_folded_case`: the case folding of `s`,
/// which depends on the characters of `s` alone.
#[verifier::external_body]
fn fold_case(s: &str) -> (r: String)
    ensures
        r@ == folded_case(s@),
{
    unicase::UniCase::new(s).to_folded_case()
}

proof fn lemma_skip_white_space(s: Seq<char>, i: int)
    requires
        0 <= i,
    ensures
        i <= skip_white_space(s, i),
        skip_white_space(s, i) < s.len() ==> !is_white_space(s[skip_white_space(s, i)]),
    decreases s.len() - i,
{
    if 0 <= i < s.len() && is_white_space(s[i]) {
        lemma_skip_white_space(s, i + 1);
    }
}

proof fn lemma_skip_word(s: Seq<char>, i: int)
    requires
        0 <= i <= s.len(),
    ensures
        i <= skip_word(s, i) <= s.len(),
        forall|j: int| i <= j < skip_word(s, i) ==> !is_white_space(#[trigger] s[j]),
    decreases s.len() - i,
{
    if i < s.len() && !is_white_space(s[i]) {
        lemma_skip_word(s, i + 1);
    }
}

/// The words of `s[i..]`, in order: the longest runs without white space.
pub open spec fn words_from(s: Seq<char>, i: int) -> Seq<Seq<char>>
    decreases s.len() - i,
    via words_from_decreases
{
    let a = skip_white_space(s, i);
    if 0 <= i && a < s.len() {
        seq![s.subrange(a, skip_word(s, a))] + words_from(s, skip_word(s, a))
    } else {
        Seq::empty()
    }
}

#[via_fn]
proof fn words_from_decreases(s: Seq<char>, i: int) {
    if 0 <= i {
        lemma_skip_white_space(s, i);
        let a = skip_white_space(s, i);
        if a < s.len() {
            assert(skip_word(s, a) == skip_word(s, a + 1));
            lemma_skip_word(s, a + 1);
        }
    }
}

/// The words of `s`, in order.
pub open spec fn words(s: Seq<char>) -> Seq<Seq<char>> {
    words_from(s, 0)
}

/// The words of `text`.
pub fn words_of(text: &str) -> (r: Vec<String>)
    ensures
        r@.map_values(|w: String| w@) == words(text@),
{
    let s = chars_of(text);
    let n = s.len();
    let mut out: Vec<String> = Vec::new();
    let mut i: usize = 0;
    while i < n
        invariant
            s@ == text@,
            n == s@.len(),
            i <= n,
            out@.map_values(|w: String| w@) + words_from(s@, i as int) == words(text@),
        ensures
            i == n,
        decreases n - i,
    {
        let ghost start = i;
        while i < n && char_is_white_space(s[i])
            invariant
                start <= i <= n == s@.len(),
                skip_white_space(s@, i as int) == skip_white_space(s@, start as int),
            decreases n - i,
        {
            i = i + 1;
        }
        if i == n {
            proof {
                lemma_skip_white_space(s@, start as int);
            }
            assert(words_from(s@, start as int) =~= Seq::<Seq<char>>::empty());
            assert(words_from(s@, i as int) =~= Seq::<Seq<char>>::empty());
            break;
        }
        let a = i;
        while i < n && !char_is_white_space(s[i])
            invariant
                a <= i <= n == s@.len(),
                skip_word(s@, i as int) == skip_word(s@, a as int),
            decreases n - i,
        {
            i = i + 1;
        }
        let word = String::from_str(text.substring_char(a, i));
        proof {
            lemma_skip_white_space(s@, start as int);
        }
        let ghost before = out@.map_values(|w: String| w@);
        out.push(word);
        assert(out@.map_values(|w: String| w@) =~= before.push(s@.subrange(a as int, i as int)));
        assert(words_from(s@, start as int) == seq![s@.subrange(a as int, i as int)] + words_from(
            s@,
            i as int,
        ));
        assert(before + words_from(s@, start as int) =~= before.push(s@.subrange(a as int, i as int))
            + words_from(s@, i as int));
    }
    assert(skip_white_space(s@, i as int) == i);
    assert(words_from(s@, i as int) =~= Seq::<Seq<char>>::empty());
    assert(out@.map_values(|w: String| w@) + Seq::<Seq<char>>::empty() =~= out@.map_values(
        |w: String| w@,
    ));
    out
}

/// `p` begins `w`.
pub open spec fn is_prefix(p: Seq<char>, w: Seq<char>) -> bool {
    p.len() <= w.len() && w.subrange(0, p.len() as int) == p
}

/// `p` begins one of `ws`.
pub open spec fn begins_some(p: Seq<char>, ws: Seq<Seq<char>>) -> bool {
    exists|j: int| 0 <= j < ws.len() && is_prefix(p, #[trigger] ws[j])
}

fn starts_with(w: &Vec<char>, p: &Vec<char>) -> (r: bool)
    ensures
        r == is_prefix(p@, w@),
{
    if p.len() > w.len() {
        return false;
    }
    let mut k: usize = 0;
    while k < p.len()
        invariant
            p@.len() <= w@.len(),
            k <= p@.len(),
            w@.subrange(0, k as int) == p@.subrange(0, k as int),
        decreases p@.len() - k,
    {
        if w[k] != p[k] {
            assert(w@.subrange(0, p@.len() as int)[k as int] != p@[k as int]);
            return false;
        }
        assert(w@.subrange(0, k + 1) =~= p@.subrange(0, k + 1));
        k = k + 1;
    }
    assert(p@.subrange(0, k as int) =~= p@);
    true
}

fn begins_any(p: &Vec<char>, ws: &Vec<String>) -> (r: bool)
    ensures
        r == begins_some(p@, ws@.map_values(|w: String| w@)),
{
    let ghost views = ws@.map_values(|w: String| w@);
    let mut j: usize = 0;
    while j < ws.len()
        invariant
            j <= ws@.len(),
            views == ws@.map_values(|w: String| w@),
            forall|k: int| 0 <= k < j ==> !is_prefix(p@, #[trigger] views[k]),
        decreases ws@.len() - j,
    {
        if starts_with(&chars_of(ws[j].as_str()), p) {
            assert(views[j as int] == ws@[j as int]@);
            return true;
        }
        j = j + 1;
    }
    false
}

/// The words still to be found, each folded to its case.
pub struct MultiNamePrefixMatcher {
    expected_matches: Vec<String>,
}

impl View for MultiNamePrefixMatcher {
    type V = Seq<Seq<char>>;

    closed spec fn view(&self) -> Seq<Seq<char>> {
        self.expected_matches@.map_values(|e: String| e@)
    }
}

impl Clone for MultiNamePrefixMatcher {
    fn clone(&self) -> (r: MultiNamePrefixMatcher)
        ensures
            r@ == self@,
    {
        let mut copy: Vec<String> = Vec::new();
        let mut i: usize = 0;
        while i < self.expected_matches.len()
            invariant
                i <= self.expected_matches@.len(),
                copy@.len() == i,
                forall|k: int| 0 <= k < i ==> #[trigger] copy@[k]@ == self.expected_matches@[k]@,
            decreases self.expected_matches@.len() - i,
        {
            copy.push(self.expected_matches[i].clone());
            i = i + 1;
        }
        assert(copy@.map_values(|e: String| e@) =~= self.expected_matches@.map_values(
            |e: String| e@,
        ));
        MultiNamePrefixMatcher { expected_matches: copy }
    }
}

impl MultiNamePrefixMatcher {
    /// A matcher that waits for each word of `text`, folded to its case.
    pub fn new(text: &str) -> (r: MultiNamePrefixMatcher)
        ensures
            r@ == words(text@).map_values(|w: Seq<char>| folded_case(w)),
    {
        let ws = words_of(text);
        let ghost wv = ws@.map_values(|w: String| w@);
        let mut expected: Vec<String> = Vec::new();
        let mut i: usize = 0;
        while i < ws.len()
            invariant
                i <= ws@.len(),
                wv == ws@.map_values(|w: String| w@),
                expected@.len() == i,
                forall|k: int| 0 <= k < i ==> #[trigger] expected@[k]@ == folded_case(ws@[k]@),
            decreases ws@.len() - i,
        {
            expected.push(fold_case(ws[i].as_str()));
            i = i + 1;
        }
        assert(expected@.map_values(|e: String| e@) =~= wv.map_values(
            |w: Seq<char>| folded_case(w),
        ));
        MultiNamePrefixMatcher { expected_matches: expected }
    }

    /// Every word has been found.
    pub fn is_matched(&self) -> (r: bool)
        ensures
            r == (self@.len() == 0),
    {
        self.expected_matches.len() == 0
    }

    /// Takes the words of a name, already folded to their case: each word
    /// searched for that begins one of them counts as found.
    pub fn accept_casefolded_match(&mut self, obj: &str)
        ensures
            final(self)@ == old(self)@.filter(
                |e: Seq<char>| !begins_some(e, words(obj@)),
            ),
    {
        let ws = words_of(obj);
        let ghost es = self@;
        let mut kept: Vec<String> = Vec::new();
        let mut i: usize = 0;
        while i < self.expected_matches.len()
            invariant
                i <= self.expected_matches@.len(),
                es == self.expected_matches@.map_values(|e: String| e@),
                ws@.map_values(|w: String| w@) == words(obj@),
                kept@.map_values(|e: String| e@) == es.subrange(0, i as int).filter(
                    |e: Seq<char>| !begins_some(e, words(obj@)),
                ),
            decreases self.expected_matches@.len() - i,
        {
            let e = &self.expected_matches[i];
            let found = begins_any(&chars_of(e.as_str()), &ws);
            let ghost before = kept@.map_values(|e: String| e@);
            if !found {
                kept.push(e.clone());
                assert(kept@.map_values(|e: String| e@) =~= before.push(es[i as int]));
            }
            proof {
                reveal(Seq::filter);
                assert(es.subrange(0, i + 1).drop_last() =~= es.subrange(0, i as int));
            }
            i = i + 1;
        }
        assert(es.subrange(0, i as int) =~= es);
        self.expected_matches = kept;
    }
}

} // verus!
