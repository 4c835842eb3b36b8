//! Names of stored tags.
use vstd::prelude::*;

use crate::number::chars_of;

verus! {

/// `f` stands in `s` from index `i` on.
pub open spec fn occurs_at(s: Seq<char>, f: Seq<char>, i: int) -> bool {
    0 <= i && i + f.len() <= s.len() && s.subrange(i, i + f.len()) == f
}

/// `r` is what `s` holds before the first place where `f` stands, or all of
/// `s` where `f` stands nowhere.
pub open spec fn is_part_before(s: Seq<char>, f: Seq<char>, r: Seq<char>) -> bool {
    &&& r == s.subrange(0, r.len() as int)
    &&& forall|j: int| 0 <= j < r.len() ==> !occurs_at(s, f, j)
    &&& (occurs_at(s, f, r.len() as int) || (r == s && forall|j: int|
        0 <= j <= s.len() ==> !occurs_at(s, f, j)))
}

fn occurs_in(s: &Vec<char>, f: &Vec<char>, i: usize) -> (r: bool)
    requires
        i + f@.len() <= s@.len(),
    ensures
        r == occurs_at(s@, f@, i as int),
{
    let sl = s.len();
    let mut k: usize = 0;
    while k < f.len()
        invariant
            i + f@.len() <= s@.len() == sl,
            k <= f@.len(),
            s@.subrange(i as int, i + k) == f@.subrange(0, k as int),
        decreases f@.len() - k,
    {
        if s[i + k] != f[k] {
            assert(s@.subrange(i as int, i + f@.len())[k as int] != f@[k as int]);
            return false;
        }
        assert(s@.subrange(i as int, i + k + 1) =~= f@.subrange(0, k + 1));
        k = k + 1;
    }
    assert(f@.subrange(0, k as int) =~= f@);
    true
}

/// The part of `name` before the first `filter`, or all of `name`.
pub fn read_till<'a>(name: &'a str, filter: &str) -> (r: &'a str)
    ensures
        is_part_before(name@, filter@, r@),
{
    let s = chars_of(name);
    let f = chars_of(filter);
    let n = s.len();
    let m = f.len();
    if m > n {
        assert forall|j: int| 0 <= j <= s@.len() implies !occurs_at(name@, filter@, j) by {}
        assert(name@.subrange(0, n as int) =~= name@);
        return name;
    }
    let last = n - m;
    let mut i: usize = 0;
    loop
        invariant_except_break
            i <= last,
        invariant
            s@ == name@,
            f@ == filter@,
            n == s@.len(),
            m == f@.len(),
            last == n - m,
            forall|j: int| 0 <= j < i ==> !occurs_at(name@, filter@, j),
        ensures
            i == last,
            !occurs_at(name@, filter@, last as int),
        decreases last - i,
    {
        if occurs_in(&s, &f, i) {
            let r = name.substring_char(0, i);
            return r;
        }
        if i == last {
            break;
        }
        i = i + 1;
    }
    assert forall|j: int| 0 <= j <= s@.len() implies !occurs_at(name@, filter@, j) by {
        if j > i {
            assert(j + m > n);
        }
    }
    assert(name@.subrange(0, n as int) =~= name@);
    name
}

/// The name of a tag stored in file `name`: the file name up to its first
/// dot; the content is kept as it is.
pub fn parse_tag<'a>(name: &'a str, content: String) -> (r: (&'a str, String))
    ensures
        is_part_before(name@, "."@, r.0@),
        r.1 == content,
{
    (read_till(name, "."), content)
}

} // verus!
