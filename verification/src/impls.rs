//! Contains simple trait implementations.
use vstd::prelude::*;

use crate::datetime::{time_le, time_lt, Time};

verus! {

/// Finding the largest element of a list.
/// This is only used in the legacy section, and will soon be deprecated.
pub trait MaxElement {
    /// What the largest element comes back in: nothing for an empty list.
    type Iter;

    /// Consume the list and return its largest element.
    fn max_element(self) -> Self::Iter;
}

/// `m` is a time of `s` that no time of `s` comes after.
pub open spec fn is_largest(s: Seq<Time>, m: Time) -> bool {
    &&& s.contains(m)
    &&& forall|j: int| 0 <= j < s.len() ==> time_le(#[trigger] s[j], m)
}

/// The largest time of `s`; `None` where `s` is empty.
pub open spec fn largest(s: Seq<Time>) -> Option<Time> {
    if s.len() == 0 {
        None
    } else {
        Some(choose|m: Time| is_largest(s, m))
    }
}

/// A list has at most one largest time.
proof fn lemma_largest_unique(s: Seq<Time>, a: Time, b: Time)
    requires
        is_largest(s, a),
        is_largest(s, b),
    ensures
        a == b,
{
    let i = choose|i: int| 0 <= i < s.len() && s[i] == a;
    let k = choose|k: int| 0 <= k < s.len() && s[k] == b;
    assert(time_le(s[i], b));
    assert(time_le(s[k], a));
}

/// A list that is not empty has a largest time.
proof fn lemma_largest_exists(s: Seq<Time>)
    requires
        s.len() > 0,
    ensures
        exists|m: Time| is_largest(s, m),
    decreases s.len(),
{
    if s.len() == 1 {
        assert(s[0] == s[0]);
        assert(is_largest(s, s[0]));
    } else {
        let p = s.drop_last();
        lemma_largest_exists(p);
        let m = choose|m: Time| is_largest(p, m);
        let k = choose|k: int| 0 <= k < p.len() && p[k] == m;
        assert(s[k] == m);
        if time_lt(m, s.last()) {
            assert forall|j: int| 0 <= j < s.len() implies time_le(#[trigger] s[j], s.last()) by {
                if j < s.len() - 1 {
                    assert(p[j] == s[j]);
                    assert(time_le(p[j], m));
                }
            }
            assert(s[s.len() - 1] == s.last());
            assert(is_largest(s, s.last()));
        } else {
            assert forall|j: int| 0 <= j < s.len() implies time_le(#[trigger] s[j], m) by {
                if j < s.len() - 1 {
                    assert(p[j] == s[j]);
                    assert(time_le(p[j], m));
                }
            }
            assert(is_largest(s, m));
        }
    }
}

/// The largest time of a list that is not empty is one of its times, and no
/// time of the list comes after it.
pub proof fn lemma_largest(s: Seq<Time>)
    requires
        s.len() > 0,
    ensures
        largest(s) matches Some(m) && is_largest(s, m),
{
    lemma_largest_exists(s);
}

impl MaxElement for Vec<Time> {
    type Iter = Option<Time>;

    fn max_element(self) -> (r: Option<Time>)
        ensures
            r == largest(self@),
    {
        let n = self.len();
        if n == 0 {
            return None;
        }
        let mut best: usize = 0;
        let mut i: usize = 1;
        while i < n
            invariant
                n == self@.len(),
                best < i <= n,
                forall|j: int| 0 <= j < i ==> time_le(#[trigger] self@[j], self@[best as int]),
            decreases n - i,
        {
            if self[best].lt(&self[i]) {
                best = i;
            }
            i = i + 1;
        }
        proof {
            assert(self@[best as int] == self@[best as int]);
            assert(is_largest(self@, self@[best as int]));
            lemma_largest(self@);
            lemma_largest_unique(self@, self@[best as int], largest(self@)->0);
        }
        Some(self[best])
    }
}

} // verus!
