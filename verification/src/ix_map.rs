use vstd::prelude::*;

use crate::names::{compare_names, compare_strs, lemma_bytes_lt_asymmetric, lemma_bytes_lt_transitive, name_bytes, name_lt};

verus! {

/// A label type with a strict total order that executable code can decide.
pub trait Label: Sized {
    /// `self` comes strictly before `other`.
    spec fn before(self, other: Self) -> bool;

    /// The order is transitive.
    proof fn lemma_before_transitive(x: Self, y: Self, z: Self)
        requires
            x.before(y),
            y.before(z),
        ensures
            x.before(z),
    ;

    /// No two labels come before each other.
    proof fn lemma_before_asymmetric(x: Self, y: Self)
        ensures
            !(x.before(y) && y.before(x)),
    ;

    /// `Some(true)` when `self` comes first, `Some(false)` when `other` does,
    /// `None` when the order cannot tell them apart.
    fn order(&self, other: &Self) -> (r: Option<bool>)
        ensures
            r == Some(true) <==> self.before(*other),
            r == Some(false) <==> other.before(*self),
    ;
}

impl Label for usize {
    open spec fn before(self, other: Self) -> bool {
        self < other
    }

    proof fn lemma_before_transitive(x: Self, y: Self, z: Self) {
    }

    proof fn lemma_before_asymmetric(x: Self, y: Self) {
    }

    fn order(&self, other: &Self) -> (r: Option<bool>) {
        if *self < *other {
            Some(true)
        } else if *other < *self {
            Some(false)
        } else {
            None
        }
    }
}

impl Label for String {
    open spec fn before(self, other: Self) -> bool {
        name_lt(self@, other@)
    }

    proof fn lemma_before_transitive(x: Self, y: Self, z: Self) {
        lemma_bytes_lt_transitive(name_bytes(x@), name_bytes(y@), name_bytes(z@));
    }

    proof fn lemma_before_asymmetric(x: Self, y: Self) {
        if x.before(y) {
            lemma_bytes_lt_asymmetric(name_bytes(x@), name_bytes(y@));
        }
    }

    fn order(&self, other: &Self) -> (r: Option<bool>) {
        compare_names(self, other)
    }
}

impl<'a> Label for &'a str {
    open spec fn before(self, other: Self) -> bool {
        name_lt(self@, other@)
    }

    proof fn lemma_before_transitive(x: Self, y: Self, z: Self) {
        lemma_bytes_lt_transitive(name_bytes(x@), name_bytes(y@), name_bytes(z@));
    }

    proof fn lemma_before_asymmetric(x: Self, y: Self) {
        if x.before(y) {
            lemma_bytes_lt_asymmetric(name_bytes(x@), name_bytes(y@));
        }
    }

    fn order(&self, other: &Self) -> (r: Option<bool>) {
        compare_strs(*self, *other)
    }
}

/// A sequence is strictly increasing: sorted and free of duplicates.
pub open spec fn strictly_sorted<T: Label>(s: Seq<T>) -> bool {
    forall|i: int, j: int| 0 <= i < j < s.len() ==> #[trigger] s[i].before(#[trigger] s[j])
}

/// Bidirectional map between labels and their positions.
/// Labels are stored in increasing order; lookups use binary search.
#[derive(Debug, Clone)]
pub struct IxMap<T> {
    values: Vec<T>,
}

impl<T> View for IxMap<T> {
    type V = Seq<T>;

    closed spec fn view(&self) -> Seq<T> {
        self.values@
    }
}

impl<T: Label> IxMap<T> {
    /// The labels are strictly increasing.
    pub open spec fn wf(&self) -> bool {
        strictly_sorted(self@)
    }

    /// Number of labels.
    pub fn len(&self) -> (n: usize)
        ensures
            n == self@.len(),
    {
        self.values.len()
    }

    /// Whether there is no label.
    pub fn is_empty(&self) -> (b: bool)
        ensures
            b == (self@.len() == 0),
    {
        self.values.len() == 0
    }

    /// Position of a label that the order cannot tell apart from `x`, if
    /// there is one.
    pub fn index_of(&self, x: &T) -> (r: Option<usize>)
        requires
            self.wf(),
        ensures
            match r {
                Some(i) => i < self@.len() && !self@[i as int].before(*x) && !x.before(self@[i as int]),
                None => forall|k: int| 0 <= k < self@.len() ==> #[trigger] self@[k].before(*x) || x.before(self@[k]),
            },
    {
        let mut lo: usize = 0;
        let mut hi: usize = self.values.len();
        while lo < hi
            invariant
                strictly_sorted(self.values@),
                lo <= hi <= self.values@.len(),
                forall|k: int| 0 <= k < lo ==> #[trigger] self.values@[k].before(*x),
                forall|k: int| hi <= k < self.values@.len() ==> x.before(#[trigger] self.values@[k]),
            decreases hi - lo,
        {
            let mid = lo + (hi - lo) / 2;
            let v = &self.values[mid];
            match v.order(x) {
                None => {
                    return Some(mid);
                },
                Some(true) => {
                    proof {
                        assert forall|k: int| 0 <= k < mid + 1 implies #[trigger] self.values@[k].before(*x) by {
                            if k < mid {
                                assert(self.values@[k].before(self.values@[mid as int]));
                                T::lemma_before_transitive(self.values@[k], self.values@[mid as int], *x);
                            }
                        }
                    }
                    lo = mid + 1;
                },
                Some(false) => {
                    proof {
                        assert forall|k: int| mid <= k < self.values@.len() implies x.before(#[trigger] self.values@[k]) by {
                            if k > mid {
                                assert(self.values@[mid as int].before(self.values@[k]));
                                T::lemma_before_transitive(*x, self.values@[mid as int], self.values@[k]);
                            }
                        }
                    }
                    hi = mid;
                },
            }
        }
        None
    }

    /// Label at position `i`, if `i` is in range.
    pub fn value_of(&self, i: usize) -> (r: Option<&T>)
        ensures
            match r {
                Some(v) => i < self@.len() && *v == self@[i as int],
                None => i >= self@.len(),
            },
    {
        if i < self.values.len() {
            Some(&self.values[i])
        } else {
            None
        }
    }

    /// Builds the map from labels that are already sorted and distinct.
    pub fn from_distinct_sorted(vals: Vec<T>) -> (m: Self)
        requires
            strictly_sorted(vals@),
        ensures
            m@ == vals@,
            m.wf(),
    {
        IxMap { values: vals }
    }

    /// All (position, label) pairs, by position.
    pub fn iter(&self) -> (r: Vec<(usize, &T)>)
        ensures
            r@.len() == self@.len(),
            forall|i: int| 0 <= i < r@.len() ==> (#[trigger] r@[i]).0 == i && *r@[i].1 == self@[i],
    {
        let mut r: Vec<(usize, &T)> = Vec::new();
        let mut i: usize = 0;
        while i < self.values.len()
            invariant
                i <= self.values@.len(),
                r@.len() == i,
                forall|k: int| 0 <= k < i ==> (#[trigger] r@[k]).0 == k && *r@[k].1 == self.values@[k],
            decreases self.values@.len() - i,
        {
            r.push((i, &self.values[i]));
            i += 1;
        }
        r
    }
}

/// The map is bidirectional: whatever `index_of` may answer for the label
/// at position `i` (a position whose label the order cannot tell apart from
/// it, or none when every label differs from it), the answer is `i`.
pub proof fn lemma_index_of_value<T: Label>(m: IxMap<T>, i: int, r: Option<usize>)
    requires
        m.wf(),
        0 <= i < m@.len(),
        match r {
            Some(j) => j < m@.len() && !m@[j as int].before(m@[i]) && !m@[i].before(m@[j as int]),
            None => forall|k: int| 0 <= k < m@.len() ==> #[trigger] m@[k].before(m@[i]) || m@[i].before(m@[k]),
        },
    ensures
        r == Some(i as usize),
{
    T::lemma_before_asymmetric(m@[i], m@[i]);
    match r {
        Some(j) => {
            if (j as int) < i {
                assert(m@[j as int].before(m@[i]));
            } else if (j as int) > i {
                assert(m@[i].before(m@[j as int]));
            }
        },
        None => {
            assert(m@[i].before(m@[i]) || m@[i].before(m@[i]));
        },
    }
}

} // verus!
