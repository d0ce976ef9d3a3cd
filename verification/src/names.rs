use vstd::prelude::*;
use vstd::utf8::encode_utf8;

verus! {

// ------------------------------------------------------------------
// Byte-wise lexicographic order, the order of `String`
// ------------------------------------------------------------------

/// `a` comes strictly before `b` in lexicographic byte order.
pub open spec fn bytes_lt(a: Seq<u8>, b: Seq<u8>) -> bool
    decreases a.len(),
{
    if b.len() == 0 {
        false
    } else if a.len() == 0 {
        true
    } else if a[0] != b[0] {
        a[0] < b[0]
    } else {
        bytes_lt(a.drop_first(), b.drop_first())
    }
}

/// The UTF-8 bytes of a name; strings are ordered by them.
pub open spec fn name_bytes(s: Seq<char>) -> Seq<u8> {
    encode_utf8(s)
}

/// `a` comes strictly before `b` in the order of `String`.
pub open spec fn name_lt(a: Seq<char>, b: Seq<char>) -> bool {
    bytes_lt(name_bytes(a), name_bytes(b))
}

pub proof fn lemma_bytes_lt_irreflexive(a: Seq<u8>)
    ensures
        !bytes_lt(a, a),
    decreases a.len(),
{
    if a.len() > 0 {
        lemma_bytes_lt_irreflexive(a.drop_first());
    }
}

pub proof fn lemma_bytes_lt_transitive(a: Seq<u8>, b: Seq<u8>, c: Seq<u8>)
    requires
        bytes_lt(a, b),
        bytes_lt(b, c),
    ensures
        bytes_lt(a, c),
    decreases a.len(),
{
    if a.len() > 0 && b.len() > 0 && c.len() > 0 && a[0] == b[0] && b[0] == c[0] {
        lemma_bytes_lt_transitive(a.drop_first(), b.drop_first(), c.drop_first());
    }
}

pub proof fn lemma_bytes_lt_total(a: Seq<u8>, b: Seq<u8>)
    ensures
        bytes_lt(a, b) || bytes_lt(b, a) || a == b,
    decreases a.len(),
{
    if a.len() > 0 && b.len() > 0 {
        if a[0] == b[0] {
            lemma_bytes_lt_total(a.drop_first(), b.drop_first());
            if a.drop_first() == b.drop_first() {
                assert(a =~= seq![a[0]] + a.drop_first());
                assert(b =~= seq![b[0]] + b.drop_first());
            }
        }
    } else if a.len() == 0 && b.len() == 0 {
        assert(a =~= b);
    }
}

pub proof fn lemma_bytes_lt_asymmetric(a: Seq<u8>, b: Seq<u8>)
    requires
        bytes_lt(a, b),
    ensures
        !bytes_lt(b, a),
{
    if bytes_lt(b, a) {
        lemma_bytes_lt_transitive(a, b, a);
        lemma_bytes_lt_irreflexive(a);
    }
}

/// Compares two byte strings as `String` does: `Some(true)` when `a < b`,
/// `Some(false)` when `a > b`, `None` when they are equal.
fn compare_bytes(a: &[u8], b: &[u8]) -> (r: Option<bool>)
    ensures
        r == Some(true) <==> bytes_lt(a@, b@),
        r == Some(false) <==> bytes_lt(b@, a@),
        r is None <==> a@ == b@,
{
    let mut i: usize = 0;
    proof {
        assert(a@.skip(0) =~= a@);
        assert(b@.skip(0) =~= b@);
    }
    while i < a.len() && i < b.len()
        invariant
            i <= a@.len(),
            i <= b@.len(),
            a@.take(i as int) == b@.take(i as int),
            bytes_lt(a@, b@) == bytes_lt(a@.skip(i as int), b@.skip(i as int)),
            bytes_lt(b@, a@) == bytes_lt(b@.skip(i as int), a@.skip(i as int)),
        decreases a@.len() - i,
    {
        let x = a[i];
        let y = b[i];
        if x < y {
            assert(a@.skip(i as int)[0] == x);
            assert(b@.skip(i as int)[0] == y);
            proof {
                lemma_bytes_lt_asymmetric(a@, b@);
            }
            return Some(true);
        }
        if y < x {
            assert(a@.skip(i as int)[0] == x);
            assert(b@.skip(i as int)[0] == y);
            proof {
                lemma_bytes_lt_asymmetric(b@, a@);
            }
            return Some(false);
        }
        assert(a@.skip(i as int).drop_first() =~= a@.skip(i + 1));
        assert(b@.skip(i as int).drop_first() =~= b@.skip(i + 1));
        assert(a@.take(i + 1) =~= a@.take(i as int).push(x));
        assert(b@.take(i + 1) =~= b@.take(i as int).push(y));
        i += 1;
    }
    if i < b.len() {
        assert(a@.skip(i as int).len() == 0);
        assert(b@.skip(i as int).len() > 0);
        proof {
            lemma_bytes_lt_asymmetric(a@, b@);
        }
        assert(a@ != b@) by {
            assert(a@.len() != b@.len());
        }
        Some(true)
    } else if i < a.len() {
        assert(b@.skip(i as int).len() == 0);
        assert(a@.skip(i as int).len() > 0);
        proof {
            lemma_bytes_lt_asymmetric(b@, a@);
        }
        assert(a@ != b@) by {
            assert(a@.len() != b@.len());
        }
        Some(false)
    } else {
        assert(a@ =~= a@.take(i as int));
        assert(b@ =~= b@.take(i as int));
        proof {
            lemma_bytes_lt_irreflexive(a@);
        }
        None
    }
}

/// Compares two string slices as `str` does: `Some(true)` when `a < b`,
/// `Some(false)` when `a > b`, `None` when they are equal.
pub fn compare_strs(a: &str, b: &str) -> (r: Option<bool>)
    ensures
        r == Some(true) <==> name_lt(a@, b@),
        r == Some(false) <==> name_lt(b@, a@),
        r is None <==> name_bytes(a@) == name_bytes(b@),
{
    compare_bytes(a.as_bytes(), b.as_bytes())
}

/// Compares two names as `String` does: `Some(true)` when `a < b`,
/// `Some(false)` when `a > b`, `None` when they are equal.
pub fn compare_names(a: &String, b: &String) -> (r: Option<bool>)
    ensures
        r == Some(true) <==> name_lt(a@, b@),
        r == Some(false) <==> name_lt(b@, a@),
        r is None <==> name_bytes(a@) == name_bytes(b@),
{
    let x = a.as_str().as_bytes();
    let y = b.as_str().as_bytes();
    compare_bytes(x, y)
}

// ------------------------------------------------------------------
// Sorting (index, name) pairs
// ------------------------------------------------------------------

/// Order of (index, name) pairs: by name, then by index.
pub open spec fn entry_lt(a: (usize, Seq<char>), b: (usize, Seq<char>)) -> bool {
    name_lt(a.1, b.1) || (name_bytes(a.1) == name_bytes(b.1) && a.0 < b.0)
}

/// View of an (index, name) pair.
pub open spec fn entry_view(e: (usize, String)) -> (usize, Seq<char>) {
    (e.0, e.1@)
}

/// Strictly increasing in `entry_lt`.
pub open spec fn entries_sorted(s: Seq<(usize, String)>) -> bool {
    forall|i: int, j: int| 0 <= i < j < s.len() ==> entry_lt(entry_view(s[i]), entry_view(s[j]))
}

/// Indices strictly increasing.
pub open spec fn indices_increasing(s: Seq<(usize, String)>) -> bool {
    forall|i: int, j: int| 0 <= i < j < s.len() ==> s[i].0 < s[j].0
}

/// Same elements, each once: `r` is a rearrangement of `s`.
pub open spec fn rearranges(r: Seq<(usize, String)>, s: Seq<(usize, String)>) -> bool {
    &&& r.len() == s.len()
    &&& forall|x: (usize, String)| #[trigger] r.contains(x) <==> s.contains(x)
}

pub proof fn lemma_entry_lt_transitive(a: (usize, Seq<char>), b: (usize, Seq<char>), c: (usize, Seq<char>))
    requires
        entry_lt(a, b),
        entry_lt(b, c),
    ensures
        entry_lt(a, c),
{
    let (x, y, z) = (name_bytes(a.1), name_bytes(b.1), name_bytes(c.1));
    if bytes_lt(x, y) && bytes_lt(y, z) {
        lemma_bytes_lt_transitive(x, y, z);
    }
}

pub proof fn lemma_entry_lt_total(a: (usize, Seq<char>), b: (usize, Seq<char>))
    requires
        a.0 != b.0,
    ensures
        entry_lt(a, b) || entry_lt(b, a),
{
    lemma_bytes_lt_total(name_bytes(a.1), name_bytes(b.1));
}

pub proof fn lemma_entry_lt_asymmetric(a: (usize, Seq<char>), b: (usize, Seq<char>))
    requires
        entry_lt(a, b),
    ensures
        !entry_lt(b, a),
{
    let (x, y) = (name_bytes(a.1), name_bytes(b.1));
    if bytes_lt(x, y) {
        lemma_bytes_lt_asymmetric(x, y);
        if x == y {
            lemma_bytes_lt_irreflexive(x);
        }
    } else if bytes_lt(y, x) {
        lemma_bytes_lt_asymmetric(y, x);
    } else if x == y {
        lemma_bytes_lt_irreflexive(x);
    }
}

/// Sorts (index, name) pairs by name, ties by index, as a stable sort by name
/// does on pairs given in increasing index order.
pub fn sort_by_name(items: Vec<(usize, String)>) -> (r: Vec<(usize, String)>)
    requires
        indices_increasing(items@),
    ensures
        entries_sorted(r@),
        rearranges(r@, items@),
{
    let mut r: Vec<(usize, String)> = Vec::new();
    let mut i: usize = 0;
    let ghost s = items@;
    let mut rest = items;
    assert(rest.len() == s.len());
    while rest.len() > 0
        invariant
            s.len() <= usize::MAX,
            indices_increasing(s),
            i + rest@.len() == s.len(),
            rest@ == s.skip(i as int),
            entries_sorted(r@),
            r@.len() == i,
            forall|x: (usize, String)| #[trigger] r@.contains(x) <==> s.take(i as int).contains(x),
        decreases rest@.len(),
    {
        let item = rest.remove(0);
        assert(item == s[i as int]);
        assert(rest@ =~= s.skip(i + 1));
        let mut pos: usize = 0;
        let mut done = false;
        while !done && pos < r.len()
            invariant
                pos <= r@.len(),
                forall|q: int| 0 <= q < pos ==> entry_lt(entry_view(#[trigger] r@[q]), entry_view(item)),
                done ==> pos < r@.len() && !entry_lt(entry_view(r@[pos as int]), entry_view(item)),
            decreases r@.len() - pos, if done { 0int } else { 1int },
        {
            let c = compare_names(&r[pos].1, &item.1);
            let before = match c {
                Some(t) => t,
                None => r[pos].0 < item.0,
            };
            if before {
                pos += 1;
            } else {
                proof {
                    let a = entry_view(r@[pos as int]);
                    let b = entry_view(item);
                    if name_lt(a.1, b.1) {
                        assert(c == Some(true));
                    }
                }
                done = true;
            }
        }
        proof {
            // every later element of r comes after item
            assert forall|q: int| 0 <= q < r@.len() implies (#[trigger] r@[q]).0 < item.0 by {
                assert(r@.contains(r@[q]));
                let s0 = s.take(i as int);
                assert(s0.contains(r@[q]));
                let t = choose|t: int| 0 <= t < s0.len() && s0[t] == r@[q];
                assert(s[t].0 < s[i as int].0);
            }
            assert forall|q: int| pos <= q < r@.len() implies entry_lt(entry_view(item), entry_view(#[trigger] r@[q])) by {
                if pos < r@.len() {
                    // r[pos] is not before item
                    assert(!entry_lt(entry_view(r@[pos as int]), entry_view(item)));
                    lemma_entry_lt_total(entry_view(r@[pos as int]), entry_view(item));
                    if q > pos {
                        lemma_entry_lt_transitive(entry_view(item), entry_view(r@[pos as int]), entry_view(r@[q]));
                    }
                }
            }
        }
        let ghost r0 = r@;
        r.insert(pos, item);
        proof {
            assert(r@ =~= r0.take(pos as int).push(item) + r0.skip(pos as int));
            assert forall|a: int, b: int| 0 <= a < b < r@.len() implies entry_lt(entry_view(r@[a]), entry_view(r@[b])) by {
                if b < pos {
                    assert(r@[a] == r0[a]);
                    assert(r@[b] == r0[b]);
                } else if a < pos && b == pos {
                    assert(r@[a] == r0[a]);
                } else if a < pos && b > pos {
                    assert(r@[a] == r0[a]);
                    assert(r@[b] == r0[b - 1]);
                    lemma_entry_lt_transitive(entry_view(r0[a]), entry_view(item), entry_view(r0[b - 1]));
                } else if a == pos {
                    assert(r@[b] == r0[b - 1]);
                } else {
                    assert(r@[a] == r0[a - 1]);
                    assert(r@[b] == r0[b - 1]);
                }
            }
            let s1 = s.take(i + 1);
            let s0 = s.take(i as int);
            assert(s1 =~= s0.push(item));
            assert forall|x: (usize, String)| #[trigger] r@.contains(x) <==> s1.contains(x) by {
                if r@.contains(x) {
                    let q = choose|q: int| 0 <= q < r@.len() && r@[q] == x;
                    if q < pos {
                        assert(r0.contains(r0[q]));
                        assert(s0.contains(x));
                        let t = choose|t: int| 0 <= t < i && s0[t] == x;
                        assert(s1[t] == x);
                    } else if q == pos {
                        assert(s1[i as int] == x);
                    } else {
                        assert(r0[q - 1] == x);
                        assert(r0.contains(x));
                        assert(s0.contains(x));
                        let t = choose|t: int| 0 <= t < i && s0[t] == x;
                        assert(s1[t] == x);
                    }
                }
                if s1.contains(x) {
                    let t = choose|t: int| 0 <= t < i + 1 && s1[t] == x;
                    if t < i {
                        assert(s0[t] == x);
                        assert(s0.contains(x));
                        assert(r0.contains(x));
                        let q = choose|q: int| 0 <= q < r0.len() && r0[q] == x;
                        if q < pos {
                            assert(r@[q] == x);
                        } else {
                            assert(r@[q + 1] == x);
                        }
                    } else {
                        assert(r@[pos as int] == x);
                    }
                }
            }
        }
        i += 1;
    }
    proof {
        assert(s.take(i as int) =~= s);
    }
    r
}

} // verus!
