//! Lexicographic order of byte strings, which is how `str` and `String`
//! compare.

use vstd::prelude::*;
use vstd::string::StringSliceAdditionalSpecFns;
use vstd::utf8::encode_utf8;

verus! {

/// `a` comes before `b` in lexicographic byte order, comparing from
/// position `i` on (a proper prefix comes first).
pub open spec fn bytes_lt_from(a: Seq<u8>, b: Seq<u8>, i: int) -> bool
    decreases a.len() - i,
{
    if i >= a.len() {
        i < b.len()
    } else if i >= b.len() {
        false
    } else if a[i] != b[i] {
        a[i] < b[i]
    } else {
        bytes_lt_from(a, b, i + 1)
    }
}

/// Lexicographic byte order.
pub open spec fn bytes_lt(a: Seq<u8>, b: Seq<u8>) -> bool {
    bytes_lt_from(a, b, 0)
}

/// String order: lexicographic on the UTF-8 bytes.
pub open spec fn text_lt(a: Seq<char>, b: Seq<char>) -> bool {
    bytes_lt(encode_utf8(a), encode_utf8(b))
}

/// Whether `a` sorts before `b` (`<` on `str`).
pub fn str_lt(a: &str, b: &str) -> (r: bool)
    ensures
        r == text_lt(a@, b@),
{
    let x = a.as_bytes();
    let y = b.as_bytes();
    let mut i: usize = 0;
    while i < x.len() && i < y.len() && x[i] == y[i]
        invariant
            x@ == a.spec_bytes(),
            y@ == b.spec_bytes(),
            i <= x@.len(),
            i <= y@.len(),
            bytes_lt(x@, y@) == bytes_lt_from(x@, y@, i as int),
        decreases x@.len() - i,
    {
        i = i + 1;
    }
    if i >= x.len() {
        i < y.len()
    } else if i >= y.len() {
        false
    } else {
        x[i] < y[i]
    }
}

proof fn lemma_bytes_lt_irreflexive_from(a: Seq<u8>, i: int)
    requires
        0 <= i,
    ensures
        !bytes_lt_from(a, a, i),
    decreases a.len() - i,
{
    if i < a.len() {
        lemma_bytes_lt_irreflexive_from(a, i + 1);
    }
}

proof fn lemma_bytes_lt_transitive_from(a: Seq<u8>, b: Seq<u8>, c: Seq<u8>, i: int)
    requires
        0 <= i,
        bytes_lt_from(a, b, i),
        bytes_lt_from(b, c, i),
    ensures
        bytes_lt_from(a, c, i),
    decreases a.len() - i,
{
    if i < a.len() && i < b.len() && i < c.len() && a[i] == b[i] && b[i] == c[i] {
        lemma_bytes_lt_transitive_from(a, b, c, i + 1);
    }
}

proof fn lemma_bytes_lt_total_from(a: Seq<u8>, b: Seq<u8>, i: int)
    requires
        0 <= i <= a.len(),
        i <= b.len(),
        a.subrange(0, i) == b.subrange(0, i),
        !bytes_lt_from(a, b, i),
        !bytes_lt_from(b, a, i),
    ensures
        a == b,
    decreases a.len() - i,
{
    if i < a.len() && i < b.len() {
        assert(a[i] == b[i]);
        assert(a.subrange(0, i + 1) =~= a.subrange(0, i).push(a[i]));
        assert(b.subrange(0, i + 1) =~= b.subrange(0, i).push(b[i]));
        lemma_bytes_lt_total_from(a, b, i + 1);
    } else {
        assert(a.len() == i && b.len() == i);
        assert(a =~= a.subrange(0, i));
        assert(b =~= b.subrange(0, i));
    }
}

/// String order is a strict total order: irreflexive, transitive, and any
/// two different strings are ordered one way or the other.
pub proof fn lemma_text_lt_order(a: Seq<char>, b: Seq<char>, c: Seq<char>)
    ensures
        !text_lt(a, a),
        text_lt(a, b) && text_lt(b, c) ==> text_lt(a, c),
        a != b ==> text_lt(a, b) || text_lt(b, a),
        text_lt(a, b) ==> !text_lt(b, a),
{
    let (x, y, z) = (encode_utf8(a), encode_utf8(b), encode_utf8(c));
    lemma_bytes_lt_irreflexive_from(x, 0);
    if text_lt(a, b) && text_lt(b, c) {
        lemma_bytes_lt_transitive_from(x, y, z, 0);
    }
    if !text_lt(a, b) && !text_lt(b, a) {
        assert(x.subrange(0, 0) =~= y.subrange(0, 0));
        lemma_bytes_lt_total_from(x, y, 0);
        vstd::utf8::encode_utf8_decode_utf8(a);
        vstd::utf8::encode_utf8_decode_utf8(b);
    }
    if text_lt(a, b) && text_lt(b, a) {
        lemma_bytes_lt_transitive_from(x, y, x, 0);
    }
}

/// The strings are in strictly increasing order.
pub open spec fn strictly_sorted(s: Seq<Seq<char>>) -> bool {
    forall|i: int, j: int| 0 <= i < j < s.len() ==> text_lt(#[trigger] s[i], #[trigger] s[j])
}

/// The views of a list of strings.
pub open spec fn string_views(v: Seq<String>) -> Seq<Seq<char>> {
    v.map_values(|s: String| s@)
}

/// The strings of `v` in increasing order, each once: the order in which a
/// `BTreeSet<String>` holds them.
pub fn sorted_unique(v: &Vec<String>) -> (r: Vec<String>)
    ensures
        strictly_sorted(string_views(r@)),
        string_views(r@).to_set() == string_views(v@).to_set(),
{
    let mut r: Vec<String> = Vec::new();
    let mut i: usize = 0;
    while i < v.len()
        invariant
            i <= v@.len(),
            strictly_sorted(string_views(r@)),
            string_views(r@).to_set() == string_views(v@.subrange(0, i as int)).to_set(),
        decreases v@.len() - i,
    {
        let ghost before = string_views(r@);
        let x = &v[i];
        let mut p: usize = 0;
        while p < r.len() && str_lt(r[p].as_str(), x.as_str())
            invariant
                p <= r@.len(),
                before == string_views(r@),
                forall|q: int| 0 <= q < p ==> text_lt(#[trigger] before[q], x@),
            decreases r@.len() - p,
        {
            p = p + 1;
        }
        proof {
            assert(string_views(v@.subrange(0, i + 1)) =~= string_views(v@.subrange(0, i as int)).push(x@));
            string_views(v@.subrange(0, i as int)).lemma_push_to_set_commute(x@);
        }
        if p < r.len() && crate::assoc::str_eq(r[p].as_str(), x.as_str()) {
            proof {
                assert(before[p as int] == x@);
                assert(before.contains(x@));
                assert(before.to_set().insert(x@) =~= before.to_set());
            }
        } else {
            r.insert(p, x.clone());
            proof {
                let after = string_views(r@);
                assert(after =~= before.insert(p as int, x@));
                if p < before.len() {
                    lemma_text_lt_order(before[p as int], x@, x@);
                    assert(text_lt(x@, before[p as int]));
                }
                assert forall|a: int, b: int| 0 <= a < b < after.len() implies text_lt(
                    #[trigger] after[a],
                    #[trigger] after[b],
                ) by {
                    if b < p {
                    } else if b == p {
                    } else if a < p {
                        assert(after[b] == before[b - 1]);
                        if a < p {
                            lemma_text_lt_order(before[a], x@, before[p as int]);
                            if b - 1 > p {
                                lemma_text_lt_order(before[a], before[p as int], before[b - 1]);
                            }
                        }
                    } else if a == p {
                        assert(after[b] == before[b - 1]);
                        if b - 1 > p {
                            lemma_text_lt_order(x@, before[p as int], before[b - 1]);
                        }
                    } else {
                        assert(after[a] == before[a - 1] && after[b] == before[b - 1]);
                    }
                }
                assert forall|y: Seq<char>| after.contains(y) <==> before.contains(y) || y == x@ by {
                    if after.contains(y) {
                        let q = choose|q: int| 0 <= q < after.len() && after[q] == y;
                        if q < p {
                            assert(before[q] == y);
                        } else if q > p {
                            assert(before[q - 1] == y);
                        }
                    }
                    if before.contains(y) {
                        let q = choose|q: int| 0 <= q < before.len() && before[q] == y;
                        if q < p {
                            assert(after[q] == y);
                        } else {
                            assert(after[q + 1] == y);
                        }
                    }
                    if y == x@ {
                        assert(after[p as int] == y);
                    }
                }
                assert(after.to_set() =~= before.to_set().insert(x@));
            }
        }
        i = i + 1;
    }
    assert(v@.subrange(0, v@.len() as int) =~= v@);
    r
}

/// Whether a list of strings holds `x`.
pub fn strings_contain(v: &Vec<String>, x: &str) -> (b: bool)
    ensures
        b == string_views(v@).contains(x@),
{
    let mut i: usize = 0;
    while i < v.len()
        invariant
            i <= v@.len(),
            forall|j: int| 0 <= j < i ==> string_views(v@)[j] != x@,
        decreases v@.len() - i,
    {
        if crate::assoc::str_eq(v[i].as_str(), x) {
            assert(string_views(v@)[i as int] == x@);
            return true;
        }
        i = i + 1;
    }
    false
}

/// The first position from `i` on whose string does not sort before `x`.
pub open spec fn str_pos(s: Seq<Seq<char>>, x: Seq<char>, i: int) -> int
    decreases s.len() - i,
{
    if i < 0 || i >= s.len() {
        s.len() as int
    } else if text_lt(s[i], x) {
        str_pos(s, x, i + 1)
    } else {
        i
    }
}

/// A strictly increasing list with `x` added in its place (unchanged when
/// `x` is already there).
pub open spec fn sorted_set_insert(s: Seq<Seq<char>>, x: Seq<char>) -> Seq<Seq<char>> {
    let p = str_pos(s, x, 0);
    if p < s.len() && s[p] == x { s } else { s.insert(p, x) }
}

/// Adds `x` to a strictly increasing list of strings, keeping the order
/// (a set insertion).
pub fn sorted_insert(v: &mut Vec<String>, x: String)
    requires
        strictly_sorted(string_views(old(v)@)),
    ensures
        strictly_sorted(string_views(final(v)@)),
        string_views(final(v)@).to_set() == string_views(old(v)@).to_set().insert(x@),
        string_views(old(v)@).contains(x@) ==> final(v)@ == old(v)@,
        string_views(final(v)@) == sorted_set_insert(string_views(old(v)@), x@),
{
    let ghost before = string_views(v@);
    let mut p: usize = 0;
    while p < v.len() && str_lt(v[p].as_str(), x.as_str())
        invariant
            p <= v@.len(),
            before == string_views(v@),
            forall|q: int| 0 <= q < p ==> text_lt(#[trigger] before[q], x@),
            str_pos(before, x@, 0) == str_pos(before, x@, p as int),
        decreases v@.len() - p,
    {
        p = p + 1;
    }
    if p < v.len() && crate::assoc::str_eq(v[p].as_str(), x.as_str()) {
        proof {
            assert(before[p as int] == x@);
            assert(before.contains(x@));
            assert(before.to_set().insert(x@) =~= before.to_set());
        }
        return;
    }
    proof {
        if before.contains(x@) {
            let q = choose|q: int| 0 <= q < before.len() && before[q] == x@;
            lemma_text_lt_order(x@, x@, x@);
            if q < p {
            } else if q > p {
                lemma_text_lt_order(before[p as int], x@, x@);
                lemma_text_lt_order(x@, before[p as int], before[q]);
            }
        }
    }
    let ghost xv = x@;
    v.insert(p, x);
    proof {
        let after = string_views(v@);
        assert(after =~= before.insert(p as int, xv));
        if p < before.len() {
            lemma_text_lt_order(before[p as int], xv, xv);
            assert(text_lt(xv, before[p as int]));
        }
        assert forall|a: int, b: int| 0 <= a < b < after.len() implies text_lt(
            #[trigger] after[a],
            #[trigger] after[b],
        ) by {
            if b < p {
            } else if b == p {
            } else if a < p {
                assert(after[b] == before[b - 1]);
                lemma_text_lt_order(before[a], xv, before[p as int]);
                if b - 1 > p {
                    lemma_text_lt_order(before[a], before[p as int], before[b - 1]);
                }
            } else if a == p {
                assert(after[b] == before[b - 1]);
                if b - 1 > p {
                    lemma_text_lt_order(xv, before[p as int], before[b - 1]);
                }
            } else {
                assert(after[a] == before[a - 1] && after[b] == before[b - 1]);
            }
        }
        assert forall|y: Seq<char>| after.contains(y) <==> before.contains(y) || y == xv by {
            if after.contains(y) {
                let q = choose|q: int| 0 <= q < after.len() && after[q] == y;
                if q < p {
                    assert(before[q] == y);
                } else if q > p {
                    assert(before[q - 1] == y);
                }
            }
            if before.contains(y) {
                let q = choose|q: int| 0 <= q < before.len() && before[q] == y;
                if q < p {
                    assert(after[q] == y);
                } else {
                    assert(after[q + 1] == y);
                }
            }
            if y == xv {
                assert(after[p as int] == y);
            }
        }
        assert(after.to_set() =~= before.to_set().insert(xv));
    }
}

/// Removes every occurrence of `x` from a list of strings, keeping the
/// order of the rest.
pub fn strings_remove(v: &mut Vec<String>, x: &str)
    ensures
        string_views(final(v)@) == string_views(old(v)@).filter(|y: Seq<char>| y != x@),
{
    let ghost w = string_views(v@);
    let mut kept: Vec<String> = Vec::new();
    let mut i: usize = 0;
    while i < v.len()
        invariant
            w == string_views(v@),
            i <= v@.len(),
            string_views(kept@) == w.subrange(0, i as int).filter(|y: Seq<char>| y != x@),
        decreases v@.len() - i,
    {
        proof {
            reveal(Seq::filter);
            assert(w.subrange(0, i + 1).drop_last() =~= w.subrange(0, i as int));
        }
        if !crate::assoc::str_eq(v[i].as_str(), x) {
            kept.push(v[i].clone());
            assert(string_views(kept@) =~= w.subrange(0, i + 1).filter(|y: Seq<char>| y != x@));
        } else {
            assert(string_views(kept@) =~= w.subrange(0, i + 1).filter(|y: Seq<char>| y != x@));
        }
        i = i + 1;
    }
    assert(w.subrange(0, w.len() as int) =~= w);
    *v = kept;
}


/// The strictly increasing list of the strings of a finite set: the order
/// in which a `BTreeSet<String>` holds them.
pub open spec fn sorted_seq_of(s: Set<Seq<char>>) -> Seq<Seq<char>> {
    choose|q: Seq<Seq<char>>| strictly_sorted(q) && q.to_set() == s
}

/// Two strictly increasing lists that hold the same strings are equal.
pub proof fn lemma_sorted_unique(s: Seq<Seq<char>>, t: Seq<Seq<char>>)
    requires
        strictly_sorted(s),
        strictly_sorted(t),
        s.to_set() == t.to_set(),
    ensures
        s == t,
    decreases s.len(),
{
    if s.len() == 0 {
        if t.len() > 0 {
            assert(t.to_set().contains(t[0]));
        }
        assert(s =~= t);
        return;
    }
    if t.len() == 0 {
        assert(s.to_set().contains(s[0]));
        return;
    }
    assert(t.to_set().contains(s[0]));
    let j = choose|j: int| 0 <= j < t.len() && t[j] == s[0];
    assert(s.to_set().contains(t[0]));
    let k = choose|k: int| 0 <= k < s.len() && s[k] == t[0];
    lemma_text_lt_order(s[0], s[0], s[0]);
    lemma_text_lt_order(s[0], s[k], s[0]);
    if j > 0 {
        assert(text_lt(t[0], t[j]));
        if k > 0 {
            assert(text_lt(s[0], s[k]));
        }
    }
    assert(j == 0);
    let (s1, t1) = (s.drop_first(), t.drop_first());
    assert forall|x: Seq<char>| s1.to_set().contains(x) implies t1.to_set().contains(x) by {
        let a = choose|a: int| 0 <= a < s1.len() && s1[a] == x;
        assert(s[a + 1] == x);
        assert(t.to_set().contains(x));
        let b = choose|b: int| 0 <= b < t.len() && t[b] == x;
        if b == 0 {
            assert(text_lt(s[0], s[a + 1]));
        }
        assert(t1[b - 1] == x);
    }
    assert forall|x: Seq<char>| t1.to_set().contains(x) implies s1.to_set().contains(x) by {
        let b = choose|b: int| 0 <= b < t1.len() && t1[b] == x;
        assert(t[b + 1] == x);
        assert(s.to_set().contains(x));
        let a = choose|a: int| 0 <= a < s.len() && s[a] == x;
        if a == 0 {
            assert(text_lt(t[0], t[b + 1]));
        }
        assert(s1[a - 1] == x);
    }
    assert(s1.to_set() =~= t1.to_set());
    lemma_sorted_unique(s1, t1);
    assert(s.len() == t.len());
    assert forall|i: int| 0 <= i < s.len() implies s[i] == t[i] by {
        if i > 0 {
            assert(s1[i - 1] == t1[i - 1]);
        }
    }
    assert(s =~= t);
}

/// A strictly increasing list is the sorted list of its own strings.
pub proof fn lemma_sorted_seq_of(q: Seq<Seq<char>>)
    requires
        strictly_sorted(q),
    ensures
        sorted_seq_of(q.to_set()) == q,
{
    let r = sorted_seq_of(q.to_set());
    assert(strictly_sorted(r) && r.to_set() == q.to_set());
    lemma_sorted_unique(r, q);
}


proof fn lemma_str_pos(s: Seq<Seq<char>>, x: Seq<char>, i: int)
    requires
        0 <= i <= s.len(),
    ensures
        i <= str_pos(s, x, i) <= s.len(),
        forall|q: int| i <= q < str_pos(s, x, i) ==> text_lt(#[trigger] s[q], x),
        str_pos(s, x, i) < s.len() ==> !text_lt(s[str_pos(s, x, i)], x),
    decreases s.len() - i,
{
    if i < s.len() && text_lt(s[i], x) {
        lemma_str_pos(s, x, i + 1);
    }
}

/// Inserting into a strictly increasing list in its place keeps it
/// strictly increasing and adds exactly the new string.
pub proof fn lemma_sorted_set_insert(s: Seq<Seq<char>>, x: Seq<char>)
    requires
        strictly_sorted(s),
    ensures
        strictly_sorted(sorted_set_insert(s, x)),
        sorted_set_insert(s, x).to_set() == s.to_set().insert(x),
{
    lemma_str_pos(s, x, 0);
    let p = str_pos(s, x, 0);
    if p < s.len() && s[p] == x {
        assert(s.contains(x));
        assert(s.to_set().insert(x) =~= s.to_set());
        return;
    }
    lemma_text_lt_order(x, x, x);
    if p < s.len() {
        lemma_text_lt_order(s[p], x, x);
        assert(text_lt(x, s[p]));
    }
    let after = s.insert(p, x);
    assert forall|a: int, b: int| 0 <= a < b < after.len() implies text_lt(
        #[trigger] after[a],
        #[trigger] after[b],
    ) by {
        if b < p {
        } else if b == p {
        } else if a < p {
            assert(after[b] == s[b - 1]);
            lemma_text_lt_order(s[a], x, s[p]);
            if b - 1 > p {
                lemma_text_lt_order(s[a], s[p], s[b - 1]);
            }
        } else if a == p {
            assert(after[b] == s[b - 1]);
            if b - 1 > p {
                lemma_text_lt_order(x, s[p], s[b - 1]);
            }
        } else {
            assert(after[a] == s[a - 1] && after[b] == s[b - 1]);
        }
    }
    assert forall|y: Seq<char>| after.contains(y) <==> s.contains(y) || y == x by {
        if after.contains(y) {
            let q = choose|q: int| 0 <= q < after.len() && after[q] == y;
            if q < p {
                assert(s[q] == y);
            } else if q > p {
                assert(s[q - 1] == y);
            }
        }
        if s.contains(y) {
            let q = choose|q: int| 0 <= q < s.len() && s[q] == y;
            if q < p {
                assert(after[q] == y);
            } else {
                assert(after[q + 1] == y);
            }
        }
        if y == x {
            assert(after[p] == y);
        }
    }
    assert(after.to_set() =~= s.to_set().insert(x));
}

/// The strings of any list can be put in strictly increasing order:
/// `sorted_seq_of` gives that order for the set of them.
pub proof fn lemma_sorted_seq_exists(s: Seq<Seq<char>>)
    ensures
        strictly_sorted(sorted_seq_of(s.to_set())),
        sorted_seq_of(s.to_set()).to_set() == s.to_set(),
{
    let q = sorted_seq_from(s);
    assert(strictly_sorted(q) && q.to_set() == s.to_set());
}

proof fn sorted_seq_from(s: Seq<Seq<char>>) -> (q: Seq<Seq<char>>)
    ensures
        strictly_sorted(q),
        q.to_set() == s.to_set(),
    decreases s.len(),
{
    if s.len() == 0 {
        assert(s.to_set() =~= Set::<Seq<char>>::empty());
        assert(Seq::<Seq<char>>::empty().to_set() =~= Set::<Seq<char>>::empty());
        Seq::empty()
    } else {
        let q0 = sorted_seq_from(s.drop_last());
        lemma_sorted_set_insert(q0, s.last());
        s.drop_last().lemma_push_to_set_commute(s.last());
        assert(s.drop_last().push(s.last()) =~= s);
        sorted_set_insert(q0, s.last())
    }
}

} // verus!
