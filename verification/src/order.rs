//! The order in which a room keeps its members: strings compared byte by
//! byte on their UTF-8 encoding, the order of `String` in std. Member lists
//! are kept strictly ascending in it, so a set of ids has exactly one list.
use vstd::prelude::*;
use vstd::utf8::*;

verus! {

/// Lexicographic order on byte sequences: a proper prefix comes first.
pub open spec fn bytes_lt(a: Seq<u8>, b: Seq<u8>) -> bool
    decreases a.len(),
{
    if a.len() == 0 {
        b.len() > 0
    } else if b.len() == 0 {
        false
    } else if a[0] != b[0] {
        a[0] < b[0]
    } else {
        bytes_lt(a.drop_first(), b.drop_first())
    }
}

/// The order of two strings: that of their UTF-8 bytes.
pub open spec fn key_lt(a: Seq<char>, b: Seq<char>) -> bool {
    bytes_lt(encode_utf8(a), encode_utf8(b))
}

/// Every element is before every later one in `key_lt`.
pub open spec fn strictly_sorted(s: Seq<Seq<char>>) -> bool {
    forall|i: int, j: int| 0 <= i < j < s.len() ==> key_lt(#[trigger] s[i], #[trigger] s[j])
}

/// The ascending list of the ids of `s` together with `x`.
pub open spec fn with_key(s: Seq<Seq<char>>, x: Seq<char>) -> Seq<Seq<char>> {
    choose|r: Seq<Seq<char>>|
        strictly_sorted(r) && forall|y: Seq<char>| #[trigger] r.contains(y) <==> (s.contains(y) || y == x)
}

/// The ascending list of the ids of `s` other than `x`.
pub open spec fn without_key(s: Seq<Seq<char>>, x: Seq<char>) -> Seq<Seq<char>> {
    choose|r: Seq<Seq<char>>|
        strictly_sorted(r) && forall|y: Seq<char>| #[trigger] r.contains(y) <==> (s.contains(y) && y != x)
}

pub proof fn lemma_bytes_lt_irreflexive(a: Seq<u8>)
    ensures
        !bytes_lt(a, a),
    decreases a.len(),
{
    if a.len() > 0 {
        lemma_bytes_lt_irreflexive(a.drop_first());
    }
}

pub proof fn lemma_bytes_lt_transitive(a: Seq<u8>, b: Seq<u8>, c: Seq<u8>)
    requires
        bytes_lt(a, b),
        bytes_lt(b, c),
    ensures
        bytes_lt(a, c),
    decreases a.len(),
{
    if a.len() > 0 && b.len() > 0 && c.len() > 0 {
        if a[0] == b[0] && b[0] == c[0] {
            lemma_bytes_lt_transitive(a.drop_first(), b.drop_first(), c.drop_first());
        }
    }
}

pub proof fn lemma_bytes_lt_total(a: Seq<u8>, b: Seq<u8>)
    requires
        a != b,
    ensures
        bytes_lt(a, b) || bytes_lt(b, a),
    decreases a.len(),
{
    if a.len() > 0 && b.len() > 0 && a[0] == b[0] {
        if a.drop_first() == b.drop_first() {
            assert(a =~= seq![a[0]] + a.drop_first());
            assert(b =~= seq![b[0]] + b.drop_first());
        }
        lemma_bytes_lt_total(a.drop_first(), b.drop_first());
    } else if a.len() == 0 && b.len() == 0 {
        assert(a =~= b);
    }
}

/// Comparing past a common prefix does not change the outcome.
pub proof fn lemma_bytes_lt_skip(a: Seq<u8>, b: Seq<u8>, i: int)
    requires
        0 <= i <= a.len(),
        i <= b.len(),
        forall|k: int| 0 <= k < i ==> a[k] == b[k],
    ensures
        bytes_lt(a, b) == bytes_lt(a.skip(i), b.skip(i)),
    decreases i,
{
    if i > 0 {
        lemma_bytes_lt_skip(a.drop_first(), b.drop_first(), i - 1);
        assert(a.drop_first().skip(i - 1) =~= a.skip(i));
        assert(b.drop_first().skip(i - 1) =~= b.skip(i));
    } else {
        assert(a.skip(0) =~= a);
        assert(b.skip(0) =~= b);
    }
}

pub proof fn lemma_key_lt_irreflexive(a: Seq<char>)
    ensures
        !key_lt(a, a),
{
    lemma_bytes_lt_irreflexive(encode_utf8(a));
}

pub proof fn lemma_key_lt_transitive(a: Seq<char>, b: Seq<char>, c: Seq<char>)
    requires
        key_lt(a, b),
        key_lt(b, c),
    ensures
        key_lt(a, c),
{
    lemma_bytes_lt_transitive(encode_utf8(a), encode_utf8(b), encode_utf8(c));
}

pub proof fn lemma_key_lt_total(a: Seq<char>, b: Seq<char>)
    requires
        a != b,
    ensures
        key_lt(a, b) || key_lt(b, a),
{
    encode_utf8_decode_utf8(a);
    encode_utf8_decode_utf8(b);
    lemma_bytes_lt_total(encode_utf8(a), encode_utf8(b));
}

/// A strictly ascending list holds no id twice.
pub proof fn lemma_sorted_no_duplicates(s: Seq<Seq<char>>)
    requires
        strictly_sorted(s),
    ensures
        s.no_duplicates(),
{
    assert forall|i: int, j: int| 0 <= i < s.len() && 0 <= j < s.len() && i != j implies s[i] != s[j] by {
        if i < j {
            lemma_key_lt_irreflexive(s[i]);
        } else {
            lemma_key_lt_irreflexive(s[j]);
        }
    }
}

/// Two strictly ascending lists that hold the same ids are equal.
pub proof fn lemma_sorted_unique(s1: Seq<Seq<char>>, s2: Seq<Seq<char>>)
    requires
        strictly_sorted(s1),
        strictly_sorted(s2),
        forall|y: Seq<char>| s1.contains(y) <==> s2.contains(y),
    ensures
        s1 == s2,
    decreases s1.len(),
{
    if s1.len() == 0 {
        if s2.len() > 0 {
            assert(s2.contains(s2[0]));
        }
        assert(s1 =~= s2);
    } else {
        assert(s1.contains(s1[0]));
        let j = choose|j: int| 0 <= j < s2.len() && s2[j] == s1[0];
        assert(s2.contains(s2[0]));
        let i = choose|i: int| 0 <= i < s1.len() && s1[i] == s2[0];
        if j > 0 {
            assert(key_lt(s2[0], s2[j]));
            if i == 0 {
                lemma_key_lt_irreflexive(s1[0]);
            } else {
                assert(key_lt(s1[0], s1[i]));
                lemma_key_lt_transitive(s1[0], s1[i], s1[0]);
                lemma_key_lt_irreflexive(s1[0]);
            }
        }
        assert(s1[0] == s2[0]);
        let t1 = s1.drop_first();
        let t2 = s2.drop_first();
        assert forall|y: Seq<char>| t1.contains(y) <==> t2.contains(y) by {
            if t1.contains(y) {
                let k = choose|k: int| 0 <= k < t1.len() && t1[k] == y;
                assert(key_lt(s1[0], s1[k + 1]));
                lemma_key_lt_irreflexive(y);
                assert(s1.contains(y));
                let m = choose|m: int| 0 <= m < s2.len() && s2[m] == y;
                assert(m != 0);
                assert(t2[m - 1] == y);
            }
            if t2.contains(y) {
                let k = choose|k: int| 0 <= k < t2.len() && t2[k] == y;
                assert(key_lt(s2[0], s2[k + 1]));
                lemma_key_lt_irreflexive(y);
                assert(s2.contains(y));
                let m = choose|m: int| 0 <= m < s1.len() && s1[m] == y;
                assert(m != 0);
                assert(t1[m - 1] == y);
            }
        }
        lemma_sorted_unique(t1, t2);
        assert(s1 =~= seq![s1[0]] + t1);
        assert(s2 =~= seq![s2[0]] + t2);
    }
}

/// A strictly ascending list that holds the ids of `s` and `x` is `with_key(s, x)`.
pub proof fn lemma_with_key_is(s: Seq<Seq<char>>, x: Seq<char>, r: Seq<Seq<char>>)
    requires
        strictly_sorted(r),
        forall|y: Seq<char>| #[trigger] r.contains(y) <==> (s.contains(y) || y == x),
    ensures
        with_key(s, x) == r,
{
    let w = with_key(s, x);
    assert(strictly_sorted(w) && forall|y: Seq<char>| #[trigger] w.contains(y) <==> (s.contains(y) || y == x));
    lemma_sorted_unique(w, r);
}

/// A strictly ascending list that holds the ids of `s` but `x` is `without_key(s, x)`.
pub proof fn lemma_without_key_is(s: Seq<Seq<char>>, x: Seq<char>, r: Seq<Seq<char>>)
    requires
        strictly_sorted(r),
        forall|y: Seq<char>| #[trigger] r.contains(y) <==> (s.contains(y) && y != x),
    ensures
        without_key(s, x) == r,
{
    let w = without_key(s, x);
    assert(strictly_sorted(w) && forall|y: Seq<char>| #[trigger] w.contains(y) <==> (s.contains(y) && y != x));
    lemma_sorted_unique(w, r);
}

/// Removing an id from an ascending list gives an ascending list of the
/// other ids.
pub proof fn lemma_without_key(s: Seq<Seq<char>>, x: Seq<char>)
    requires
        strictly_sorted(s),
    ensures
        strictly_sorted(without_key(s, x)),
        forall|y: Seq<char>| #[trigger] without_key(s, x).contains(y) <==> (s.contains(y) && y != x),
{
    let r = without_witness(s, x);
    lemma_without_key_is(s, x, r);
}

/// An ascending list of the ids of `s` other than `x`, built one id at a time.
proof fn without_witness(s: Seq<Seq<char>>, x: Seq<char>) -> (r: Seq<Seq<char>>)
    requires
        strictly_sorted(s),
    ensures
        strictly_sorted(r),
        forall|y: Seq<char>| #[trigger] r.contains(y) <==> (s.contains(y) && y != x),
    decreases s.len(),
{
    if s.len() == 0 {
        seq![]
    } else {
        lemma_sorted_split(s);
        let t = s.drop_first();
        let rt = without_witness(t, x);
        if s[0] == x {
            assert forall|y: Seq<char>| #[trigger] rt.contains(y) <==> (s.contains(y) && y != x) by {
                if t.contains(y) {
                    lemma_key_lt_irreflexive(y);
                }
            }
            rt
        } else {
            lemma_sorted_prepend(s[0], rt);
            seq![s[0]] + rt
        }
    }
}

/// Adding an id to an ascending list gives an ascending list of all of them.
pub proof fn lemma_with_key(s: Seq<Seq<char>>, x: Seq<char>)
    requires
        strictly_sorted(s),
    ensures
        strictly_sorted(with_key(s, x)),
        forall|y: Seq<char>| #[trigger] with_key(s, x).contains(y) <==> (s.contains(y) || y == x),
{
    let r = with_witness(s, x);
    lemma_with_key_is(s, x, r);
}

/// The first id of an ascending list comes before all the others.
proof fn lemma_sorted_split(s: Seq<Seq<char>>)
    requires
        strictly_sorted(s),
        s.len() > 0,
    ensures
        strictly_sorted(s.drop_first()),
        forall|y: Seq<char>| #[trigger] s.drop_first().contains(y) ==> key_lt(s[0], y),
        forall|y: Seq<char>| #[trigger] s.contains(y) <==> (y == s[0] || s.drop_first().contains(y)),
{
    let t = s.drop_first();
    assert forall|i: int, j: int| 0 <= i < j < t.len() implies key_lt(#[trigger] t[i], #[trigger] t[j]) by {
        assert(t[i] == s[i + 1] && t[j] == s[j + 1]);
    }
    assert forall|y: Seq<char>| #[trigger] t.contains(y) implies key_lt(s[0], y) by {
        let k = choose|k: int| 0 <= k < t.len() && t[k] == y;
        assert(key_lt(s[0], s[k + 1]));
    }
    assert forall|y: Seq<char>| #[trigger] s.contains(y) <==> (y == s[0] || t.contains(y)) by {
        if s.contains(y) {
            let k = choose|k: int| 0 <= k < s.len() && s[k] == y;
            if k > 0 {
                assert(t[k - 1] == y);
            }
        }
        if t.contains(y) {
            let k = choose|k: int| 0 <= k < t.len() && t[k] == y;
            assert(s[k + 1] == y);
        }
        if y == s[0] {
            assert(s.contains(s[0]));
        }
    }
}

/// Putting an id before an ascending list whose ids all come after it.
proof fn lemma_sorted_prepend(x: Seq<char>, t: Seq<Seq<char>>)
    requires
        strictly_sorted(t),
        forall|y: Seq<char>| #[trigger] t.contains(y) ==> key_lt(x, y),
    ensures
        strictly_sorted(seq![x] + t),
        forall|y: Seq<char>| #[trigger] (seq![x] + t).contains(y) <==> (y == x || t.contains(y)),
{
    let r = seq![x] + t;
    assert forall|i: int, j: int| 0 <= i < j < r.len() implies key_lt(#[trigger] r[i], #[trigger] r[j]) by {
        if i == 0 {
            assert(r[j] == t[j - 1]);
            assert(t.contains(t[j - 1]));
        } else {
            assert(r[i] == t[i - 1] && r[j] == t[j - 1]);
        }
    }
    assert forall|y: Seq<char>| #[trigger] r.contains(y) <==> (y == x || t.contains(y)) by {
        if r.contains(y) {
            let k = choose|k: int| 0 <= k < r.len() && r[k] == y;
            if k > 0 {
                assert(t[k - 1] == y);
            }
        }
        if t.contains(y) {
            let k = choose|k: int| 0 <= k < t.len() && t[k] == y;
            assert(r[k + 1] == y);
        }
        if y == x {
            assert(r[0] == y);
        }
    }
}

/// An ascending list of the ids of `s` and `x`, built one id at a time.
proof fn with_witness(s: Seq<Seq<char>>, x: Seq<char>) -> (r: Seq<Seq<char>>)
    requires
        strictly_sorted(s),
    ensures
        strictly_sorted(r),
        forall|y: Seq<char>| #[trigger] r.contains(y) <==> (s.contains(y) || y == x),
    decreases s.len(),
{
    if s.len() == 0 {
        let r = seq![x];
        assert forall|y: Seq<char>| #[trigger] r.contains(y) <==> (s.contains(y) || y == x) by {
            if y == x {
                assert(r[0] == y);
            }
        }
        r
    } else {
        lemma_sorted_split(s);
        let t = s.drop_first();
        if s[0] == x {
            s
        } else if key_lt(x, s[0]) {
            assert forall|y: Seq<char>| #[trigger] s.contains(y) implies key_lt(x, y) by {
                if y != s[0] {
                    lemma_key_lt_transitive(x, s[0], y);
                }
            }
            lemma_sorted_prepend(x, s);
            seq![x] + s
        } else {
            lemma_key_lt_total(s[0], x);
            let rt = with_witness(t, x);
            assert forall|y: Seq<char>| #[trigger] rt.contains(y) implies key_lt(s[0], y) by {
                if y != x {
                    assert(t.contains(y));
                }
            }
            lemma_sorted_prepend(s[0], rt);
            seq![s[0]] + rt
        }
    }
}

/// Adding a member twice is adding it once.
pub proof fn lemma_with_key_idempotent(s: Seq<Seq<char>>, x: Seq<char>)
    requires
        strictly_sorted(s),
    ensures
        with_key(with_key(s, x), x) == with_key(s, x),
{
    lemma_with_key(s, x);
    lemma_with_key_is(with_key(s, x), x, with_key(s, x));
}

/// Removing a member twice is removing it once.
pub proof fn lemma_without_key_idempotent(s: Seq<Seq<char>>, x: Seq<char>)
    requires
        strictly_sorted(s),
    ensures
        without_key(without_key(s, x), x) == without_key(s, x),
{
    lemma_without_key(s, x);
    lemma_without_key_is(without_key(s, x), x, without_key(s, x));
}

/// Removing a member that was just added, and was not there before, gives
/// back the list as it was.
pub proof fn lemma_without_with_key(s: Seq<Seq<char>>, x: Seq<char>)
    requires
        strictly_sorted(s),
        !s.contains(x),
    ensures
        without_key(with_key(s, x), x) == s,
{
    lemma_with_key(s, x);
    lemma_without_key_is(with_key(s, x), x, s);
}

/// A list without `x` does not hold `x`, and holds every other id it held.
pub proof fn lemma_without_key_absent(s: Seq<Seq<char>>, x: Seq<char>)
    requires
        !s.contains(x),
        strictly_sorted(s),
    ensures
        without_key(s, x) == s,
{
    lemma_without_key_is(s, x, s);
}

/// Whether `a` comes before `b` in the order of room members.
pub fn key_less(a: &String, b: &String) -> (r: bool)
    ensures
        r == key_lt(a@, b@),
{
    let x = a.as_str().as_bytes();
    let y = b.as_str().as_bytes();
    let mut i: usize = 0;
    while i < x.len() && i < y.len()
        invariant
            x@ == encode_utf8(a@),
            y@ == encode_utf8(b@),
            0 <= i <= x@.len(),
            i <= y@.len(),
            forall|k: int| 0 <= k < i ==> x@[k] == y@[k],
        decreases x@.len() - i,
    {
        if x[i] != y[i] {
            proof {
                lemma_bytes_lt_skip(x@, y@, i as int);
            }
            return x[i] < y[i];
        }
        i = i + 1;
    }
    proof {
        lemma_bytes_lt_skip(x@, y@, i as int);
    }
    i == x.len() && i < y.len()
}

} // verus!
