//! Text helpers: character access, equality and the lexicographic order that
//! `String` comparison uses, and sorted listings of sets of names.
use vstd::prelude::*;
use vstd::string::*;

verus! {

/// Strict lexicographic order on character sequences, characters compared by
/// their Unicode scalar value. UTF-8 preserves this order, so on `String`s it
/// is the order of `<`.
pub open spec fn text_lt(a: Seq<char>, b: Seq<char>) -> bool
    decreases a.len(),
{
    if b.len() == 0 {
        false
    } else if a.len() == 0 {
        true
    } else if a[0] != b[0] {
        (a[0] as int) < (b[0] as int)
    } else {
        text_lt(a.drop_first(), b.drop_first())
    }
}

/// `s` lists its items in strictly increasing order.
pub open spec fn strictly_sorted(s: Seq<Seq<char>>) -> bool {
    forall|i: int, j: int| 0 <= i < j < s.len() ==> text_lt(#[trigger] s[i], #[trigger] s[j])
}

/// `s` lists exactly the members of `set`, in strictly increasing order.
pub open spec fn sorted_listing(s: Seq<Seq<char>>, set: Set<Seq<char>>) -> bool {
    &&& strictly_sorted(s)
    &&& forall|x: Seq<char>| #[trigger] set.contains(x) <==> s.contains(x)
}

/// The members of a finite set of names in increasing order.
pub open spec fn sorted_names(set: Set<Seq<char>>) -> Seq<Seq<char>> {
    choose|s: Seq<Seq<char>>| sorted_listing(s, set)
}

/// The views of a sequence of strings.
pub open spec fn texts(v: Seq<String>) -> Seq<Seq<char>> {
    v.map_values(|s: String| s@)
}

/// The view of an optional string.
pub open spec fn opt_text(o: Option<String>) -> Option<Seq<char>> {
    match o {
        Some(s) => Some(s@),
        None => None,
    }
}

pub proof fn lemma_text_lt_irreflexive(a: Seq<char>)
    ensures
        !text_lt(a, a),
    decreases a.len(),
{
    if a.len() > 0 {
        lemma_text_lt_irreflexive(a.drop_first());
    }
}

pub proof fn lemma_text_lt_total(a: Seq<char>, b: Seq<char>)
    ensures
        a != b ==> text_lt(a, b) || text_lt(b, a),
        !(text_lt(a, b) && text_lt(b, a)),
    decreases a.len(),
{
    if a.len() > 0 && b.len() > 0 {
        if a[0] == b[0] {
            lemma_text_lt_total(a.drop_first(), b.drop_first());
            if a.drop_first() == b.drop_first() {
                assert(a =~= seq![a[0]] + a.drop_first());
                assert(b =~= seq![b[0]] + b.drop_first());
            }
        } else {
            assert((a[0] as int) != (b[0] as int));
        }
    } else if a.len() == 0 && b.len() == 0 {
        assert(a =~= b);
    }
}

pub proof fn lemma_text_lt_transitive(a: Seq<char>, b: Seq<char>, c: Seq<char>)
    requires
        text_lt(a, b),
        text_lt(b, c),
    ensures
        text_lt(a, c),
    decreases a.len(),
{
    if a.len() > 0 && a[0] == b[0] && b[0] == c[0] {
        lemma_text_lt_transitive(a.drop_first(), b.drop_first(), c.drop_first());
    }
}

/// The ordering facts, for every triple of names.
pub proof fn lemma_text_order()
    ensures
        forall|a: Seq<char>| !#[trigger] text_lt(a, a),
        forall|a: Seq<char>, b: Seq<char>|
            a != b ==> #[trigger] text_lt(a, b) || #[trigger] text_lt(b, a),
        forall|a: Seq<char>, b: Seq<char>| !(#[trigger] text_lt(a, b) && #[trigger] text_lt(b, a)),
        forall|a: Seq<char>, b: Seq<char>, c: Seq<char>|
            #[trigger] text_lt(a, b) && #[trigger] text_lt(b, c) ==> text_lt(a, c),
{
    assert forall|a: Seq<char>| !#[trigger] text_lt(a, a) by {
        lemma_text_lt_irreflexive(a);
    }
    assert forall|a: Seq<char>, b: Seq<char>|
        a != b implies #[trigger] text_lt(a, b) || #[trigger] text_lt(b, a) by {
        lemma_text_lt_total(a, b);
    }
    assert forall|a: Seq<char>, b: Seq<char>|
        !(#[trigger] text_lt(a, b) && #[trigger] text_lt(b, a)) by {
        lemma_text_lt_total(a, b);
    }
    assert forall|a: Seq<char>, b: Seq<char>, c: Seq<char>|
        #[trigger] text_lt(a, b) && #[trigger] text_lt(b, c) implies text_lt(a, c) by {
        lemma_text_lt_transitive(a, b, c);
    }
}

/// A strictly sorted listing holds no name twice.
pub proof fn lemma_sorted_no_duplicates(s: Seq<Seq<char>>)
    requires
        strictly_sorted(s),
    ensures
        s.no_duplicates(),
{
    lemma_text_order();
}

/// Two sorted listings of one set are the same sequence.
pub proof fn lemma_sorted_listing_unique(a: Seq<Seq<char>>, b: Seq<Seq<char>>, set: Set<Seq<char>>)
    requires
        sorted_listing(a, set),
        sorted_listing(b, set),
    ensures
        a == b,
    decreases a.len(),
{
    lemma_text_order();
    if a.len() == 0 {
        if b.len() > 0 {
            assert(set.contains(b[0]));
            assert(a.contains(b[0]));
        }
        assert(a =~= b);
    } else if b.len() == 0 {
        assert(set.contains(a[0]));
        assert(b.contains(a[0]));
    } else {
        let x = a[0];
        let y = b[0];
        assert(set.contains(x));
        assert(set.contains(y));
        assert(b.contains(x));
        assert(a.contains(y));
        if x != y {
            let i = choose|i: int| 0 <= i < b.len() && b[i] == x;
            let j = choose|j: int| 0 <= j < a.len() && a[j] == y;
            assert(i > 0 && j > 0);
            assert(text_lt(y, x));
            assert(text_lt(x, y));
            assert(false);
        }
        let rest = set.remove(x);
        let ta = a.drop_first();
        let tb = b.drop_first();
        assert forall|z: Seq<char>| #[trigger] rest.contains(z) <==> ta.contains(z) by {
            if ta.contains(z) {
                let k = choose|k: int| 0 <= k < ta.len() && ta[k] == z;
                assert(a[k + 1] == z);
                assert(a.contains(z));
                assert(text_lt(a[0], a[k + 1]));
            }
            if rest.contains(z) {
                assert(a.contains(z));
                let k = choose|k: int| 0 <= k < a.len() && a[k] == z;
                assert(k != 0);
                assert(ta[k - 1] == z);
            }
        }
        assert forall|z: Seq<char>| #[trigger] rest.contains(z) <==> tb.contains(z) by {
            if tb.contains(z) {
                let k = choose|k: int| 0 <= k < tb.len() && tb[k] == z;
                assert(b[k + 1] == z);
                assert(b.contains(z));
                assert(text_lt(b[0], b[k + 1]));
            }
            if rest.contains(z) {
                assert(b.contains(z));
                let k = choose|k: int| 0 <= k < b.len() && b[k] == z;
                assert(k != 0);
                assert(tb[k - 1] == z);
            }
        }
        assert(strictly_sorted(ta)) by {
            assert forall|i: int, j: int| 0 <= i < j < ta.len() implies text_lt(
                #[trigger] ta[i],
                #[trigger] ta[j],
            ) by {
                assert(ta[i] == a[i + 1] && ta[j] == a[j + 1]);
            }
        }
        assert(strictly_sorted(tb)) by {
            assert forall|i: int, j: int| 0 <= i < j < tb.len() implies text_lt(
                #[trigger] tb[i],
                #[trigger] tb[j],
            ) by {
                assert(tb[i] == b[i + 1] && tb[j] == b[j + 1]);
            }
        }
        lemma_sorted_listing_unique(ta, tb, rest);
        assert(a =~= seq![x] + ta);
        assert(b =~= seq![y] + tb);
    }
}

/// `t` with `a` put in its place in the order.
pub open spec fn insert_in_order(t: Seq<Seq<char>>, a: Seq<char>) -> Seq<Seq<char>>
    decreases t.len(),
{
    if t.len() == 0 {
        seq![a]
    } else if text_lt(t[0], a) {
        seq![t[0]] + insert_in_order(t.drop_first(), a)
    } else {
        seq![a] + t
    }
}

proof fn lemma_insert_in_order(t: Seq<Seq<char>>, a: Seq<char>)
    requires
        strictly_sorted(t),
        !t.contains(a),
    ensures
        strictly_sorted(insert_in_order(t, a)),
        forall|x: Seq<char>| #[trigger] insert_in_order(t, a).contains(x) <==> (t.contains(x) || x == a),
    decreases t.len(),
{
    lemma_text_order();
    let s = insert_in_order(t, a);
    if t.len() == 0 {
        assert forall|x: Seq<char>| #[trigger] s.contains(x) <==> (t.contains(x) || x == a) by {
            if s.contains(x) {
                assert(s[0] == x);
            }
            if x == a {
                assert(s[0] == a);
            }
        }
    } else if text_lt(t[0], a) {
        let rest = t.drop_first();
        assert(strictly_sorted(rest)) by {
            assert forall|i: int, j: int| 0 <= i < j < rest.len() implies text_lt(#[trigger] rest[i], #[trigger] rest[j]) by {
                assert(rest[i] == t[i + 1] && rest[j] == t[j + 1]);
            }
        }
        assert(!rest.contains(a)) by {
            if rest.contains(a) {
                let k = choose|k: int| 0 <= k < rest.len() && rest[k] == a;
                assert(t[k + 1] == a);
            }
        }
        lemma_insert_in_order(rest, a);
        let tail = insert_in_order(rest, a);
        assert(s == seq![t[0]] + tail);
        assert forall|x: Seq<char>| #[trigger] s.contains(x) <==> (t.contains(x) || x == a) by {
            if s.contains(x) {
                let k = choose|k: int| 0 <= k < s.len() && s[k] == x;
                if k == 0 {
                    assert(t[0] == x);
                } else {
                    assert(tail[k - 1] == x);
                    assert(tail.contains(x));
                    if rest.contains(x) {
                        let q = choose|q: int| 0 <= q < rest.len() && rest[q] == x;
                        assert(t[q + 1] == x);
                    }
                }
            }
            if t.contains(x) {
                let k = choose|k: int| 0 <= k < t.len() && t[k] == x;
                if k == 0 {
                    assert(s[0] == x);
                } else {
                    assert(rest[k - 1] == x);
                    assert(tail.contains(x));
                    let q = choose|q: int| 0 <= q < tail.len() && tail[q] == x;
                    assert(s[q + 1] == x);
                }
            }
            if x == a {
                assert(tail.contains(a));
                let q = choose|q: int| 0 <= q < tail.len() && tail[q] == a;
                assert(s[q + 1] == x);
            }
        }
        assert forall|i: int, j: int| 0 <= i < j < s.len() implies text_lt(#[trigger] s[i], #[trigger] s[j]) by {
            if i == 0 {
                assert(s[j] == tail[j - 1]);
                assert(tail.contains(tail[j - 1]));
                if rest.contains(tail[j - 1]) {
                    let q = choose|q: int| 0 <= q < rest.len() && rest[q] == tail[j - 1];
                    assert(t[q + 1] == tail[j - 1]);
                    assert(text_lt(t[0], t[q + 1]));
                }
            } else {
                assert(s[i] == tail[i - 1] && s[j] == tail[j - 1]);
            }
        }
    } else {
        assert(t[0] != a) by {
            assert(t.contains(t[0]));
        }
        assert(text_lt(a, t[0]));
        assert forall|x: Seq<char>| #[trigger] s.contains(x) <==> (t.contains(x) || x == a) by {
            if s.contains(x) {
                let k = choose|k: int| 0 <= k < s.len() && s[k] == x;
                if k > 0 {
                    assert(t[k - 1] == x);
                }
            }
            if t.contains(x) {
                let k = choose|k: int| 0 <= k < t.len() && t[k] == x;
                assert(s[k + 1] == x);
            }
            if x == a {
                assert(s[0] == a);
            }
        }
        assert forall|i: int, j: int| 0 <= i < j < s.len() implies text_lt(#[trigger] s[i], #[trigger] s[j]) by {
            if i == 0 {
                assert(s[j] == t[j - 1]);
                if j > 1 {
                    assert(text_lt(t[0], t[j - 1]));
                }
            } else {
                assert(s[i] == t[i - 1] && s[j] == t[j - 1]);
            }
        }
    }
}

/// Every finite set of names has a sorted listing.
pub proof fn lemma_sorted_listing_exists(set: Set<Seq<char>>)
    requires
        set.finite(),
    ensures
        sorted_listing(sorted_names(set), set),
    decreases set.len(),
{
    if set.len() == 0 {
        let e = Seq::<Seq<char>>::empty();
        assert forall|x: Seq<char>| #[trigger] set.contains(x) <==> e.contains(x) by {
            if set.contains(x) {
                assert(set.remove(x).len() < set.len());
            }
        }
        assert(sorted_listing(e, set));
    } else {
        let a = set.choose();
        let rest = set.remove(a);
        lemma_sorted_listing_exists(rest);
        let t = sorted_names(rest);
        assert(!t.contains(a)) by {
            if t.contains(a) {
                assert(rest.contains(a));
            }
        }
        lemma_insert_in_order(t, a);
        let s = insert_in_order(t, a);
        assert forall|x: Seq<char>| #[trigger] set.contains(x) <==> s.contains(x) by {
            if x != a {
                assert(set.contains(x) == rest.contains(x));
            }
        }
        assert(sorted_listing(s, set));
    }
}

/// A sorted listing of a set is `sorted_names` of that set.
pub proof fn lemma_sorted_names(s: Seq<Seq<char>>, set: Set<Seq<char>>)
    requires
        sorted_listing(s, set),
    ensures
        sorted_names(set) == s,
{
    let t = sorted_names(set);
    assert(sorted_listing(t, set));
    lemma_sorted_listing_unique(s, t, set);
}

/// The first item of a sorted listing is the least member of the set.
pub proof fn lemma_sorted_listing_min(s: Seq<Seq<char>>, set: Set<Seq<char>>)
    requires
        sorted_listing(s, set),
        s.len() > 0,
    ensures
        set.contains(s[0]),
        forall|d: Seq<char>| #[trigger] set.contains(d) ==> s[0] == d || text_lt(s[0], d),
{
    assert(s.contains(s[0]));
    assert forall|d: Seq<char>| #[trigger] set.contains(d) implies s[0] == d || text_lt(s[0], d) by {
        assert(s.contains(d));
        let k = choose|k: int| 0 <= k < s.len() && s[k] == d;
        if k > 0 {
            assert(text_lt(s[0], s[k]));
        }
    }
}

/// The characters of `s`.
pub fn chars_of(s: &str) -> (v: Vec<char>)
    ensures
        v@ == s@,
{
    let n = s.unicode_len();
    let mut v: Vec<char> = Vec::new();
    let mut i: usize = 0;
    while i < n
        invariant
            n == s@.len(),
            i <= n,
            v@ == s@.subrange(0, i as int),
        decreases n - i,
    {
        let c = s.get_char(i);
        v.push(c);
        i = i + 1;
        assert(v@ =~= s@.subrange(0, i as int));
    }
    assert(v@ =~= s@);
    v
}

/// Whether two texts are equal.
pub fn same_text(a: &str, b: &str) -> (r: bool)
    ensures
        r == (a@ == b@),
{
    let x = chars_of(a);
    let y = chars_of(b);
    if x.len() != y.len() {
        return false;
    }
    let mut i: usize = 0;
    while i < x.len()
        invariant
            x@ == a@,
            y@ == b@,
            x.len() == y.len(),
            i <= x.len(),
            forall|k: int| 0 <= k < i ==> x@[k] == y@[k],
        decreases x.len() - i,
    {
        if x[i] != y[i] {
            return false;
        }
        i = i + 1;
    }
    assert(x@ =~= y@);
    true
}

proof fn lemma_text_lt_skip(a: Seq<char>, b: Seq<char>, i: int)
    requires
        0 <= i < a.len(),
        i < b.len(),
        a[i] == b[i],
    ensures
        text_lt(a.skip(i), b.skip(i)) == text_lt(a.skip(i + 1), b.skip(i + 1)),
{
    assert(a.skip(i).drop_first() =~= a.skip(i + 1));
    assert(b.skip(i).drop_first() =~= b.skip(i + 1));
}

/// Whether `a` comes strictly before `b` in the order of `<` on strings.
pub fn text_precedes(a: &str, b: &str) -> (r: bool)
    ensures
        r == text_lt(a@, b@),
{
    let x = chars_of(a);
    let y = chars_of(b);
    let mut i: usize = 0;
    assert(x@.skip(0) =~= x@);
    assert(y@.skip(0) =~= y@);
    while i < x.len() && i < y.len() && x[i] == y[i]
        invariant
            x@ == a@,
            y@ == b@,
            i <= x.len(),
            i <= y.len(),
            text_lt(a@, b@) == text_lt(x@.skip(i as int), y@.skip(i as int)),
        decreases x.len() - i,
    {
        proof {
            lemma_text_lt_skip(x@, y@, i as int);
        }
        i = i + 1;
    }
    if i == y.len() {
        false
    } else if i == x.len() {
        true
    } else {
        let cx = x[i];
        let cy = y[i];
        proof {
            assert(x@.skip(i as int)[0] == cx);
            assert(y@.skip(i as int)[0] == cy);
        }
        cx < cy
    }
}

/// Whether `list` holds `name`.
pub fn contains_text(list: &Vec<String>, name: &str) -> (r: bool)
    ensures
        r == texts(list@).contains(name@),
{
    let mut i: usize = 0;
    while i < list.len()
        invariant
            i <= list@.len(),
            forall|j: int| 0 <= j < i ==> list@[j]@ != name@,
        decreases list.len() - i,
    {
        if same_text(list[i].as_str(), name) {
            assert(texts(list@)[i as int] == name@);
            return true;
        }
        i = i + 1;
    }
    proof {
        if texts(list@).contains(name@) {
            let j = choose|j: int| 0 <= j < texts(list@).len() && texts(list@)[j] == name@;
            assert(list@[j]@ == name@);
        }
    }
    false
}

/// Inserts `name` into a strictly sorted vector that does not hold it.
pub fn insert_sorted(v: &mut Vec<String>, name: String)
    requires
        strictly_sorted(texts(old(v)@)),
        !texts(old(v)@).contains(name@),
    ensures
        strictly_sorted(texts(final(v)@)),
        forall|x: Seq<char>|
            #[trigger] texts(final(v)@).contains(x) <==> (texts(old(v)@).contains(x) || x == name@),
        final(v)@.len() == old(v)@.len() + 1,
{
    let ghost old_t = texts(v@);
    let mut i: usize = 0;
    while i < v.len() && text_precedes(v[i].as_str(), name.as_str())
        invariant
            texts(v@) == old_t,
            i <= v.len(),
            forall|k: int| 0 <= k < i ==> text_lt(#[trigger] old_t[k], name@),
        decreases v.len() - i,
    {
        i = i + 1;
    }
    proof {
        lemma_text_order();
        if i < v.len() {
            assert(old_t[i as int] == v@[i as int]@);
            assert(old_t[i as int] != name@) by {
                assert(old_t.contains(old_t[i as int]));
            }
            assert(text_lt(name@, old_t[i as int]));
        }
    }
    v.insert(i, name);
    let ghost new_t = texts(v@);
    proof {
        assert(new_t =~= old_t.insert(i as int, name@));
        assert forall|a: int, b: int| 0 <= a < b < new_t.len() implies text_lt(
            #[trigger] new_t[a],
            #[trigger] new_t[b],
        ) by {
            if b < i {
                assert(new_t[a] == old_t[a] && new_t[b] == old_t[b]);
            } else if b == i {
                assert(new_t[a] == old_t[a]);
            } else if a < i {
                assert(new_t[a] == old_t[a] && new_t[b] == old_t[b - 1]);
                assert(text_lt(old_t[i as int], old_t[b - 1]) || i == b - 1);
            } else if a == i {
                assert(new_t[b] == old_t[b - 1]);
                assert(text_lt(old_t[i as int], old_t[b - 1]) || i == b - 1);
            } else {
                assert(new_t[a] == old_t[a - 1] && new_t[b] == old_t[b - 1]);
            }
        }
        assert forall|x: Seq<char>| #[trigger] new_t.contains(x) <==> (old_t.contains(x) || x
            == name@) by {
            if new_t.contains(x) {
                let k = choose|k: int| 0 <= k < new_t.len() && new_t[k] == x;
                if k < i {
                    assert(old_t[k] == x);
                } else if k > i {
                    assert(old_t[k - 1] == x);
                }
            }
            if old_t.contains(x) {
                let k = choose|k: int| 0 <= k < old_t.len() && old_t[k] == x;
                if k < i {
                    assert(new_t[k] == x);
                } else {
                    assert(new_t[k + 1] == x);
                }
            }
            if x == name@ {
                assert(new_t[i as int] == x);
            }
        }
    }
}

} // verus!
