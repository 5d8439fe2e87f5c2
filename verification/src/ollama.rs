//! The list of local models that the Ollama server reports: names are put in
//! lexicographic order with duplicates removed, and a requested model is
//! looked up in that list.
use vstd::prelude::*;
use crate::text::{chars_equal, chars_of, string_from_chars, text_equal};

verus! {

/// Lexicographic order of character sequences, comparing characters by their
/// code points; a proper prefix comes first. It is the order of `str`'s `Ord`,
/// since UTF-8 encoding preserves the order of code points.
pub open spec fn lex_less(a: Seq<char>, b: Seq<char>) -> bool
    decreases a.len(),
{
    if b.len() == 0 {
        false
    } else if a.len() == 0 {
        true
    } else if a[0] != b[0] {
        a[0] < b[0]
    } else {
        lex_less(a.drop_first(), b.drop_first())
    }
}

/// No sequence is before itself.
pub proof fn lemma_lex_irreflexive(a: Seq<char>)
    ensures
        !lex_less(a, a),
    decreases a.len(),
{
    if a.len() > 0 {
        lemma_lex_irreflexive(a.drop_first());
    }
}

/// The order is transitive.
pub proof fn lemma_lex_transitive(a: Seq<char>, b: Seq<char>, c: Seq<char>)
    requires
        lex_less(a, b),
        lex_less(b, c),
    ensures
        lex_less(a, c),
    decreases a.len(),
{
    if a.len() > 0 && b.len() > 0 && c.len() > 0 && a[0] == b[0] && b[0] == c[0] {
        lemma_lex_transitive(a.drop_first(), b.drop_first(), c.drop_first());
    }
}

/// Any two different sequences are ordered one way or the other.
pub proof fn lemma_lex_total(a: Seq<char>, b: Seq<char>)
    requires
        a != b,
    ensures
        lex_less(a, b) || lex_less(b, a),
    decreases a.len(),
{
    if a.len() > 0 && b.len() > 0 && a[0] == b[0] {
        if a.drop_first() == b.drop_first() {
            assert(a =~= seq![a[0]] + a.drop_first());
            assert(b =~= seq![b[0]] + b.drop_first());
        }
        lemma_lex_total(a.drop_first(), b.drop_first());
    } else if a.len() == 0 && b.len() == 0 {
        assert(a =~= b);
    }
}

/// Each element comes strictly before the next: the sequence is sorted and
/// holds no duplicates.
pub open spec fn strictly_sorted(s: Seq<Seq<char>>) -> bool {
    forall|i: int, j: int| 0 <= i < j < s.len() ==> lex_less(#[trigger] s[i], #[trigger] s[j])
}

/// The views of a list of strings.
pub open spec fn string_views(v: Seq<String>) -> Seq<Seq<char>> {
    v.map_values(|s: String| s@)
}

/// Whether `a` comes before `b`.
pub fn chars_less(a: &[char], b: &[char]) -> (res: bool)
    ensures
        res == lex_less(a@, b@),
{
    let mut i: usize = 0;
    proof {
        assert(a@.skip(0) == a@);
        assert(b@.skip(0) == b@);
    }
    while i < a.len() && i < b.len() && a[i] == b[i]
        invariant
            i <= a.len(),
            i <= b.len(),
            lex_less(a@, b@) == lex_less(a@.skip(i as int), b@.skip(i as int)),
        decreases a.len() - i,
    {
        proof {
            assert(a@.skip(i as int).drop_first() == a@.skip(i + 1));
            assert(b@.skip(i as int).drop_first() == b@.skip(i + 1));
        }
        i = i + 1;
    }
    proof {
        if i < a.len() && i < b.len() {
            assert(a@.skip(i as int)[0] == a@[i as int]);
            assert(b@.skip(i as int)[0] == b@[i as int]);
        }
    }
    if i == b.len() {
        false
    } else if i == a.len() {
        true
    } else {
        a[i] < b[i]
    }
}

proof fn lemma_sorted_insert(kv: Seq<Seq<char>>, j: int, x: Seq<char>)
    requires
        strictly_sorted(kv),
        0 <= j <= kv.len(),
        forall|k: int| 0 <= k < j ==> lex_less(#[trigger] kv[k], x),
        j < kv.len() ==> lex_less(x, kv[j]),
    ensures
        strictly_sorted(kv.insert(j, x)),
{
    let nv = kv.insert(j, x);
    kv.insert_ensures(j, x);
    assert forall|a: int, b: int| 0 <= a < b < nv.len() implies lex_less(
        #[trigger] nv[a],
        #[trigger] nv[b],
    ) by {
        if b < j {
            assert(nv[a] == kv[a] && nv[b] == kv[b]);
        } else if b == j {
            assert(nv[a] == kv[a]);
        } else if a == j {
            assert(nv[b] == kv[b - 1]);
            if b - 1 > j {
                lemma_lex_transitive(x, kv[j], kv[b - 1]);
            }
        } else if a < j {
            assert(nv[a] == kv[a]);
            assert(nv[b] == kv[b - 1]);
            if b - 1 >= j && j < kv.len() {
                lemma_lex_transitive(kv[a], x, kv[j]);
                if b - 1 > j {
                    lemma_lex_transitive(kv[a], kv[j], kv[b - 1]);
                }
            }
        } else {
            assert(nv[a] == kv[a - 1]);
            assert(nv[b] == kv[b - 1]);
        }
    }
}

proof fn lemma_take_one_more(s: Seq<Seq<char>>, t: int)
    requires
        0 <= t < s.len(),
    ensures
        forall|y: Seq<char>| #[trigger] s.take(t + 1).contains(y) <==> (s.take(t).contains(y) || s[t] == y),
{
    assert forall|y: Seq<char>| #[trigger] s.take(t + 1).contains(y) <==> (s.take(t).contains(y) || s[t] == y) by {
        if s.take(t + 1).contains(y) {
            let w = choose|w: int| 0 <= w < t + 1 && #[trigger] s.take(t + 1)[w] == y;
            if w < t {
                assert(s.take(t)[w] == y);
            }
        }
        if s.take(t).contains(y) {
            let w = choose|w: int| 0 <= w < t && #[trigger] s.take(t)[w] == y;
            assert(s.take(t + 1)[w] == y);
        }
        if s[t] == y {
            assert(s.take(t + 1)[t] == y);
        }
    }
}

proof fn lemma_insert_contains(s: Seq<Seq<char>>, j: int, x: Seq<char>)
    requires
        0 <= j <= s.len(),
    ensures
        forall|y: Seq<char>| #[trigger] s.insert(j, x).contains(y) <==> (s.contains(y) || x == y),
{
    s.insert_ensures(j, x);
    let n = s.insert(j, x);
    assert forall|y: Seq<char>| #[trigger] n.contains(y) <==> (s.contains(y) || x == y) by {
        if n.contains(y) {
            let w = choose|w: int| 0 <= w < n.len() && #[trigger] n[w] == y;
            if w < j {
                assert(s[w] == y);
            } else if w > j {
                assert(s[w - 1] == y);
            }
        }
        if s.contains(y) {
            let w = choose|w: int| 0 <= w < s.len() && #[trigger] s[w] == y;
            if w < j {
                assert(n[w] == y);
            } else {
                assert(n[w + 1] == y);
            }
        }
        if x == y {
            assert(n[j] == y);
        }
    }
}

/// The model names in lexicographic order with duplicates removed, as
/// `sort()` followed by `dedup()` leaves them.
pub fn sorted_model_names(names: Vec<String>) -> (res: Vec<String>)
    ensures
        strictly_sorted(string_views(res@)),
        forall|x: Seq<char>|
            string_views(res@).contains(x) <==> string_views(names@).contains(x),
{
    let ghost nv = string_views(names@);
    let mut keys: Vec<Vec<char>> = Vec::new();
    let mut t: usize = 0;
    while t < names.len()
        invariant
            t <= names.len(),
            nv == string_views(names@),
            strictly_sorted(keys@.map_values(|k: Vec<char>| k@)),
            forall|x: Seq<char>|
                keys@.map_values(|k: Vec<char>| k@).contains(x) <==> nv.take(t as int).contains(x),
        decreases names.len() - t,
    {
        let ghost kv = keys@.map_values(|k: Vec<char>| k@);
        let x = chars_of(names[t].as_str());
        let mut j: usize = 0;
        while j < keys.len() && chars_less(&keys[j], &x)
            invariant
                j <= keys.len(),
                kv == keys@.map_values(|k: Vec<char>| k@),
                forall|k: int| 0 <= k < j ==> lex_less(#[trigger] kv[k], x@),
            decreases keys.len() - j,
        {
            j = j + 1;
        }
        proof {
            lemma_take_one_more(nv, t as int);
            assert(nv[t as int] == x@);
        }
        if j < keys.len() && chars_equal(&keys[j], &x) {
            proof {
                assert(kv[j as int] == x@);
                assert forall|y: Seq<char>| kv.contains(y) <==> nv.take(t + 1).contains(y) by {
                    if y == x@ {
                        assert(kv[j as int] == y);
                    }
                }
            }
        } else {
            proof {
                if j < keys.len() {
                    lemma_lex_total(x@, kv[j as int]);
                }
                lemma_sorted_insert(kv, j as int, x@);
                lemma_insert_contains(kv, j as int, x@);
            }
            keys.insert(j, x);
            proof {
                assert(keys@.map_values(|k: Vec<char>| k@) =~= kv.insert(j as int, x@));
            }
        }
        t = t + 1;
    }
    proof {
        assert(nv.take(names.len() as int) == nv);
    }
    let mut res: Vec<String> = Vec::new();
    let mut k: usize = 0;
    while k < keys.len()
        invariant
            k <= keys.len(),
            res@.len() == k,
            forall|i: int| 0 <= i < k ==> #[trigger] res@[i]@ == keys@[i]@,
        decreases keys.len() - k,
    {
        res.push(string_from_chars(&keys[k]));
        k = k + 1;
    }
    proof {
        assert(string_views(res@) =~= keys@.map_values(|v: Vec<char>| v@));
    }
    res
}

/// Whether `model` is one of `available`.
pub fn is_model_available(model: &str, available: &[String]) -> (res: bool)
    ensures
        res == string_views(available@).contains(model@),
{
    let mut i: usize = 0;
    while i < available.len()
        invariant
            i <= available.len(),
            forall|k: int| 0 <= k < i ==> available@[k]@ != model@,
        decreases available.len() - i,
    {
        if text_equal(available[i].as_str(), model) {
            proof {
                assert(string_views(available@)[i as int] == model@);
            }
            return true;
        }
        i = i + 1;
    }
    proof {
        if string_views(available@).contains(model@) {
            let w = choose|w: int| 0 <= w < available@.len() && #[trigger] string_views(available@)[w] == model@;
            assert(available@[w]@ == model@);
        }
    }
    false
}


proof fn lemma_sorted_first_is_least(s: Seq<Seq<char>>, x: Seq<char>)
    requires
        strictly_sorted(s),
        s.contains(x),
        s.len() > 0,
    ensures
        s[0] == x || lex_less(s[0], x),
{
    let w = choose|w: int| 0 <= w < s.len() && s[w] == x;
    if w > 0 {
        assert(lex_less(s[0], s[w]));
    }
}

/// The sorted list without duplicates is determined by the names it holds:
/// two strictly sorted lists with the same elements are equal. So sorting and
/// de-duplicating gives one answer for every order of the same names.
pub proof fn lemma_sorted_unique(a: Seq<Seq<char>>, b: Seq<Seq<char>>)
    requires
        strictly_sorted(a),
        strictly_sorted(b),
        forall|x: Seq<char>| a.contains(x) <==> b.contains(x),
    ensures
        a == b,
    decreases a.len(),
{
    if a.len() == 0 {
        if b.len() > 0 {
            assert(b.contains(b[0]));
        }
        assert(a =~= b);
    } else {
        assert(a.contains(a[0]));
        assert(b.contains(a[0]));
        assert(b.len() > 0);
        assert(b.contains(b[0]));
        lemma_sorted_first_is_least(a, b[0]);
        lemma_sorted_first_is_least(b, a[0]);
        if a[0] != b[0] {
            lemma_lex_transitive(a[0], b[0], a[0]);
            lemma_lex_irreflexive(a[0]);
        }
        let ta = a.drop_first();
        let tb = b.drop_first();
        assert(strictly_sorted(ta)) by {
            assert forall|i: int, j: int| 0 <= i < j < ta.len() implies lex_less(
                #[trigger] ta[i],
                #[trigger] ta[j],
            ) by {
                assert(ta[i] == a[i + 1] && ta[j] == a[j + 1]);
            }
        }
        assert(strictly_sorted(tb)) by {
            assert forall|i: int, j: int| 0 <= i < j < tb.len() implies lex_less(
                #[trigger] tb[i],
                #[trigger] tb[j],
            ) by {
                assert(tb[i] == b[i + 1] && tb[j] == b[j + 1]);
            }
        }
        assert forall|x: Seq<char>| ta.contains(x) <==> tb.contains(x) by {
            if ta.contains(x) {
                let w = choose|w: int| 0 <= w < ta.len() && ta[w] == x;
                assert(a[w + 1] == x);
                assert(lex_less(a[0], a[w + 1]));
                assert(a.contains(x));
                assert(b.contains(x));
                let v = choose|v: int| 0 <= v < b.len() && b[v] == x;
                if v == 0 {
                    lemma_lex_irreflexive(x);
                }
                assert(tb[v - 1] == x);
            }
            if tb.contains(x) {
                let w = choose|w: int| 0 <= w < tb.len() && tb[w] == x;
                assert(b[w + 1] == x);
                assert(lex_less(b[0], b[w + 1]));
                assert(b.contains(x));
                assert(a.contains(x));
                let v = choose|v: int| 0 <= v < a.len() && a[v] == x;
                if v == 0 {
                    lemma_lex_irreflexive(x);
                }
                assert(ta[v - 1] == x);
            }
        }
        lemma_sorted_unique(ta, tb);
        assert(a =~= seq![a[0]] + ta);
        assert(b =~= seq![b[0]] + tb);
    }
}

} // verus!
