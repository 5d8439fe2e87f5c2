//! Character-level text utilities: whitespace, trimming, splitting,
//! joining and the conversions between `String` and character vectors.
use vstd::prelude::*;

verus! {

/// The contract of `String::push` (std): the string's characters afterwards are
/// the old ones followed by `ch`.
pub assume_specification[ std::string::String::push ](s: &mut String, ch: char)
    ensures
        final(s)@ == old(s)@.push(ch),
;

/// The Unicode `White_Space` characters, the set that `char::is_whitespace`,
/// `str::trim` and `str::split_whitespace` use.
pub open spec fn is_whitespace(c: char) -> bool {
    ||| ('\u{9}' <= c && c <= '\u{d}')
    ||| c == ' '
    ||| c == '\u{85}'
    ||| c == '\u{a0}'
    ||| c == '\u{1680}'
    ||| ('\u{2000}' <= c && c <= '\u{200a}')
    ||| c == '\u{2028}'
    ||| c == '\u{2029}'
    ||| c == '\u{202f}'
    ||| c == '\u{205f}'
    ||| c == '\u{3000}'
}

/// Whether `c` is a Unicode whitespace character.
pub fn is_whitespace_char(c: char) -> (res: bool)
    ensures
        res == is_whitespace(c),
{
    ('\u{9}' <= c && c <= '\u{d}') || c == ' ' || c == '\u{85}' || c == '\u{a0}' || c
        == '\u{1680}' || ('\u{2000}' <= c && c <= '\u{200a}') || c == '\u{2028}' || c
        == '\u{2029}' || c == '\u{202f}' || c == '\u{205f}' || c == '\u{3000}'
}

/// `s` without its leading whitespace.
pub open spec fn trim_start(s: Seq<char>) -> Seq<char>
    decreases s.len(),
{
    if s.len() > 0 && is_whitespace(s[0]) {
        trim_start(s.drop_first())
    } else {
        s
    }
}

/// `s` without its trailing whitespace.
pub open spec fn trim_end(s: Seq<char>) -> Seq<char>
    decreases s.len(),
{
    if s.len() > 0 && is_whitespace(s.last()) {
        trim_end(s.drop_last())
    } else {
        s
    }
}

/// `s` without leading and trailing whitespace, as `str::trim` gives it.
pub open spec fn trimmed(s: Seq<char>) -> Seq<char> {
    trim_end(trim_start(s))
}

/// Whether `s` starts and ends with a character other than whitespace (or is empty).
pub open spec fn is_trimmed(s: Seq<char>) -> bool {
    s.len() > 0 ==> !is_whitespace(s[0]) && !is_whitespace(s.last())
}

/// The characters of `s`, in order.
pub fn chars_of(s: &str) -> (res: Vec<char>)
    ensures
        res@ == s@,
{
    let mut res: Vec<char> = Vec::new();
    for c in it: s.chars()
        invariant
            res@ == it.seq().take(it.index() as int),
            it.seq() == s@,
    {
        res.push(c);
    }
    res
}

/// A string holding exactly the given characters.
pub fn string_from_chars(chars: &[char]) -> (res: String)
    ensures
        res@ == chars@,
{
    let mut res = String::new();
    let mut i: usize = 0;
    while i < chars.len()
        invariant
            i <= chars.len(),
            res@ == chars@.take(i as int),
        decreases chars.len() - i,
    {
        res.push(chars[i]);
        proof {
            assert(chars@.take(i + 1) == chars@.take(i as int).push(chars@[i as int]));
        }
        i = i + 1;
    }
    proof {
        assert(chars@.take(chars.len() as int) == chars@);
    }
    res
}

/// The characters of `s` from `from` (inclusive) to `to` (exclusive).
pub fn slice_chars(s: &[char], from: usize, to: usize) -> (res: Vec<char>)
    requires
        from <= to <= s.len(),
    ensures
        res@ == s@.subrange(from as int, to as int),
{
    let mut res: Vec<char> = Vec::new();
    let mut i: usize = from;
    while i < to
        invariant
            from <= i <= to <= s.len(),
            res@ == s@.subrange(from as int, i as int),
        decreases to - i,
    {
        res.push(s[i]);
        proof {
            assert(s@.subrange(from as int, i + 1) == s@.subrange(from as int, i as int).push(
                s@[i as int],
            ));
        }
        i = i + 1;
    }
    res
}

/// Appends all of `more` to `out`.
pub fn extend_chars(out: &mut Vec<char>, more: &[char])
    ensures
        final(out)@ == old(out)@ + more@,
{
    let mut i: usize = 0;
    while i < more.len()
        invariant
            i <= more.len(),
            out@ == old(out)@ + more@.take(i as int),
        decreases more.len() - i,
    {
        out.push(more[i]);
        proof {
            assert(more@.take(i + 1) == more@.take(i as int).push(more@[i as int]));
        }
        i = i + 1;
    }
    proof {
        assert(more@.take(more.len() as int) == more@);
    }
}

proof fn lemma_trim_start_skip(s: Seq<char>, i: int)
    requires
        0 <= i <= s.len(),
        forall|k: int| 0 <= k < i ==> is_whitespace(#[trigger] s[k]),
    ensures
        trim_start(s) == trim_start(s.subrange(i, s.len() as int)),
    decreases i,
{
    if i > 0 {
        lemma_trim_start_skip(s, i - 1);
        let t = s.subrange(i - 1, s.len() as int);
        assert(t[0] == s[i - 1]);
        assert(t.drop_first() == s.subrange(i, s.len() as int));
    } else {
        assert(s.subrange(0, s.len() as int) == s);
    }
}

proof fn lemma_trim_end_cut(s: Seq<char>, j: int)
    requires
        0 <= j <= s.len(),
        forall|k: int| j <= k < s.len() ==> is_whitespace(#[trigger] s[k]),
    ensures
        trim_end(s) == trim_end(s.subrange(0, j)),
    decreases s.len() - j,
{
    if j < s.len() {
        lemma_trim_end_cut(s, j + 1);
        let t = s.subrange(0, j + 1);
        assert(t.last() == s[j]);
        assert(t.drop_last() == s.subrange(0, j));
    } else {
        assert(s.subrange(0, s.len() as int) == s);
    }
}

/// Bounds `lo..hi` such that `trimmed(s)` is `s[lo..hi]`.
pub fn trim_bounds(s: &[char]) -> (res: (usize, usize))
    ensures
        res.0 <= res.1 <= s.len(),
        trimmed(s@) == s@.subrange(res.0 as int, res.1 as int),
{
    let n = s.len();
    let mut i: usize = 0;
    while i < n && is_whitespace_char(s[i])
        invariant
            i <= n == s.len(),
            forall|k: int| 0 <= k < i ==> is_whitespace(#[trigger] s@[k]),
        decreases n - i,
    {
        i = i + 1;
    }
    proof {
        lemma_trim_start_skip(s@, i as int);
        let t = s@.subrange(i as int, n as int);
        if t.len() > 0 {
            assert(t[0] == s@[i as int]);
        }
        assert(trim_start(t) == t);
    }
    let mut j: usize = n;
    while j > i && is_whitespace_char(s[j - 1])
        invariant
            i <= j <= n == s.len(),
            forall|k: int| j <= k < n ==> is_whitespace(#[trigger] s@[k]),
        decreases j - i,
    {
        j = j - 1;
    }
    proof {
        let t = s@.subrange(i as int, n as int);
        assert forall|k: int| (j - i) <= k < t.len() implies is_whitespace(#[trigger] t[k]) by {
            assert(t[k] == s@[k + i]);
        }
        lemma_trim_end_cut(t, j - i);
        let u = t.subrange(0, j - i);
        assert(u == s@.subrange(i as int, j as int));
        if u.len() > 0 {
            assert(u.last() == s@[j - 1]);
        }
        assert(trim_end(u) == u);
    }
    (i, j)
}

/// `s` without leading and trailing whitespace.
pub fn trim_chars(s: &[char]) -> (res: Vec<char>)
    ensures
        res@ == trimmed(s@),
{
    let (lo, hi) = trim_bounds(s);
    slice_chars(s, lo, hi)
}

/// `s` without leading and trailing whitespace.
pub fn trim(s: &str) -> (res: String)
    ensures
        res@ == trimmed(s@),
{
    let cs = chars_of(s);
    let t = trim_chars(&cs);
    string_from_chars(&t)
}

/// Whether two character sequences are equal.
pub fn chars_equal(a: &[char], b: &[char]) -> (res: bool)
    ensures
        res == (a@ == b@),
{
    if a.len() != b.len() {
        return false;
    }
    let mut i: usize = 0;
    while i < a.len()
        invariant
            i <= a.len() == b.len(),
            forall|k: int| 0 <= k < i ==> a@[k] == b@[k],
        decreases a.len() - i,
    {
        if a[i] != b[i] {
            return false;
        }
        i = i + 1;
    }
    proof {
        assert(a@ =~= b@);
    }
    true
}

/// Whether two strings hold the same characters.
pub fn text_equal(a: &str, b: &str) -> (res: bool)
    ensures
        res == (a@ == b@),
{
    let ca = chars_of(a);
    let cb = chars_of(b);
    chars_equal(&ca, &cb)
}


/// `s` with every non-overlapping occurrence of `pat`, found from the left,
/// replaced by `rep`; an empty `pat` matches before every character and at the
/// end, as `str::replace` does.
pub open spec fn replace_all(s: Seq<char>, pat: Seq<char>, rep: Seq<char>) -> Seq<char>
    decreases s.len(),
{
    if pat.len() == 0 {
        if s.len() == 0 {
            rep
        } else {
            rep + seq![s[0]] + replace_all(s.drop_first(), pat, rep)
        }
    } else if s.len() >= pat.len() && s.take(pat.len() as int) == pat {
        rep + replace_all(s.skip(pat.len() as int), pat, rep)
    } else if s.len() == 0 {
        s
    } else {
        seq![s[0]] + replace_all(s.drop_first(), pat, rep)
    }
}

/// Whether `pat` occurs in `s` at position `at`.
pub fn occurs_at(s: &[char], at: usize, pat: &[char]) -> (res: bool)
    requires
        at <= s.len(),
    ensures
        res == (s@.skip(at as int).len() >= pat@.len() && s@.skip(at as int).take(
            pat@.len() as int,
        ) == pat@),
{
    if s.len() - at < pat.len() {
        return false;
    }
    let mut k: usize = 0;
    while k < pat.len()
        invariant
            at + pat.len() <= s.len(),
            k <= pat.len(),
            forall|m: int| 0 <= m < k ==> s@[at + m] == pat@[m],
        decreases pat.len() - k,
    {
        if s[at + k] != pat[k] {
            proof {
                assert(s@.skip(at as int).take(pat@.len() as int)[k as int] == s@[at + k]);
            }
            return false;
        }
        k = k + 1;
    }
    proof {
        assert(s@.skip(at as int).take(pat@.len() as int) =~= pat@);
    }
    true
}

/// `s` with every occurrence of `pat` replaced by `rep`.
pub fn replace_chars(s: &[char], pat: &[char], rep: &[char]) -> (res: Vec<char>)
    ensures
        res@ == replace_all(s@, pat@, rep@),
{
    let mut out: Vec<char> = Vec::new();
    let mut i: usize = 0;
    proof {
        assert(s@.skip(0) == s@);
        assert(out@ + replace_all(s@, pat@, rep@) =~= replace_all(s@, pat@, rep@));
    }
    if pat.len() == 0 {
        while i < s.len()
            invariant
                i <= s.len(),
                pat@.len() == 0,
                out@ + replace_all(s@.skip(i as int), pat@, rep@) == replace_all(s@, pat@, rep@),
            decreases s.len() - i,
        {
            proof {
                let t = s@.skip(i as int);
                assert(t[0] == s@[i as int]);
                assert(t.drop_first() == s@.skip(i + 1));
                assert(out@ + (rep@ + seq![s@[i as int]] + replace_all(s@.skip(i + 1), pat@, rep@))
                    =~= out@ + rep@ + seq![s@[i as int]] + replace_all(s@.skip(i + 1), pat@, rep@));
            }
            extend_chars(&mut out, rep);
            out.push(s[i]);
            i = i + 1;
        }
        proof {
            assert(s@.skip(i as int).len() == 0);
        }
        extend_chars(&mut out, rep);
        return out;
    }
    while i < s.len()
        invariant
            i <= s.len(),
            pat@.len() > 0,
            out@ + replace_all(s@.skip(i as int), pat@, rep@) == replace_all(s@, pat@, rep@),
        decreases s.len() - i,
    {
        let t = Ghost(s@.skip(i as int));
        if occurs_at(s, i, pat) {
            proof {
                assert(t@.skip(pat@.len() as int) == s@.skip(i + pat@.len()));
                assert(out@ + (rep@ + replace_all(s@.skip(i + pat@.len()), pat@, rep@))
                    =~= out@ + rep@ + replace_all(s@.skip(i + pat@.len()), pat@, rep@));
            }
            extend_chars(&mut out, rep);
            i = i + pat.len();
        } else {
            proof {
                assert(t@[0] == s@[i as int]);
                assert(t@.drop_first() == s@.skip(i + 1));
                assert(out@ + (seq![s@[i as int]] + replace_all(s@.skip(i + 1), pat@, rep@))
                    =~= out@.push(s@[i as int]) + replace_all(s@.skip(i + 1), pat@, rep@));
            }
            out.push(s[i]);
            i = i + 1;
        }
    }
    proof {
        assert(s@.skip(i as int).len() == 0);
        assert(out@ + s@.skip(i as int) =~= out@);
    }
    out
}

/// The parts joined with a single space between consecutive parts, as
/// `[&str]::join(" ")` gives it.
pub open spec fn join_with_space(parts: Seq<Seq<char>>) -> Seq<char>
    decreases parts.len(),
{
    if parts.len() == 0 {
        seq![]
    } else if parts.len() == 1 {
        parts[0]
    } else {
        join_with_space(parts.drop_last()) + seq![' '] + parts.last()
    }
}

/// The state after reading `s` left to right while collapsing whitespace: the
/// words read so far separated by single spaces, and whether whitespace has
/// been seen since the last word.
pub open spec fn squeeze_state(s: Seq<char>) -> (Seq<char>, bool)
    decreases s.len(),
{
    if s.len() == 0 {
        (seq![], false)
    } else {
        let (out, gap) = squeeze_state(s.drop_last());
        let c = s.last();
        if is_whitespace(c) {
            (out, out.len() > 0)
        } else if gap {
            (out.push(' ').push(c), false)
        } else {
            (out.push(c), false)
        }
    }
}

/// The whitespace-separated words of `s` joined by single spaces, as
/// `s.split_whitespace().collect::<Vec<_>>().join(" ")` gives it.
pub open spec fn squeeze_spaces(s: Seq<char>) -> Seq<char> {
    squeeze_state(s).0
}

/// The words of `s` joined by single spaces.
pub fn squeeze_chars(s: &[char]) -> (res: Vec<char>)
    ensures
        res@ == squeeze_spaces(s@),
{
    let mut out: Vec<char> = Vec::new();
    let mut gap = false;
    let mut i: usize = 0;
    while i < s.len()
        invariant
            i <= s.len(),
            (out@, gap) == squeeze_state(s@.take(i as int)),
        decreases s.len() - i,
    {
        proof {
            assert(s@.take(i + 1).drop_last() == s@.take(i as int));
            assert(s@.take(i + 1).last() == s@[i as int]);
        }
        let c = s[i];
        if is_whitespace_char(c) {
            gap = out.len() > 0;
        } else {
            if gap {
                out.push(' ');
            }
            out.push(c);
            gap = false;
        }
        i = i + 1;
    }
    proof {
        assert(s@.take(s.len() as int) == s@);
    }
    out
}


/// What `String::from_utf8_lossy` makes of `bytes`: their text, with each
/// invalid sequence replaced by U+FFFD.
pub uninterp spec fn utf8_lossy(bytes: Seq<u8>) -> Seq<char>;

/// Calls `String::from_utf8_lossy`. Its documentation promises that valid
/// UTF-8 decodes to its text; for invalid input the result is named only
/// (`utf8_lossy`), without saying where the replacement characters go.
#[verifier::external_body]
pub fn decode_utf8_lossy(bytes: &[u8]) -> (res: String)
    ensures
        res@ == utf8_lossy(bytes@),
        vstd::utf8::valid_utf8(bytes@) ==> res@ == vstd::utf8::decode_utf8(bytes@),
{
    String::from_utf8_lossy(bytes).into_owned()
}


/// The strings joined with single spaces.
pub fn join_with_spaces(parts: &[String]) -> (res: Vec<char>)
    ensures
        res@ == join_with_space(parts@.map_values(|p: String| p@)),
{
    let ghost pv = parts@.map_values(|p: String| p@);
    let mut out: Vec<char> = Vec::new();
    let mut i: usize = 0;
    proof {
        assert(pv.take(0) =~= Seq::<Seq<char>>::empty());
    }
    while i < parts.len()
        invariant
            i <= parts.len(),
            pv == parts@.map_values(|p: String| p@),
            out@ == join_with_space(pv.take(i as int)),
        decreases parts.len() - i,
    {
        proof {
            assert(pv.take(i + 1).drop_last() == pv.take(i as int));
            assert(pv.take(i + 1).last() == parts@[i as int]@);
        }
        if i > 0 {
            out.push(' ');
        }
        let cs = chars_of(parts[i].as_str());
        extend_chars(&mut out, &cs);
        i = i + 1;
    }
    proof {
        assert(pv.take(parts.len() as int) == pv);
    }
    out
}


proof fn lemma_trim_start_shape(s: Seq<char>)
    ensures
        exists|k: int| 0 <= k <= s.len() && #[trigger] s.skip(k) == trim_start(s),
        trim_start(s).len() > 0 ==> !is_whitespace(trim_start(s)[0]),
    decreases s.len(),
{
    if s.len() > 0 && is_whitespace(s[0]) {
        lemma_trim_start_shape(s.drop_first());
        let k = choose|k: int| 0 <= k <= s.drop_first().len() && #[trigger] s.drop_first().skip(k) == trim_start(s.drop_first());
        assert(s.skip(k + 1) == s.drop_first().skip(k));
    } else {
        assert(s.skip(0) == s);
    }
}

proof fn lemma_trim_end_shape(t: Seq<char>)
    ensures
        exists|m: int| 0 <= m <= t.len() && #[trigger] t.take(m) == trim_end(t),
        trim_end(t).len() > 0 ==> !is_whitespace(trim_end(t).last()),
        t.len() > 0 && !is_whitespace(t[0]) ==> trim_end(t).len() > 0 && trim_end(t)[0] == t[0],
    decreases t.len(),
{
    if t.len() > 0 && is_whitespace(t.last()) {
        lemma_trim_end_shape(t.drop_last());
        let m = choose|m: int| 0 <= m <= t.drop_last().len() && #[trigger] t.drop_last().take(m) == trim_end(t.drop_last());
        assert(t.take(m) == t.drop_last().take(m));
        if t.len() > 0 && !is_whitespace(t[0]) {
            assert(t.drop_last()[0] == t[0]);
        }
    } else {
        assert(t.take(t.len() as int) == t);
    }
}

/// The characters of `trimmed(s)` are those of a contiguous piece of `s`.
pub proof fn lemma_trimmed_piece(s: Seq<char>)
    ensures
        exists|i: int, j: int| 0 <= i <= j <= s.len() && #[trigger] s.subrange(i, j) == trimmed(s),
{
    lemma_trim_start_shape(s);
    let k = choose|k: int| 0 <= k <= s.len() && #[trigger] s.skip(k) == trim_start(s);
    let t = trim_start(s);
    lemma_trim_end_shape(t);
    let m = choose|m: int| 0 <= m <= t.len() && #[trigger] t.take(m) == trim_end(t);
    assert(s.subrange(k, k + m) == t.take(m));
}

/// Trimming leaves no whitespace at either end, and trimming again changes
/// nothing.
pub proof fn lemma_trimmed_is_trimmed(s: Seq<char>)
    ensures
        is_trimmed(trimmed(s)),
        trimmed(trimmed(s)) == trimmed(s),
{
    lemma_trim_start_shape(s);
    let t = trim_start(s);
    lemma_trim_end_shape(t);
    let u = trimmed(s);
    lemma_trimmed_of_trimmed(u);
}

/// A sequence that starts and ends with non-whitespace is its own trim.
pub proof fn lemma_trimmed_of_trimmed(u: Seq<char>)
    requires
        is_trimmed(u),
    ensures
        trimmed(u) == u,
{
    assert(trim_start(u) == u);
    assert(trim_end(u) == u);
}

/// Whether every character of `s` is a space or not whitespace at all.
pub open spec fn only_plain_spaces(s: Seq<char>) -> bool {
    forall|i: int| 0 <= i < s.len() ==> #[trigger] s[i] == ' ' || !is_whitespace(s[i])
}

/// Whether `s` holds two spaces in a row.
pub open spec fn has_double_space(s: Seq<char>) -> bool {
    exists|i: int| 0 <= i < s.len() - 1 && #[trigger] s[i] == ' ' && s[i + 1] == ' '
}

/// The result of collapsing whitespace: its only whitespace is single spaces
/// between words, none at either end, and every other character comes from
/// `s`.
pub proof fn lemma_squeeze_shape(s: Seq<char>)
    ensures
        only_plain_spaces(squeeze_spaces(s)),
        !has_double_space(squeeze_spaces(s)),
        is_trimmed(squeeze_spaces(s)),
        forall|i: int|
            0 <= i < squeeze_spaces(s).len() && #[trigger] squeeze_spaces(s)[i] != ' ' ==> s.contains(
                squeeze_spaces(s)[i],
            ),
    decreases s.len(),
{
    if s.len() > 0 {
        let p = s.drop_last();
        lemma_squeeze_shape(p);
        let (out, gap) = squeeze_state(p);
        let c = s.last();
        let r = squeeze_spaces(s);
        assert forall|x: char| p.contains(x) implies s.contains(x) by {
            let w = choose|w: int| 0 <= w < p.len() && p[w] == x;
            assert(s[w] == x);
        }
        assert(s[s.len() - 1] == c);
        if !is_whitespace(c) {
            if gap {
                assert(r == out.push(' ').push(c));
            } else {
                assert(r == out.push(c));
            }
            assert forall|i: int| 0 <= i < r.len() - 1 && #[trigger] r[i] == ' ' implies r[i + 1] != ' ' by {
                if i + 1 == r.len() - 1 {
                } else if gap && i == out.len() {
                } else {
                    assert(r[i] == out[i] && r[i + 1] == out[i + 1]);
                }
            }
            if gap && out.len() > 0 {
                assert(!is_whitespace(out.last()));
            }
        }
    }
}


/// Joining non-blank trimmed parts gives non-blank trimmed text.
pub proof fn lemma_join_trimmed_parts(parts: Seq<Seq<char>>)
    requires
        parts.len() > 0,
        forall|i: int| 0 <= i < parts.len() ==> (#[trigger] parts[i]).len() > 0 && is_trimmed(parts[i]),
    ensures
        join_with_space(parts).len() > 0,
        is_trimmed(join_with_space(parts)),
        join_with_space(parts)[0] == parts[0][0],
        join_with_space(parts).last() == parts.last().last(),
    decreases parts.len(),
{
    if parts.len() > 1 {
        let init = parts.drop_last();
        assert forall|i: int| 0 <= i < init.len() implies (#[trigger] init[i]).len() > 0 && is_trimmed(
            init[i],
        ) by {
            assert(init[i] == parts[i]);
        }
        lemma_join_trimmed_parts(init);
        assert(parts.last() == parts[parts.len() - 1]);
        let j = join_with_space(parts);
        assert(j == join_with_space(init) + seq![' '] + parts.last());
        assert(j[0] == join_with_space(init)[0]);
        assert(init[0] == parts[0]);
    } else {
        assert(parts[0] == parts.last());
    }
}

/// Whether `pat` occurs somewhere in `s`.
pub open spec fn contains_text(s: Seq<char>, pat: Seq<char>) -> bool {
    exists|i: int| 0 <= i && i + pat.len() <= s.len() && #[trigger] s.subrange(i, i + pat.len()) == pat
}

/// Replacing a non-empty pattern that does not occur changes nothing.
pub proof fn lemma_replace_absent(s: Seq<char>, pat: Seq<char>, rep: Seq<char>)
    requires
        pat.len() > 0,
        !contains_text(s, pat),
    ensures
        replace_all(s, pat, rep) == s,
    decreases s.len(),
{
    if s.len() >= pat.len() && s.take(pat.len() as int) == pat {
        assert(s.subrange(0, 0 + pat.len() as int) == s.take(pat.len() as int));
    } else if s.len() > 0 {
        let t = s.drop_first();
        assert(!contains_text(t, pat)) by {
            if contains_text(t, pat) {
                let i = choose|i: int| 0 <= i && i + pat.len() <= t.len() && #[trigger] t.subrange(
                    i,
                    i + pat.len(),
                ) == pat;
                assert(s.subrange(i + 1, i + 1 + pat.len()) == t.subrange(i, i + pat.len()));
            }
        }
        lemma_replace_absent(t, pat, rep);
        assert(seq![s[0]] + t == s);
    }
}

/// Text whose only whitespace is single spaces between words is its own
/// whitespace collapse.
pub proof fn lemma_squeeze_of_squeezed(s: Seq<char>)
    requires
        only_plain_spaces(s),
        !has_double_space(s),
        is_trimmed(s),
    ensures
        squeeze_spaces(s) == s,
{
    assert forall|n: int| 0 <= n <= s.len() implies #[trigger] squeeze_state(s.take(n)) == (if n > 0
        && s[n - 1] == ' ' {
        (s.take(n - 1), true)
    } else {
        (s.take(n), false)
    }) by {
        lemma_squeeze_prefix(s, n);
    }
    assert(s.take(s.len() as int) == s);
    if s.len() > 0 {
        assert(s[s.len() - 1] == s.last());
    }
}

proof fn lemma_squeeze_prefix(s: Seq<char>, n: int)
    requires
        only_plain_spaces(s),
        !has_double_space(s),
        is_trimmed(s),
        0 <= n <= s.len(),
    ensures
        squeeze_state(s.take(n)) == (if n > 0 && s[n - 1] == ' ' {
            (s.take(n - 1), true)
        } else {
            (s.take(n), false)
        }),
    decreases n,
{
    if n > 0 {
        lemma_squeeze_prefix(s, n - 1);
        let p = s.take(n);
        assert(p.drop_last() == s.take(n - 1));
        assert(p.last() == s[n - 1]);
        let c = s[n - 1];
        assert(c == ' ' || !is_whitespace(c));
        if n == 1 {
            assert(s[0] == c);
        }
        if n > 1 && s[n - 2] == ' ' {
            assert(c != ' ');
            assert(s.take(n - 2).push(' ').push(c) == s.take(n));
        } else if !is_whitespace(c) {
            assert(s.take(n - 1).push(c) == s.take(n));
        }
    }
}

/// The characters of `s` that are not whitespace, in order.
pub open spec fn visible_chars(s: Seq<char>) -> Seq<char>
    decreases s.len(),
{
    if s.len() == 0 {
        s
    } else if is_whitespace(s.last()) {
        visible_chars(s.drop_last())
    } else {
        visible_chars(s.drop_last()).push(s.last())
    }
}

/// The visible characters of a concatenation are those of its parts.
pub proof fn lemma_visible_append(a: Seq<char>, b: Seq<char>)
    ensures
        visible_chars(a + b) == visible_chars(a) + visible_chars(b),
    decreases b.len(),
{
    if b.len() == 0 {
        assert(a + b =~= a);
        assert(visible_chars(a) + visible_chars(b) =~= visible_chars(a));
    } else {
        lemma_visible_append(a, b.drop_last());
        assert((a + b).drop_last() =~= a + b.drop_last());
        assert((a + b).last() == b.last());
        if !is_whitespace(b.last()) {
            assert((visible_chars(a) + visible_chars(b.drop_last())).push(b.last()) =~= visible_chars(
                a,
            ) + visible_chars(b.drop_last()).push(b.last()));
        }
    }
}

proof fn lemma_visible_trim_start(s: Seq<char>)
    ensures
        visible_chars(trim_start(s)) == visible_chars(s),
    decreases s.len(),
{
    if s.len() > 0 && is_whitespace(s[0]) {
        lemma_visible_trim_start(s.drop_first());
        let one = seq![s[0]];
        assert(s =~= one + s.drop_first());
        lemma_visible_append(one, s.drop_first());
        lemma_visible_blank(one);
        assert(Seq::<char>::empty() + visible_chars(s.drop_first()) =~= visible_chars(s.drop_first()));
    }
}

proof fn lemma_visible_trim_end(s: Seq<char>)
    ensures
        visible_chars(trim_end(s)) == visible_chars(s),
    decreases s.len(),
{
    if s.len() > 0 && is_whitespace(s.last()) {
        lemma_visible_trim_end(s.drop_last());
    }
}

proof fn lemma_visible_blank(s: Seq<char>)
    requires
        forall|i: int| 0 <= i < s.len() ==> is_whitespace(#[trigger] s[i]),
    ensures
        visible_chars(s) == Seq::<char>::empty(),
    decreases s.len(),
{
    if s.len() > 0 {
        let p = s.drop_last();
        assert forall|i: int| 0 <= i < p.len() implies is_whitespace(#[trigger] p[i]) by {
            assert(p[i] == s[i]);
        }
        lemma_visible_blank(p);
        assert(s.last() == s[s.len() - 1]);
    } else {
        assert(s =~= Seq::<char>::empty());
    }
}

/// Trimming keeps every visible character.
pub proof fn lemma_visible_trimmed(s: Seq<char>)
    ensures
        visible_chars(trimmed(s)) == visible_chars(s),
{
    lemma_visible_trim_start(s);
    lemma_visible_trim_end(trim_start(s));
}

/// Collapsing whitespace keeps every visible character, in order.
pub proof fn lemma_visible_squeezed(s: Seq<char>)
    ensures
        visible_chars(squeeze_spaces(s)) == visible_chars(s),
    decreases s.len(),
{
    if s.len() > 0 {
        let p = s.drop_last();
        lemma_visible_squeezed(p);
        let out = squeeze_state(p).0;
        let gap = squeeze_state(p).1;
        let c = s.last();
        if is_whitespace(c) {
            assert(squeeze_spaces(s) == out);
        } else if gap {
            assert(squeeze_spaces(s) == out.push(' ').push(c));
            assert(out.push(' ').drop_last() =~= out);
            assert(out.push(' ').last() == ' ');
            assert(visible_chars(out.push(' ')) == visible_chars(out));
            assert(out.push(' ').push(c).drop_last() =~= out.push(' '));
        } else {
            assert(squeeze_spaces(s) == out.push(c));
            assert(out.push(c).drop_last() =~= out);
        }
    }
}

/// The visible characters of parts joined by spaces are those of the parts,
/// one after the other.
pub proof fn lemma_visible_join(parts: Seq<Seq<char>>, last: Seq<char>)
    ensures
        visible_chars(join_with_space(parts.push(last))) == visible_chars(join_with_space(parts))
            + visible_chars(last),
{
    let all = parts.push(last);
    assert(all.drop_last() =~= parts);
    assert(all.last() == last);
    if parts.len() == 0 {
        assert(all[0] == last);
        assert(join_with_space(all) == last);
        assert(join_with_space(parts) =~= Seq::<char>::empty());
        lemma_visible_blank(join_with_space(parts));
        assert(Seq::<char>::empty() + visible_chars(last) =~= visible_chars(last));
    } else {
        let j = join_with_space(parts);
        assert(join_with_space(all) == j + seq![' '] + last);
        lemma_visible_append(j + seq![' '], last);
        lemma_visible_append(j, seq![' ']);
        lemma_visible_blank(seq![' ']);
        assert(visible_chars(j) + Seq::<char>::empty() =~= visible_chars(j));
    }
}

} // verus!
