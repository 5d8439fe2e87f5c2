//! Cleaning of whisper.cpp transcripts: control markers and bracketed
//! non-speech annotations are dropped and the text is reflowed into one line.
use vstd::prelude::*;
use crate::text::{
    contains_text, has_double_space, is_whitespace, lemma_replace_absent, lemma_visible_append,
    lemma_visible_join, lemma_visible_squeezed, lemma_visible_trimmed, trim_end, trim_start,
    visible_chars, lemma_squeeze_of_squeezed,
    lemma_trimmed_of_trimmed, is_trimmed, lemma_squeeze_shape, lemma_trimmed_piece, only_plain_spaces,
    chars_of, extend_chars, join_with_space, replace_all, replace_chars, slice_chars, squeeze_chars,
    squeeze_spaces, string_from_chars, trim_chars, trimmed,
};

verus! {

/// The pieces of `s` between newline characters, as `str::split('\n')` gives
/// them (there is always at least one piece).
pub open spec fn split_lines(s: Seq<char>) -> Seq<Seq<char>>
    decreases s.len(),
{
    if s.len() == 0 {
        seq![Seq::<char>::empty()]
    } else {
        let r = split_lines(s.drop_last());
        if s.last() == '\n' {
            r.push(Seq::<char>::empty())
        } else {
            r.update(r.len() - 1, r.last().push(s.last()))
        }
    }
}

/// Splitting always gives at least one piece.
pub proof fn lemma_split_lines_nonempty(s: Seq<char>)
    ensures
        split_lines(s).len() >= 1,
    decreases s.len(),
{
    if s.len() > 0 {
        lemma_split_lines_nonempty(s.drop_last());
    }
}

/// Whether `c` opens or closes an annotation.
pub open spec fn is_bracket(c: char) -> bool {
    c == '[' || c == ']' || c == '(' || c == ')'
}

/// One step of annotation stripping: the nesting depths of `[..]` and `(..)`
/// and the text kept so far, after reading `c`.
pub open spec fn strip_step(st: (nat, nat, Seq<char>), c: char) -> (nat, nat, Seq<char>) {
    let (square, round, out) = st;
    if c == '[' {
        (square + 1, round, out)
    } else if c == ']' {
        ((if square > 0 { square - 1 } else { 0 }) as nat, round, out)
    } else if c == '(' {
        (square, round + 1, out)
    } else if c == ')' {
        (square, (if round > 0 { round - 1 } else { 0 }) as nat, out)
    } else if square == 0 && round == 0 {
        (square, round, out.push(c))
    } else {
        (square, round, out)
    }
}

/// The stripping state after reading all of `s`.
pub open spec fn strip_state(s: Seq<char>) -> (nat, nat, Seq<char>)
    decreases s.len(),
{
    if s.len() == 0 {
        (0, 0, Seq::<char>::empty())
    } else {
        strip_step(strip_state(s.drop_last()), s.last())
    }
}

/// `s` without its bracket characters and without whatever stands inside
/// `[..]` or `(..)`; an unmatched closing bracket is dropped.
pub open spec fn stripped(s: Seq<char>) -> Seq<char> {
    strip_state(s).2
}

/// `s` after replacing each noise marker, in order, by a space.
pub open spec fn replace_markers(s: Seq<char>, markers: Seq<Seq<char>>) -> Seq<char>
    decreases markers.len(),
{
    if markers.len() == 0 {
        s
    } else {
        replace_all(replace_markers(s, markers.drop_last()), markers.last(), seq![' '])
    }
}

/// What one transcript line becomes.
pub open spec fn clean_line(line: Seq<char>, markers: Seq<Seq<char>>) -> Seq<char> {
    let t = trimmed(line);
    if t.len() == 0 {
        t
    } else {
        trimmed(stripped(replace_markers(t, markers)))
    }
}

/// The cleaned lines that are not empty, in order.
pub open spec fn clean_parts(lines: Seq<Seq<char>>, markers: Seq<Seq<char>>) -> Seq<Seq<char>>
    decreases lines.len(),
{
    if lines.len() == 0 {
        Seq::<Seq<char>>::empty()
    } else {
        let rest = clean_parts(lines.drop_last(), markers);
        let c = clean_line(lines.last(), markers);
        if c.len() > 0 {
            rest.push(c)
        } else {
            rest
        }
    }
}

/// The views of the noise markers.
pub open spec fn marker_views(markers: Seq<String>) -> Seq<Seq<char>> {
    markers.map_values(|m: String| m@)
}

/// The cleaned transcript of `raw`: every line is trimmed, its noise markers are
/// replaced by spaces, its annotations dropped, and the non-empty lines are
/// joined and reflowed into words separated by single spaces.
pub open spec fn cleaned_transcript(raw: Seq<char>, markers: Seq<Seq<char>>) -> Seq<char> {
    squeeze_spaces(join_with_space(clean_parts(split_lines(raw), markers)))
}

/// `s` without annotations.
pub fn strip_annotation_chars(s: &[char]) -> (res: Vec<char>)
    ensures
        res@ == stripped(s@),
{
    let mut out: Vec<char> = Vec::new();
    let mut depth_square: usize = 0;
    let mut depth_round: usize = 0;
    let mut i: usize = 0;
    while i < s.len()
        invariant
            i <= s.len(),
            depth_square <= i,
            depth_round <= i,
            (depth_square as nat, depth_round as nat, out@) == strip_state(s@.take(i as int)),
        decreases s.len() - i,
    {
        proof {
            assert(s@.take(i + 1).drop_last() == s@.take(i as int));
            assert(s@.take(i + 1).last() == s@[i as int]);
        }
        let c = s[i];
        if c == '[' {
            depth_square = depth_square + 1;
        } else if c == ']' {
            depth_square = depth_square.saturating_sub(1);
        } else if c == '(' {
            depth_round = depth_round + 1;
        } else if c == ')' {
            depth_round = depth_round.saturating_sub(1);
        } else if depth_square == 0 && depth_round == 0 {
            out.push(c);
        }
        i = i + 1;
    }
    proof {
        assert(s@.take(s.len() as int) == s@);
    }
    out
}

/// Drops `[...]` and `(...)` annotations such as `[BLANK_AUDIO]` from `input`.
pub fn strip_annotations(input: &str) -> (res: String)
    ensures
        res@ == stripped(input@),
{
    let cs = chars_of(input);
    let out = strip_annotation_chars(&cs);
    string_from_chars(&out)
}

/// One transcript line, cleaned.
fn clean_line_chars(line: &[char], markers: &Vec<Vec<char>>) -> (res: Vec<char>)
    ensures
        res@ == clean_line(line@, markers@.map_values(|m: Vec<char>| m@)),
{
    let ghost ms = markers@.map_values(|m: Vec<char>| m@);
    let t = trim_chars(line);
    if t.len() == 0 {
        return t;
    }
    let mut cur = t;
    let mut k: usize = 0;
    proof {
        assert(ms.take(0) =~= Seq::<Seq<char>>::empty());
    }
    while k < markers.len()
        invariant
            k <= markers.len(),
            ms == markers@.map_values(|m: Vec<char>| m@),
            cur@ == replace_markers(trimmed(line@), ms.take(k as int)),
        decreases markers.len() - k,
    {
        proof {
            assert(ms.take(k + 1).drop_last() == ms.take(k as int));
            assert(ms.take(k + 1).last() == markers@[k as int]@);
        }
        let space: Vec<char> = vec![' '];
        proof {
            assert(space@ =~= seq![' ']);
        }
        cur = replace_chars(&cur, &markers[k], &space);
        proof {
            assert(cur@ == replace_markers(trimmed(line@), ms.take(k + 1)));
        }
        k = k + 1;
    }
    proof {
        assert(ms.take(markers.len() as int) == ms);
    }
    let s = strip_annotation_chars(&cur);
    trim_chars(&s)
}

/// Drops whisper.cpp control markers and non-speech annotations from the raw
/// output `raw` and reflows what is left into one line.
pub fn clean_transcript(raw: &str, noise_markers: &[String]) -> (res: String)
    ensures
        res@ == cleaned_transcript(raw@, marker_views(noise_markers@)),
{
    let ghost ms = marker_views(noise_markers@);
    let mut markers: Vec<Vec<char>> = Vec::new();
    let mut m: usize = 0;
    while m < noise_markers.len()
        invariant
            m <= noise_markers.len(),
            markers@.len() == m,
            forall|j: int| 0 <= j < m ==> #[trigger] markers@[j]@ == noise_markers@[j]@,
        decreases noise_markers.len() - m,
    {
        markers.push(chars_of(noise_markers[m].as_str()));
        m = m + 1;
    }
    proof {
        assert(markers@.map_values(|v: Vec<char>| v@) =~= ms);
    }
    let cs = chars_of(raw);
    let n = cs.len();
    let mut joined: Vec<char> = Vec::new();
    let mut any = false;
    let mut start: usize = 0;
    let mut i: usize = 0;
    let ghost mut done: Seq<Seq<char>> = Seq::empty();
    proof {
        assert(cs@.take(0) =~= Seq::<char>::empty());
        assert(cs@.subrange(0, 0) =~= Seq::<char>::empty());
    }
    while i < n
        invariant
            n == cs@.len(),
            cs@ == raw@,
            start <= i <= n,
            ms == markers@.map_values(|v: Vec<char>| v@),
            split_lines(cs@.take(i as int)) == done.push(cs@.subrange(start as int, i as int)),
            joined@ == join_with_space(clean_parts(done, ms)),
            any == (clean_parts(done, ms).len() > 0),
        decreases n - i,
    {
        proof {
            assert(cs@.take(i + 1).drop_last() == cs@.take(i as int));
            assert(cs@.take(i + 1).last() == cs@[i as int]);
            lemma_split_lines_nonempty(cs@.take(i as int));
        }
        if cs[i] == '\n' {
            let piece = slice_chars(&cs, start, i);
            let c = clean_line_chars(&piece, &markers);
            proof {
                let nd = done.push(piece@);
                assert(nd.drop_last() == done);
                assert(nd.last() == piece@);
                let cp = clean_parts(done, ms);
                if c@.len() > 0 {
                    assert(cp.push(c@).drop_last() == cp);
                    assert(cp.push(c@).last() == c@);
                }
                assert(cs@.subrange(i + 1, i + 1) =~= Seq::<char>::empty());
            }
            if c.len() > 0 {
                if any {
                    joined.push(' ');
                }
                extend_chars(&mut joined, &c);
                any = true;
            }
            proof {
                done = done.push(piece@);
            }
            start = i + 1;
        } else {
            proof {
                assert(cs@.subrange(start as int, i + 1) == cs@.subrange(start as int, i as int).push(
                    cs@[i as int],
                ));
            }
        }
        i = i + 1;
    }
    proof {
        assert(cs@.take(n as int) == cs@);
    }
    let piece = slice_chars(&cs, start, n);
    let c = clean_line_chars(&piece, &markers);
    proof {
        let nd = done.push(piece@);
        assert(nd.drop_last() == done);
        assert(nd.last() == piece@);
        let cp = clean_parts(done, ms);
        if c@.len() > 0 {
            assert(cp.push(c@).drop_last() == cp);
            assert(cp.push(c@).last() == c@);
        }
    }
    if c.len() > 0 {
        if any {
            joined.push(' ');
        }
        extend_chars(&mut joined, &c);
    }
    proof {
        let nd = done.push(piece@);
        assert(split_lines(cs@) == nd);
        assert(joined@ == join_with_space(clean_parts(nd, ms)));
    }
    let squeezed = squeeze_chars(&joined);
    string_from_chars(&squeezed)
}


/// Whether `s` holds no bracket character.
pub open spec fn no_brackets(s: Seq<char>) -> bool {
    forall|i: int| 0 <= i < s.len() ==> !is_bracket(#[trigger] s[i])
}

proof fn lemma_strip_state(s: Seq<char>)
    ensures
        no_brackets(strip_state(s).2),
        no_brackets(s) ==> strip_state(s) == (0nat, 0nat, s),
    decreases s.len(),
{
    if s.len() > 0 {
        lemma_strip_state(s.drop_last());
        if no_brackets(s) {
            assert(no_brackets(s.drop_last())) by {
                assert forall|i: int| 0 <= i < s.drop_last().len() implies !is_bracket(
                    #[trigger] s.drop_last()[i],
                ) by {
                    assert(s.drop_last()[i] == s[i]);
                }
            }
            assert(!is_bracket(s[s.len() - 1]));
            assert(s.drop_last().push(s.last()) == s);
        }
    }
}

/// Stripping leaves no bracket behind, and text without brackets is kept as
/// it is.
pub proof fn lemma_stripped_shape(s: Seq<char>)
    ensures
        no_brackets(stripped(s)),
        no_brackets(s) ==> stripped(s) == s,
{
    lemma_strip_state(s);
}

proof fn lemma_trimmed_no_brackets(s: Seq<char>)
    requires
        no_brackets(s),
    ensures
        no_brackets(trimmed(s)),
{
    lemma_trimmed_piece(s);
    let (i, j) = choose|i: int, j: int| 0 <= i <= j <= s.len() && #[trigger] s.subrange(i, j) == trimmed(s);
    assert forall|k: int| 0 <= k < trimmed(s).len() implies !is_bracket(#[trigger] trimmed(s)[k]) by {
        assert(trimmed(s)[k] == s[i + k]);
    }
}

proof fn lemma_clean_parts_no_brackets(lines: Seq<Seq<char>>, markers: Seq<Seq<char>>)
    ensures
        forall|k: int|
            0 <= k < clean_parts(lines, markers).len() ==> no_brackets(
                #[trigger] clean_parts(lines, markers)[k],
            ),
    decreases lines.len(),
{
    if lines.len() > 0 {
        lemma_clean_parts_no_brackets(lines.drop_last(), markers);
        let t = trimmed(lines.last());
        if t.len() > 0 {
            lemma_stripped_shape(replace_markers(t, markers));
            lemma_trimmed_no_brackets(stripped(replace_markers(t, markers)));
        }
        let rest = clean_parts(lines.drop_last(), markers);
        let c = clean_line(lines.last(), markers);
        if c.len() > 0 {
            assert(no_brackets(c));
            let all = rest.push(c);
            assert(clean_parts(lines, markers) == all);
            assert forall|k: int| 0 <= k < all.len() implies no_brackets(#[trigger] all[k]) by {
                if k < rest.len() {
                    assert(all[k] == rest[k]);
                }
            }
        }
    }
}

proof fn lemma_join_no_brackets(parts: Seq<Seq<char>>)
    requires
        forall|k: int| 0 <= k < parts.len() ==> no_brackets(#[trigger] parts[k]),
    ensures
        no_brackets(join_with_space(parts)),
    decreases parts.len(),
{
    if parts.len() > 1 {
        lemma_join_no_brackets(parts.drop_last());
        let a = join_with_space(parts.drop_last());
        let b = parts.last();
        assert(no_brackets(b));
        assert forall|i: int| 0 <= i < join_with_space(parts).len() implies !is_bracket(
            #[trigger] join_with_space(parts)[i],
        ) by {
            if i < a.len() {
                assert(join_with_space(parts)[i] == a[i]);
            } else if i > a.len() {
                assert(join_with_space(parts)[i] == b[i - a.len() - 1]);
            }
        }
    } else if parts.len() == 1 {
        assert(no_brackets(parts[0]));
    }
}

/// A cleaned transcript is one line of words: it holds no bracket, no
/// whitespace other than single spaces between words, and none at either end.
pub proof fn lemma_cleaned_transcript_shape(raw: Seq<char>, markers: Seq<Seq<char>>)
    ensures
        no_brackets(cleaned_transcript(raw, markers)),
        only_plain_spaces(cleaned_transcript(raw, markers)),
        !has_double_space(cleaned_transcript(raw, markers)),
        is_trimmed(cleaned_transcript(raw, markers)),
{
    let parts = clean_parts(split_lines(raw), markers);
    lemma_clean_parts_no_brackets(split_lines(raw), markers);
    lemma_join_no_brackets(parts);
    let j = join_with_space(parts);
    lemma_squeeze_shape(j);
    let r = squeeze_spaces(j);
    assert forall|i: int| 0 <= i < r.len() implies !is_bracket(#[trigger] r[i]) by {
        if is_bracket(r[i]) {
            assert(r[i] != ' ');
            assert(j.contains(r[i]));
            let w = choose|w: int| 0 <= w < j.len() && j[w] == r[i];
            assert(!is_bracket(j[w]));
        }
    }
}

proof fn lemma_split_single_line(s: Seq<char>)
    requires
        forall|i: int| 0 <= i < s.len() ==> #[trigger] s[i] != '\n',
    ensures
        split_lines(s) == seq![s],
    decreases s.len(),
{
    if s.len() > 0 {
        let p = s.drop_last();
        assert forall|i: int| 0 <= i < p.len() implies #[trigger] p[i] != '\n' by {
            assert(p[i] == s[i]);
        }
        lemma_split_single_line(p);
        assert(s[s.len() - 1] == s.last());
        assert(p.push(s.last()) == s);
        assert(seq![p].update(0, p.push(s.last())) == seq![s]);
    } else {
        assert(s == Seq::<char>::empty());
    }
}

proof fn lemma_markers_absent(s: Seq<char>, markers: Seq<Seq<char>>)
    requires
        forall|i: int|
            0 <= i < markers.len() ==> (#[trigger] markers[i]).len() > 0 && !contains_text(s, markers[i]),
    ensures
        replace_markers(s, markers) == s,
    decreases markers.len(),
{
    if markers.len() > 0 {
        let init = markers.drop_last();
        assert forall|i: int| 0 <= i < init.len() implies (#[trigger] init[i]).len() > 0
            && !contains_text(s, init[i]) by {
            assert(init[i] == markers[i]);
        }
        lemma_markers_absent(s, init);
        assert(markers.last() == markers[markers.len() - 1]);
        lemma_replace_absent(s, markers.last(), seq![' ']);
    }
}

/// Cleaning is idempotent: a cleaned transcript, cleaned again with the same
/// noise markers, comes back unchanged, as long as no marker is empty or occurs
/// in it; and it is already its own whitespace collapse.
pub proof fn lemma_clean_transcript_idempotent(raw: Seq<char>, markers: Seq<Seq<char>>)
    requires
        forall|i: int|
            0 <= i < markers.len() ==> (#[trigger] markers[i]).len() > 0 && !contains_text(
                cleaned_transcript(raw, markers),
                markers[i],
            ),
    ensures
        squeeze_spaces(cleaned_transcript(raw, markers)) == cleaned_transcript(raw, markers),
        cleaned_transcript(cleaned_transcript(raw, markers), markers) == cleaned_transcript(
            raw,
            markers,
        ),
{
    let r = cleaned_transcript(raw, markers);
    lemma_cleaned_transcript_shape(raw, markers);
    lemma_squeeze_of_squeezed(r);
    assert forall|i: int| 0 <= i < r.len() implies #[trigger] r[i] != '\n' by {
        assert(r[i] == ' ' || !is_whitespace(r[i]));
    }
    lemma_split_single_line(r);
    lemma_trimmed_of_trimmed(r);
    lemma_markers_absent(r, markers);
    lemma_stripped_shape(r);
    let lines = seq![r];
    assert(lines.drop_last() == Seq::<Seq<char>>::empty());
    assert(clean_parts(Seq::<Seq<char>>::empty(), markers) == Seq::<Seq<char>>::empty());
    assert(lines.last() == r);
    if r.len() > 0 {
        assert(clean_line(r, markers) == r);
        assert(clean_parts(lines, markers) == Seq::<Seq<char>>::empty().push(r));
        assert(Seq::<Seq<char>>::empty().push(r) == seq![r]);
    } else {
        assert(clean_parts(lines, markers) == Seq::<Seq<char>>::empty());
    }
}

/// The stripping state after reading `b`, starting from `st`.
pub open spec fn strip_run(st: (nat, nat, Seq<char>), b: Seq<char>) -> (nat, nat, Seq<char>)
    decreases b.len(),
{
    if b.len() == 0 {
        st
    } else {
        strip_step(strip_run(st, b.drop_last()), b.last())
    }
}

proof fn lemma_strip_concat(a: Seq<char>, b: Seq<char>)
    ensures
        strip_state(a + b) == strip_run(strip_state(a), b),
    decreases b.len(),
{
    if b.len() == 0 {
        assert(a + b =~= a);
    } else {
        lemma_strip_concat(a, b.drop_last());
        assert((a + b).drop_last() =~= a + b.drop_last());
        assert((a + b).last() == b.last());
    }
}

proof fn lemma_strip_run_kept(d0: nat, d1: nat, x: Seq<char>, b: Seq<char>)
    ensures
        ({
            let r = strip_run((d0, d1, Seq::<char>::empty()), b);
            strip_run((d0, d1, x), b) == (r.0, r.1, x + r.2)
        }),
    decreases b.len(),
{
    if b.len() == 0 {
        assert(x + Seq::<char>::empty() =~= x);
    } else {
        lemma_strip_run_kept(d0, d1, x, b.drop_last());
        let r = strip_run((d0, d1, Seq::<char>::empty()), b.drop_last());
        assert((x + r.2).push(b.last()) =~= x + r.2.push(b.last()));
    }
}

proof fn lemma_visible_stripped_trim_start(s: Seq<char>)
    ensures
        visible_chars(stripped(trim_start(s))) == visible_chars(stripped(s)),
    decreases s.len(),
{
    if s.len() > 0 && is_whitespace(s[0]) {
        let c = s[0];
        let rest = s.drop_first();
        lemma_visible_stripped_trim_start(rest);
        let one = seq![c];
        assert(s =~= one + rest);
        assert(one.drop_last() =~= Seq::<char>::empty());
        assert(one.last() == c);
        assert(!is_bracket(c));
        assert(strip_state(one.drop_last()) == (0nat, 0nat, Seq::<char>::empty()));
        assert(strip_state(one) == (0nat, 0nat, Seq::<char>::empty().push(c)));
        assert(Seq::<char>::empty().push(c) =~= one);
        lemma_strip_concat(one, rest);
        lemma_strip_concat(Seq::<char>::empty(), rest);
        assert(Seq::<char>::empty() + rest =~= rest);
        lemma_strip_run_kept(0, 0, one, rest);
        lemma_visible_append(one, stripped(rest));
        assert(one.drop_last() =~= Seq::<char>::empty());
        assert(visible_chars(one.drop_last()) == Seq::<char>::empty());
        assert(visible_chars(one) =~= Seq::<char>::empty());
        assert(Seq::<char>::empty() + visible_chars(stripped(rest)) =~= visible_chars(stripped(rest)));
    }
}

proof fn lemma_visible_stripped_trim_end(s: Seq<char>)
    ensures
        visible_chars(stripped(trim_end(s))) == visible_chars(stripped(s)),
    decreases s.len(),
{
    if s.len() > 0 && is_whitespace(s.last()) {
        lemma_visible_stripped_trim_end(s.drop_last());
        let c = s.last();
        assert(!is_bracket(c));
        let out = strip_state(s.drop_last()).2;
        assert(out.push(c).drop_last() =~= out);
    }
}

/// The visible characters each line keeps once its annotations are dropped,
/// line after line.
pub open spec fn lines_visible(lines: Seq<Seq<char>>) -> Seq<char>
    decreases lines.len(),
{
    if lines.len() == 0 {
        Seq::<char>::empty()
    } else {
        lines_visible(lines.drop_last()) + visible_chars(stripped(lines.last()))
    }
}

proof fn lemma_clean_line_visible(line: Seq<char>)
    ensures
        visible_chars(clean_line(line, Seq::<Seq<char>>::empty())) == visible_chars(stripped(line)),
{
    let t = trimmed(line);
    lemma_visible_stripped_trim_start(line);
    lemma_visible_stripped_trim_end(trim_start(line));
    assert(replace_markers(t, Seq::<Seq<char>>::empty()) == t);
    if t.len() == 0 {
        assert(t =~= Seq::<char>::empty());
        assert(stripped(t) =~= Seq::<char>::empty());
    } else {
        lemma_visible_trimmed(stripped(t));
    }
}

proof fn lemma_clean_parts_visible(lines: Seq<Seq<char>>)
    ensures
        visible_chars(join_with_space(clean_parts(lines, Seq::<Seq<char>>::empty()))) == lines_visible(
            lines,
        ),
    decreases lines.len(),
{
    let ms = Seq::<Seq<char>>::empty();
    if lines.len() == 0 {
        assert(join_with_space(clean_parts(lines, ms)) =~= Seq::<char>::empty());
    } else {
        lemma_clean_parts_visible(lines.drop_last());
        let rest = clean_parts(lines.drop_last(), ms);
        let c = clean_line(lines.last(), ms);
        lemma_clean_line_visible(lines.last());
        if c.len() > 0 {
            lemma_visible_join(rest, c);
        } else {
            assert(c =~= Seq::<char>::empty());
            assert(lines_visible(lines.drop_last()) + Seq::<char>::empty() =~= lines_visible(
                lines.drop_last(),
            ));
        }
    }
}

/// Cleaning without noise markers drops only annotations and reflows
/// whitespace: the cleaned transcript holds exactly the visible characters of
/// the lines with their `[..]` and `(..)` annotations removed, in order. So a
/// line with text outside brackets is never lost, and a one-line transcript
/// with such text cleans to non-empty text.
pub proof fn lemma_cleaning_keeps_spoken_text(raw: Seq<char>)
    ensures
        visible_chars(cleaned_transcript(raw, Seq::<Seq<char>>::empty())) == lines_visible(
            split_lines(raw),
        ),
        (forall|i: int| 0 <= i < raw.len() ==> #[trigger] raw[i] != '\n') ==> visible_chars(
            cleaned_transcript(raw, Seq::<Seq<char>>::empty()),
        ) == visible_chars(stripped(raw)),
        visible_chars(stripped(raw)).len() > 0 && (forall|i: int|
            0 <= i < raw.len() ==> #[trigger] raw[i] != '\n') ==> cleaned_transcript(
            raw,
            Seq::<Seq<char>>::empty(),
        ).len() > 0,
{
    let ms = Seq::<Seq<char>>::empty();
    lemma_clean_parts_visible(split_lines(raw));
    lemma_visible_squeezed(join_with_space(clean_parts(split_lines(raw), ms)));
    if forall|i: int| 0 <= i < raw.len() ==> #[trigger] raw[i] != '\n' {
        lemma_split_single_line(raw);
        let lines = seq![raw];
        assert(lines.drop_last() =~= Seq::<Seq<char>>::empty());
        assert(lines.last() == raw);
        assert(lines_visible(lines.drop_last()) == Seq::<char>::empty());
        assert(Seq::<char>::empty() + visible_chars(stripped(raw)) =~= visible_chars(stripped(raw)));
        let r = cleaned_transcript(raw, ms);
        if r.len() == 0 {
            assert(r =~= Seq::<char>::empty());
        }
    }
}

/// Whether `t` is a contiguous piece of `s`.
pub open spec fn is_piece(s: Seq<char>, t: Seq<char>) -> bool {
    exists|i: int, j: int| 0 <= i <= j <= s.len() && #[trigger] s.subrange(i, j) == t
}

proof fn lemma_piece_contains(s: Seq<char>, t: Seq<char>, pat: Seq<char>)
    requires
        is_piece(s, t),
        contains_text(t, pat),
    ensures
        contains_text(s, pat),
{
    let (a, b) = choose|i: int, j: int| 0 <= i <= j <= s.len() && #[trigger] s.subrange(i, j) == t;
    let k = choose|k: int| 0 <= k && k + pat.len() <= t.len() && #[trigger] t.subrange(k, k + pat.len())
        == pat;
    assert(s.subrange(a + k, a + k + pat.len()) =~= t.subrange(k, k + pat.len()));
}

proof fn lemma_lines_are_pieces(s: Seq<char>)
    ensures
        forall|k: int| 0 <= k < split_lines(s).len() ==> is_piece(s, #[trigger] split_lines(s)[k]),
        exists|i: int| 0 <= i <= s.len() && #[trigger] s.subrange(i, s.len() as int) == split_lines(s).last(),
    decreases s.len(),
{
    lemma_split_lines_nonempty(s);
    if s.len() == 0 {
        assert(s.subrange(0, 0) =~= split_lines(s)[0]);
        assert(split_lines(s).last() == split_lines(s)[0]);
    } else {
        let p = s.drop_last();
        lemma_lines_are_pieces(p);
        lemma_split_lines_nonempty(p);
        let r = split_lines(p);
        let c = s.last();
        let lines = split_lines(s);
        assert forall|k: int| 0 <= k < r.len() && is_piece(p, r[k]) implies is_piece(s, r[k]) by {
            let (a, b) = choose|i: int, j: int| 0 <= i <= j <= p.len() && #[trigger] p.subrange(i, j) == r[k];
            assert(s.subrange(a, b) =~= p.subrange(a, b));
        }
        if c == '\n' {
            assert(lines == r.push(Seq::<char>::empty()));
            assert(s.subrange(s.len() as int, s.len() as int) =~= Seq::<char>::empty());
            assert forall|k: int| 0 <= k < lines.len() implies is_piece(s, #[trigger] lines[k]) by {
                if k < r.len() {
                    assert(lines[k] == r[k]);
                    assert(is_piece(p, r[k]));
                } else {
                    assert(s.subrange(s.len() as int, s.len() as int) == lines[k]);
                }
            }
        } else {
            let i = choose|i: int| 0 <= i <= p.len() && #[trigger] p.subrange(i, p.len() as int) == r.last();
            let last = r.last().push(c);
            assert(lines == r.update(r.len() - 1, last));
            assert(s.subrange(i, s.len() as int) =~= last);
            assert forall|k: int| 0 <= k < lines.len() implies is_piece(s, #[trigger] lines[k]) by {
                if k < r.len() - 1 {
                    assert(lines[k] == r[k]);
                    assert(is_piece(p, r[k]));
                } else {
                    assert(s.subrange(i, s.len() as int) == lines[k]);
                }
            }
        }
    }
}

proof fn lemma_clean_parts_without_markers(
    raw: Seq<char>,
    lines: Seq<Seq<char>>,
    markers: Seq<Seq<char>>,
)
    requires
        forall|k: int| 0 <= k < lines.len() ==> is_piece(raw, #[trigger] lines[k]),
        forall|i: int|
            0 <= i < markers.len() ==> (#[trigger] markers[i]).len() > 0 && !contains_text(raw, markers[i]),
    ensures
        clean_parts(lines, markers) == clean_parts(lines, Seq::<Seq<char>>::empty()),
    decreases lines.len(),
{
    if lines.len() > 0 {
        let init = lines.drop_last();
        assert forall|k: int| 0 <= k < init.len() implies is_piece(raw, #[trigger] init[k]) by {
            assert(init[k] == lines[k]);
        }
        lemma_clean_parts_without_markers(raw, init, markers);
        let line = lines.last();
        assert(is_piece(raw, lines[lines.len() - 1]));
        let t = trimmed(line);
        lemma_trimmed_piece(line);
        let (a, b) = choose|i: int, j: int| 0 <= i <= j <= line.len() && #[trigger] line.subrange(i, j) == t;
        let (c, d) = choose|i: int, j: int| 0 <= i <= j <= raw.len() && #[trigger] raw.subrange(i, j) == line;
        assert(raw.subrange(c + a, c + b) =~= t);
        assert(is_piece(raw, t));
        assert forall|i: int| 0 <= i < markers.len() implies (#[trigger] markers[i]).len() > 0
            && !contains_text(t, markers[i]) by {
            if contains_text(t, markers[i]) {
                lemma_piece_contains(raw, t, markers[i]);
            }
        }
        lemma_markers_absent(t, markers);
        assert(replace_markers(t, Seq::<Seq<char>>::empty()) == t);
    }
}

/// Noise markers only ever replace themselves: when none of them (all
/// non-empty) occurs in the raw transcript, cleaning with them gives the same
/// text as cleaning without them.
pub proof fn lemma_absent_markers_change_nothing(raw: Seq<char>, markers: Seq<Seq<char>>)
    requires
        forall|i: int|
            0 <= i < markers.len() ==> (#[trigger] markers[i]).len() > 0 && !contains_text(raw, markers[i]),
    ensures
        cleaned_transcript(raw, markers) == cleaned_transcript(raw, Seq::<Seq<char>>::empty()),
{
    lemma_lines_are_pieces(raw);
    lemma_clean_parts_without_markers(raw, split_lines(raw), markers);
}

} // verus!
