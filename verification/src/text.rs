//! Character-level text primitives shared by the matcher, the speech planner
//! and the model-reply handling: Unicode white space, word splitting, joining,
//! trimming, substring search and replacement, all over `Seq<char>`.
use vstd::prelude::*;

verus! {

// ───────────────────────────── white space ─────────────────────────────

/// The Unicode `White_Space` property (PropList.txt), which is what
/// `char::is_whitespace` tests.
pub open spec fn is_space(c: char) -> bool {
    let u = c as u32;
    ||| 0x09 <= u <= 0x0d
    ||| u == 0x20
    ||| u == 0x85
    ||| u == 0xa0
    ||| u == 0x1680
    ||| 0x2000 <= u <= 0x200a
    ||| u == 0x2028
    ||| u == 0x2029
    ||| u == 0x202f
    ||| u == 0x205f
    ||| u == 0x3000
}

/// Whether `c` is Unicode white space.
pub fn is_whitespace(c: char) -> (r: bool)
    ensures
        r == is_space(c),
{
    let u: u32 = c as u32;
    (0x09 <= u && u <= 0x0d) || u == 0x20 || u == 0x85 || u == 0xa0 || u == 0x1680 || (0x2000
        <= u && u <= 0x200a) || u == 0x2028 || u == 0x2029 || u == 0x202f || u == 0x205f || u
        == 0x3000
}

// ───────────────────────────── conversions ─────────────────────────────

/// The characters of `s`, in order.
pub fn chars_of(s: &str) -> (r: Vec<char>)
    ensures
        r@ == s@,
{
    let mut r: Vec<char> = Vec::new();
    for c in it: s.chars()
        invariant
            r@ == it.seq().take(it.index() as int),
            it.seq() == s@,
    {
        r.push(c);
    }
    r
}

/// Appends one character to a string (`String::push`).
#[verifier::external_body]
pub(crate) fn push_char(s: &mut String, c: char)
    ensures
        final(s)@ == old(s)@.push(c),
{
    s.push(c);
}

/// The string made of the characters of `v`, in order.
pub fn string_from_chars(v: &Vec<char>) -> (r: String)
    ensures
        r@ == v@,
{
    let mut r = String::new();
    let mut i: usize = 0;
    while i < v.len()
        invariant
            i <= v.len(),
            r@ == v@.take(i as int),
        decreases v.len() - i,
    {
        push_char(&mut r, v[i]);
        assert(v@.take(i + 1) == v@.take(i as int).push(v@[i as int]));
        i = i + 1;
    }
    assert(v@.take(v.len() as int) == v@);
    r
}

/// A string holding the characters of `a` followed by those of `b`.
pub fn concat(a: &str, b: &str) -> (r: String)
    ensures
        r@ == a@ + b@,
{
    let mut r = a.to_owned();
    r.append(b);
    r
}

// ───────────────────────────── words ─────────────────────────────

/// The character sequences held by a list of strings.
pub open spec fn views_of(v: Seq<String>) -> Seq<Seq<char>> {
    v.map_values(|s: String| s@)
}

/// The character sequences held by a list of character vectors.
pub open spec fn vec_views(v: Seq<Vec<char>>) -> Seq<Seq<char>> {
    v.map_values(|w: Vec<char>| w@)
}

/// The maximal runs of non-white-space characters of `s`, left to right
/// (what `str::split_whitespace` yields).
pub open spec fn words(s: Seq<char>) -> Seq<Seq<char>>
    decreases s.len(),
{
    if s.len() == 0 {
        seq![]
    } else {
        let p = s.drop_last();
        let c = s.last();
        if is_space(c) {
            words(p)
        } else if p.len() > 0 && !is_space(p.last()) {
            let w = words(p);
            w.drop_last().push(w.last().push(c))
        } else {
            words(p).push(seq![c])
        }
    }
}

/// `sep` between consecutive items of `items`.
pub open spec fn join(items: Seq<Seq<char>>, sep: Seq<char>) -> Seq<char>
    decreases items.len(),
{
    if items.len() == 0 {
        seq![]
    } else if items.len() == 1 {
        items[0]
    } else {
        join(items.drop_last(), sep) + sep + items.last()
    }
}

/// The strings of `items` with `sep` between consecutive ones (`[String]::join`).
pub fn join_strings(items: &Vec<String>, sep: &str) -> (r: String)
    ensures
        r@ == join(views_of(items@), sep@),
{
    let ghost iv = views_of(items@);
    let mut r = String::new();
    let mut i: usize = 0;
    while i < items.len()
        invariant
            i <= items.len(),
            iv == views_of(items@),
            r@ == join(iv.take(i as int), sep@),
        decreases items.len() - i,
    {
        assert(iv.take(i + 1).drop_last() == iv.take(i as int));
        assert(iv.take(i + 1).last() == items@[i as int]@);
        if i > 0 {
            r.append(sep);
        }
        r.append(items[i].as_str());
        i = i + 1;
    }
    assert(iv.take(items.len() as int) == iv);
    r
}

/// The words of `s` joined by single spaces.
pub open spec fn collapse_spaces(s: Seq<char>) -> Seq<char> {
    join(words(s), seq![' '])
}

/// A non-empty text ending in a non-space character has at least one word.
pub proof fn lemma_words_nonempty(s: Seq<char>)
    requires
        s.len() > 0,
        !is_space(s.last()),
    ensures
        words(s).len() > 0,
    decreases s.len(),
{
    let p = s.drop_last();
    if p.len() > 0 && !is_space(p.last()) {
        lemma_words_nonempty(p);
    }
}

/// Every word is non-empty and free of white space.
pub proof fn lemma_words_shape(s: Seq<char>)
    ensures
        forall|k: int| 0 <= k < words(s).len() ==> #[trigger] words(s)[k].len() > 0,
        forall|k: int, j: int|
            0 <= k < words(s).len() && 0 <= j < words(s)[k].len() ==> !is_space(
                #[trigger] words(s)[k][j],
            ),
    decreases s.len(),
{
    if s.len() > 0 {
        let p = s.drop_last();
        lemma_words_shape(p);
        if !is_space(s.last()) && p.len() > 0 && !is_space(p.last()) {
            lemma_words_nonempty(p);
        }
    }
}

/// Every character of every word is a character of `s` that satisfies `keep`,
/// when every non-space character of `s` does.
pub proof fn lemma_words_chars(s: Seq<char>, keep: spec_fn(char) -> bool)
    requires
        forall|i: int| 0 <= i < s.len() && !is_space(s[i]) ==> keep(#[trigger] s[i]),
    ensures
        forall|k: int, j: int|
            0 <= k < words(s).len() && 0 <= j < words(s)[k].len() ==> keep(
                #[trigger] words(s)[k][j],
            ),
    decreases s.len(),
{
    if s.len() > 0 {
        let p = s.drop_last();
        assert forall|i: int| 0 <= i < p.len() && !is_space(p[i]) implies keep(#[trigger] p[i]) by {
            assert(p[i] == s[i]);
        }
        lemma_words_chars(p, keep);
        assert(keep(s.last()) || is_space(s.last())) by {
            assert(s.last() == s[s.len() - 1]);
        }
        if !is_space(s.last()) && p.len() > 0 && !is_space(p.last()) {
            lemma_words_nonempty(p);
        }
    }
}

/// Appending a character to the last item extends the joined text by that character.
pub proof fn lemma_join_extend_last(items: Seq<Seq<char>>, sep: Seq<char>, c: char)
    requires
        items.len() > 0,
    ensures
        join(items.drop_last().push(items.last().push(c)), sep) == join(items, sep).push(c),
{
    let n = items.drop_last().push(items.last().push(c));
    assert(n.drop_last() == items.drop_last());
    if items.len() > 1 {
        assert(join(n, sep) == join(items.drop_last(), sep) + sep + items.last().push(c));
    }
}

/// Appending an item extends the joined text by the separator and the item.
pub proof fn lemma_join_push(items: Seq<Seq<char>>, sep: Seq<char>, w: Seq<char>)
    ensures
        join(items.push(w), sep) == if items.len() == 0 {
            w
        } else {
            join(items, sep) + sep + w
        },
{
    assert(items.push(w).drop_last() == items);
}

/// `w` is a word: non-empty and free of white space.
pub open spec fn is_word(w: Seq<char>) -> bool {
    w.len() > 0 && forall|j: int| 0 <= j < w.len() ==> !is_space(#[trigger] w[j])
}

/// A word written after a text that is empty or ends in white space is the
/// text's words followed by that word.
pub proof fn lemma_words_append_word(x: Seq<char>, w: Seq<char>)
    requires
        x.len() == 0 || is_space(x.last()),
        is_word(w),
    ensures
        words(x + w) == words(x).push(w),
    decreases w.len(),
{
    let c = w.last();
    assert(!is_space(c)) by {
        assert(c == w[w.len() - 1]);
    }
    if w.len() == 1 {
        assert((x + w).drop_last() == x);
        assert((x + w).last() == c);
        assert(w == seq![c]);
    } else {
        let v = w.drop_last();
        assert forall|j: int| 0 <= j < v.len() implies !is_space(#[trigger] v[j]) by {
            assert(v[j] == w[j]);
        }
        lemma_words_append_word(x, v);
        let p = x + v;
        assert((x + w).drop_last() == p);
        assert((x + w).last() == c);
        assert(p.last() == v[v.len() - 1]);
        assert(v.push(c) == w);
    }
}

/// Splitting words joined by single spaces gives the words back.
pub proof fn lemma_words_of_join(ws: Seq<Seq<char>>)
    requires
        forall|k: int| 0 <= k < ws.len() ==> is_word(#[trigger] ws[k]),
    ensures
        words(join(ws, seq![' '])) == ws,
    decreases ws.len(),
{
    if ws.len() == 1 {
        assert(is_word(ws[0]));
        lemma_words_append_word(seq![], ws[0]);
        assert(Seq::<char>::empty() + ws[0] == ws[0]);
        assert(words(Seq::<char>::empty()) == Seq::<Seq<char>>::empty());
        assert(seq![ws[0]] == ws);
    } else if ws.len() > 1 {
        let p = ws.drop_last();
        let w = ws.last();
        assert forall|k: int| 0 <= k < p.len() implies is_word(#[trigger] p[k]) by {
            assert(p[k] == ws[k]);
        }
        lemma_words_of_join(p);
        assert(is_word(w)) by {
            assert(w == ws[ws.len() - 1]);
        }
        let x = join(p, seq![' ']).push(' ');
        assert(x.drop_last() == join(p, seq![' ']));
        assert(is_space(' '));
        lemma_words_append_word(x, w);
        assert(join(ws, seq![' ']) == x + w);
        assert(p.push(w) == ws);
    }
}

/// Words do not run across white space: when `x` ends in white space or `y`
/// begins with it (or either is empty), the words of `x + y` are those of `x`
/// followed by those of `y`.
pub proof fn lemma_words_concat(x: Seq<char>, y: Seq<char>)
    requires
        x.len() == 0 || is_space(x.last()) || y.len() == 0 || is_space(y[0]),
    ensures
        words(x + y) == words(x) + words(y),
    decreases y.len(),
{
    if y.len() == 0 {
        assert(x + y == x);
        assert(words(x) + words(y) == words(x));
    } else {
        let yp = y.drop_last();
        let c = y.last();
        assert((x + y).drop_last() == x + yp);
        assert((x + y).last() == c);
        if yp.len() > 0 {
            assert(yp[0] == y[0]);
        }
        lemma_words_concat(x, yp);
        let p = x + yp;
        if !is_space(c) {
            if yp.len() > 0 {
                assert(p.last() == yp.last());
                let wx = words(x);
                let wy = words(yp);
                if !is_space(yp.last()) {
                    lemma_words_nonempty(yp);
                    assert((wx + wy).drop_last() == wx + wy.drop_last());
                    assert((wx + wy).last() == wy.last());
                    assert((wx + wy.drop_last()).push(wy.last().push(c)) == wx + wy.drop_last().push(
                        wy.last().push(c),
                    ));
                } else {
                    assert((wx + wy).push(seq![c]) == wx + wy.push(seq![c]));
                }
            } else {
                assert(p == x);
                assert(y == seq![c]);
                assert(y.drop_last().len() == 0);
                assert(words(x).push(seq![c]) == words(x) + seq![seq![c]]);
            }
        }
    }
}

/// Every word of `p` is a word of `s`.
pub open spec fn words_within(p: Seq<char>, s: Seq<char>) -> bool {
    forall|k: int| 0 <= k < words(p).len() ==> words(s).contains(#[trigger] words(p)[k])
}

/// `p` is `s[a..b]`, with white space or an end of `s` on either side.
pub open spec fn space_bounded(p: Seq<char>, s: Seq<char>, a: int, b: int) -> bool {
    &&& 0 <= a <= b <= s.len()
    &&& p == s.subrange(a, b)
    &&& a == 0 || is_space(s[a - 1])
    &&& b == s.len() || is_space(s[b])
}

/// A piece of `s` bounded by white space has only words of `s`.
pub proof fn lemma_bounded_words_within(p: Seq<char>, s: Seq<char>, a: int, b: int)
    requires
        space_bounded(p, s, a, b),
    ensures
        words_within(p, s),
{
    let pre = s.take(a);
    let post = s.skip(b);
    if b < s.len() {
        assert(post[0] == s[b]);
    }
    lemma_words_concat(p, post);
    if a > 0 {
        assert(pre.last() == s[a - 1]);
    }
    lemma_words_concat(pre, p + post);
    assert(s == pre + (p + post));
    assert forall|k: int| 0 <= k < words(p).len() implies words(s).contains(#[trigger] words(p)[k]) by {
        let j = words(pre).len() + k;
        assert(words(s)[j] == words(p)[k]);
    }
}

/// Every word of `s` is a word of `s`.
pub proof fn lemma_words_within_refl(s: Seq<char>)
    ensures
        words_within(s, s),
{
    assert forall|k: int| 0 <= k < words(s).len() implies words(s).contains(#[trigger] words(s)[k]) by {}
}

/// Being made of words of another text is transitive.
pub proof fn lemma_words_within_trans(p: Seq<char>, q: Seq<char>, s: Seq<char>)
    requires
        words_within(p, q),
        words_within(q, s),
    ensures
        words_within(p, s),
{
    assert forall|k: int| 0 <= k < words(p).len() implies words(s).contains(#[trigger] words(p)[k]) by {
        assert(words(q).contains(words(p)[k]));
        let j = choose|j: int| 0 <= j < words(q).len() && words(q)[j] == words(p)[k];
        assert(words(s).contains(words(q)[j]));
    }
}

/// Trimming the start drops only characters that `strip` accepts.
pub proof fn lemma_trim_start_drops(s: Seq<char>, strip: spec_fn(char) -> bool)
    ensures
        exists|a: int|
            0 <= a <= s.len() && trim_start_by(s, strip) == s.subrange(a, s.len() as int) && (forall|
                i: int,
            |
                0 <= i < a ==> strip(#[trigger] s[i])),
    decreases s.len(),
{
    if s.len() > 0 && strip(s[0]) {
        let t = s.drop_first();
        lemma_trim_start_drops(t, strip);
        let a = choose|a: int|
            0 <= a <= t.len() && trim_start_by(t, strip) == t.subrange(a, t.len() as int) && (forall|
                i: int,
            |
                0 <= i < a ==> strip(#[trigger] t[i]));
        assert(t.subrange(a, t.len() as int) == s.subrange(a + 1, s.len() as int));
        assert forall|i: int| 0 <= i < a + 1 implies strip(#[trigger] s[i]) by {
            if i > 0 {
                assert(s[i] == t[i - 1]);
            }
        }
    } else {
        assert(s.subrange(0, s.len() as int) == s);
    }
}

/// Trimming the end drops only characters that `strip` accepts.
pub proof fn lemma_trim_end_drops(s: Seq<char>, strip: spec_fn(char) -> bool)
    ensures
        exists|b: int|
            0 <= b <= s.len() && trim_end_by(s, strip) == s.take(b) && (forall|i: int|
                b <= i < s.len() ==> strip(#[trigger] s[i])),
    decreases s.len(),
{
    if s.len() > 0 && strip(s.last()) {
        let t = s.drop_last();
        lemma_trim_end_drops(t, strip);
        let b = choose|b: int|
            0 <= b <= t.len() && trim_end_by(t, strip) == t.take(b) && (forall|i: int|
                b <= i < t.len() ==> strip(#[trigger] t[i]));
        assert(t.take(b) == s.take(b));
        assert forall|i: int| b <= i < s.len() implies strip(#[trigger] s[i]) by {
            if i < t.len() {
                assert(s[i] == t[i]);
            }
        }
    } else {
        assert(s.take(s.len() as int) == s);
    }
}

/// Trimming white space keeps only words of the text.
pub proof fn lemma_trim_words_within(q: Seq<char>)
    ensures
        words_within(trim_spaces(q), q),
        piece_of(trim_spaces(q), q),
{
    let strip = |c: char| is_space(c);
    lemma_trim_start_drops(q, strip);
    let a = choose|a: int|
        0 <= a <= q.len() && trim_start_by(q, strip) == q.subrange(a, q.len() as int) && (forall|
            i: int,
        |
            0 <= i < a ==> strip(#[trigger] q[i]));
    let t = trim_start_by(q, strip);
    lemma_trim_end_drops(t, strip);
    let b = choose|b: int|
        0 <= b <= t.len() && trim_end_by(t, strip) == t.take(b) && (forall|i: int|
            b <= i < t.len() ==> strip(#[trigger] t[i]));
    let u = trim_spaces(q);
    assert(u == q.subrange(a, a + b));
    if a > 0 {
        assert(strip(q[a - 1]));
    }
    if a + b < q.len() {
        assert(t[b] == q[a + b]);
        assert(strip(t[b]));
    }
    assert(space_bounded(u, q, a, a + b));
    lemma_bounded_words_within(u, q, a, a + b);
}

/// Splitting on a separator that begins and ends with white space yields
/// pieces of the text made only of its words.
pub proof fn lemma_split_words_within(s: Seq<char>, sep: Seq<char>, start: int)
    requires
        sep.len() > 0,
        is_space(sep[0]),
        is_space(sep.last()),
        0 <= start <= s.len(),
        start == 0 || is_space(s[start - 1]),
    ensures
        forall|k: int|
            0 <= k < split_from(s, sep, start).len() ==> words_within(
                #[trigger] split_from(s, sep, start)[k],
                s,
            ),
    decreases s.len() - start,
{
    lemma_first_at(s, sep, start);
    let pieces = split_from(s, sep, start);
    match first_at(s, sep, start) {
        Some(k) => {
            let first = s.subrange(start, k);
            assert(s.subrange(k, k + sep.len())[0] == s[k]);
            assert(space_bounded(first, s, start, k));
            lemma_bounded_words_within(first, s, start, k);
            let next = k + sep.len();
            assert(s[next - 1] == s.subrange(k, k + sep.len())[sep.len() - 1]);
            assert(sep[sep.len() - 1] == sep.last());
            lemma_split_words_within(s, sep, next);
            let rest = split_from(s, sep, next);
            assert(pieces == seq![first] + rest);
            assert forall|j: int| 0 <= j < pieces.len() implies words_within(#[trigger] pieces[j], s) by {
                if j > 0 {
                    assert(pieces[j] == rest[j - 1]);
                }
            }
        },
        None => {
            let last = s.subrange(start, s.len() as int);
            assert(pieces == seq![last]);
            assert(space_bounded(last, s, start, s.len() as int));
            lemma_bounded_words_within(last, s, start, s.len() as int);
        },
    }
}

/// The words of `v`, as vectors of characters.
pub fn split_whitespace(v: &Vec<char>) -> (r: Vec<Vec<char>>)
    ensures
        vec_views(r@) == words(v@),
{
    let mut acc: Vec<Vec<char>> = Vec::new();
    let mut cur: Vec<char> = Vec::new();
    let mut i: usize = 0;
    while i < v.len()
        invariant
            i <= v.len(),
            cur@.len() > 0 ==> i > 0 && !is_space(v@[i - 1]),
            cur@.len() == 0 ==> i == 0 || is_space(v@[i - 1]),
            words(v@.take(i as int)) == if cur@.len() > 0 {
                vec_views(acc@).push(cur@)
            } else {
                vec_views(acc@)
            },
        decreases v.len() - i,
    {
        let c = v[i];
        let ghost p = v@.take(i as int);
        assert(v@.take(i + 1).drop_last() == p);
        assert(v@.take(i + 1).last() == c);
        if is_whitespace(c) {
            if cur.len() > 0 {
                let ghost before = vec_views(acc@);
                acc.push(cur);
                assert(vec_views(acc@) == before.push(cur@));
                cur = Vec::new();
            }
        } else {
            if cur.len() > 0 {
                assert(p.last() == v@[i - 1]);
                let ghost w = words(p);
                cur.push(c);
                assert(w.drop_last() == vec_views(acc@));
            } else {
                if i > 0 {
                    assert(p.last() == v@[i - 1]);
                }
                cur.push(c);
                assert(cur@ == seq![c]);
            }
        }
        i = i + 1;
    }
    if cur.len() > 0 {
        let ghost before = vec_views(acc@);
        acc.push(cur);
        assert(vec_views(acc@) == before.push(cur@));
    }
    assert(v@.take(v.len() as int) == v@);
    acc
}

/// The words of `v` joined by single spaces.
pub fn collapse_whitespace(v: &Vec<char>) -> (r: Vec<char>)
    ensures
        r@ == collapse_spaces(v@),
{
    let mut out: Vec<char> = Vec::new();
    let mut i: usize = 0;
    while i < v.len()
        invariant
            i <= v.len(),
            out@ == join(words(v@.take(i as int)), seq![' ']),
        decreases v.len() - i,
    {
        let c = v[i];
        let ghost p = v@.take(i as int);
        assert(v@.take(i + 1).drop_last() == p);
        assert(v@.take(i + 1).last() == c);
        if !is_whitespace(c) {
            if i > 0 && !is_whitespace(v[i - 1]) {
                assert(p.last() == v@[i - 1]);
                proof {
                    lemma_words_nonempty(p);
                    lemma_join_extend_last(words(p), seq![' '], c);
                }
                out.push(c);
            } else {
                if i > 0 {
                    assert(p.last() == v@[i - 1]);
                }
                proof {
                    lemma_join_push(words(p), seq![' '], seq![c]);
                    lemma_words_shape(p);
                    lemma_join_nonempty(words(p), seq![' ']);
                }
                if out.len() > 0 {
                    out.push(' ');
                }
                out.push(c);
            }
        }
        i = i + 1;
    }
    assert(v@.take(v.len() as int) == v@);
    out
}

/// Joining a non-empty list of non-empty items gives a non-empty text.
pub proof fn lemma_join_nonempty(items: Seq<Seq<char>>, sep: Seq<char>)
    requires
        forall|k: int| 0 <= k < items.len() ==> #[trigger] items[k].len() > 0,
    ensures
        items.len() > 0 ==> join(items, sep).len() > 0,
    decreases items.len(),
{
    if items.len() > 1 {
        assert(items.last() == items[items.len() - 1]);
    }
}

// ───────────────────────────── searching ─────────────────────────────

/// `pat` occurs in `s` starting at index `i`.
pub open spec fn occurs_at(s: Seq<char>, pat: Seq<char>, i: int) -> bool {
    0 <= i && i + pat.len() <= s.len() && s.subrange(i, i + pat.len()) == pat
}

/// `pat` occurs somewhere in `s` (what `str::contains` tests).
pub open spec fn contains_sub(s: Seq<char>, pat: Seq<char>) -> bool {
    exists|i: int| occurs_at(s, pat, i)
}

/// The first index at or after `from` where `pat` occurs in `s`.
pub open spec fn first_at(s: Seq<char>, pat: Seq<char>, from: int) -> Option<int>
    decreases s.len() + 1 - from,
{
    if from < 0 || from + pat.len() > s.len() {
        None
    } else if occurs_at(s, pat, from) {
        Some(from)
    } else {
        first_at(s, pat, from + 1)
    }
}

/// What `first_at` finds is an occurrence at or after `from`, and the first one.
pub proof fn lemma_first_at(s: Seq<char>, pat: Seq<char>, from: int)
    requires
        0 <= from,
    ensures
        first_at(s, pat, from) matches Some(k) ==> from <= k && occurs_at(s, pat, k) && forall|
            j: int,
        |
            from <= j < k ==> !occurs_at(s, pat, j),
        first_at(s, pat, from) is None ==> forall|j: int| from <= j ==> !occurs_at(s, pat, j),
    decreases s.len() + 1 - from,
{
    if from < 0 || from + pat.len() > s.len() {
        if from >= 0 {
            assert forall|j: int| from <= j implies !occurs_at(s, pat, j) by {}
        }
    } else if !occurs_at(s, pat, from) {
        lemma_first_at(s, pat, from + 1);
    }
}

/// A search that starts at 0 finds an occurrence exactly when there is one.
pub proof fn lemma_contains_first(s: Seq<char>, pat: Seq<char>)
    ensures
        contains_sub(s, pat) <==> first_at(s, pat, 0) is Some,
{
    lemma_first_at(s, pat, 0);
}

/// Whether `pat` occurs in `s` at `i`.
pub fn matches_at(s: &Vec<char>, pat: &Vec<char>, i: usize) -> (r: bool)
    ensures
        r == occurs_at(s@, pat@, i as int),
{
    if i > s.len() || pat.len() > s.len() - i {
        return false;
    }
    let mut j: usize = 0;
    while j < pat.len()
        invariant
            i + pat.len() <= s.len(),
            j <= pat.len(),
            forall|k: int| 0 <= k < j ==> s@[i + k] == pat@[k],
        decreases pat.len() - j,
    {
        if s[i + j] != pat[j] {
            assert(s@.subrange(i as int, i + pat.len())[j as int] != pat@[j as int]);
            return false;
        }
        j = j + 1;
    }
    assert(s@.subrange(i as int, i + pat.len()) == pat@);
    true
}

/// The first index at or after `from` where `pat` occurs in `s`.
pub fn find_from(s: &Vec<char>, pat: &Vec<char>, from: usize) -> (r: Option<usize>)
    ensures
        r matches Some(k) ==> first_at(s@, pat@, from as int) == Some(k as int),
        r is None ==> first_at(s@, pat@, from as int) is None,
{
    let mut i: usize = from;
    while i <= s.len() && pat.len() <= s.len() - i
        invariant
            from <= i,
            first_at(s@, pat@, from as int) == first_at(s@, pat@, i as int),
        decreases s.len() + 1 - i,
    {
        if matches_at(s, pat, i) {
            return Some(i);
        }
        assert(i < s.len()) by {
            if i == s.len() {
                assert(s@.subrange(i as int, i as int) =~= pat@);
            }
        }
        i = i + 1;
    }
    None
}

/// Whether `pat` occurs in `s`.
pub fn contains(s: &Vec<char>, pat: &Vec<char>) -> (r: bool)
    ensures
        r == contains_sub(s@, pat@),
{
    proof {
        lemma_contains_first(s@, pat@);
    }
    find_from(s, pat, 0).is_some()
}

/// `pre` is the beginning of `s`.
pub open spec fn has_prefix(s: Seq<char>, pre: Seq<char>) -> bool {
    pre.len() <= s.len() && s.take(pre.len() as int) == pre
}

/// Whether `s` begins with `pre`.
pub fn starts_with(s: &Vec<char>, pre: &Vec<char>) -> (r: bool)
    ensures
        r == has_prefix(s@, pre@),
{
    let r = matches_at(s, pre, 0);
    assert(s@.subrange(0, pre@.len() as int) == s@.take(pre@.len() as int));
    r
}

/// Whether `a` and `b` hold the same characters.
pub fn same_chars(a: &Vec<char>, b: &Vec<char>) -> (r: bool)
    ensures
        r == (a@ == b@),
{
    if a.len() != b.len() {
        return false;
    }
    let r = matches_at(a, b, 0);
    assert(a@.subrange(0, b@.len() as int) == a@);
    r
}

// ───────────────────────────── trimming ─────────────────────────────

/// `s` without the leading characters that satisfy `strip`.
pub open spec fn trim_start_by(s: Seq<char>, strip: spec_fn(char) -> bool) -> Seq<char>
    decreases s.len(),
{
    if s.len() > 0 && strip(s[0]) {
        trim_start_by(s.drop_first(), strip)
    } else {
        s
    }
}

/// `s` without the trailing characters that satisfy `strip`.
pub open spec fn trim_end_by(s: Seq<char>, strip: spec_fn(char) -> bool) -> Seq<char>
    decreases s.len(),
{
    if s.len() > 0 && strip(s.last()) {
        trim_end_by(s.drop_last(), strip)
    } else {
        s
    }
}

/// `s` without the leading and trailing characters that satisfy `strip`
/// (what `str::trim_matches` returns for a predicate).
pub open spec fn trim_by(s: Seq<char>, strip: spec_fn(char) -> bool) -> Seq<char> {
    trim_end_by(trim_start_by(s, strip), strip)
}

/// `s` without leading and trailing white space (what `str::trim` returns).
pub open spec fn trim_spaces(s: Seq<char>) -> Seq<char> {
    trim_by(s, |c: char| is_space(c))
}

/// Trimming leaves a subrange whose ends do not satisfy `strip`.
pub proof fn lemma_trim_start(s: Seq<char>, strip: spec_fn(char) -> bool)
    ensures
        exists|a: int| 0 <= a <= s.len() && trim_start_by(s, strip) == s.subrange(a, s.len() as int),
        trim_start_by(s, strip).len() > 0 ==> !strip(trim_start_by(s, strip)[0]),
    decreases s.len(),
{
    if s.len() > 0 && strip(s[0]) {
        lemma_trim_start(s.drop_first(), strip);
        let a = choose|a: int|
            0 <= a <= s.drop_first().len() && trim_start_by(s.drop_first(), strip)
                == s.drop_first().subrange(a, s.drop_first().len() as int);
        assert(s.drop_first().subrange(a, s.drop_first().len() as int) == s.subrange(
            a + 1,
            s.len() as int,
        ));
    } else {
        assert(s.subrange(0, s.len() as int) == s);
    }
}

/// Trimming the end leaves a prefix whose last character does not satisfy `strip`.
pub proof fn lemma_trim_end(s: Seq<char>, strip: spec_fn(char) -> bool)
    ensures
        exists|b: int| 0 <= b <= s.len() && trim_end_by(s, strip) == s.take(b),
        trim_end_by(s, strip).len() > 0 ==> !strip(trim_end_by(s, strip).last()),
        s.len() > 0 && !strip(s[0]) ==> trim_end_by(s, strip).len() > 0 && trim_end_by(
            s,
            strip,
        )[0] == s[0],
    decreases s.len(),
{
    if s.len() > 0 && strip(s.last()) {
        lemma_trim_end(s.drop_last(), strip);
        let b = choose|b: int|
            0 <= b <= s.drop_last().len() && trim_end_by(s.drop_last(), strip)
                == s.drop_last().take(b);
        assert(s.drop_last().take(b) == s.take(b));
        if s.len() > 0 && !strip(s[0]) {
            assert(s.len() > 1);
            assert(s.drop_last()[0] == s[0]);
        }
    } else {
        assert(s.take(s.len() as int) == s);
    }
}

/// Index of the first character of `v` that is not trimmed, from the left.
fn skip_leading(v: &Vec<char>, spaces_only: bool) -> (r: usize)
    ensures
        r <= v.len(),
        trim_start_by(v@, strip_pred(spaces_only)) == v@.subrange(r as int, v.len() as int),
{
    let mut i: usize = 0;
    assert(v@.subrange(0, v.len() as int) == v@);
    while i < v.len() && strips(v[i], spaces_only)
        invariant
            i <= v.len(),
            trim_start_by(v@, strip_pred(spaces_only)) == trim_start_by(
                v@.subrange(i as int, v.len() as int),
                strip_pred(spaces_only),
            ),
        decreases v.len() - i,
    {
        assert(v@.subrange(i as int, v.len() as int).drop_first() == v@.subrange(
            i + 1,
            v.len() as int,
        ));
        i = i + 1;
    }
    if i < v.len() {
        assert(v@.subrange(i as int, v.len() as int)[0] == v@[i as int]);
    }
    i
}

/// The characters dropped by a trim: white space, or for an address also `,` `.` `!`.
pub open spec fn strip_pred(spaces_only: bool) -> spec_fn(char) -> bool {
    if spaces_only {
        |c: char| is_space(c)
    } else {
        |c: char| is_address_punct(c)
    }
}

/// The characters trimmed around a command after the agent's name.
pub open spec fn is_address_punct(c: char) -> bool {
    c == ',' || c == '.' || c == '!' || is_space(c)
}

fn strips(c: char, spaces_only: bool) -> (r: bool)
    ensures
        r == strip_pred(spaces_only)(c),
{
    if spaces_only {
        is_whitespace(c)
    } else {
        c == ',' || c == '.' || c == '!' || is_whitespace(c)
    }
}

/// `v` without the leading and trailing characters of the chosen kind.
pub fn trim_chars(v: &Vec<char>, spaces_only: bool) -> (r: Vec<char>)
    ensures
        r@ == trim_by(v@, strip_pred(spaces_only)),
{
    let a: usize = skip_leading(v, spaces_only);
    let mut b: usize = v.len();
    let ghost t = v@.subrange(a as int, v.len() as int);
    while b > a && strips(v[b - 1], spaces_only)
        invariant
            a <= b <= v.len(),
            t == v@.subrange(a as int, v.len() as int),
            trim_end_by(t, strip_pred(spaces_only)) == trim_end_by(
                v@.subrange(a as int, b as int),
                strip_pred(spaces_only),
            ),
        decreases b,
    {
        assert(v@.subrange(a as int, b as int).drop_last() == v@.subrange(a as int, b - 1));
        b = b - 1;
    }
    let mut r: Vec<char> = Vec::new();
    let mut i: usize = a;
    while i < b
        invariant
            a <= i <= b <= v.len(),
            r@ == v@.subrange(a as int, i as int),
        decreases b - i,
    {
        r.push(v[i]);
        assert(v@.subrange(a as int, i + 1) == v@.subrange(a as int, i as int).push(v@[i as int]));
        i = i + 1;
    }
    r
}

// ───────────────────────────── splitting and replacing ─────────────────────────────

/// Pieces of `s[start..]` between the occurrences of `sep`, left to right
/// (what `str::split` yields for a non-empty pattern).
pub open spec fn split_from(s: Seq<char>, sep: Seq<char>, start: int) -> Seq<Seq<char>>
    decreases s.len() - start,
{
    if sep.len() == 0 || start < 0 || start > s.len() {
        seq![s.subrange(start, s.len() as int)]
    } else {
        match first_at(s, sep, start) {
            Some(k) => {
                proof {
                    lemma_first_at(s, sep, start);
                }
                seq![s.subrange(start, k)] + split_from(s, sep, k + sep.len())
            },
            None => seq![s.subrange(start, s.len() as int)],
        }
    }
}

/// The pieces of `s` between the occurrences of `sep`.
pub open spec fn split_on(s: Seq<char>, sep: Seq<char>) -> Seq<Seq<char>> {
    split_from(s, sep, 0)
}

/// `s[start..]` with every occurrence of `pat`, left to right, replaced by `with`
/// (what `str::replace` returns for a non-empty pattern).
pub open spec fn replace_from(s: Seq<char>, pat: Seq<char>, with: Seq<char>, start: int) -> Seq<
    char,
>
    decreases s.len() - start,
{
    if pat.len() == 0 || start < 0 || start > s.len() {
        s.subrange(start, s.len() as int)
    } else {
        match first_at(s, pat, start) {
            Some(k) => {
                proof {
                    lemma_first_at(s, pat, start);
                }
                s.subrange(start, k) + with + replace_from(s, pat, with, k + pat.len())
            },
            None => s.subrange(start, s.len() as int),
        }
    }
}

/// `s` with every occurrence of `pat` replaced by `with`.
pub open spec fn replace_all(s: Seq<char>, pat: Seq<char>, with: Seq<char>) -> Seq<char> {
    replace_from(s, pat, with, 0)
}

/// Copies `v[a..b]`.
pub fn slice_chars(v: &Vec<char>, a: usize, b: usize) -> (r: Vec<char>)
    requires
        a <= b <= v.len(),
    ensures
        r@ == v@.subrange(a as int, b as int),
{
    let mut r: Vec<char> = Vec::new();
    let mut i: usize = a;
    while i < b
        invariant
            a <= i <= b <= v.len(),
            r@ == v@.subrange(a as int, i as int),
        decreases b - i,
    {
        r.push(v[i]);
        assert(v@.subrange(a as int, i + 1) == v@.subrange(a as int, i as int).push(v@[i as int]));
        i = i + 1;
    }
    r
}

/// Appends the characters of `w` to `r`.
pub fn extend_chars(r: &mut Vec<char>, w: &Vec<char>)
    ensures
        final(r)@ == old(r)@ + w@,
{
    let mut i: usize = 0;
    while i < w.len()
        invariant
            i <= w.len(),
            r@ == old(r)@ + w@.take(i as int),
        decreases w.len() - i,
    {
        r.push(w[i]);
        assert(w@.take(i + 1) == w@.take(i as int).push(w@[i as int]));
        i = i + 1;
    }
    assert(w@.take(w.len() as int) == w@);
}

/// The pieces of `s` between the occurrences of the non-empty `sep`.
pub fn split_by(s: &Vec<char>, sep: &Vec<char>) -> (r: Vec<Vec<char>>)
    requires
        sep@.len() > 0,
    ensures
        vec_views(r@) == split_on(s@, sep@),
{
    let mut acc: Vec<Vec<char>> = Vec::new();
    let mut start: usize = 0;
    loop
        invariant
            start <= s.len(),
            sep@.len() > 0,
            split_on(s@, sep@) == vec_views(acc@) + split_from(
                s@,
                sep@,
                start as int,
            ),
        decreases s.len() - start,
    {
        proof {
            lemma_first_at(s@, sep@, start as int);
        }
        match find_from(s, sep, start) {
            Some(k) => {
                let piece = slice_chars(s, start, k);
                let ghost before = vec_views(acc@);
                acc.push(piece);
                assert(vec_views(acc@) == before.push(piece@));
                assert(split_from(s@, sep@, start as int) == seq![piece@] + split_from(
                    s@,
                    sep@,
                    k + sep@.len(),
                ));
                assert(before + (seq![piece@] + split_from(s@, sep@, k + sep@.len())) == before.push(
                    piece@,
                ) + split_from(s@, sep@, k + sep@.len()));
                start = k + sep.len();
            },
            None => {
                let piece = slice_chars(s, start, s.len());
                let ghost before = vec_views(acc@);
                acc.push(piece);
                assert(vec_views(acc@) == before.push(piece@));
                return acc;
            },
        }
    }
}

/// `s` with every occurrence of the non-empty `pat` replaced by `with`.
pub fn replace_chars(s: &Vec<char>, pat: &Vec<char>, with: &Vec<char>) -> (r: Vec<char>)
    requires
        pat@.len() > 0,
    ensures
        r@ == replace_all(s@, pat@, with@),
{
    let mut out: Vec<char> = Vec::new();
    let mut start: usize = 0;
    loop
        invariant
            start <= s.len(),
            pat@.len() > 0,
            replace_all(s@, pat@, with@) == out@ + replace_from(s@, pat@, with@, start as int),
        decreases s.len() - start,
    {
        proof {
            lemma_first_at(s@, pat@, start as int);
        }
        match find_from(s, pat, start) {
            Some(k) => {
                let piece = slice_chars(s, start, k);
                let ghost o = out@;
                extend_chars(&mut out, &piece);
                extend_chars(&mut out, with);
                assert(o + (piece@ + with@ + replace_from(s@, pat@, with@, k + pat@.len())) == o
                    + piece@ + with@ + replace_from(s@, pat@, with@, k + pat@.len()));
                start = k + pat.len();
            },
            None => {
                let piece = slice_chars(s, start, s.len());
                extend_chars(&mut out, &piece);
                return out;
            },
        }
    }
}

// ───────────────────────────── Unicode case and letters ─────────────────────────────

/// What `str::to_lowercase` returns for `s`: the Unicode lowercase mapping
/// (tables of the standard library, final-sigma rule included).
pub uninterp spec fn lowercase(s: Seq<char>) -> Seq<char>;

/// Lowercases `s` with `str::to_lowercase`.
#[verifier::external_body]
pub(crate) fn to_lowercase(s: &str) -> (r: String)
    ensures
        r@ == lowercase(s@),
{
    s.to_lowercase()
}

/// Whether `char::is_alphabetic` holds of `c` (the Unicode `Alphabetic` property).
pub uninterp spec fn alphabetic(c: char) -> bool;

/// Tests `c` with `char::is_alphabetic`.
#[verifier::external_body]
pub(crate) fn is_alphabetic(c: char) -> (r: bool)
    ensures
        r == alphabetic(c),
{
    c.is_alphabetic()
}

/// Joining non-empty items that do not hold the separator character `c` by `c`
/// gives a text that neither begins nor ends with `c`, never holds `c` twice in
/// a row, and whose other characters satisfy what every item character satisfies.
pub proof fn lemma_join_shape(items: Seq<Seq<char>>, c: char, keep: spec_fn(char) -> bool)
    requires
        forall|k: int| 0 <= k < items.len() ==> #[trigger] items[k].len() > 0,
        forall|k: int, j: int|
            0 <= k < items.len() && 0 <= j < items[k].len() ==> #[trigger] items[k][j] != c
                && keep(items[k][j]),
    ensures
        ({
            let t = join(items, seq![c]);
            &&& forall|i: int| 0 <= i < t.len() ==> #[trigger] t[i] == c || keep(t[i])
            &&& t.len() > 0 ==> t[0] != c && t[t.len() - 1] != c
            &&& forall|i: int| 0 <= i < t.len() - 1 ==> !(#[trigger] t[i] == c && t[i + 1] == c)
            &&& items.len() > 0 ==> t.len() > 0
        }),
    decreases items.len(),
{
    if items.len() == 1 {
        let w = items[0];
        assert forall|i: int| 0 <= i < w.len() implies #[trigger] w[i] != c && keep(w[i]) by {
            assert(items[0][i] == w[i]);
        }
    } else if items.len() > 1 {
        let prev = items.drop_last();
        let w = items.last();
        assert forall|k: int| 0 <= k < prev.len() implies #[trigger] prev[k].len() > 0 by {
            assert(prev[k] == items[k]);
        }
        assert forall|k: int, j: int|
            0 <= k < prev.len() && 0 <= j < prev[k].len() implies #[trigger] prev[k][j] != c
                && keep(prev[k][j]) by {
            assert(prev[k] == items[k]);
        }
        lemma_join_shape(prev, c, keep);
        let p = join(prev, seq![c]);
        let t = join(items, seq![c]);
        assert(w.len() > 0) by {
            assert(items[items.len() - 1].len() > 0);
        }
        assert forall|j: int| 0 <= j < w.len() implies #[trigger] w[j] != c && keep(w[j]) by {
            assert(items[items.len() - 1][j] == w[j]);
        }
        assert(t == p + seq![c] + w);
        assert forall|i: int| 0 <= i < t.len() implies #[trigger] t[i] == c || keep(t[i]) by {
            if i < p.len() {
                assert(t[i] == p[i]);
            } else if i > p.len() {
                assert(t[i] == w[i - p.len() - 1]);
            }
        }
        assert(t[0] == p[0]);
        assert(t[t.len() - 1] == w[w.len() - 1]);
        assert forall|i: int| 0 <= i < t.len() - 1 implies !(#[trigger] t[i] == c && t[i + 1] == c) by {
            if i + 1 < p.len() {
                assert(t[i] == p[i] && t[i + 1] == p[i + 1]);
            } else if i + 1 == p.len() {
                assert(t[i] == p[p.len() - 1]);
            } else if i == p.len() {
                assert(t[i + 1] == w[0]);
            } else {
                assert(t[i] == w[i - p.len() - 1]);
            }
        }
    }
}

/// `q` is a contiguous piece of `s`.
pub open spec fn piece_of(q: Seq<char>, s: Seq<char>) -> bool {
    exists|a: int, b: int| #![trigger s.subrange(a, b)] 0 <= a <= b <= s.len() && q == s.subrange(a, b)
}

/// A piece of a text that does not hold `pat` does not hold it either.
pub proof fn lemma_piece_free(q: Seq<char>, s: Seq<char>, pat: Seq<char>)
    requires
        piece_of(q, s),
        !contains_sub(s, pat),
    ensures
        !contains_sub(q, pat),
{
    let (a, b) = choose|a: int, b: int| #![trigger s.subrange(a, b)] 0 <= a <= b <= s.len() && q == s.subrange(a, b);
    if contains_sub(q, pat) {
        let i = choose|i: int| occurs_at(q, pat, i);
        assert(q.subrange(i, i + pat.len()) == s.subrange(a + i, a + i + pat.len()));
        assert(occurs_at(s, pat, a + i));
    }
}

/// A piece of a piece is a piece.
pub proof fn lemma_piece_trans(q: Seq<char>, r: Seq<char>, s: Seq<char>)
    requires
        piece_of(q, r),
        piece_of(r, s),
    ensures
        piece_of(q, s),
{
    let (a, b) = choose|a: int, b: int| #![trigger r.subrange(a, b)] 0 <= a <= b <= r.len() && q == r.subrange(a, b);
    let (c, d) = choose|c: int, d: int| #![trigger s.subrange(c, d)] 0 <= c <= d <= s.len() && r == s.subrange(c, d);
    assert(q == s.subrange(c + a, c + b));
}

/// Trimming keeps a piece of the text whose ends are not trimmed characters.
pub proof fn lemma_trim_piece(s: Seq<char>, strip: spec_fn(char) -> bool)
    ensures
        piece_of(trim_by(s, strip), s),
        trim_by(s, strip).len() > 0 ==> !strip(trim_by(s, strip)[0]) && !strip(
            trim_by(s, strip)[trim_by(s, strip).len() - 1],
        ),
{
    lemma_trim_start(s, strip);
    let t = trim_start_by(s, strip);
    let a = choose|a: int| 0 <= a <= s.len() && t == s.subrange(a, s.len() as int);
    lemma_trim_end(t, strip);
    let b = choose|b: int| 0 <= b <= t.len() && trim_end_by(t, strip) == t.take(b);
    assert(trim_end_by(t, strip) == s.subrange(a, a + b));
    let r = trim_by(s, strip);
    if r.len() > 0 {
        assert(t.len() > 0);
        assert(r.last() == r[r.len() - 1]);
    }
}

/// The pieces that splitting on `sep` yields are pieces of the text and do not hold `sep`.
pub proof fn lemma_split_pieces(s: Seq<char>, sep: Seq<char>, start: int)
    requires
        sep.len() > 0,
        0 <= start <= s.len(),
    ensures
        forall|k: int|
            0 <= k < split_from(s, sep, start).len() ==> piece_of(
                #[trigger] split_from(s, sep, start)[k],
                s,
            ) && !contains_sub(split_from(s, sep, start)[k], sep),
    decreases s.len() - start,
{
    lemma_first_at(s, sep, start);
    let pieces = split_from(s, sep, start);
    match first_at(s, sep, start) {
        Some(k) => {
            let first = s.subrange(start, k);
            assert(piece_of(first, s));
            if contains_sub(first, sep) {
                let i = choose|i: int| occurs_at(first, sep, i);
                assert(first.subrange(i, i + sep.len()) == s.subrange(start + i, start + i + sep.len()));
                assert(occurs_at(s, sep, start + i));
            }
            lemma_split_pieces(s, sep, k + sep.len());
            let rest = split_from(s, sep, k + sep.len());
            assert(pieces == seq![first] + rest);
            assert forall|j: int| 0 <= j < pieces.len() implies piece_of(#[trigger] pieces[j], s)
                && !contains_sub(pieces[j], sep) by {
                if j > 0 {
                    assert(pieces[j] == rest[j - 1]);
                }
            }
        },
        None => {
            let last = s.subrange(start, s.len() as int);
            assert(pieces == seq![last]);
            assert(piece_of(last, s));
            if contains_sub(last, sep) {
                let i = choose|i: int| occurs_at(last, sep, i);
                assert(last.subrange(i, i + sep.len()) == s.subrange(start + i, start + i + sep.len()));
                assert(occurs_at(s, sep, start + i));
            }
        },
    }
}

/// Replacing every `c` by a text without `c` leaves no `c`.
pub proof fn lemma_replace_removes(s: Seq<char>, c: char, with: Seq<char>, start: int)
    requires
        !with.contains(c),
        0 <= start <= s.len(),
    ensures
        !replace_from(s, seq![c], with, start).contains(c),
    decreases s.len() - start,
{
    let pat = seq![c];
    lemma_first_at(s, pat, start);
    match first_at(s, pat, start) {
        Some(k) => {
            let head = s.subrange(start, k);
            assert forall|j: int| 0 <= j < head.len() implies head[j] != c by {
                if head[j] == c {
                    assert(s.subrange(start + j, start + j + 1) == pat);
                    assert(occurs_at(s, pat, start + j));
                }
            }
            lemma_replace_removes(s, c, with, k + 1);
            let rest = replace_from(s, pat, with, k + 1);
            let r = replace_from(s, pat, with, start);
            assert(r == head + with + rest);
            if r.contains(c) {
                let i = choose|i: int| 0 <= i < r.len() && r[i] == c;
                if i < head.len() {
                    assert(r[i] == head[i]);
                } else if i < head.len() + with.len() {
                    assert(r[i] == with[i - head.len()]);
                } else {
                    assert(r[i] == rest[i - head.len() - with.len()]);
                }
            }
        },
        None => {
            let r = replace_from(s, pat, with, start);
            if r.contains(c) {
                let i = choose|i: int| 0 <= i < r.len() && r[i] == c;
                assert(r[i] == s[start + i]);
                assert(s.subrange(start + i, start + i + 1) == pat);
                assert(occurs_at(s, pat, start + i));
            }
        },
    }
}

/// `s` with every single quote doubled, for a single-quoted PowerShell string.
pub open spec fn powershell_quoted(s: Seq<char>) -> Seq<char> {
    replace_all(s, seq!['\''], seq!['\'', '\''])
}

/// `s` with every single quote doubled.
pub fn escape_single_quotes(s: &str) -> (r: String)
    ensures
        r@ == powershell_quoted(s@),
{
    let v = chars_of(s);
    let mut pat: Vec<char> = Vec::new();
    pat.push('\'');
    let mut with: Vec<char> = Vec::new();
    with.push('\'');
    with.push('\'');
    assert(pat@ == seq!['\'']);
    assert(with@ == seq!['\'', '\'']);
    string_from_chars(&replace_chars(&v, &pat, &with))
}

} // verus!
