//! Character classes, splitting and line handling for configuration text.
use vstd::prelude::*;

verus! {

/// The separators that configuration text is split on.
#[derive(Clone, Copy, PartialEq, Eq, Debug)]
pub enum Sep {
    /// Any Unicode white-space character.
    Whitespace,
    /// The character `:`.
    Colon,
    /// The character `\n`.
    Newline,
}

/// The characters with the Unicode `White_Space` property.
pub open spec fn is_unicode_whitespace(c: char) -> bool {
    ||| ('\u{9}' <= c && c <= '\u{d}')
    ||| c == ' '
    ||| c == '\u{85}'
    ||| c == '\u{a0}'
    ||| c == '\u{1680}'
    ||| ('\u{2000}' <= c && c <= '\u{200a}')
    ||| c == '\u{2028}'
    ||| c == '\u{2029}'
    ||| c == '\u{202f}'
    ||| c == '\u{205f}'
    ||| c == '\u{3000}'
}

pub open spec fn is_sep(sep: Sep, c: char) -> bool {
    match sep {
        Sep::Whitespace => is_unicode_whitespace(c),
        Sep::Colon => c == ':',
        Sep::Newline => c == '\n',
    }
}

/// Index of the first separator in `s`, or `s.len()` when there is none.
pub open spec fn first_sep(s: Seq<char>, sep: Sep) -> nat
    decreases s.len(),
{
    if s.len() == 0 {
        0
    } else if is_sep(sep, s[0]) {
        0
    } else {
        1 + first_sep(s.drop_first(), sep)
    }
}

pub open spec fn limit_exhausted(limit: Option<nat>) -> bool {
    match limit {
        Some(k) => k <= 1,
        None => false,
    }
}

pub open spec fn next_limit(limit: Option<nat>) -> Option<nat> {
    match limit {
        Some(k) => Some((k - 1) as nat),
        None => None,
    }
}

/// The pieces of `s` between separators.  With `Some(n)`, at most `n` pieces
/// are made and the last one holds the rest of `s`, separators included.
pub open spec fn split_pieces(s: Seq<char>, sep: Sep, limit: Option<nat>) -> Seq<Seq<char>>
    decreases s.len(),
{
    let i = first_sep(s, sep);
    if i >= s.len() || limit_exhausted(limit) {
        seq![s]
    } else {
        seq![s.take(i as int)] + split_pieces(s.skip(i + 1 as int), sep, next_limit(limit))
    }
}

pub open spec fn views(v: Seq<String>) -> Seq<Seq<char>> {
    v.map_values(|p: String| p@)
}

pub open spec fn limit_nat(limit: Option<usize>) -> Option<nat> {
    match limit {
        Some(k) => Some(k as nat),
        None => None,
    }
}

proof fn lemma_first_sep_is(s: Seq<char>, sep: Sep, j: int)
    requires
        0 <= j <= s.len(),
        forall|k: int| 0 <= k < j ==> !is_sep(sep, #[trigger] s[k]),
        j == s.len() || is_sep(sep, s[j]),
    ensures
        first_sep(s, sep) == j,
    decreases j,
{
    if j > 0 {
        let t = s.drop_first();
        assert forall|k: int| 0 <= k < j - 1 implies !is_sep(sep, #[trigger] t[k]) by {
            assert(t[k] == s[k + 1]);
        }
        if j < s.len() {
            assert(t[j - 1] == s[j]);
        }
        lemma_first_sep_is(t, sep, j - 1);
    }
}

/// Whether `c` is a separator of kind `sep`.
pub fn matches_sep(sep: Sep, c: char) -> (b: bool)
    ensures
        b == is_sep(sep, c),
{
    match sep {
        Sep::Whitespace => {
            ('\u{9}' <= c && c <= '\u{d}') || c == ' ' || c == '\u{85}' || c == '\u{a0}'
                || c == '\u{1680}' || ('\u{2000}' <= c && c <= '\u{200a}') || c == '\u{2028}'
                || c == '\u{2029}' || c == '\u{202f}' || c == '\u{205f}' || c == '\u{3000}'
        },
        Sep::Colon => c == ':',
        Sep::Newline => c == '\n',
    }
}

/// The characters of `s`, in order.
pub fn chars_of(s: &str) -> (v: Vec<char>)
    ensures
        v@ == s@,
{
    let mut v: Vec<char> = Vec::new();
    for c in it: s.chars()
        invariant
            it.seq() == s@,
            v@ == it.seq().take(it.index() as int),
    {
        v.push(c);
    }
    v
}

/// The characters of `s` from index `a` up to index `b`, as a new string.
pub fn piece(s: &str, a: usize, b: usize) -> (r: String)
    requires
        a <= b <= s@.len(),
    ensures
        r@ == s@.subrange(a as int, b as int),
{
    String::from_str(s.substring_char(a, b))
}

/// Splits `s` at separators of kind `sep`, as `str::split` does, or as
/// `str::splitn(n, ..)` does when `limit` is `Some(n)`.
pub fn split_text(s: &str, sep: Sep, limit: Option<usize>) -> (pieces: Vec<String>)
    requires
        limit matches Some(n) ==> n >= 1,
    ensures
        views(pieces@) == split_pieces(s@, sep, limit_nat(limit)),
{
    let chars = chars_of(s);
    let n = chars.len();
    let mut pieces: Vec<String> = Vec::new();
    let mut start: usize = 0;
    let mut left: Option<usize> = limit;
    let ghost full = s@;
    proof {
        assert(full.skip(0) =~= full);
        assert(views(pieces@) + split_pieces(full, sep, limit_nat(limit)) =~= split_pieces(full, sep, limit_nat(limit)));
    }
    for i in 0..n
        invariant
            n == full.len(),
            chars@ == full,
            full == s@,
            start <= i <= n,
            left matches Some(k) ==> k >= 1,
            split_pieces(full, sep, limit_nat(limit)) == views(pieces@) + split_pieces(
                full.skip(start as int),
                sep,
                limit_nat(left),
            ),
            limit_exhausted(limit_nat(left)) || forall|j: int|
                start <= j < i ==> !is_sep(sep, #[trigger] full[j]),
    {
        let can_split = match left {
            Some(k) => k > 1,
            None => true,
        };
        if can_split && matches_sep(sep, chars[i]) {
            let ghost rest = full.skip(start as int);
            proof {
                assert forall|k: int| 0 <= k < i - start implies !is_sep(sep, #[trigger] rest[k]) by {
                    assert(rest[k] == full[start + k]);
                }
                assert(rest[i - start] == full[i as int]);
                lemma_first_sep_is(rest, sep, i - start);
                assert(rest.take(i - start) =~= full.subrange(start as int, i as int));
                assert(rest.skip(i - start + 1) =~= full.skip(i + 1));
            }
            let p = piece(s, start, i);
            let ghost before = pieces@;
            pieces.push(p);
            proof {
                assert(views(pieces@) =~= views(before) + seq![p@]);
            }
            start = i + 1;
            left = match left {
                Some(k) => Some(k - 1),
                None => None,
            };
        }
    }
    let ghost rest = full.skip(start as int);
    proof {
        if !limit_exhausted(limit_nat(left)) {
            assert forall|k: int| 0 <= k < rest.len() implies !is_sep(sep, #[trigger] rest[k]) by {
                assert(rest[k] == full[start + k]);
            }
            lemma_first_sep_is(rest, sep, rest.len() as int);
        }
        assert(rest =~= full.subrange(start as int, n as int));
    }
    let p = piece(s, start, n);
    let ghost before = pieces@;
    pieces.push(p);
    proof {
        assert(views(pieces@) =~= views(before) + seq![p@]);
    }
    pieces
}


/// A line without the `\r` that ends it, if one does.
pub open spec fn strip_cr(l: Seq<char>) -> Seq<char> {
    if l.len() > 0 && l.last() == '\r' {
        l.drop_last()
    } else {
        l
    }
}

/// The lines of a text as `BufRead::lines` yields them: pieces between `\n`
/// characters; a line ended by `\n` loses a `\r` before it; the piece after
/// the last `\n` counts only when it is not empty.
pub open spec fn text_lines(s: Seq<char>) -> Seq<Seq<char>> {
    let p = split_pieces(s, Sep::Newline, None);
    let k = p.len() - 1;
    p.take(k).map_values(|l: Seq<char>| strip_cr(l)) + if p[k].len() > 0 {
        seq![p[k]]
    } else {
        seq![]
    }
}

pub proof fn lemma_split_nonempty(s: Seq<char>, sep: Sep, limit: Option<nat>)
    ensures
        split_pieces(s, sep, limit).len() >= 1,
{
    assert(split_pieces(s, sep, limit)[0] == split_pieces(s, sep, limit)[0]);
}

/// `s` without a final `\r`.
fn strip_cr_exec(s: &str) -> (r: String)
    ensures
        r@ == strip_cr(s@),
{
    let n = s.unicode_len();
    if n > 0 && s.get_char(n - 1) == '\r' {
        assert(s@.subrange(0, n - 1) =~= s@.drop_last());
        piece(s, 0, n - 1)
    } else {
        String::from_str(s)
    }
}

/// The lines of `text`, as reading it with `BufRead::lines` gives them.
pub fn config_lines(text: &str) -> (lines: Vec<String>)
    ensures
        views(lines@) == text_lines(text@),
{
    let pieces = split_text(text, Sep::Newline, None);
    let ghost p = views(pieces@);
    proof {
        lemma_split_nonempty(text@, Sep::Newline, None);
    }
    let last = pieces.len() - 1;
    let mut lines: Vec<String> = Vec::new();
    let mut i: usize = 0;
    while i < last
        invariant
            last == pieces@.len() - 1,
            i <= last,
            p == views(pieces@),
            views(lines@) == p.take(i as int).map_values(|l: Seq<char>| strip_cr(l)),
        decreases last - i,
    {
        let ghost before = lines@;
        assert(p[i as int] == pieces@[i as int]@);
        let l = strip_cr_exec(pieces[i].as_str());
        lines.push(l);
        assert(views(lines@) =~= views(before).push(l@));
        assert(p.take(i + 1).map_values(|l: Seq<char>| strip_cr(l)) =~= p.take(i as int).map_values(
            |l: Seq<char>| strip_cr(l),
        ).push(strip_cr(p[i as int])));
        i += 1;
    }
    let ghost before = lines@;
    assert(p[last as int] == pieces@[last as int]@);
    if pieces[last].unicode_len() > 0 {
        lines.push(pieces[last].clone());
        assert(views(lines@) =~= views(before) + seq![p[last as int]]);
    } else {
        assert(views(lines@) =~= views(before) + seq![]);
    }
    lines
}


/// Pieces joined back together with `c` between neighbours.
pub open spec fn join_with(p: Seq<Seq<char>>, c: char) -> Seq<char>
    decreases p.len(),
{
    if p.len() == 0 {
        seq![]
    } else if p.len() == 1 {
        p[0]
    } else {
        p[0] + seq![c] + join_with(p.drop_first(), c)
    }
}

pub open spec fn sep_char(sep: Sep) -> char {
    match sep {
        Sep::Colon => ':',
        _ => '\n',
    }
}

/// `first_sep` is the index of the first separator, or the length.
pub proof fn lemma_first_sep_facts(s: Seq<char>, sep: Sep)
    ensures
        first_sep(s, sep) <= s.len(),
        first_sep(s, sep) < s.len() ==> is_sep(sep, s[first_sep(s, sep) as int]),
        forall|k: int| 0 <= k < first_sep(s, sep) ==> !is_sep(sep, #[trigger] s[k]),
    decreases s.len(),
{
    if s.len() > 0 && !is_sep(sep, s[0]) {
        let t = s.drop_first();
        lemma_first_sep_facts(t, sep);
        assert forall|k: int| 0 <= k < first_sep(s, sep) implies !is_sep(sep, #[trigger] s[k]) by {
            if k > 0 {
                assert(s[k] == t[k - 1]);
            }
        }
    }
}

/// Splitting at `:` or at `\n` loses nothing: joining the pieces with the
/// separator gives the text back.
pub proof fn law_split_rejoins(s: Seq<char>, sep: Sep)
    requires
        sep == Sep::Colon || sep == Sep::Newline,
    ensures
        join_with(split_pieces(s, sep, None), sep_char(sep)) == s,
    decreases s.len(),
{
    let i = first_sep(s, sep);
    lemma_first_sep_facts(s, sep);
    if i < s.len() {
        let rest = s.skip(i + 1 as int);
        law_split_rejoins(rest, sep);
        let p = split_pieces(s, sep, None);
        let q = split_pieces(rest, sep, None);
        lemma_split_nonempty(rest, sep, None);
        assert(p.drop_first() =~= q);
        assert(s =~= s.take(i as int) + seq![sep_char(sep)] + rest);
    }
}

/// Unlimited splitting leaves no separator inside a piece.
pub proof fn law_split_pieces_clean(s: Seq<char>, sep: Sep)
    ensures
        forall|j: int, k: int|
            0 <= j < split_pieces(s, sep, None).len() && 0 <= k < split_pieces(
                s,
                sep,
                None,
            )[j].len() ==> !is_sep(sep, #[trigger] split_pieces(s, sep, None)[j][k]),
    decreases s.len(),
{
    let i = first_sep(s, sep);
    lemma_first_sep_facts(s, sep);
    let p = split_pieces(s, sep, None);
    if i < s.len() {
        let rest = s.skip(i + 1 as int);
        law_split_pieces_clean(rest, sep);
        assert forall|j: int, k: int| 0 <= j < p.len() && 0 <= k < p[j].len() implies !is_sep(
            sep,
            #[trigger] p[j][k],
        ) by {
            if j == 0 {
                assert(p[0][k] == s[k]);
            } else {
                assert(p[j] == split_pieces(rest, sep, None)[j - 1]);
            }
        }
    } else {
        assert forall|j: int, k: int| 0 <= j < p.len() && 0 <= k < p[j].len() implies !is_sep(
            sep,
            #[trigger] p[j][k],
        ) by {
            assert(p[j] == s);
        }
    }
}

/// `splitn(n, ..)` makes at most `n` pieces.
pub proof fn law_split_limit(s: Seq<char>, sep: Sep, n: nat)
    requires
        n >= 1,
    ensures
        split_pieces(s, sep, Some(n)).len() <= n,
    decreases s.len(),
{
    let i = first_sep(s, sep);
    lemma_first_sep_facts(s, sep);
    if !(i >= s.len() || limit_exhausted(Some(n))) {
        law_split_limit(s.skip(i + 1 as int), sep, (n - 1) as nat);
    }
}

/// The last piece of a split is the end of the text, and when there is more
/// than one piece a separator stands just before it.
pub proof fn law_split_last_is_suffix(s: Seq<char>, sep: Sep, limit: Option<nat>)
    ensures
        ({
            let p = split_pieces(s, sep, limit);
            let l = p.last();
            &&& p.len() >= 1
            &&& l.len() <= s.len()
            &&& s.skip(s.len() - l.len()) == l
            &&& p.len() > 1 ==> l.len() < s.len() && is_sep(sep, s[s.len() - l.len() - 1])
            &&& p.len() == 1 ==> l == s
        }),
    decreases s.len(),
{
    lemma_split_nonempty(s, sep, limit);
    lemma_first_sep_facts(s, sep);
    let i = first_sep(s, sep);
    let p = split_pieces(s, sep, limit);
    if i >= s.len() || limit_exhausted(limit) {
        assert(s.skip(0) =~= s);
    } else {
        let rest = s.skip(i + 1 as int);
        let q = split_pieces(rest, sep, next_limit(limit));
        law_split_last_is_suffix(rest, sep, next_limit(limit));
        assert(p.last() == q.last());
        let l = q.last();
        assert(s.skip(s.len() - l.len()) =~= rest.skip(rest.len() - l.len()));
        if q.len() > 1 {
            assert(s[s.len() - l.len() - 1] == rest[rest.len() - l.len() - 1]);
        } else {
            assert(l == rest);
            assert(s.len() - l.len() - 1 == i);
        }
    }
}

} // verus!
