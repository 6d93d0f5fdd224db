//! Character-sequence helpers: splitting, decimal parsing and printing.
//!
//! Inputs arrive as `&str`; the parsers of this crate work on their character
//! sequence (`Vec<char>`, viewed as `Seq<char>`).
use vstd::prelude::*;

verus! {

broadcast use vstd::string::group_string_axioms;

// ---------------------------------------------------------------------------
// Conversions between strings and character vectors
// ---------------------------------------------------------------------------

/// Characters of a string, in order.
pub fn chars_of(s: &str) -> (v: Vec<char>)
    ensures
        v@ == s@,
{
    let mut v: Vec<char> = Vec::new();
    for c in it: s.chars()
        invariant
            v@ == it.seq().take(it.index() as int),
    {
        v.push(c);
    }
    v
}

/// Builds a `String` from its characters (`FromIterator<&char>` of std).
#[verifier::external_body]
pub(crate) fn string_of(cs: &Vec<char>) -> (s: String)
    ensures
        s@ == cs@,
{
    String::from_iter(cs.iter())
}

// ---------------------------------------------------------------------------
// Whitespace and splitting
// ---------------------------------------------------------------------------

/// Unicode `White_Space`, the property that `char::is_whitespace` tests.
pub open spec fn is_ws(c: char) -> bool {
    ||| c == ' '
    ||| ('\t' <= c && c <= '\r')
    ||| c == '\u{85}'
    ||| c == '\u{A0}'
    ||| c == '\u{1680}'
    ||| ('\u{2000}' <= c && c <= '\u{200A}')
    ||| c == '\u{2028}'
    ||| c == '\u{2029}'
    ||| c == '\u{202F}'
    ||| c == '\u{205F}'
    ||| c == '\u{3000}'
}

pub fn is_whitespace(c: char) -> (b: bool)
    ensures
        b == is_ws(c),
{
    c == ' ' || ('\t' <= c && c <= '\r') || c == '\u{85}' || c == '\u{A0}' || c == '\u{1680}'
        || ('\u{2000}' <= c && c <= '\u{200A}') || c == '\u{2028}' || c == '\u{2029}'
        || c == '\u{202F}' || c == '\u{205F}' || c == '\u{3000}'
}

/// State of a left-to-right scan that cuts `s` at every `sep`:
/// the pieces already closed, and the piece being read.
pub open spec fn split_scan(s: Seq<char>, sep: char) -> (Seq<Seq<char>>, Seq<char>)
    decreases s.len(),
{
    if s.len() == 0 {
        (Seq::empty(), Seq::empty())
    } else {
        let (done, cur) = split_scan(s.drop_last(), sep);
        if s.last() == sep {
            (done.push(cur), Seq::empty())
        } else {
            (done, cur.push(s.last()))
        }
    }
}

/// The pieces of `s` between occurrences of `sep` (`str::split` with a char
/// pattern): there is always one more piece than separators.
pub open spec fn split_on(s: Seq<char>, sep: char) -> Seq<Seq<char>> {
    split_scan(s, sep).0.push(split_scan(s, sep).1)
}

/// State of a scan that collects the maximal runs of non-whitespace.
pub open spec fn words_scan(s: Seq<char>) -> (Seq<Seq<char>>, Seq<char>)
    decreases s.len(),
{
    if s.len() == 0 {
        (Seq::empty(), Seq::empty())
    } else {
        let (done, cur) = words_scan(s.drop_last());
        if is_ws(s.last()) {
            if cur.len() == 0 {
                (done, cur)
            } else {
                (done.push(cur), Seq::empty())
            }
        } else {
            (done, cur.push(s.last()))
        }
    }
}

/// The whitespace-separated words of `s` (`str::split_whitespace`).
pub open spec fn words(s: Seq<char>) -> Seq<Seq<char>> {
    let (done, cur) = words_scan(s);
    if cur.len() == 0 {
        done
    } else {
        done.push(cur)
    }
}

/// Views of a vector of character vectors.
pub open spec fn views(v: Seq<Vec<char>>) -> Seq<Seq<char>> {
    Seq::new(v.len(), |i: int| v[i]@)
}

/// A sequence that contains `sep` has at least two pieces.
pub proof fn lemma_split_count(s: Seq<char>, sep: char)
    requires
        s.contains(sep),
    ensures
        split_on(s, sep).len() >= 2,
    decreases s.len(),
{
    lemma_split_scan_len(s, sep);
    let k = choose|k: int| 0 <= k < s.len() && s[k] == sep;
    lemma_split_scan_prefix_count(s, sep, k + 1);
}

proof fn lemma_split_scan_len(s: Seq<char>, sep: char)
    ensures
        split_scan(s, sep).0.len() <= s.len(),
    decreases s.len(),
{
    if s.len() > 0 {
        lemma_split_scan_len(s.drop_last(), sep);
    }
}

/// Closed pieces never disappear as the scan goes on, and a separator at
/// position `n - 1` closes at least one piece.
proof fn lemma_split_scan_prefix_count(s: Seq<char>, sep: char, n: int)
    requires
        0 < n <= s.len(),
        s[n - 1] == sep,
    ensures
        split_scan(s, sep).0.len() >= 1,
    decreases s.len(),
{
    if s.len() == n {
        assert(s.last() == sep);
    } else {
        assert(s.drop_last()[n - 1] == sep);
        lemma_split_scan_prefix_count(s.drop_last(), sep, n);
    }
}

pub fn contains_char(s: &Vec<char>, c: char) -> (b: bool)
    ensures
        b == s@.contains(c),
{
    let mut i: usize = 0;
    while i < s.len()
        invariant
            i <= s.len(),
            forall|j: int| 0 <= j < i ==> s@[j] != c,
        decreases s.len() - i,
    {
        if s[i] == c {
            assert(s@[i as int] == c);
            return true;
        }
        i = i + 1;
    }
    false
}

pub fn chars_eq(a: &Vec<char>, b: &Vec<char>) -> (r: bool)
    ensures
        r == (a@ == b@),
{
    if a.len() != b.len() {
        return false;
    }
    let mut i: usize = 0;
    while i < a.len()
        invariant
            i <= a.len(),
            a.len() == b.len(),
            forall|j: int| 0 <= j < i ==> a@[j] == b@[j],
        decreases a.len() - i,
    {
        if a[i] != b[i] {
            return false;
        }
        i = i + 1;
    }
    assert(a@ =~= b@);
    true
}

/// Whether `p` is a prefix of `s`.
pub open spec fn has_prefix(s: Seq<char>, p: Seq<char>) -> bool {
    p.len() <= s.len() && s.take(p.len() as int) == p
}

pub fn starts_with_chars(s: &Vec<char>, p: &Vec<char>) -> (r: bool)
    ensures
        r == has_prefix(s@, p@),
{
    if p.len() > s.len() {
        return false;
    }
    let mut i: usize = 0;
    while i < p.len()
        invariant
            i <= p.len() <= s.len(),
            forall|j: int| 0 <= j < i ==> s@[j] == p@[j],
        decreases p.len() - i,
    {
        if s[i] != p[i] {
            assert(s@.take(p.len() as int)[i as int] != p@[i as int]);
            return false;
        }
        i = i + 1;
    }
    assert(s@.take(p.len() as int) =~= p@);
    true
}

/// The characters `s[from..to]`.
pub fn sub_chars(s: &Vec<char>, from: usize, to: usize) -> (r: Vec<char>)
    requires
        from <= to <= s.len(),
    ensures
        r@ == s@.subrange(from as int, to as int),
{
    let mut r: Vec<char> = Vec::new();
    let mut i: usize = from;
    while i < to
        invariant
            from <= i <= to <= s.len(),
            r@ == s@.subrange(from as int, i as int),
        decreases to - i,
    {
        r.push(s[i]);
        i = i + 1;
        assert(r@ =~= s@.subrange(from as int, i as int));
    }
    r
}

pub fn split_chars(s: &Vec<char>, sep: char) -> (parts: Vec<Vec<char>>)
    ensures
        views(parts@) == split_on(s@, sep),
{
    let mut done: Vec<Vec<char>> = Vec::new();
    let mut cur: Vec<char> = Vec::new();
    let mut i: usize = 0;
    while i < s.len()
        invariant
            i <= s.len(),
            views(done@) == split_scan(s@.take(i as int), sep).0,
            cur@ == split_scan(s@.take(i as int), sep).1,
        decreases s.len() - i,
    {
        assert(s@.take(i + 1).drop_last() =~= s@.take(i as int));
        let c = s[i];
        if c == sep {
            let piece = cur;
            done.push(piece);
            cur = Vec::new();
        } else {
            cur.push(c);
        }
        i = i + 1;
        assert(views(done@) =~= split_scan(s@.take(i as int), sep).0);
    }
    assert(s@.take(s.len() as int) =~= s@);
    done.push(cur);
    assert(views(done@) =~= split_on(s@, sep));
    done
}

pub fn split_words(s: &Vec<char>) -> (ws: Vec<Vec<char>>)
    ensures
        views(ws@) == words(s@),
{
    let mut done: Vec<Vec<char>> = Vec::new();
    let mut cur: Vec<char> = Vec::new();
    let mut i: usize = 0;
    while i < s.len()
        invariant
            i <= s.len(),
            views(done@) == words_scan(s@.take(i as int)).0,
            cur@ == words_scan(s@.take(i as int)).1,
        decreases s.len() - i,
    {
        assert(s@.take(i + 1).drop_last() =~= s@.take(i as int));
        let c = s[i];
        if is_whitespace(c) {
            if cur.len() > 0 {
                let piece = cur;
                done.push(piece);
                cur = Vec::new();
            }
        } else {
            cur.push(c);
        }
        i = i + 1;
        assert(views(done@) =~= words_scan(s@.take(i as int)).0);
    }
    assert(s@.take(s.len() as int) =~= s@);
    if cur.len() > 0 {
        done.push(cur);
    }
    assert(views(done@) =~= words(s@));
    done
}

// ---------------------------------------------------------------------------
// Trimming and bounded splitting
// ---------------------------------------------------------------------------

/// `s` without its trailing whitespace (`str::trim_end`).
pub open spec fn trim_end_ws(s: Seq<char>) -> Seq<char>
    decreases s.len(),
{
    if s.len() > 0 && is_ws(s.last()) {
        trim_end_ws(s.drop_last())
    } else {
        s
    }
}

/// `s` without its leading whitespace (`str::trim_start`).
pub open spec fn trim_start_ws(s: Seq<char>) -> Seq<char>
    decreases s.len(),
{
    if s.len() > 0 && is_ws(s[0]) {
        trim_start_ws(s.drop_first())
    } else {
        s
    }
}

/// `str::trim`.
pub open spec fn trim_ws(s: Seq<char>) -> Seq<char> {
    trim_start_ws(trim_end_ws(s))
}

/// `s` without the characters `c` at its end.
pub open spec fn trim_end_char(s: Seq<char>, c: char) -> Seq<char>
    decreases s.len(),
{
    if s.len() > 0 && s.last() == c {
        trim_end_char(s.drop_last(), c)
    } else {
        s
    }
}

/// `s` without the characters `c` at its start.
pub open spec fn trim_start_char(s: Seq<char>, c: char) -> Seq<char>
    decreases s.len(),
{
    if s.len() > 0 && s[0] == c {
        trim_start_char(s.drop_first(), c)
    } else {
        s
    }
}

/// `str::trim_matches` with a single character.
pub open spec fn trim_char(s: Seq<char>, c: char) -> Seq<char> {
    trim_start_char(trim_end_char(s, c), c)
}

/// `s` without the repeated suffix `ms` (`str::trim_end_matches("ms")`).
pub open spec fn trim_end_ms(s: Seq<char>) -> Seq<char>
    decreases s.len(),
{
    if s.len() >= 2 && s[s.len() - 2] == 'm' && s[s.len() - 1] == 's' {
        trim_end_ms(s.take(s.len() - 2))
    } else {
        s
    }
}

/// Position of the first `c` in `s` (when there is one).
pub open spec fn index_of_char(s: Seq<char>, c: char) -> int
    decreases s.len(),
{
    if s.len() == 0 || s[0] == c {
        0
    } else {
        1 + index_of_char(s.drop_first(), c)
    }
}

/// `str::splitn(n, sep)`: at most `n` pieces, the last one holding the rest.
pub open spec fn splitn_spec(s: Seq<char>, n: nat, sep: char) -> Seq<Seq<char>>
    decreases n,
{
    if n == 0 {
        Seq::empty()
    } else if n == 1 || !s.contains(sep) {
        seq![s]
    } else {
        let i = index_of_char(s, sep);
        seq![s.take(i)] + splitn_spec(s.skip(i + 1), (n - 1) as nat, sep)
    }
}

proof fn lemma_index_of_char(s: Seq<char>, c: char)
    requires
        s.contains(c),
    ensures
        0 <= index_of_char(s, c) < s.len(),
        s[index_of_char(s, c)] == c,
        forall|j: int| 0 <= j < index_of_char(s, c) ==> s[j] != c,
    decreases s.len(),
{
    if s[0] != c {
        let k = choose|k: int| 0 <= k < s.len() && s[k] == c;
        assert(s.drop_first()[k - 1] == c);
        lemma_index_of_char(s.drop_first(), c);
        assert forall|j: int| 0 <= j < index_of_char(s, c) implies s[j] != c by {
            if j > 0 {
                assert(s[j] == s.drop_first()[j - 1]);
            }
        }
    }
}

/// Splits at the first `sep`: the text before it and the text after it.
pub fn split_first(s: &Vec<char>, sep: char) -> (r: Option<(Vec<char>, Vec<char>)>)
    ensures
        r is Some <==> s@.contains(sep),
        r matches Some((a, b)) ==> a@ == s@.take(index_of_char(s@, sep)) && b@ == s@.skip(
            index_of_char(s@, sep) + 1,
        ),
{
    let mut i: usize = 0;
    while i < s.len()
        invariant
            i <= s.len(),
            forall|j: int| 0 <= j < i ==> s@[j] != sep,
        decreases s.len() - i,
    {
        if s[i] == sep {
            proof {
                lemma_index_of_char(s@, sep);
            }
            let a = sub_chars(s, 0, i);
            let b = sub_chars(s, i + 1, s.len());
            assert(a@ =~= s@.take(i as int));
            assert(b@ =~= s@.skip(i + 1));
            return Some((a, b));
        }
        i = i + 1;
    }
    None
}

/// `str::splitn(n, sep)` on a character sequence.
pub fn splitn_chars(s: &Vec<char>, n: usize, sep: char) -> (parts: Vec<Vec<char>>)
    ensures
        views(parts@) == splitn_spec(s@, n as nat, sep),
    decreases n,
{
    if n == 0 {
        let v: Vec<Vec<char>> = Vec::new();
        assert(views(v@) =~= splitn_spec(s@, n as nat, sep));
        return v;
    }
    if n == 1 {
        let mut v: Vec<Vec<char>> = Vec::new();
        v.push(s.clone());
        assert(views(v@) =~= splitn_spec(s@, n as nat, sep));
        return v;
    }
    match split_first(s, sep) {
        None => {
            let mut v: Vec<Vec<char>> = Vec::new();
            v.push(s.clone());
            assert(views(v@) =~= splitn_spec(s@, n as nat, sep));
            v
        },
        Some((a, b)) => {
            let rest = splitn_chars(&b, n - 1, sep);
            let mut v: Vec<Vec<char>> = Vec::new();
            v.push(a);
            let mut i: usize = 0;
            while i < rest.len()
                invariant
                    i <= rest@.len(),
                    v@.len() == i + 1,
                    v@[0]@ == s@.take(index_of_char(s@, sep)),
                    forall|j: int| 1 <= j <= i ==> (#[trigger] v@[j])@ == rest@[j - 1]@,
                decreases rest.len() - i,
            {
                v.push(rest[i].clone());
                i = i + 1;
            }
            assert(views(v@) =~= seq![s@.take(index_of_char(s@, sep))] + views(rest@));
            v
        },
    }
}

/// `str::trim` on a character sequence.
pub fn trim_chars(s: &Vec<char>) -> (r: Vec<char>)
    ensures
        r@ == trim_ws(s@),
{
    let mut end: usize = s.len();
    assert(s@.take(end as int) =~= s@);
    while end > 0 && is_whitespace(s[end - 1])
        invariant
            end <= s.len(),
            trim_end_ws(s@) == trim_end_ws(s@.take(end as int)),
        decreases end,
    {
        assert(s@.take(end as int).drop_last() =~= s@.take(end - 1));
        end = end - 1;
    }
    assert(trim_end_ws(s@.take(end as int)) == s@.take(end as int));
    let mut start: usize = 0;
    while start < end && is_whitespace(s[start])
        invariant
            start <= end <= s.len(),
            trim_ws(s@) == trim_start_ws(s@.subrange(start as int, end as int)),
        decreases end - start,
    {
        assert(s@.subrange(start as int, end as int).drop_first() =~= s@.subrange(start + 1, end as int));
        start = start + 1;
    }
    let r = sub_chars(s, start, end);
    r
}

/// `str::trim_matches(c)` on a character sequence.
pub fn trim_char_chars(s: &Vec<char>, c: char) -> (r: Vec<char>)
    ensures
        r@ == trim_char(s@, c),
{
    let mut end: usize = s.len();
    assert(s@.take(end as int) =~= s@);
    while end > 0 && s[end - 1] == c
        invariant
            end <= s.len(),
            trim_end_char(s@, c) == trim_end_char(s@.take(end as int), c),
        decreases end,
    {
        assert(s@.take(end as int).drop_last() =~= s@.take(end - 1));
        end = end - 1;
    }
    assert(trim_end_char(s@.take(end as int), c) == s@.take(end as int));
    let mut start: usize = 0;
    while start < end && s[start] == c
        invariant
            start <= end <= s.len(),
            trim_char(s@, c) == trim_start_char(s@.subrange(start as int, end as int), c),
        decreases end - start,
    {
        assert(s@.subrange(start as int, end as int).drop_first() =~= s@.subrange(start + 1, end as int));
        start = start + 1;
    }
    let r = sub_chars(s, start, end);
    r
}

/// `str::trim_end_matches("ms")` on a character sequence.
pub fn trim_end_ms_chars(s: &Vec<char>) -> (r: Vec<char>)
    ensures
        r@ == trim_end_ms(s@),
{
    let mut end: usize = s.len();
    assert(s@.take(end as int) =~= s@);
    while end >= 2 && s[end - 2] == 'm' && s[end - 1] == 's'
        invariant
            end <= s.len(),
            trim_end_ms(s@) == trim_end_ms(s@.take(end as int)),
        decreases end,
    {
        assert(s@.take(end as int).take(end - 2) =~= s@.take(end - 2));
        end = end - 2;
    }
    let r = sub_chars(s, 0, end);
    assert(r@ =~= s@.take(end as int));
    r
}

/// A piece of text without the carriage return that ends it, if any.
pub open spec fn strip_cr(p: Seq<char>) -> Seq<char> {
    if p.len() > 0 && p.last() == '\r' {
        p.drop_last()
    } else {
        p
    }
}

/// `str::lines`: the pieces between newlines, each without a `\r` that
/// precedes its newline; no empty last line after a final newline.
pub open spec fn lines_spec(s: Seq<char>) -> Seq<Seq<char>> {
    let pieces = split_on(s, '\n');
    let body = pieces.drop_last();
    let ended = Seq::new(body.len(), |i: int| strip_cr(body[i]));
    if pieces.last().len() == 0 {
        ended
    } else {
        ended.push(pieces.last())
    }
}

/// `str::lines` on a character sequence.
pub fn lines_chars(s: &Vec<char>) -> (r: Vec<Vec<char>>)
    ensures
        views(r@) == lines_spec(s@),
{
    let pieces = split_chars(s, '\n');
    let ghost p = split_on(s@, '\n');
    proof {
        lemma_split_nonempty(s@, '\n');
    }
    let n = pieces.len();
    let mut r: Vec<Vec<char>> = Vec::new();
    let mut i: usize = 0;
    while i + 1 < n
        invariant
            n == pieces@.len(),
            n >= 1,
            views(pieces@) == p,
            i + 1 <= n,
            r@.len() == i,
            forall|j: int| 0 <= j < i ==> (#[trigger] r@[j])@ == strip_cr(p[j]),
        decreases n - i,
    {
        let piece = &pieces[i];
        assert(piece@ == p[i as int]);
        let k = piece.len();
        if k > 0 && piece[k - 1] == '\r' {
            let t = sub_chars(piece, 0, k - 1);
            assert(t@ =~= piece@.drop_last());
            r.push(t);
        } else {
            r.push(piece.clone());
        }
        i = i + 1;
    }
    let last = &pieces[n - 1];
    assert(last@ == p.last());
    if last.len() > 0 {
        r.push(last.clone());
    }
    assert(views(r@) =~= lines_spec(s@));
    r
}

proof fn lemma_split_nonempty(s: Seq<char>, sep: char)
    ensures
        split_on(s, sep).len() >= 1,
{
}

/// Inserting into a sequence adds the element to its multiset.
pub proof fn lemma_insert_multiset<A>(s: Seq<A>, p: int, x: A)
    requires
        0 <= p <= s.len(),
    ensures
        s.insert(p, x).to_multiset() == s.to_multiset().insert(x),
{
    broadcast use vstd::seq_lib::group_to_multiset_ensures;
    broadcast use vstd::multiset::group_multiset_axioms;

    let t = s.insert(p, x);
    assert(t.remove(p) =~= s);
    assert(t[p] == x);
    assert(t.to_multiset().remove(x) == s.to_multiset());
    assert(t.contains(x));
    assert(t.to_multiset().count(x) > 0);
    assert(t.to_multiset() =~= s.to_multiset().insert(x));
}

/// Lexicographic order of character sequences by code point (the order
/// of their UTF-8 bytes).
pub open spec fn text_le(a: Seq<char>, b: Seq<char>) -> bool
    decreases a.len(),
{
    if a.len() == 0 {
        true
    } else if b.len() == 0 {
        false
    } else if a[0] != b[0] {
        a[0] < b[0]
    } else {
        text_le(a.drop_first(), b.drop_first())
    }
}

pub proof fn lemma_text_le_total(a: Seq<char>, b: Seq<char>)
    ensures
        text_le(a, b) || text_le(b, a),
    decreases a.len(),
{
    if a.len() > 0 && b.len() > 0 && a[0] == b[0] {
        lemma_text_le_total(a.drop_first(), b.drop_first());
    }
}

pub proof fn lemma_text_le_trans(a: Seq<char>, b: Seq<char>, c: Seq<char>)
    requires
        text_le(a, b),
        text_le(b, c),
    ensures
        text_le(a, c),
    decreases a.len(),
{
    if a.len() > 0 && b.len() > 0 && c.len() > 0 && a[0] == b[0] && b[0] == c[0] {
        lemma_text_le_trans(a.drop_first(), b.drop_first(), c.drop_first());
    }
}

pub proof fn lemma_text_le_antisym(a: Seq<char>, b: Seq<char>)
    requires
        text_le(a, b),
        text_le(b, a),
    ensures
        a == b,
    decreases a.len(),
{
    if a.len() > 0 && b.len() > 0 {
        if a[0] == b[0] {
            lemma_text_le_antisym(a.drop_first(), b.drop_first());
            assert(a =~= seq![a[0]] + a.drop_first());
            assert(b =~= seq![b[0]] + b.drop_first());
        } else {
            assert(a[0] != b[0]);
        }
    } else {
        assert(a.len() == 0 && b.len() == 0);
        assert(a =~= b);
    }
}

/// Compares two character sequences (`text_le`).
pub fn chars_le(a: &Vec<char>, b: &Vec<char>) -> (r: bool)
    ensures
        r == text_le(a@, b@),
{
    let mut i: usize = 0;
    assert(a@.skip(0) =~= a@ && b@.skip(0) =~= b@);
    while i < a.len() && i < b.len() && a[i] == b[i]
        invariant
            i <= a.len(),
            i <= b.len(),
            text_le(a@, b@) == text_le(a@.skip(i as int), b@.skip(i as int)),
        decreases a.len() - i,
    {
        assert(a@.skip(i as int).drop_first() =~= a@.skip(i + 1));
        assert(b@.skip(i as int).drop_first() =~= b@.skip(i + 1));
        i = i + 1;
    }
    if i == a.len() {
        true
    } else if i == b.len() {
        false
    } else {
        assert(a@.skip(i as int)[0] == a@[i as int]);
        assert(b@.skip(i as int)[0] == b@[i as int]);
        a[i] < b[i]
    }
}

// ---------------------------------------------------------------------------
// Decimal numbers
// ---------------------------------------------------------------------------

pub open spec fn is_digit(c: char) -> bool {
    '0' <= c && c <= '9'
}

pub open spec fn digit_value(c: char) -> nat {
    (c as nat - '0' as nat) as nat
}

pub open spec fn all_digits(s: Seq<char>) -> bool {
    forall|i: int| 0 <= i < s.len() ==> is_digit(#[trigger] s[i])
}

/// Value of a sequence of decimal digits, most significant first.
pub open spec fn digits_value(s: Seq<char>) -> nat
    decreases s.len(),
{
    if s.len() == 0 {
        0
    } else {
        digits_value(s.drop_last()) * 10 + digit_value(s.last())
    }
}

/// `s` without a leading sign character `sign`, if it has one.
pub open spec fn strip_sign(s: Seq<char>, sign: char) -> Seq<char> {
    if s.len() > 0 && s[0] == sign {
        s.drop_first()
    } else {
        s
    }
}

/// `u32::from_str`: an optional `+`, then at least one decimal digit, with a
/// value that fits in `u32`.
pub open spec fn parse_u32_spec(s: Seq<char>) -> Option<u32> {
    let body = strip_sign(s, '+');
    if body.len() > 0 && all_digits(body) && digits_value(body) <= u32::MAX {
        Some(digits_value(body) as u32)
    } else {
        None
    }
}

/// Signed integer parsing (`i32::from_str`, `i64::from_str`): an optional `+`
/// or `-`, then at least one digit, with a value in `[lo, hi]`.
pub open spec fn parse_int_spec(s: Seq<char>, lo: int, hi: int) -> Option<int> {
    let negative = s.len() > 0 && s[0] == '-';
    let body = if s.len() > 0 && (s[0] == '-' || s[0] == '+') {
        s.drop_first()
    } else {
        s
    };
    let v: int = if negative {
        -digits_value(body)
    } else {
        digits_value(body) as int
    };
    if body.len() > 0 && all_digits(body) && lo <= v && v <= hi {
        Some(v)
    } else {
        None
    }
}

proof fn lemma_capped_step(v: nat, d: nat, cap: nat)
    requires
        d < 10,
    ensures
        (if v * 10 + d < cap { v * 10 + d } else { cap }) == (if (if v < cap { v } else { cap }) * 10 + d < cap {
            (if v < cap { v } else { cap }) * 10 + d
        } else {
            cap
        }),
{
    if v >= cap {
        assert(v * 10 + d >= cap) by (nonlinear_arith)
            requires
                v >= cap,
        ;
        assert(cap * 10 + d >= cap) by (nonlinear_arith);
    }
}

/// Reads the digits `s[from..]`; returns `None` if one is not a digit, and
/// otherwise their value capped at `cap` (so that it cannot overflow).
fn capped_digits(s: &Vec<char>, from: usize, cap: u128) -> (r: Option<u128>)
    requires
        from <= s.len(),
        cap <= u64::MAX,
    ensures
        r is Some <==> all_digits(s@.skip(from as int)),
        r matches Some(v) ==> v == (if digits_value(s@.skip(from as int)) < cap {
            digits_value(s@.skip(from as int))
        } else {
            cap as nat
        }),
{
    let ghost body = s@.skip(from as int);
    let mut acc: u128 = 0;
    let mut i: usize = from;
    while i < s.len()
        invariant
            from <= i <= s.len(),
            body == s@.skip(from as int),
            cap <= u64::MAX,
            all_digits(body.take(i - from)),
            acc == (if digits_value(body.take(i - from)) < cap {
                digits_value(body.take(i - from))
            } else {
                cap as nat
            }),
        decreases s.len() - i,
    {
        let c = s[i];
        if !('0' <= c && c <= '9') {
            assert(body[i - from] == c);
            return None;
        }
        let d = (c as u32 - '0' as u32) as u128;
        let ghost prev = body.take(i - from);
        let ghost next = body.take(i + 1 - from);
        assert(next.drop_last() =~= prev);
        assert(next.last() == c);
        proof {
            lemma_capped_step(digits_value(prev), d as nat, cap as nat);
        }
        let t = acc * 10 + d;
        acc = if t < cap { t } else { cap };
        i = i + 1;
        assert(all_digits(body.take(i - from))) by {
            assert forall|j: int| 0 <= j < next.len() implies is_digit(#[trigger] next[j]) by {
                if j < prev.len() {
                    assert(next[j] == prev[j]);
                }
            }
        }
    }
    assert(body.take(s.len() - from) =~= body);
    Some(acc)
}

/// `u32::from_str` on a character sequence.
pub fn parse_u32(s: &Vec<char>) -> (r: Option<u32>)
    ensures
        r == parse_u32_spec(s@),
{
    let from: usize = if s.len() > 0 && s[0] == '+' { 1 } else { 0 };
    assert(s@.skip(from as int) =~= strip_sign(s@, '+'));
    if from >= s.len() {
        return None;
    }
    match capped_digits(s, from, 0x1_0000_0000u128) {
        None => None,
        Some(v) => {
            if v <= 0xFFFF_FFFFu128 {
                Some(v as u32)
            } else {
                None
            }
        },
    }
}

/// Signed parsing of a character sequence into `[lo, hi]`, as
/// `i32::from_str` / `i64::from_str` do for their own bounds.
pub fn parse_int(s: &Vec<char>, lo: i64, hi: i64) -> (r: Option<i64>)
    requires
        lo <= 0 <= hi,
    ensures
        r matches Some(v) ==> parse_int_spec(s@, lo as int, hi as int) == Some(v as int),
        r is None ==> parse_int_spec(s@, lo as int, hi as int) is None,
{
    let negative = s.len() > 0 && s[0] == '-';
    let from: usize = if s.len() > 0 && (s[0] == '-' || s[0] == '+') { 1 } else { 0 };
    let ghost body = s@.skip(from as int);
    assert(body =~= (if s@.len() > 0 && (s@[0] == '-' || s@[0] == '+') {
        s@.drop_first()
    } else {
        s@
    }));
    if from >= s.len() {
        return None;
    }
    match capped_digits(s, from, 0x8000_0000_0000_0001u128) {
        None => None,
        Some(m) => {
            if negative {
                if m <= 0x8000_0000_0000_0000u128 && (m as i128) <= -(lo as i128) {
                    Some((-(m as i128)) as i64)
                } else {
                    None
                }
            } else {
                if m <= 0x8000_0000_0000_0000u128 && (m as i128) <= hi as i128 {
                    Some(m as i64)
                } else {
                    None
                }
            }
        },
    }
}

/// Digit character of a value below ten.
pub open spec fn digit_char(d: nat) -> char {
    ('0' as nat + d) as char
}

/// Decimal representation of `n`, without leading zeros.
pub open spec fn decimal(n: nat) -> Seq<char>
    decreases n,
{
    if n < 10 {
        seq![digit_char(n)]
    } else {
        decimal(n / 10).push(digit_char(n % 10))
    }
}

/// Decimal representation of a signed integer (`Display` of the integer types).
pub open spec fn int_text(v: int) -> Seq<char> {
    if v < 0 {
        seq!['-'] + decimal((-v) as nat)
    } else {
        decimal(v as nat)
    }
}

/// Appends the decimal representation of `n`.
pub fn push_decimal(out: &mut Vec<char>, n: u64)
    ensures
        final(out)@ == old(out)@ + decimal(n as nat),
    decreases n,
{
    if n >= 10 {
        push_decimal(out, n / 10);
    }
    let d = (n % 10) as u8;
    let c = (48u8 + d) as char;
    out.push(c);
}

} // verus!

verus! {

// ---------------------------------------------------------------------------
// Reading back what was written
// ---------------------------------------------------------------------------

/// `decimal(n)` is a non-empty run of digits whose value is `n`.
pub proof fn lemma_decimal(n: nat)
    ensures
        decimal(n).len() > 0,
        all_digits(decimal(n)),
        digits_value(decimal(n)) == n,
    decreases n,
{
    if n >= 10 {
        lemma_decimal(n / 10);
        let s = decimal(n / 10);
        let t = s.push(digit_char(n % 10));
        assert(t.drop_last() =~= s);
        assert forall|i: int| 0 <= i < t.len() implies is_digit(#[trigger] t[i]) by {
            if i < s.len() {
                assert(t[i] == s[i]);
            }
        }
        assert(digit_value(digit_char(n % 10)) == n % 10);
        assert(digits_value(t) == digits_value(s) * 10 + n % 10);
        assert((n / 10) * 10 + n % 10 == n);
        assert(decimal(n) == t);
        assert(digits_value(s) * 10 == (n / 10) * 10);
        assert(digits_value(decimal(n)) == n);
    } else {
        let t = decimal(n);
        assert(t.drop_last() =~= Seq::<char>::empty());
        assert(t.last() == digit_char(n));
        assert(digit_value(digit_char(n)) == n);
        assert(digits_value(t) == digits_value(t.drop_last()) * 10 + digit_value(t.last()));
        assert(digits_value(t) == n);
    }
}

/// A signed integer reads back from its decimal text.
pub proof fn lemma_parse_int_text(v: int, lo: int, hi: int)
    requires
        lo <= v <= hi,
    ensures
        parse_int_spec(int_text(v), lo, hi) == Some(v),
{
    if v < 0 {
        lemma_decimal((-v) as nat);
        assert(int_text(v).drop_first() =~= decimal((-v) as nat));
    } else {
        lemma_decimal(v as nat);
        assert(is_digit(decimal(v as nat)[0]));
    }
}

/// The text of an integer is made of digits, with a `-` in front when it is
/// negative, and ends with a digit.
pub proof fn lemma_int_text_chars(v: int)
    ensures
        int_text(v).len() > 0,
        is_digit(int_text(v).last()),
        forall|i: int| 0 <= i < int_text(v).len() ==> is_digit(#[trigger] int_text(v)[i]) || int_text(v)[i] == '-',
{
    if v < 0 {
        lemma_decimal((-v) as nat);
        let d = decimal((-v) as nat);
        assert forall|i: int| 0 <= i < int_text(v).len() implies is_digit(#[trigger] int_text(v)[i]) || int_text(v)[i] == '-' by {
            if i > 0 {
                assert(int_text(v)[i] == d[i - 1]);
            }
        }
        assert(int_text(v).last() == d.last());
    } else {
        lemma_decimal(v as nat);
    }
}

/// In `a + [c] + rest` where `a` has no `c`, the first `c` is at `a.len()`.
pub proof fn lemma_index_of_char_after(a: Seq<char>, c: char, rest: Seq<char>)
    requires
        !a.contains(c),
    ensures
        index_of_char(a + seq![c] + rest, c) == a.len(),
    decreases a.len(),
{
    let s = a + seq![c] + rest;
    if a.len() > 0 {
        assert(s[0] == a[0]);
        assert(!a.drop_first().contains(c)) by {
            if a.drop_first().contains(c) {
                let k = choose|k: int| 0 <= k < a.drop_first().len() && a.drop_first()[k] == c;
                assert(a[k + 1] == c);
            }
        }
        lemma_index_of_char_after(a.drop_first(), c, rest);
        assert(s.drop_first() =~= a.drop_first() + seq![c] + rest);
    }
}

/// `splitn` takes a first field without separator off the front.
pub proof fn lemma_splitn_field(a: Seq<char>, sep: char, rest: Seq<char>, n: nat)
    requires
        n >= 2,
        !a.contains(sep),
    ensures
        splitn_spec(a + seq![sep] + rest, n, sep) == seq![a] + splitn_spec(rest, (n - 1) as nat, sep),
{
    let s = a + seq![sep] + rest;
    assert(s[a.len() as int] == sep);
    lemma_index_of_char_after(a, sep, rest);
    assert(s.take(a.len() as int) =~= a);
    assert(s.skip(a.len() as int + 1) =~= rest);
}

/// The scan of a text that ends a piece, followed by a text without
/// separator, leaves that text as the piece being read.
proof fn lemma_split_scan_tail(c: Seq<char>, x: Seq<char>, sep: char)
    requires
        split_scan(c, sep).1.len() == 0,
        !x.contains(sep),
    ensures
        split_scan(c + x, sep) == (split_scan(c, sep).0, x),
    decreases x.len(),
{
    if x.len() == 0 {
        assert(c + x =~= c);
    } else {
        assert(!x.drop_last().contains(sep)) by {
            if x.drop_last().contains(sep) {
                let k = choose|k: int| 0 <= k < x.drop_last().len() && x.drop_last()[k] == sep;
                assert(x[k] == sep);
            }
        }
        lemma_split_scan_tail(c, x.drop_last(), sep);
        assert((c + x).drop_last() =~= c + x.drop_last());
        assert((c + x).last() == x.last());
        assert(x.drop_last().push(x.last()) =~= x);
    }
}

/// Appending a line (a text without newline, not ending with `\r`, and a
/// newline) to a text that is empty or ends with a newline adds that line
/// at the end of its lines.
pub proof fn lemma_lines_append(c: Seq<char>, line: Seq<char>)
    requires
        c.len() == 0 || c.last() == '\n',
        !line.contains('\n'),
        line.len() > 0,
        line.last() != '\r',
    ensures
        lines_spec(c + line.push('\n')) == lines_spec(c).push(line),
{
    let (done, cur) = split_scan(c, '\n');
    assert(cur.len() == 0) by {
        if c.len() > 0 {
            assert(c.last() == '\n');
        }
    }
    lemma_split_scan_tail(c, line, '\n');
    let s = c + line.push('\n');
    assert(s.drop_last() =~= c + line);
    assert(s.last() == '\n');
    assert(split_scan(s, '\n') == (done.push(line), Seq::<char>::empty()));
    let ps = split_on(s, '\n');
    let pc = split_on(c, '\n');
    assert(ps == done.push(line).push(Seq::<char>::empty()));
    assert(pc == done.push(Seq::<char>::empty()));
    assert(ps.drop_last() =~= pc.drop_last().push(line));
    assert(strip_cr(line) == line);
    assert(lines_spec(s) =~= lines_spec(c).push(line));
}

} // verus!

verus! {

// ---------------------------------------------------------------------------
// Columns
// ---------------------------------------------------------------------------

/// `n` copies of `c`.
pub open spec fn repeat_char(c: char, n: nat) -> Seq<char> {
    Seq::new(n, |i: int| c)
}

/// `s` left-aligned in a column of `width` characters filled with `fill`
/// (`{:<width}` of `format!`; a longer text is kept whole).
pub open spec fn pad_right(s: Seq<char>, width: nat, fill: char) -> Seq<char> {
    if s.len() < width {
        s + repeat_char(fill, (width - s.len()) as nat)
    } else {
        s
    }
}

/// Appends `s` left-aligned in a column of `width` characters.
pub fn push_padded(out: &mut Vec<char>, s: &str, width: usize, fill: char)
    ensures
        final(out)@ == old(out)@ + pad_right(s@, width as nat, fill),
{
    let mut cs = chars_of(s);
    let n = cs.len();
    out.append(&mut cs);
    let ghost base = out@;
    let mut k: usize = n;
    while k < width
        invariant
            n == s@.len(),
            k >= n,
            n < width ==> k <= width,
            n >= width ==> k == n,
            base == old(out)@ + s@,
            out@ == base + repeat_char(fill, (k - n) as nat),
        decreases width - k,
    {
        out.push(fill);
        assert(repeat_char(fill, (k + 1 - n) as nat) =~= repeat_char(fill, (k - n) as nat).push(fill));
        k = k + 1;
    }
    if n < width {
        assert(k == width);
    } else {
        assert(repeat_char(fill, 0) =~= Seq::<char>::empty());
    }
    assert(out@ =~= old(out)@ + pad_right(s@, width as nat, fill));
}

/// Appends the characters of `s`.
pub fn push_str(out: &mut Vec<char>, s: &str)
    ensures
        final(out)@ == old(out)@ + s@,
{
    let mut cs = chars_of(s);
    out.append(&mut cs);
}

} // verus!

verus! {

// ---------------------------------------------------------------------------
// Splitting what was joined
// ---------------------------------------------------------------------------

/// Two texts without `sep`, joined by `sep`, split back into the two.
pub proof fn lemma_split_two(x: Seq<char>, sep: char, y: Seq<char>)
    requires
        !x.contains(sep),
        !y.contains(sep),
    ensures
        split_on(x + seq![sep] + y, sep) == seq![x, y],
{
    let e = Seq::<char>::empty();
    assert(split_scan(e, sep) == (Seq::<Seq<char>>::empty(), e));
    lemma_split_scan_tail(e, x, sep);
    assert(e + x =~= x);
    let xs = x + seq![sep];
    assert(xs.drop_last() =~= x);
    assert(split_scan(xs, sep) == (seq![x], e));
    lemma_split_scan_tail(xs, y, sep);
    assert(split_on(xs + y, sep) =~= seq![x, y]);
}

/// Pieces without `sep`, joined by `sep`, split back into the pieces:
/// the scan of `prefix + sep + piece` adds the piece being read.
pub proof fn lemma_split_join_step(p: Seq<char>, sep: char, piece: Seq<char>)
    requires
        !piece.contains(sep),
    ensures
        split_scan(p + seq![sep] + piece, sep) == (split_scan(p, sep).0.push(split_scan(p, sep).1), piece),
{
    let ps = p + seq![sep];
    assert(ps.drop_last() =~= p);
    assert(ps.last() == sep);
    lemma_split_scan_tail(ps, piece, sep);
}

/// The scan of a text without `sep`.
pub proof fn lemma_split_scan_plain(x: Seq<char>, sep: char)
    requires
        !x.contains(sep),
    ensures
        split_scan(x, sep) == (Seq::<Seq<char>>::empty(), x),
{
    let e = Seq::<char>::empty();
    lemma_split_scan_tail(e, x, sep);
    assert(e + x =~= x);
}

/// The word scan of a text that ends a word, followed by a word.
proof fn lemma_words_scan_word(p: Seq<char>, w: Seq<char>)
    requires
        words_scan(p).1.len() == 0,
        forall|i: int| 0 <= i < w.len() ==> !is_ws(#[trigger] w[i]),
    ensures
        words_scan(p + w) == (words_scan(p).0, w),
    decreases w.len(),
{
    if w.len() == 0 {
        assert(p + w =~= p);
    } else {
        lemma_words_scan_word(p, w.drop_last());
        assert((p + w).drop_last() =~= p + w.drop_last());
        assert((p + w).last() == w.last());
        assert(!is_ws(w[w.len() - 1]));
        assert(w.drop_last().push(w.last()) =~= w);
    }
}

/// Non-empty words joined by single spaces split back into the words.
pub proof fn lemma_words_of_five(
    a: Seq<char>,
    b: Seq<char>,
    c: Seq<char>,
    d: Seq<char>,
    e: Seq<char>,
)
    requires
        a.len() > 0 && b.len() > 0 && c.len() > 0 && d.len() > 0 && e.len() > 0,
        forall|i: int| 0 <= i < a.len() ==> !is_ws(#[trigger] a[i]),
        forall|i: int| 0 <= i < b.len() ==> !is_ws(#[trigger] b[i]),
        forall|i: int| 0 <= i < c.len() ==> !is_ws(#[trigger] c[i]),
        forall|i: int| 0 <= i < d.len() ==> !is_ws(#[trigger] d[i]),
        forall|i: int| 0 <= i < e.len() ==> !is_ws(#[trigger] e[i]),
    ensures
        words(a + seq![' '] + b + seq![' '] + c + seq![' '] + d + seq![' '] + e) == seq![a, b, c, d, e],
{
    let sp = seq![' '];
    let empty = Seq::<char>::empty();
    assert(words_scan(empty) == (Seq::<Seq<char>>::empty(), empty));
    lemma_words_scan_word(empty, a);
    assert(empty + a =~= a);
    let s1 = a + sp;
    assert(s1.drop_last() =~= a && is_ws(s1.last()));
    assert(words_scan(s1) == (seq![a], empty));
    lemma_words_scan_word(s1, b);
    let s2 = s1 + b + sp;
    assert(s2.drop_last() =~= s1 + b && is_ws(s2.last()));
    assert(words_scan(s2) == (seq![a, b], empty));
    lemma_words_scan_word(s2, c);
    let s3 = s2 + c + sp;
    assert(s3.drop_last() =~= s2 + c && is_ws(s3.last()));
    assert(words_scan(s3) == (seq![a, b, c], empty));
    lemma_words_scan_word(s3, d);
    let s4 = s3 + d + sp;
    assert(s4.drop_last() =~= s3 + d && is_ws(s4.last()));
    assert(words_scan(s4) == (seq![a, b, c, d], empty));
    lemma_words_scan_word(s4, e);
    assert(a + sp + b + sp + c + sp + d + sp + e =~= s4 + e);
    assert(words(s4 + e) =~= seq![a, b, c, d, e]);
}

/// One non-empty word reads as that word.
pub proof fn lemma_words_of_one(w: Seq<char>)
    requires
        w.len() > 0,
        forall|i: int| 0 <= i < w.len() ==> !is_ws(#[trigger] w[i]),
    ensures
        words(w) == seq![w],
{
    let empty = Seq::<char>::empty();
    assert(words_scan(empty) == (Seq::<Seq<char>>::empty(), empty));
    lemma_words_scan_word(empty, w);
    assert(empty + w =~= w);
}

/// `u32::from_str` reads a value back from its decimal text.
pub proof fn lemma_parse_u32_decimal(v: u32)
    ensures
        parse_u32_spec(decimal(v as nat)) == Some(v),
{
    lemma_decimal(v as nat);
    assert(is_digit(decimal(v as nat)[0]));
    assert(strip_sign(decimal(v as nat), '+') == decimal(v as nat));
}

} // verus!
