//! Character-level text handling shared by the DN template parser and the
//! properties merger: Unicode whitespace, trimming, splitting on a separator
//! and ASCII upper-casing, each with its specification.

use vstd::prelude::*;

verus! {

/// Unicode `White_Space`, the set `char::is_whitespace` tests.
pub open spec fn is_whitespace(c: char) -> bool {
    let v = c as u32;
    (0x09 <= v && v <= 0x0D) || v == 0x20 || v == 0x85 || v == 0xA0 || v == 0x1680 || (0x2000 <= v
        && v <= 0x200A) || v == 0x2028 || v == 0x2029 || v == 0x202F || v == 0x205F || v == 0x3000
}

/// `s` without its leading whitespace (`str::trim_start`).
pub open spec fn trim_start(s: Seq<char>) -> Seq<char>
    decreases s.len(),
{
    if s.len() > 0 && is_whitespace(s[0]) {
        trim_start(s.drop_first())
    } else {
        s
    }
}

/// `s` without its trailing whitespace (`str::trim_end`).
pub open spec fn trim_end(s: Seq<char>) -> Seq<char>
    decreases s.len(),
{
    if s.len() > 0 && is_whitespace(s.last()) {
        trim_end(s.drop_last())
    } else {
        s
    }
}

/// `s` without leading or trailing whitespace (`str::trim`).
pub open spec fn trim(s: Seq<char>) -> Seq<char> {
    trim_end(trim_start(s))
}

/// The pieces of `s` between occurrences of `sep` (`str::split` on one
/// character): one more piece than there are separators.
pub open spec fn split_on(s: Seq<char>, sep: char) -> Seq<Seq<char>>
    decreases s.len(),
{
    if s.len() == 0 {
        seq![Seq::<char>::empty()]
    } else {
        let prev = split_on(s.drop_last(), sep);
        if s.last() == sep {
            prev.push(Seq::<char>::empty())
        } else {
            prev.update(prev.len() - 1, prev.last().push(s.last()))
        }
    }
}

/// The pieces joined back together with `sep` between them.
pub open spec fn join_with(pieces: Seq<Seq<char>>, sep: char) -> Seq<char>
    decreases pieces.len(),
{
    if pieces.len() == 0 {
        Seq::<char>::empty()
    } else if pieces.len() == 1 {
        pieces[0]
    } else {
        join_with(pieces.drop_last(), sep) + seq![sep] + pieces.last()
    }
}

/// The index of the first `c` in `s`, or `s.len()` when there is none.
pub open spec fn index_of(s: Seq<char>, c: char) -> int
    decreases s.len(),
{
    if s.len() == 0 {
        0
    } else if s[0] == c {
        0
    } else {
        1 + index_of(s.drop_first(), c)
    }
}

/// The ASCII upper-case form of a character (`char::to_ascii_uppercase`).
pub open spec fn ascii_upper_char(c: char) -> char {
    if 'a' <= c && c <= 'z' {
        ((c as u32) - 32) as char
    } else {
        c
    }
}

/// The ASCII upper-case form of a string (`str::to_ascii_uppercase`).
pub open spec fn ascii_upper(s: Seq<char>) -> Seq<char> {
    s.map_values(|c: char| ascii_upper_char(c))
}

// ---------------------------------------------------------------------------
// Lemmas
// ---------------------------------------------------------------------------

/// A string that starts with a non-whitespace character is its own
/// `trim_start`.
pub proof fn lemma_trim_start_noop(s: Seq<char>)
    requires
        s.len() == 0 || !is_whitespace(s[0]),
    ensures
        trim_start(s) == s,
{
}

pub proof fn lemma_split_on_nonempty(s: Seq<char>, sep: char)
    ensures
        split_on(s, sep).len() >= 1,
    decreases s.len(),
{
    if s.len() > 0 {
        lemma_split_on_nonempty(s.drop_last(), sep);
    }
}

/// Splitting and joining on the same separator gives the text back.
pub proof fn lemma_join_split(s: Seq<char>, sep: char)
    ensures
        join_with(split_on(s, sep), sep) == s,
    decreases s.len(),
{
    if s.len() > 0 {
        let init = s.drop_last();
        lemma_join_split(init, sep);
        lemma_split_on_nonempty(init, sep);
        let prev = split_on(init, sep);
        if s.last() == sep {
            assert(prev.push(Seq::<char>::empty()).drop_last() == prev);
            assert(init + seq![sep] + Seq::<char>::empty() == s);
        } else {
            let cur = prev.update(prev.len() - 1, prev.last().push(s.last()));
            if prev.len() == 1 {
                assert(prev.last() == init);
                assert(cur[0] == s);
            } else {
                assert(cur.drop_last() == prev.drop_last());
                assert(join_with(prev, sep) == join_with(prev.drop_last(), sep) + seq![sep]
                    + prev.last());
                assert(join_with(cur, sep) == join_with(prev.drop_last(), sep) + seq![sep]
                    + prev.last().push(s.last()));
                assert(join_with(prev.drop_last(), sep) + seq![sep] + prev.last().push(s.last())
                    == (join_with(prev.drop_last(), sep) + seq![sep] + prev.last()).push(
                    s.last(),
                ));
                assert(init.push(s.last()) == s);
            }
        }
    }
}

/// No piece of a split contains the separator.
pub proof fn lemma_split_pieces_lack_sep(s: Seq<char>, sep: char)
    ensures
        forall|i: int, j: int|
            0 <= i < split_on(s, sep).len() && 0 <= j < split_on(s, sep)[i].len() ==> #[trigger] split_on(
                s,
                sep,
            )[i][j] != sep,
    decreases s.len(),
{
    if s.len() > 0 {
        lemma_split_pieces_lack_sep(s.drop_last(), sep);
        lemma_split_on_nonempty(s.drop_last(), sep);
        let prev = split_on(s.drop_last(), sep);
        let cur = split_on(s, sep);
        assert forall|i: int, j: int| 0 <= i < cur.len() && 0 <= j < cur[i].len() implies #[trigger] cur[i][j]
            != sep by {
            if s.last() == sep {
                if i < prev.len() {
                    assert(cur[i] == prev[i]);
                }
            } else {
                if i < prev.len() - 1 {
                    assert(cur[i] == prev[i]);
                } else {
                    assert(cur[i] == prev.last().push(s.last()));
                    if j < prev.last().len() {
                        assert(prev[prev.len() - 1][j] != sep);
                    }
                }
            }
        }
    }
}

/// Joining pieces that hold no separator and splitting again gives the
/// pieces back.
pub proof fn lemma_split_join(pieces: Seq<Seq<char>>, sep: char)
    requires
        pieces.len() >= 1,
        forall|i: int, j: int|
            0 <= i < pieces.len() && 0 <= j < pieces[i].len() ==> #[trigger] pieces[i][j] != sep,
    ensures
        split_on(join_with(pieces, sep), sep) == pieces,
    decreases pieces.len(),
{
    if pieces.len() == 1 {
        lemma_split_of_plain(pieces[0], sep);
    } else {
        let init = pieces.drop_last();
        assert forall|i: int, j: int| 0 <= i < init.len() && 0 <= j < init[i].len() implies #[trigger] init[i][j]
            != sep by {
            assert(init[i] == pieces[i]);
        }
        lemma_split_join(init, sep);
        let last = pieces.last();
        assert forall|j: int| 0 <= j < last.len() implies last[j] != sep by {
            assert(pieces[pieces.len() - 1][j] != sep);
        }
        lemma_split_append_plain(join_with(init, sep), last, sep);
        assert(init.push(last) == pieces);
    }
}

/// A separator-free text splits into itself alone.
pub proof fn lemma_split_of_plain(s: Seq<char>, sep: char)
    requires
        forall|j: int| 0 <= j < s.len() ==> s[j] != sep,
    ensures
        split_on(s, sep) == seq![s],
    decreases s.len(),
{
    if s.len() > 0 {
        lemma_split_of_plain(s.drop_last(), sep);
        assert(s.drop_last().push(s.last()) == s);
    } else {
        assert(s == Seq::<char>::empty());
    }
}

/// Splitting `a + sep + b`, where `b` holds no separator, splits `a` and then
/// starts `b` as one more piece.
pub proof fn lemma_split_append_plain(a: Seq<char>, b: Seq<char>, sep: char)
    requires
        forall|j: int| 0 <= j < b.len() ==> b[j] != sep,
    ensures
        split_on(a + seq![sep] + b, sep) == split_on(a, sep).push(b),
    decreases b.len(),
{
    if b.len() == 0 {
        assert(a + seq![sep] + b == a.push(sep));
        assert((a + seq![sep] + b).drop_last() == a);
        assert(b == Seq::<char>::empty());
    } else {
        let b0 = b.drop_last();
        lemma_split_append_plain(a, b0, sep);
        assert((a + seq![sep] + b).drop_last() == a + seq![sep] + b0);
        assert((a + seq![sep] + b).last() == b.last());
        let prev = split_on(a, sep).push(b0);
        assert(b0.push(b.last()) == b);
        assert(prev.update(prev.len() - 1, b0.push(b.last())) =~= split_on(a, sep).push(b));
    }
}

/// Leading whitespace of a concatenation comes from its first part while
/// that part has anything else.
pub proof fn lemma_trim_start_concat(a: Seq<char>, b: Seq<char>)
    ensures
        trim_start(a).len() > 0 ==> trim_start(a + b) == trim_start(a) + b,
        trim_start(a).len() == 0 ==> trim_start(a + b) == trim_start(b),
    decreases a.len(),
{
    if a.len() == 0 {
        assert(a + b == b);
    } else if is_whitespace(a[0]) {
        lemma_trim_start_concat(a.drop_first(), b);
        assert((a + b).drop_first() == a.drop_first() + b);
        assert((a + b)[0] == a[0]);
    } else {
        assert((a + b)[0] == a[0]);
    }
}

/// Trailing whitespace of a concatenation comes from its last part while
/// that part has anything else.
pub proof fn lemma_trim_end_concat(a: Seq<char>, b: Seq<char>)
    requires
        a.len() > 0,
        !is_whitespace(a.last()),
    ensures
        trim_end(a + b) == a + trim_end(b),
    decreases b.len(),
{
    if b.len() == 0 {
        assert(a + b == a);
        assert(a + trim_end(b) == a);
    } else {
        assert((a + b).last() == b.last());
        if is_whitespace(b.last()) {
            lemma_trim_end_concat(a, b.drop_last());
            assert((a + b).drop_last() == a + b.drop_last());
        } else {
            assert(trim_end(b) == b);
        }
    }
}

/// `trim_start` removes everything there is to remove at once.
pub proof fn lemma_trim_start_idempotent(s: Seq<char>)
    ensures
        trim_start(trim_start(s)) == trim_start(s),
    decreases s.len(),
{
    if s.len() > 0 && is_whitespace(s[0]) {
        lemma_trim_start_idempotent(s.drop_first());
    }
}

/// Trimming after dropping trailing whitespace is trimming.
pub proof fn lemma_trim_of_trim_end(v: Seq<char>)
    ensures
        trim(trim_end(v)) == trim(v),
    decreases v.len(),
{
    if v.len() > 0 && is_whitespace(v.last()) {
        let x = v.drop_last();
        let c = v.last();
        lemma_trim_of_trim_end(x);
        assert(x + seq![c] == v);
        lemma_trim_start_concat(x, seq![c]);
        assert(v.drop_last() == x);
        assert(trim_end(v) == trim_end(x));
        if trim_start(x).len() > 0 {
            let t = trim_start(x);
            assert(trim_start(v) == t + seq![c]);
            assert((t + seq![c]).drop_last() == t);
            assert((t + seq![c]).last() == c);
            assert(trim_end(t + seq![c]) == trim_end(t));
            assert(trim(v) == trim(x));
        } else {
            assert(trim_start(v) == trim_start(seq![c]));
            assert(seq![c][0] == c);
            assert(seq![c].drop_first() == Seq::<char>::empty());
            assert(trim_start(seq![c]) == trim_start(Seq::<char>::empty()));
            assert(trim_start(v) == Seq::<char>::empty());
            assert(trim_start(x) == Seq::<char>::empty());
            assert(trim(v) == trim(x));
        }
    }
}

/// `trim_start` keeps only characters of its input: a character absent
/// from `s` is absent from it.
pub proof fn lemma_trim_start_lacks(s: Seq<char>, c: char)
    requires
        forall|j: int| 0 <= j < s.len() ==> s[j] != c,
    ensures
        forall|j: int| 0 <= j < trim_start(s).len() ==> trim_start(s)[j] != c,
    decreases s.len(),
{
    if s.len() > 0 && is_whitespace(s[0]) {
        let r = s.drop_first();
        assert forall|j: int| 0 <= j < r.len() implies r[j] != c by {
            assert(r[j] == s[j + 1]);
        }
        lemma_trim_start_lacks(r, c);
        assert(trim_start(s) == trim_start(r));
    } else {
        assert(trim_start(s) == s);
    }
}

/// The first `c` of `a + [c] + b`, where `a` holds none, is right after `a`.
pub proof fn lemma_index_of_after(a: Seq<char>, c: char, b: Seq<char>)
    requires
        forall|j: int| 0 <= j < a.len() ==> a[j] != c,
    ensures
        index_of(a + seq![c] + b, c) == a.len(),
    decreases a.len(),
{
    let s = a + seq![c] + b;
    if a.len() == 0 {
        assert(s[0] == c);
    } else {
        let r = a.drop_first();
        assert forall|j: int| 0 <= j < r.len() implies r[j] != c by {
            assert(r[j] == a[j + 1]);
        }
        lemma_index_of_after(r, c, b);
        assert(s[0] == a[0]);
        assert(s.drop_first() == r + seq![c] + b);
    }
}

// ---------------------------------------------------------------------------
// Executable counterparts
// ---------------------------------------------------------------------------

/// Builds a `String` from its characters with `FromIterator<&char>`.
/// Trusted: the string holds exactly those characters, in order.
#[verifier::external_body]
pub(crate) fn string_from_chars(chars: &[char]) -> (s: String)
    ensures
        s@ == chars@,
{
    chars.iter().collect()
}

/// Copies the characters of `s` into a vector.
pub fn chars_of(s: &str) -> (res: Vec<char>)
    ensures
        res@ == s@,
{
    let mut res: Vec<char> = Vec::new();
    for c in it: s.chars()
        invariant
            it.seq() == s@,
            res@ == s@.take(it.index() as int),
    {
        res.push(c);
    }
    res
}

/// `char::is_whitespace`.
pub fn char_is_whitespace(c: char) -> (res: bool)
    ensures
        res == is_whitespace(c),
{
    let v = c as u32;
    (0x09 <= v && v <= 0x0D) || v == 0x20 || v == 0x85 || v == 0xA0 || v == 0x1680 || (0x2000 <= v
        && v <= 0x200A) || v == 0x2028 || v == 0x2029 || v == 0x202F || v == 0x205F || v == 0x3000
}

/// The number of leading whitespace characters of `s`.
pub fn leading_whitespace(s: &[char]) -> (n: usize)
    ensures
        n <= s@.len(),
        trim_start(s@) == s@.skip(n as int),
{
    let mut i: usize = 0;
    assert(s@.skip(0) == s@);
    while i < s.len() && char_is_whitespace(s[i])
        invariant
            i <= s@.len(),
            trim_start(s@) == trim_start(s@.skip(i as int)),
        decreases s@.len() - i,
    {
        assert(s@.skip(i as int).drop_first() == s@.skip(i + 1));
        i = i + 1;
    }
    proof {
        if i < s@.len() {
            assert(s@.skip(i as int)[0] == s@[i as int]);
        }
    }
    i
}

/// The length of `s` once its trailing whitespace is dropped.
pub fn trimmed_end_len(s: &[char]) -> (n: usize)
    ensures
        n <= s@.len(),
        trim_end(s@) == s@.take(n as int),
{
    let mut n: usize = s.len();
    assert(s@.take(n as int) == s@);
    while n > 0 && char_is_whitespace(s[n - 1])
        invariant
            n <= s@.len(),
            trim_end(s@) == trim_end(s@.take(n as int)),
        decreases n,
    {
        assert(s@.take(n as int).drop_last() == s@.take(n - 1));
        n = n - 1;
    }
    assert(s@.take(n as int) == s@.take(n as int));
    n
}

/// The characters of `s[from..to]`.
pub fn slice_chars(s: &[char], from: usize, to: usize) -> (res: Vec<char>)
    requires
        from <= to <= s@.len(),
    ensures
        res@ == s@.subrange(from as int, to as int),
{
    let mut res: Vec<char> = Vec::new();
    let mut i = from;
    while i < to
        invariant
            from <= i <= to,
            to <= s@.len(),
            res@ == s@.subrange(from as int, i as int),
        decreases to - i,
    {
        res.push(s[i]);
        i = i + 1;
    }
    res
}

/// `s` with leading and trailing whitespace removed (`str::trim`).
pub fn trim_chars(s: &[char]) -> (res: Vec<char>)
    ensures
        res@ == trim(s@),
{
    let start = leading_whitespace(s);
    let rest = slice_chars(s, start, s.len());
    assert(rest@ == s@.skip(start as int));
    let end = trimmed_end_len(rest.as_slice());
    slice_chars(rest.as_slice(), 0, end)
}

/// The index of the first `c` in `s`, or `s.len()` when there is none.
pub fn find_char(s: &[char], c: char) -> (i: usize)
    ensures
        i == index_of(s@, c),
{
    let mut i: usize = 0;
    assert(s@.skip(0) == s@);
    while i < s.len() && s[i] != c
        invariant
            i <= s@.len(),
            index_of(s@, c) == i + index_of(s@.skip(i as int), c),
        decreases s@.len() - i,
    {
        assert(s@.skip(i as int).drop_first() == s@.skip(i + 1));
        i = i + 1;
    }
    proof {
        if i < s@.len() {
            assert(s@.skip(i as int)[0] == s@[i as int]);
        }
    }
    i
}

/// Splits `s` at every `sep`, as `str::split` with a single character.
pub fn split_chars(s: &[char], sep: char) -> (pieces: Vec<Vec<char>>)
    ensures
        pieces@.map_values(|p: Vec<char>| p@) == split_on(s@, sep),
{
    let mut pieces: Vec<Vec<char>> = Vec::new();
    let mut cur: Vec<char> = Vec::new();
    let n = s.len();
    let mut i: usize = 0;
    while i < n
        invariant
            n == s@.len(),
            i <= n,
            pieces@.map_values(|p: Vec<char>| p@).push(cur@) == split_on(s@.take(i as int), sep),
        decreases n - i,
    {
        let c = s[i];
        let ghost before = pieces@.map_values(|p: Vec<char>| p@).push(cur@);
        assert(s@.take(i + 1).drop_last() == s@.take(i as int));
        if c == sep {
            let done = cur;
            cur = Vec::new();
            pieces.push(done);
            assert(pieces@.map_values(|p: Vec<char>| p@) == before);
            assert(pieces@.map_values(|p: Vec<char>| p@).push(cur@) == before.push(
                Seq::<char>::empty(),
            ));
        } else {
            cur.push(c);
            assert(pieces@.map_values(|p: Vec<char>| p@).push(cur@) == before.update(
                before.len() - 1,
                before.last().push(c),
            ));
        }
        i = i + 1;
    }
    assert(s@.take(n as int) == s@);
    let ghost before = pieces@.map_values(|p: Vec<char>| p@).push(cur@);
    pieces.push(cur);
    assert(pieces@.map_values(|p: Vec<char>| p@) == before);
    pieces
}

/// The ASCII upper-case form of `s`.
pub fn ascii_upper_chars(s: &[char]) -> (res: Vec<char>)
    ensures
        res@ == ascii_upper(s@),
{
    let mut res: Vec<char> = Vec::new();
    let n = s.len();
    let mut i: usize = 0;
    while i < n
        invariant
            n == s@.len(),
            i <= n,
            res@ == ascii_upper(s@.take(i as int)),
        decreases n - i,
    {
        let c = s[i];
        let u = if 'a' <= c && c <= 'z' {
            ((c as u8) - 32) as char
        } else {
            c
        };
        assert(u == ascii_upper_char(c));
        res.push(u);
        i = i + 1;
        assert(ascii_upper(s@.take(i as int)) == ascii_upper(s@.take(i - 1)).push(
            ascii_upper_char(c),
        ));
    }
    assert(s@.take(n as int) == s@);
    res
}

/// Whether two character sequences are equal.
pub fn chars_eq(a: &[char], b: &[char]) -> (res: bool)
    ensures
        res == (a@ == b@),
{
    if a.len() != b.len() {
        return false;
    }
    let mut i: usize = 0;
    while i < a.len()
        invariant
            a@.len() == b@.len(),
            i <= a@.len(),
            forall|j: int| 0 <= j < i ==> a@[j] == b@[j],
        decreases a@.len() - i,
    {
        if a[i] != b[i] {
            return false;
        }
        i = i + 1;
    }
    assert(a@ == b@);
    true
}

} // verus!
