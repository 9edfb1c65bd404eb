//! Merging the security settings into a `nifi.properties` template.
//!
//! The merge works on lines, never on a parsed key/value model: for each of
//! the seven security keys, the first template line that sets the key
//! (`key=` after optional leading whitespace) is replaced by `key=value`;
//! keys that no line sets are appended at the end, one `key=value` line each,
//! in a fixed order. Every other line (other properties, comments, blank
//! lines, later repeats of a key) is kept exactly as it was, in its place.

use vstd::prelude::*;

use crate::text::{
    chars_of, is_whitespace, join_with, leading_whitespace, lemma_join_split,
    lemma_split_join, lemma_split_on_nonempty, lemma_split_pieces_lack_sep,
    lemma_trim_start_noop, slice_chars, split_chars, split_on, string_from_chars, trim_start,
};

verus! {

// ---------------------------------------------------------------------------
// Specification
// ---------------------------------------------------------------------------

/// Whether `line` sets `key`: after its leading whitespace it starts with
/// `key` followed by `=`.
pub open spec fn sets_key(line: Seq<char>, key: Seq<char>) -> bool {
    let t = trim_start(line);
    t.len() > key.len() && t.take(key.len() as int) == key && t[key.len() as int] == '='
}

/// The index of the first line that sets `key`, or `lines.len()` when none
/// does.
pub open spec fn first_setting(lines: Seq<Seq<char>>, key: Seq<char>) -> int
    decreases lines.len(),
{
    if lines.len() == 0 {
        0
    } else if sets_key(lines[0], key) {
        0
    } else {
        1 + first_setting(lines.drop_first(), key)
    }
}

/// The line `key=value`.
pub open spec fn property_line(key: Seq<char>, value: Seq<char>) -> Seq<char> {
    key + seq!['='] + value
}

/// The settings that every node's `nifi.properties` receives, in the order
/// in which missing ones are appended.
pub open spec fn security_properties(password: Seq<char>) -> Seq<(Seq<char>, Seq<char>)> {
    seq![
        ("nifi.security.keystore"@, "./keystore.p12"@),
        ("nifi.security.keystoreType"@, "PKCS12"@),
        ("nifi.security.keystorePasswd"@, password),
        ("nifi.security.keyPasswd"@, password),
        ("nifi.security.truststore"@, "./truststore.jks"@),
        ("nifi.security.truststoreType"@, "JKS"@),
        ("nifi.security.truststorePasswd"@, password),
    ]
}

/// Line `i` of the template after the first setting of each key has been
/// replaced.
pub open spec fn rewritten_line(lines: Seq<Seq<char>>, props: Seq<(Seq<char>, Seq<char>)>, i: int) -> Seq<
    char,
>
    decreases props.len(),
{
    if props.len() == 0 {
        lines[i]
    } else if first_setting(lines, props.last().0) == i {
        property_line(props.last().0, props.last().1)
    } else {
        rewritten_line(lines, props.drop_last(), i)
    }
}

/// All template lines, with the first setting of each key replaced.
pub open spec fn rewritten_lines(lines: Seq<Seq<char>>, props: Seq<(Seq<char>, Seq<char>)>) -> Seq<
    Seq<char>,
> {
    Seq::new(lines.len(), |i: int| rewritten_line(lines, props, i))
}

/// The `key=value` lines of the keys that no template line sets, in order.
pub open spec fn added_lines(lines: Seq<Seq<char>>, props: Seq<(Seq<char>, Seq<char>)>) -> Seq<
    Seq<char>,
>
    decreases props.len(),
{
    if props.len() == 0 {
        seq![]
    } else {
        let prev = added_lines(lines, props.drop_last());
        if first_setting(lines, props.last().0) >= lines.len() {
            prev.push(property_line(props.last().0, props.last().1))
        } else {
            prev
        }
    }
}

/// The merged lines: the rewritten template, then the added lines. When
/// lines are added the text ends with a newline; the empty remainder after a
/// final newline of the template gives way to them.
pub open spec fn merged_lines(lines: Seq<Seq<char>>, props: Seq<(Seq<char>, Seq<char>)>) -> Seq<
    Seq<char>,
> {
    let rewritten = rewritten_lines(lines, props);
    let added = added_lines(lines, props);
    if added.len() == 0 {
        rewritten
    } else if lines.len() > 0 && lines.last().len() == 0 {
        rewritten.drop_last() + added + seq![Seq::<char>::empty()]
    } else {
        rewritten + added + seq![Seq::<char>::empty()]
    }
}

/// The lines of a text, split at `'\n'`.
pub open spec fn lines_of(text: Seq<char>) -> Seq<Seq<char>> {
    split_on(text, '\n')
}

/// The merged `nifi.properties` text for `template` and `password`.
pub open spec fn merged_properties(template: Seq<char>, password: Seq<char>) -> Seq<char> {
    join_with(merged_lines(lines_of(template), security_properties(password)), '\n')
}

// ---------------------------------------------------------------------------
// Executable merge
// ---------------------------------------------------------------------------

/// The character sequences held by a vector of character vectors.
pub open spec fn deep(v: Seq<Vec<char>>) -> Seq<Seq<char>> {
    v.map_values(|p: Vec<char>| p@)
}

/// The key/value pairs held by a vector of character-vector pairs.
pub open spec fn deep_pairs(v: Seq<(Vec<char>, Vec<char>)>) -> Seq<(Seq<char>, Seq<char>)> {
    v.map_values(|p: (Vec<char>, Vec<char>)| (p.0@, p.1@))
}

/// Whether `line` sets `key`.
fn line_sets_key(line: &[char], key: &[char]) -> (res: bool)
    ensures
        res == sets_key(line@, key@),
{
    let p = leading_whitespace(line);
    let ghost t = line@.skip(p as int);
    if line.len() - p <= key.len() {
        return false;
    }
    let mut j: usize = 0;
    while j < key.len()
        invariant
            t == line@.skip(p as int),
            t == trim_start(line@),
            p <= line@.len(),
            line@.len() <= usize::MAX,
            p + key@.len() < line@.len(),
            j <= key@.len(),
            forall|m: int| 0 <= m < j ==> t[m] == key@[m],
        decreases key@.len() - j,
    {
        assert(j < key@.len());
        assert(p + j < line@.len());
        assert(t[j as int] == line@[p + j]);
        if line[p + j] != key[j] {
            assert(t.take(key@.len() as int)[j as int] != key@[j as int]);
            return false;
        }
        j = j + 1;
    }
    assert(t.take(key@.len() as int) == key@);
    assert(t[key@.len() as int] == line@[p + key@.len()]);
    line[p + key.len()] == '='
}

/// The index of the first line that sets `key`, or the number of lines.
fn first_setting_index(lines: &Vec<Vec<char>>, key: &[char]) -> (i: usize)
    ensures
        i == first_setting(deep(lines@), key@),
{
    let ghost lv = deep(lines@);
    let mut i: usize = 0;
    assert(lv.skip(0) == lv);
    while i < lines.len() && !line_sets_key(lines[i].as_slice(), key)
        invariant
            lv == deep(lines@),
            i <= lines@.len(),
            first_setting(lv, key@) == i + first_setting(lv.skip(i as int), key@),
        decreases lines@.len() - i,
    {
        assert(lv.skip(i as int).drop_first() == lv.skip(i + 1));
        assert(lv.skip(i as int)[0] == lines@[i as int]@);
        i = i + 1;
    }
    proof {
        if i < lines@.len() {
            assert(lv.skip(i as int)[0] == lines@[i as int]@);
        }
    }
    i
}

/// The characters of `key=value`.
fn property_line_chars(key: &[char], value: &[char]) -> (res: Vec<char>)
    ensures
        res@ == property_line(key@, value@),
{
    let mut res = slice_chars(key, 0, key.len());
    res.push('=');
    let mut j: usize = 0;
    while j < value.len()
        invariant
            j <= value@.len(),
            res@ == key@.take(key@.len() as int) + seq!['='] + value@.take(j as int),
        decreases value@.len() - j,
    {
        res.push(value[j]);
        j = j + 1;
        assert(value@.take(j as int) == value@.take(j - 1).push(value@[j - 1]));
    }
    assert(value@.take(value@.len() as int) == value@);
    assert(key@.take(key@.len() as int) == key@);
    res
}

/// The merged lines for a template already split into lines and for any
/// list of settings.
pub fn merge_lines(lines: &Vec<Vec<char>>, props: &Vec<(Vec<char>, Vec<char>)>) -> (out: Vec<
    Vec<char>,
>)
    ensures
        deep(out@) == merged_lines(deep(lines@), deep_pairs(props@)),
{
    let ghost lv = deep(lines@);
    let ghost pv = deep_pairs(props@);
    let n = lines.len();
    let np = props.len();
    let mut found: Vec<usize> = Vec::new();
    let mut k: usize = 0;
    while k < np
        invariant
            np == props@.len(),
            lv == deep(lines@),
            pv == deep_pairs(props@),
            k <= np,
            found@.len() == k,
            forall|t: int| 0 <= t < k ==> #[trigger] found@[t] == first_setting(lv, pv[t].0),
        decreases np - k,
    {
        let f = first_setting_index(lines, props[k].0.as_slice());
        found.push(f);
        k = k + 1;
    }
    let mut out: Vec<Vec<char>> = Vec::new();
    let mut i: usize = 0;
    while i < n
        invariant
            n == lines@.len(),
            np == props@.len(),
            lv == deep(lines@),
            pv == deep_pairs(props@),
            found@.len() == np,
            forall|t: int| 0 <= t < np ==> #[trigger] found@[t] == first_setting(lv, pv[t].0),
            i <= n,
            deep(out@) == rewritten_lines(lv, pv).take(i as int),
        decreases n - i,
    {
        let mut chosen: Option<usize> = None;
        let mut k: usize = 0;
        while k < np
            invariant
                np == props@.len(),
                lv == deep(lines@),
                pv == deep_pairs(props@),
                found@.len() == np,
                forall|t: int| 0 <= t < np ==> #[trigger] found@[t] == first_setting(lv, pv[t].0),
                i < n,
                n == lines@.len(),
                k <= np,
                rewritten_line(lv, pv.take(k as int), i as int) == match chosen {
                    Some(c) => property_line(pv[c as int].0, pv[c as int].1),
                    None => lv[i as int],
                },
                chosen matches Some(c) ==> c < np,
            decreases np - k,
        {
            assert(pv.take(k + 1).drop_last() == pv.take(k as int));
            assert(pv.take(k + 1).last() == pv[k as int]);
            assert(found@[k as int] == first_setting(lv, pv[k as int].0));
            if found[k] == i {
                chosen = Some(k);
            }
            k = k + 1;
        }
        assert(pv.take(np as int) == pv);
        let line = match chosen {
            Some(c) => property_line_chars(props[c].0.as_slice(), props[c].1.as_slice()),
            None => slice_chars(lines[i].as_slice(), 0, lines[i].len()),
        };
        proof {
            assert(lines@[i as int]@.subrange(0, lines@[i as int]@.len() as int) == lv[i as int]);
        }
        let ghost before = deep(out@);
        out.push(line);
        i = i + 1;
        assert(deep(out@) == before.push(line@));
        assert(rewritten_lines(lv, pv).take(i as int) == rewritten_lines(lv, pv).take(i - 1).push(
            rewritten_line(lv, pv, i - 1),
        ));
    }
    assert(rewritten_lines(lv, pv).take(n as int) == rewritten_lines(lv, pv));
    let mut added: Vec<Vec<char>> = Vec::new();
    let mut k: usize = 0;
    while k < np
        invariant
            np == props@.len(),
            n == lines@.len(),
            lv == deep(lines@),
            pv == deep_pairs(props@),
            found@.len() == np,
            forall|t: int| 0 <= t < np ==> #[trigger] found@[t] == first_setting(lv, pv[t].0),
            k <= np,
            deep(added@) == added_lines(lv, pv.take(k as int)),
        decreases np - k,
    {
        assert(pv.take(k + 1).drop_last() == pv.take(k as int));
        assert(pv.take(k + 1).last() == pv[k as int]);
        assert(found@[k as int] == first_setting(lv, pv[k as int].0));
        if found[k] >= n {
            let line = property_line_chars(props[k].0.as_slice(), props[k].1.as_slice());
            let ghost before = deep(added@);
            added.push(line);
            assert(deep(added@) == before.push(line@));
        }
        k = k + 1;
    }
    assert(pv.take(np as int) == pv);
    if added.len() > 0 {
        let ghost rewritten = deep(out@);
        if n > 0 && lines[n - 1].len() == 0 {
            out.pop();
            assert(deep(out@) == rewritten.drop_last());
        }
        let ghost kept = deep(out@);
        let mut j: usize = 0;
        while j < added.len()
            invariant
                deep(out@) == kept + deep(added@).take(j as int),
                j <= added@.len(),
            decreases added@.len() - j,
        {
            let line = slice_chars(added[j].as_slice(), 0, added[j].len());
            assert(added@[j as int]@.subrange(0, added@[j as int]@.len() as int) == added@[j as int]@);
            let ghost before = deep(out@);
            out.push(line);
            j = j + 1;
            assert(deep(out@) == before.push(line@));
            assert(deep(added@).take(j as int) == deep(added@).take(j - 1).push(added@[j - 1]@));
        }
        assert(deep(added@).take(added@.len() as int) == deep(added@));
        let ghost before = deep(out@);
        out.push(Vec::new());
        assert(deep(out@) == before.push(Seq::<char>::empty()));
    }
    out
}

/// Joins lines with `'\n'`.
fn join_lines(lines: &Vec<Vec<char>>) -> (text: Vec<char>)
    ensures
        text@ == join_with(deep(lines@), '\n'),
{
    let ghost lv = deep(lines@);
    let mut text: Vec<char> = Vec::new();
    let n = lines.len();
    let mut i: usize = 0;
    while i < n
        invariant
            n == lines@.len(),
            lv == deep(lines@),
            i <= n,
            text@ == join_with(lv.take(i as int), '\n'),
        decreases n - i,
    {
        let ghost prev = text@;
        if i > 0 {
            text.push('\n');
        }
        let line = &lines[i];
        let mut j: usize = 0;
        let ghost mid = text@;
        while j < line.len()
            invariant
                text@ == mid + line@.take(j as int),
                j <= line@.len(),
            decreases line@.len() - j,
        {
            text.push(line[j]);
            j = j + 1;
            assert(line@.take(j as int) == line@.take(j - 1).push(line@[j - 1]));
        }
        assert(line@.take(line@.len() as int) == line@);
        i = i + 1;
        assert(lv.take(i as int).drop_last() == lv.take(i - 1));
        assert(lv.take(i as int).last() == line@);
        if i == 1 {
            assert(lv.take(1)[0] == line@);
        }
    }
    assert(lv.take(n as int) == lv);
    text
}

/// The settings as character vectors, in the order of `security_properties`.
fn security_property_list(password: &str) -> (props: Vec<(Vec<char>, Vec<char>)>)
    ensures
        deep_pairs(props@) == security_properties(password@),
{
    let mut props: Vec<(Vec<char>, Vec<char>)> = Vec::new();
    props.push((chars_of("nifi.security.keystore"), chars_of("./keystore.p12")));
    props.push((chars_of("nifi.security.keystoreType"), chars_of("PKCS12")));
    props.push((chars_of("nifi.security.keystorePasswd"), chars_of(password)));
    props.push((chars_of("nifi.security.keyPasswd"), chars_of(password)));
    props.push((chars_of("nifi.security.truststore"), chars_of("./truststore.jks")));
    props.push((chars_of("nifi.security.truststoreType"), chars_of("JKS")));
    props.push((chars_of("nifi.security.truststorePasswd"), chars_of(password)));
    assert(deep_pairs(props@) == security_properties(password@));
    props
}

/// Merges the seven security settings (keystore, its type and password, key
/// password, truststore, its type and password) into a `nifi.properties`
/// template: the first line that sets a key is rewritten in place, keys that
/// no line sets are appended, and every other line is kept byte for byte.
pub fn merge(template: &str, password: &str) -> (merged: String)
    ensures
        merged@ == merged_properties(template@, password@),
{
    let chars = chars_of(template);
    let lines = split_chars(chars.as_slice(), '\n');
    let props = security_property_list(password);
    let out = merge_lines(&lines, &props);
    let text = join_lines(&out);
    string_from_chars(text.as_slice())
}

// ---------------------------------------------------------------------------
// Properties of the merge
// ---------------------------------------------------------------------------

/// A list of settings that the merge treats soundly: every key is non-empty,
/// starts with a non-whitespace character and holds neither `=` nor a line
/// break, no value holds a line break, and no key occurs twice.
pub open spec fn well_formed_settings(props: Seq<(Seq<char>, Seq<char>)>) -> bool {
    &&& forall|a: int|
        0 <= a < props.len() ==> #[trigger] props[a].0.len() > 0 && !is_whitespace(props[a].0[0])
    &&& forall|a: int, j: int|
        0 <= a < props.len() && 0 <= j < props[a].0.len() ==> #[trigger] props[a].0[j] != '='
            && props[a].0[j] != '\n'
    &&& forall|a: int, j: int|
        0 <= a < props.len() && 0 <= j < props[a].1.len() ==> #[trigger] props[a].1[j] != '\n'
    &&& forall|a: int, b: int|
        #![trigger props[a], props[b]]
        0 <= a < props.len() && 0 <= b < props.len() && a != b ==> props[a].0 != props[b].0
}

/// Whether `s` holds no `'='`.
pub open spec fn no_equals(s: Seq<char>) -> bool {
    forall|j: int| 0 <= j < s.len() ==> s[j] != '='
}

proof fn lemma_first_setting_facts(lines: Seq<Seq<char>>, key: Seq<char>)
    ensures
        0 <= first_setting(lines, key) <= lines.len(),
        first_setting(lines, key) < lines.len() ==> sets_key(lines[first_setting(lines, key)], key),
        forall|j: int| 0 <= j < first_setting(lines, key) ==> !sets_key(#[trigger] lines[j], key),
    decreases lines.len(),
{
    if lines.len() > 0 && !sets_key(lines[0], key) {
        let rest = lines.drop_first();
        lemma_first_setting_facts(rest, key);
        assert forall|j: int| 0 <= j < first_setting(lines, key) implies !sets_key(
            #[trigger] lines[j],
            key,
        ) by {
            if j > 0 {
                assert(rest[j - 1] == lines[j]);
            }
        }
        if first_setting(lines, key) < lines.len() {
            assert(rest[first_setting(rest, key)] == lines[first_setting(lines, key)]);
        }
    }
}

proof fn lemma_first_setting_is(lines: Seq<Seq<char>>, key: Seq<char>, f: int)
    requires
        0 <= f <= lines.len(),
        f < lines.len() ==> sets_key(lines[f], key),
        forall|j: int| 0 <= j < f ==> !sets_key(#[trigger] lines[j], key),
    ensures
        first_setting(lines, key) == f,
{
    lemma_first_setting_facts(lines, key);
    let g = first_setting(lines, key);
    if g < f {
        assert(!sets_key(lines[g], key));
    }
    if f < g {
        assert(!sets_key(lines[f], key));
    }
}

proof fn lemma_first_setting_concat(x: Seq<Seq<char>>, y: Seq<Seq<char>>, key: Seq<char>)
    ensures
        first_setting(x, key) < x.len() ==> first_setting(x + y, key) == first_setting(x, key),
        first_setting(x, key) >= x.len() ==> first_setting(x + y, key) == x.len() + first_setting(
            y,
            key,
        ),
{
    lemma_first_setting_facts(x, key);
    lemma_first_setting_facts(y, key);
    let xy = x + y;
    let f = first_setting(x, key);
    if f < x.len() {
        assert forall|j: int| 0 <= j < f implies !sets_key(#[trigger] xy[j], key) by {
            assert(xy[j] == x[j]);
        }
        assert(xy[f] == x[f]);
        lemma_first_setting_is(xy, key, f);
    } else {
        let g = x.len() + first_setting(y, key);
        assert forall|j: int| 0 <= j < g implies !sets_key(#[trigger] xy[j], key) by {
            if j < x.len() {
                assert(xy[j] == x[j]);
            } else {
                assert(xy[j] == y[j - x.len()]);
            }
        }
        if g < xy.len() {
            assert(xy[g] == y[first_setting(y, key)]);
        }
        lemma_first_setting_is(xy, key, g);
    }
}

/// A line sets at most one key that holds no `=`.
proof fn lemma_sets_one_key(line: Seq<char>, k1: Seq<char>, k2: Seq<char>)
    requires
        sets_key(line, k1),
        sets_key(line, k2),
        no_equals(k1),
        no_equals(k2),
    ensures
        k1 == k2,
{
    let t = trim_start(line);
    if k1.len() < k2.len() {
        assert(t.take(k2.len() as int)[k1.len() as int] == t[k1.len() as int]);
        assert(k2[k1.len() as int] == '=');
    } else if k2.len() < k1.len() {
        assert(t.take(k1.len() as int)[k2.len() as int] == t[k2.len() as int]);
        assert(k1[k2.len() as int] == '=');
    } else {
        assert(k1 == t.take(k1.len() as int));
    }
}

proof fn lemma_key_no_equals(props: Seq<(Seq<char>, Seq<char>)>, a: int)
    requires
        well_formed_settings(props),
        0 <= a < props.len(),
    ensures
        no_equals(props[a].0),
{
    assert forall|j: int| 0 <= j < props[a].0.len() implies props[a].0[j] != '=' by {
        assert(props[a].0[j] != '=');
    }
}

/// The line `key=value` of a well-formed setting sets its own key and no
/// other.
proof fn lemma_property_line_sets(props: Seq<(Seq<char>, Seq<char>)>, a: int)
    requires
        well_formed_settings(props),
        0 <= a < props.len(),
    ensures
        sets_key(property_line(props[a].0, props[a].1), props[a].0),
        forall|b: int|
            0 <= b < props.len() && b != a ==> !sets_key(
                property_line(props[a].0, props[a].1),
                #[trigger] props[b].0,
            ),
{
    let key = props[a].0;
    let line = property_line(key, props[a].1);
    assert(props[a].0.len() > 0);
    assert(line[0] == key[0]);
    lemma_trim_start_noop(line);
    assert(line.take(key.len() as int) == key);
    assert(line[key.len() as int] == '=');
    assert forall|b: int| 0 <= b < props.len() && b != a implies !sets_key(
        line,
        #[trigger] props[b].0,
    ) by {
        if sets_key(line, props[b].0) {
            lemma_key_no_equals(props, a);
            lemma_key_no_equals(props, b);
            lemma_sets_one_key(line, key, props[b].0);
            assert(props[a].0 != props[b].0);
        }
    }
}

proof fn lemma_well_formed_prefix(props: Seq<(Seq<char>, Seq<char>)>)
    requires
        well_formed_settings(props),
        props.len() > 0,
    ensures
        well_formed_settings(props.drop_last()),
{
    let p = props.drop_last();
    assert forall|a: int| 0 <= a < p.len() implies #[trigger] p[a].0.len() > 0 && !is_whitespace(
        p[a].0[0],
    ) by {
        assert(p[a] == props[a]);
    }
    assert forall|a: int, j: int| 0 <= a < p.len() && 0 <= j < p[a].0.len() implies #[trigger] p[a].0[j]
        != '=' && p[a].0[j] != '\n' by {
        assert(p[a] == props[a]);
    }
    assert forall|a: int, j: int| 0 <= a < p.len() && 0 <= j < p[a].1.len() implies #[trigger] p[a].1[j]
        != '\n' by {
        assert(p[a] == props[a]);
    }
    assert forall|a: int, b: int|
        #![trigger p[a], p[b]]
        0 <= a < p.len() && 0 <= b < p.len() && a != b implies p[a].0 != p[b].0 by {
        assert(p[a] == props[a]);
        assert(p[b] == props[b]);
    }
}

/// Line `i` of the rewritten template is `key=value` for the key whose first
/// setting is line `i`, and the template's own line where no key's first
/// setting is.
proof fn lemma_rewritten_line(lines: Seq<Seq<char>>, props: Seq<(Seq<char>, Seq<char>)>, i: int)
    requires
        well_formed_settings(props),
        0 <= i < lines.len(),
    ensures
        (forall|a: int| 0 <= a < props.len() ==> first_setting(lines, #[trigger] props[a].0) != i)
            ==> rewritten_line(lines, props, i) == lines[i],
        forall|a: int|
            0 <= a < props.len() && first_setting(lines, #[trigger] props[a].0) == i
                ==> rewritten_line(lines, props, i) == property_line(props[a].0, props[a].1),
    decreases props.len(),
{
    if props.len() > 0 {
        let p = props.drop_last();
        let last = props.len() - 1;
        lemma_well_formed_prefix(props);
        lemma_rewritten_line(lines, p, i);
        assert(props.last() == props[last]);
        if first_setting(lines, props[last].0) == i {
            assert forall|a: int|
                0 <= a < props.len() && first_setting(lines, #[trigger] props[a].0) == i implies a
                == last by {
                if a != last {
                    lemma_first_setting_facts(lines, props[a].0);
                    lemma_first_setting_facts(lines, props[last].0);
                    lemma_key_no_equals(props, a);
                    lemma_key_no_equals(props, last);
                    lemma_sets_one_key(lines[i], props[a].0, props[last].0);
                }
            }
        } else {
            assert forall|a: int| 0 <= a < p.len() implies p[a] == props[a] by {}
        }
    }
}

/// What the added lines are: for a key that no template line sets, its
/// `key=value` line is the first added line that sets it; no added line sets
/// a key that the template sets, nor a key outside the list; nothing is added
/// when the template sets every key; no added line holds a line break.
proof fn lemma_added_lines(lines: Seq<Seq<char>>, props: Seq<(Seq<char>, Seq<char>)>)
    requires
        well_formed_settings(props),
    ensures
        forall|a: int|
            0 <= a < props.len() && first_setting(lines, #[trigger] props[a].0) >= lines.len() ==> {
                let added = added_lines(lines, props);
                &&& first_setting(added, props[a].0) < added.len()
                &&& added[first_setting(added, props[a].0)] == property_line(props[a].0, props[a].1)
            },
        forall|a: int|
            0 <= a < props.len() && first_setting(lines, #[trigger] props[a].0) < lines.len()
                ==> first_setting(added_lines(lines, props), props[a].0) == added_lines(
                lines,
                props,
            ).len(),
        forall|key: Seq<char>|
            no_equals(key) && (forall|b: int| 0 <= b < props.len() ==> #[trigger] props[b].0 != key)
                ==> first_setting(added_lines(lines, props), key) == added_lines(lines, props).len(),
        (forall|a: int| 0 <= a < props.len() ==> first_setting(lines, #[trigger] props[a].0) < lines.len())
            ==> added_lines(lines, props).len() == 0,
        forall|q: int, j: int|
            0 <= q < added_lines(lines, props).len() && 0 <= j < added_lines(lines, props)[q].len()
                ==> #[trigger] added_lines(lines, props)[q][j] != '\n',
    decreases props.len(),
{
    let added = added_lines(lines, props);
    if props.len() == 0 {
        assert forall|key: Seq<char>|
            no_equals(key) && (forall|b: int| 0 <= b < props.len() ==> #[trigger] props[b].0 != key)
            implies first_setting(added, key) == added.len() by {}
    } else {
        let p = props.drop_last();
        let last = props.len() - 1;
        lemma_well_formed_prefix(props);
        lemma_added_lines(lines, p);
        let prev = added_lines(lines, p);
        assert(props.last() == props[last]);
        assert forall|a: int| 0 <= a < p.len() implies p[a] == props[a] by {}
        let line_last = property_line(props[last].0, props[last].1);
        lemma_property_line_sets(props, last);
        // The last key is not among the earlier ones.
        lemma_key_no_equals(props, last);
        assert forall|b: int| 0 <= b < p.len() implies #[trigger] p[b].0 != props[last].0 by {
            assert(props[b].0 != props[last].0);
        }
        let absent_last = first_setting(lines, props[last].0) >= lines.len();
        if absent_last {
            assert(added == prev.push(line_last));
            assert(added == prev + seq![line_last]);
            lemma_first_setting_concat(prev, seq![line_last], props[last].0);
            lemma_first_setting_is(seq![line_last], props[last].0, 0);
            assert(first_setting(prev, props[last].0) == prev.len());
            assert(added[prev.len() as int] == line_last);
            assert forall|a: int|
                0 <= a < props.len() && first_setting(lines, #[trigger] props[a].0) >= lines.len() implies {
                &&& first_setting(added, props[a].0) < added.len()
                &&& added[first_setting(added, props[a].0)] == property_line(props[a].0, props[a].1)
            } by {
                if a < last {
                    assert(p[a] == props[a]);
                    assert(first_setting(lines, p[a].0) >= lines.len());
                    let x = first_setting(prev, p[a].0);
                    lemma_first_setting_facts(prev, p[a].0);
                    assert(x < prev.len());
                    assert(prev[x] == property_line(p[a].0, p[a].1));
                    lemma_first_setting_concat(prev, seq![line_last], props[a].0);
                    assert(added == prev.push(line_last));
                    assert(added[x] == prev[x]);
                }
            }
            assert forall|a: int|
                0 <= a < props.len() && first_setting(lines, #[trigger] props[a].0) < lines.len() implies first_setting(
                added,
                props[a].0,
            ) == added.len() by {
                assert(a != last);
                assert(p[a] == props[a]);
                lemma_first_setting_concat(prev, seq![line_last], props[a].0);
                assert(!sets_key(line_last, props[a].0));
                lemma_first_setting_is(seq![line_last], props[a].0, 1);
            }
            assert forall|key: Seq<char>|
                no_equals(key) && (forall|b: int| 0 <= b < props.len() ==> #[trigger] props[b].0 != key)
                implies first_setting(added, key) == added.len() by {
                assert forall|b: int| 0 <= b < p.len() implies #[trigger] p[b].0 != key by {
                    assert(props[b].0 != key);
                }
                lemma_first_setting_concat(prev, seq![line_last], key);
                if sets_key(line_last, key) {
                    lemma_sets_one_key(line_last, props[last].0, key);
                    assert(props[last].0 != key);
                }
                lemma_first_setting_is(seq![line_last], key, 1);
            }
            assert forall|q: int, j: int| 0 <= q < added.len() && 0 <= j < added[q].len() implies #[trigger] added[q][j]
                != '\n' by {
                if q < prev.len() {
                    assert(added[q] == prev[q]);
                } else {
                    assert(added[q] == line_last);
                    let k = props[last].0;
                    if j < k.len() {
                        assert(props[last].0[j] != '\n');
                    } else if j > k.len() {
                        assert(line_last[j] == props[last].1[j - k.len() - 1]);
                        assert(props[last].1[j - k.len() - 1] != '\n');
                    }
                }
            }
        } else {
            assert(added == prev);
            assert forall|a: int|
                0 <= a < props.len() && first_setting(lines, #[trigger] props[a].0) >= lines.len() implies {
                &&& first_setting(added, props[a].0) < added.len()
                &&& added[first_setting(added, props[a].0)] == property_line(props[a].0, props[a].1)
            } by {
                assert(a != last);
                assert(p[a] == props[a]);
            }
            assert forall|a: int|
                0 <= a < props.len() && first_setting(lines, #[trigger] props[a].0) < lines.len() implies first_setting(
                added,
                props[a].0,
            ) == added.len() by {
                if a < last {
                    assert(p[a] == props[a]);
                } else {
                    assert(no_equals(props[last].0));
                }
            }
            assert forall|key: Seq<char>|
                no_equals(key) && (forall|b: int| 0 <= b < props.len() ==> #[trigger] props[b].0 != key)
                implies first_setting(added, key) == added.len() by {
                assert forall|b: int| 0 <= b < p.len() implies #[trigger] p[b].0 != key by {
                    assert(props[b].0 != key);
                }
            }
        }
        if forall|a: int| 0 <= a < props.len() ==> first_setting(lines, #[trigger] props[a].0) < lines.len() {
            assert(first_setting(lines, props[last].0) < lines.len());
            assert forall|a: int| 0 <= a < p.len() implies first_setting(lines, #[trigger] p[a].0) < lines.len() by {
                assert(p[a] == props[a]);
                assert(first_setting(lines, props[a].0) < lines.len());
            }
        }
    }
}

/// The seven security settings are well formed when the password holds no
/// line break.
pub proof fn lemma_security_properties_well_formed(password: Seq<char>)
    requires
        forall|j: int| 0 <= j < password.len() ==> password[j] != '\n',
    ensures
        well_formed_settings(security_properties(password)),
{
    reveal_strlit("nifi.security.keystore");
    reveal_strlit("nifi.security.keystoreType");
    reveal_strlit("nifi.security.keystorePasswd");
    reveal_strlit("nifi.security.keyPasswd");
    reveal_strlit("nifi.security.truststore");
    reveal_strlit("nifi.security.truststoreType");
    reveal_strlit("nifi.security.truststorePasswd");
    reveal_strlit("./keystore.p12");
    reveal_strlit("PKCS12");
    reveal_strlit("./truststore.jks");
    reveal_strlit("JKS");
    let props = security_properties(password);
    assert forall|a: int, j: int| 0 <= a < props.len() && 0 <= j < props[a].0.len() implies #[trigger] props[a].0[j]
        != '=' && props[a].0[j] != '\n' by {
        if a == 0 {
        } else if a == 1 {
        } else if a == 2 {
        } else if a == 3 {
        } else if a == 4 {
        } else if a == 5 {
        } else {
        }
    }
    assert forall|a: int, j: int| 0 <= a < props.len() && 0 <= j < props[a].1.len() implies #[trigger] props[a].1[j]
        != '\n' by {
        if a == 0 {
        } else if a == 1 {
        } else if a == 4 {
        } else if a == 5 {
        }
    }
    assert(props[2].0[14] != props[5].0[14]);
    assert forall|a: int| 0 <= a < props.len() implies #[trigger] props[a].0.len() > 0
        && !is_whitespace(props[a].0[0]) by {
        assert(props[a].0[0] == 'n');
    }
    assert forall|a: int, b: int|
        #![trigger props[a], props[b]]
        0 <= a < props.len() && 0 <= b < props.len() && a != b implies props[a].0 != props[b].0 by {
        if props[a].0.len() == props[b].0.len() {
            assert(props[a].0[14] != props[b].0[14]);
        }
    }
}

proof fn lemma_property_line_plain(props: Seq<(Seq<char>, Seq<char>)>, a: int)
    requires
        well_formed_settings(props),
        0 <= a < props.len(),
    ensures
        forall|j: int|
            0 <= j < property_line(props[a].0, props[a].1).len() ==> #[trigger] property_line(
                props[a].0,
                props[a].1,
            )[j] != '\n',
{
    let k = props[a].0;
    let line = property_line(k, props[a].1);
    assert forall|j: int| 0 <= j < line.len() implies #[trigger] line[j] != '\n' by {
        if j < k.len() {
            assert(props[a].0[j] != '\n');
        } else if j > k.len() {
            assert(line[j] == props[a].1[j - k.len() - 1]);
            assert(props[a].1[j - k.len() - 1] != '\n');
        }
    }
}

/// Before the first line that sets a key, the rewritten template sets it
/// nowhere.
proof fn lemma_rewritten_does_not_set(
    lines: Seq<Seq<char>>,
    props: Seq<(Seq<char>, Seq<char>)>,
    a: int,
    j: int,
)
    requires
        well_formed_settings(props),
        0 <= a < props.len(),
        0 <= j < lines.len(),
        j < first_setting(lines, props[a].0),
    ensures
        !sets_key(rewritten_lines(lines, props)[j], props[a].0),
{
    lemma_rewritten_line(lines, props, j);
    lemma_first_setting_facts(lines, props[a].0);
    if exists|b: int| 0 <= b < props.len() && first_setting(lines, #[trigger] props[b].0) == j {
        let b = choose|b: int| 0 <= b < props.len() && first_setting(lines, #[trigger] props[b].0) == j;
        lemma_property_line_sets(props, b);
        assert(b != a);
    }
}

/// The first line that sets a key is rewritten to `key=value`.
proof fn lemma_rewritten_at_first_setting(
    lines: Seq<Seq<char>>,
    props: Seq<(Seq<char>, Seq<char>)>,
    a: int,
)
    requires
        well_formed_settings(props),
        0 <= a < props.len(),
        first_setting(lines, props[a].0) < lines.len(),
    ensures
        first_setting(rewritten_lines(lines, props), props[a].0) == first_setting(lines, props[a].0),
        rewritten_lines(lines, props)[first_setting(lines, props[a].0)] == property_line(
            props[a].0,
            props[a].1,
        ),
{
    let f = first_setting(lines, props[a].0);
    let r = rewritten_lines(lines, props);
    lemma_first_setting_facts(lines, props[a].0);
    lemma_rewritten_line(lines, props, f);
    lemma_property_line_sets(props, a);
    assert forall|j: int| 0 <= j < f implies !sets_key(#[trigger] r[j], props[a].0) by {
        lemma_rewritten_does_not_set(lines, props, a, j);
    }
    lemma_first_setting_is(r, props[a].0, f);
}

/// In the merged lines every key is set, its first setting reads
/// `key=value`, and a key that the template sets keeps the position of its
/// first setting.
proof fn lemma_merged_first_settings(lines: Seq<Seq<char>>, props: Seq<(Seq<char>, Seq<char>)>)
    requires
        well_formed_settings(props),
    ensures
        forall|a: int|
            0 <= a < props.len() ==> {
                let m = merged_lines(lines, props);
                &&& first_setting(m, #[trigger] props[a].0) < m.len()
                &&& m[first_setting(m, props[a].0)] == property_line(props[a].0, props[a].1)
                &&& first_setting(lines, props[a].0) < lines.len() ==> first_setting(m, props[a].0)
                    == first_setting(lines, props[a].0)
                &&& first_setting(lines, props[a].0) >= lines.len() ==> first_setting(m, props[a].0)
                    >= lines.len() - 1
            },
{
    let r = rewritten_lines(lines, props);
    let added = added_lines(lines, props);
    let m = merged_lines(lines, props);
    lemma_added_lines(lines, props);
    let dropped = added.len() > 0 && lines.len() > 0 && lines.last().len() == 0;
    let kept = if dropped {
        r.drop_last()
    } else {
        r
    };
    assert forall|a: int| 0 <= a < props.len() implies {
        &&& first_setting(m, #[trigger] props[a].0) < m.len()
        &&& m[first_setting(m, props[a].0)] == property_line(props[a].0, props[a].1)
        &&& first_setting(lines, props[a].0) < lines.len() ==> first_setting(m, props[a].0)
            == first_setting(lines, props[a].0)
        &&& first_setting(lines, props[a].0) >= lines.len() ==> first_setting(m, props[a].0)
            >= lines.len() - 1
    } by {
        let key = props[a].0;
        let f = first_setting(lines, key);
        lemma_first_setting_facts(lines, key);
        if f < lines.len() {
            lemma_rewritten_at_first_setting(lines, props, a);
            lemma_property_line_sets(props, a);
            assert(sets_key(r[f], key));
            if dropped {
                assert(sets_key(lines[f], key));
                assert(f != lines.len() - 1);
                assert forall|j: int| 0 <= j < f implies !sets_key(#[trigger] kept[j], key) by {
                    assert(kept[j] == r[j]);
                    lemma_first_setting_facts(r, key);
                }
                assert(kept[f] == r[f]);
                lemma_first_setting_is(kept, key, f);
            }
            if added.len() > 0 {
                lemma_first_setting_concat(kept, added, key);
                lemma_first_setting_concat(kept + added, seq![Seq::<char>::empty()], key);
                assert(m == kept + added + seq![Seq::<char>::empty()]);
                assert(m[f] == kept[f]);
            }
        } else {
            assert(added.len() > 0);
            assert forall|j: int| 0 <= j < kept.len() implies !sets_key(#[trigger] kept[j], key) by {
                assert(kept[j] == r[j]);
                lemma_rewritten_does_not_set(lines, props, a, j);
            }
            lemma_first_setting_is(kept, key, kept.len() as int);
            lemma_first_setting_concat(kept, added, key);
            let g = first_setting(added, key);
            assert(g < added.len());
            lemma_first_setting_facts(added, key);
            lemma_first_setting_concat(kept + added, seq![Seq::<char>::empty()], key);
            assert(m == kept + added + seq![Seq::<char>::empty()]);
            assert(m[kept.len() + g] == added[g]);
        }
    }
}

/// The merged lines hold no line break, and there is at least one of them.
proof fn lemma_merged_lines_plain(lines: Seq<Seq<char>>, props: Seq<(Seq<char>, Seq<char>)>)
    requires
        well_formed_settings(props),
        lines.len() >= 1,
        forall|i: int, j: int|
            0 <= i < lines.len() && 0 <= j < lines[i].len() ==> #[trigger] lines[i][j] != '\n',
    ensures
        merged_lines(lines, props).len() >= 1,
        forall|i: int, j: int|
            0 <= i < merged_lines(lines, props).len() && 0 <= j < merged_lines(lines, props)[i].len()
                ==> #[trigger] merged_lines(lines, props)[i][j] != '\n',
{
    let r = rewritten_lines(lines, props);
    let added = added_lines(lines, props);
    let m = merged_lines(lines, props);
    lemma_added_lines(lines, props);
    assert forall|i: int, j: int| 0 <= i < r.len() && 0 <= j < r[i].len() implies #[trigger] r[i][j]
        != '\n' by {
        lemma_rewritten_line(lines, props, i);
        if exists|b: int| 0 <= b < props.len() && first_setting(lines, #[trigger] props[b].0) == i {
            let b = choose|b: int|
                0 <= b < props.len() && first_setting(lines, #[trigger] props[b].0) == i;
            lemma_property_line_plain(props, b);
        }
    }
    assert forall|i: int, j: int| 0 <= i < m.len() && 0 <= j < m[i].len() implies #[trigger] m[i][j]
        != '\n' by {
        if added.len() > 0 {
            let kept = if lines.last().len() == 0 {
                r.drop_last()
            } else {
                r
            };
            assert(m == kept + added + seq![Seq::<char>::empty()]);
            if i < kept.len() {
                assert(m[i] == r[i]);
            } else if i < kept.len() + added.len() {
                assert(m[i] == added[i - kept.len()]);
            }
        }
    }
}

/// The lines of the merged text are the merged lines.
pub proof fn lemma_lines_of_merged(template: Seq<char>, password: Seq<char>)
    requires
        forall|j: int| 0 <= j < password.len() ==> password[j] != '\n',
    ensures
        lines_of(merged_properties(template, password)) == merged_lines(
            lines_of(template),
            security_properties(password),
        ),
{
    let props = security_properties(password);
    lemma_security_properties_well_formed(password);
    lemma_split_on_nonempty(template, '\n');
    lemma_split_pieces_lack_sep(template, '\n');
    lemma_merged_lines_plain(lines_of(template), props);
    lemma_split_join(merged_lines(lines_of(template), props), '\n');
}

/// Every security key is set in the merged file, and the first line that
/// sets it reads `key=value`; a key the template already set keeps the line
/// of its first setting, and a key it did not set is set only after all of
/// the template's lines (the empty remainder after a final newline aside).
pub proof fn lemma_merge_sets_every_key(template: Seq<char>, password: Seq<char>)
    requires
        forall|j: int| 0 <= j < password.len() ==> password[j] != '\n',
    ensures
        forall|a: int|
            0 <= a < 7 ==> {
                let out = lines_of(merged_properties(template, password));
                let key = #[trigger] security_properties(password)[a].0;
                let value = security_properties(password)[a].1;
                &&& first_setting(out, key) < out.len()
                &&& out[first_setting(out, key)] == property_line(key, value)
                &&& first_setting(lines_of(template), key) < lines_of(template).len()
                    ==> first_setting(out, key) == first_setting(lines_of(template), key)
                &&& first_setting(lines_of(template), key) >= lines_of(template).len()
                    ==> first_setting(out, key) >= lines_of(template).len() - 1
            },
{
    lemma_lines_of_merged(template, password);
    lemma_security_properties_well_formed(password);
    lemma_merged_first_settings(lines_of(template), security_properties(password));
}

/// Every template line that is not the first to set a security key stays
/// as it was at its position (the empty remainder after a final newline
/// excepted, which appended settings take the place of); the first line that
/// sets a key becomes `key=value`. Later repeats of a key are therefore kept.
pub proof fn lemma_merge_keeps_other_lines(template: Seq<char>, password: Seq<char>)
    requires
        forall|j: int| 0 <= j < password.len() ==> password[j] != '\n',
    ensures
        forall|i: int|
            0 <= i < lines_of(template).len() && (i + 1 < lines_of(template).len()
                || lines_of(template)[i].len() > 0) ==> i < lines_of(
                merged_properties(template, password),
            ).len() && #[trigger] lines_of(merged_properties(template, password))[i] == rewritten_line(
                lines_of(template),
                security_properties(password),
                i,
            ),
        forall|i: int|
            0 <= i < lines_of(template).len() && (forall|a: int|
                0 <= a < 7 ==> first_setting(
                    lines_of(template),
                    #[trigger] security_properties(password)[a].0,
                ) != i) ==> #[trigger] rewritten_line(
                lines_of(template),
                security_properties(password),
                i,
            ) == lines_of(template)[i],
        forall|i: int, a: int|
            0 <= i < lines_of(template).len() && 0 <= a < 7 && first_setting(
                lines_of(template),
                #[trigger] security_properties(password)[a].0,
            ) == i ==> #[trigger] rewritten_line(lines_of(template), security_properties(password), i)
                == property_line(security_properties(password)[a].0, security_properties(password)[a].1),
{
    let lines = lines_of(template);
    let props = security_properties(password);
    lemma_lines_of_merged(template, password);
    lemma_security_properties_well_formed(password);
    let r = rewritten_lines(lines, props);
    let added = added_lines(lines, props);
    let m = merged_lines(lines, props);
    assert forall|i: int|
        0 <= i < lines.len() && (i + 1 < lines.len() || lines[i].len() > 0) implies i < m.len()
        && #[trigger] m[i] == rewritten_line(lines, props, i) by {
        if added.len() > 0 {
            let kept = if lines.last().len() == 0 {
                r.drop_last()
            } else {
                r
            };
            assert(m == kept + added + seq![Seq::<char>::empty()]);
            assert(i < kept.len());
            assert(m[i] == r[i]);
        }
    }
    assert forall|i: int|
        0 <= i < lines.len() && (forall|a: int|
            0 <= a < 7 ==> first_setting(lines, #[trigger] props[a].0) != i) implies #[trigger] rewritten_line(
        lines,
        props,
        i,
    ) == lines[i] by {
        lemma_rewritten_line(lines, props, i);
        assert forall|a: int| 0 <= a < props.len() implies first_setting(
            lines,
            #[trigger] props[a].0,
        ) != i by {}
    }
    assert forall|i: int, a: int|
        0 <= i < lines.len() && 0 <= a < 7 && first_setting(lines, #[trigger] props[a].0) == i implies #[trigger] rewritten_line(
        lines,
        props,
        i,
    ) == property_line(props[a].0, props[a].1) by {
        lemma_rewritten_line(lines, props, i);
    }
}

/// When the template already sets every security key, the merged file has
/// exactly as many lines as the template.
pub proof fn lemma_merge_keeps_line_count(template: Seq<char>, password: Seq<char>)
    requires
        forall|j: int| 0 <= j < password.len() ==> password[j] != '\n',
        forall|a: int|
            0 <= a < 7 ==> first_setting(lines_of(template), #[trigger] security_properties(password)[a].0)
                < lines_of(template).len(),
    ensures
        lines_of(merged_properties(template, password)).len() == lines_of(template).len(),
{
    lemma_lines_of_merged(template, password);
    lemma_security_properties_well_formed(password);
    lemma_added_lines(lines_of(template), security_properties(password));
}

/// Merging is idempotent: merging the settings into an already merged file
/// changes nothing.
pub proof fn lemma_merge_idempotent(template: Seq<char>, password: Seq<char>)
    requires
        forall|j: int| 0 <= j < password.len() ==> password[j] != '\n',
    ensures
        merged_properties(merged_properties(template, password), password) == merged_properties(
            template,
            password,
        ),
{
    let props = security_properties(password);
    let out = merged_properties(template, password);
    lemma_lines_of_merged(template, password);
    lemma_security_properties_well_formed(password);
    let m = lines_of(out);
    assert(m == merged_lines(lines_of(template), props));
    lemma_merged_first_settings(lines_of(template), props);
    lemma_added_lines(m, props);
    assert forall|a: int| 0 <= a < props.len() implies first_setting(m, #[trigger] props[a].0)
        < m.len() by {}
    assert(added_lines(m, props).len() == 0);
    assert forall|i: int| 0 <= i < m.len() implies #[trigger] rewritten_line(m, props, i) == m[i] by {
        lemma_rewritten_line(m, props, i);
    }
    assert(rewritten_lines(m, props) == m);
    assert(merged_lines(m, props) == m);
    lemma_join_split(out, '\n');
}

/// The number of lines that set `key`.
pub open spec fn settings_count(lines: Seq<Seq<char>>, key: Seq<char>) -> nat
    decreases lines.len(),
{
    if lines.len() == 0 {
        0
    } else {
        settings_count(lines.drop_last(), key) + if sets_key(lines.last(), key) {
            1nat
        } else {
            0nat
        }
    }
}

/// The keys, in list order, that more than one line sets.
pub open spec fn repeated_settings(lines: Seq<Seq<char>>, props: Seq<(Seq<char>, Seq<char>)>) -> Seq<
    Seq<char>,
>
    decreases props.len(),
{
    if props.len() == 0 {
        seq![]
    } else {
        let prev = repeated_settings(lines, props.drop_last());
        if settings_count(lines, props.last().0) >= 2 {
            prev.push(props.last().0)
        } else {
            prev
        }
    }
}

/// The number of lines that set `key`.
fn count_settings(lines: &Vec<Vec<char>>, key: &[char]) -> (n: usize)
    ensures
        n == settings_count(deep(lines@), key@),
{
    let ghost lv = deep(lines@);
    let mut n: usize = 0;
    let mut i: usize = 0;
    while i < lines.len()
        invariant
            lv == deep(lines@),
            i <= lines@.len(),
            n == settings_count(lv.take(i as int), key@),
            n <= i,
        decreases lines@.len() - i,
    {
        assert(lv.take(i + 1).drop_last() == lv.take(i as int));
        assert(lv.take(i + 1).last() == lines@[i as int]@);
        if line_sets_key(lines[i].as_slice(), key) {
            n = n + 1;
        }
        i = i + 1;
    }
    assert(lv.take(lines@.len() as int) == lv);
    n
}

/// The security keys that the template sets on more than one line, in the
/// order of the settings. Only the first of those lines is rewritten; this
/// tells the caller which keys to warn about.
pub fn repeated_keys(template: &str) -> (keys: Vec<String>)
    ensures
        keys@.map_values(|k: String| k@) == repeated_settings(
            lines_of(template@),
            security_properties(Seq::<char>::empty()),
        ),
{
    let chars = chars_of(template);
    let lines = split_chars(chars.as_slice(), '\n');
    let props = security_property_list("");
    let ghost lv = deep(lines@);
    let ghost pv = deep_pairs(props@);
    proof {
        reveal_strlit("");
        assert(""@ == Seq::<char>::empty());
    }
    let mut keys: Vec<String> = Vec::new();
    let mut k: usize = 0;
    while k < props.len()
        invariant
            lv == deep(lines@),
            pv == deep_pairs(props@),
            lv == lines_of(template@),
            pv == security_properties(Seq::<char>::empty()),
            k <= props@.len(),
            keys@.map_values(|s: String| s@) == repeated_settings(lv, pv.take(k as int)),
        decreases props@.len() - k,
    {
        assert(pv.take(k + 1).drop_last() == pv.take(k as int));
        assert(pv.take(k + 1).last() == pv[k as int]);
        if count_settings(&lines, props[k].0.as_slice()) >= 2 {
            let name = string_from_chars(props[k].0.as_slice());
            let ghost before = keys@.map_values(|s: String| s@);
            keys.push(name);
            assert(keys@.map_values(|s: String| s@) == before.push(name@));
        }
        k = k + 1;
    }
    assert(pv.take(props@.len() as int) == pv);
    keys
}

} // verus!
