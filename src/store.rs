use vstd::prelude::*;

use crate::text::{chars_of, has_prefix, prefix_at, push_str, string_of, string_of_range};

verus! {

/// The pieces of `s` between its newlines; there is always one at least.
pub open spec fn pieces(s: Seq<char>) -> Seq<Seq<char>>
    decreases s.len(),
{
    if s.len() == 0 {
        seq![Seq::empty()]
    } else if s.last() == '\n' {
        pieces(s.drop_last()).push(Seq::empty())
    } else {
        let p = pieces(s.drop_last());
        p.update(p.len() - 1, p.last().push(s.last()))
    }
}

proof fn lemma_pieces_nonempty(s: Seq<char>)
    ensures
        pieces(s).len() >= 1,
    decreases s.len(),
{
    if s.len() > 0 {
        lemma_pieces_nonempty(s.drop_last());
    }
}

/// A line without the carriage return that ends it, if one does.
pub open spec fn strip_cr(l: Seq<char>) -> Seq<char> {
    if l.len() > 0 && l.last() == '\r' {
        l.drop_last()
    } else {
        l
    }
}

/// The lines of `s` as `str::lines` yields them: split at each newline, one
/// carriage return before a newline dropped, no empty line after the last
/// newline.
pub open spec fn lines_of(s: Seq<char>) -> Seq<Seq<char>> {
    let p = pieces(s);
    let body = p.drop_last().map_values(|l: Seq<char>| strip_cr(l));
    if p.last().len() == 0 {
        body
    } else {
        body.push(p.last())
    }
}

/// The lines joined with a newline between each two.
pub open spec fn join_lines(l: Seq<Seq<char>>) -> Seq<char>
    decreases l.len(),
{
    if l.len() == 0 {
        Seq::empty()
    } else if l.len() == 1 {
        l[0]
    } else {
        join_lines(l.drop_last()) + seq!['\n'] + l.last()
    }
}

/// `KEY=`, the start of the line that holds `key`.
pub open spec fn key_prefix(key: Seq<char>) -> Seq<char> {
    key.push('=')
}

/// The value of the first line that starts with `KEY=`.
pub open spec fn line_value(lines: Seq<Seq<char>>, key: Seq<char>) -> Option<Seq<char>>
    decreases lines.len(),
{
    if lines.len() == 0 {
        None
    } else if has_prefix(lines[0], key_prefix(key)) {
        Some(lines[0].subrange(key.len() + 1 as int, lines[0].len() as int))
    } else {
        line_value(lines.drop_first(), key)
    }
}

/// The value that the store's text holds for `key`.
pub open spec fn stored_value(content: Seq<char>, key: Seq<char>) -> Option<Seq<char>> {
    line_value(lines_of(content), key)
}

/// A line, with its value replaced by that of the first pair whose key it holds.
pub open spec fn rewrite_line(line: Seq<char>, pairs: Seq<(Seq<char>, Seq<char>)>) -> Seq<char>
    decreases pairs.len(),
{
    if pairs.len() == 0 {
        line
    } else if has_prefix(line, key_prefix(pairs[0].0)) {
        key_prefix(pairs[0].0) + pairs[0].1
    } else {
        rewrite_line(line, pairs.drop_first())
    }
}

/// The store's text with the lines of the given keys replaced, every other line
/// kept as it is.
pub open spec fn rewrite_content(content: Seq<char>, pairs: Seq<(Seq<char>, Seq<char>)>) -> Seq<
    char,
> {
    join_lines(lines_of(content).map_values(|l: Seq<char>| rewrite_line(l, pairs)))
}

/// The characters of each string.
pub open spec fn views(v: Seq<String>) -> Seq<Seq<char>> {
    v.map_values(|s: String| s@)
}

/// The characters of each key and value.
pub open spec fn pair_views(v: Seq<(String, String)>) -> Seq<(Seq<char>, Seq<char>)> {
    v.map_values(|p: (String, String)| (p.0@, p.1@))
}

/// Whether `c` does not occur in `s`.
pub open spec fn free_of(s: Seq<char>, c: char) -> bool {
    forall|i: int| 0 <= i < s.len() ==> s[i] != c
}

proof fn lemma_pieces_free(s: Seq<char>, c: char)
    ensures
        forall|i: int| 0 <= i < pieces(s).len() ==> free_of(#[trigger] pieces(s)[i], '\n'),
        free_of(s, c) ==> forall|i: int| 0 <= i < pieces(s).len() ==> free_of(
            #[trigger] pieces(s)[i],
            c,
        ),
    decreases s.len(),
{
    lemma_pieces_nonempty(s);
    if s.len() > 0 {
        lemma_pieces_free(s.drop_last(), c);
        lemma_pieces_nonempty(s.drop_last());
        let p = pieces(s.drop_last());
        if s.last() != '\n' {
            let q = p.update(p.len() - 1, p.last().push(s.last()));
            assert forall|i: int| 0 <= i < q.len() implies free_of(#[trigger] q[i], '\n') by {
                if i == q.len() - 1 {
                    assert(free_of(p[i], '\n'));
                }
            }
            if free_of(s, c) {
                assert(free_of(s.drop_last(), c));
                assert(s[s.len() - 1] != c);
                assert forall|i: int| 0 <= i < q.len() implies free_of(#[trigger] q[i], c) by {
                    if i == q.len() - 1 {
                        assert(free_of(p[i], c));
                    }
                }
            }
        } else {
            if free_of(s, c) {
                assert(free_of(s.drop_last(), c));
            }
        }
    }
}

proof fn lemma_pieces_append(a: Seq<char>, y: Seq<char>)
    requires
        free_of(y, '\n'),
    ensures
        pieces(a + y) == pieces(a).update(pieces(a).len() - 1, pieces(a).last() + y),
    decreases y.len(),
{
    lemma_pieces_nonempty(a);
    if y.len() == 0 {
        assert(a + y =~= a);
        assert(pieces(a).last() + y =~= pieces(a).last());
        assert(pieces(a).update(pieces(a).len() - 1, pieces(a).last()) =~= pieces(a));
    } else {
        let y0 = y.drop_last();
        assert(free_of(y0, '\n'));
        lemma_pieces_append(a, y0);
        assert((a + y).drop_last() =~= a + y0);
        assert((a + y).last() == y.last());
        assert(y[y.len() - 1] != '\n');
        assert(pieces(a).last() + y0 + seq![y.last()] =~= pieces(a).last() + y);
        assert((pieces(a).last() + y0).push(y.last()) =~= pieces(a).last() + y);
        assert(pieces(a + y) =~= pieces(a).update(pieces(a).len() - 1, pieces(a).last() + y));
    }
}

proof fn lemma_pieces_join(l: Seq<Seq<char>>)
    requires
        l.len() >= 1,
        forall|i: int| 0 <= i < l.len() ==> free_of(#[trigger] l[i], '\n'),
    ensures
        pieces(join_lines(l)) == l,
    decreases l.len(),
{
    if l.len() == 1 {
        lemma_pieces_append(Seq::empty(), l[0]);
        assert(Seq::<char>::empty() + l[0] =~= l[0]);
        assert(pieces(Seq::<char>::empty()).last() + l[0] =~= l[0]);
        assert(pieces(join_lines(l)) =~= l);
    } else {
        let l0 = l.drop_last();
        assert forall|i: int| 0 <= i < l0.len() implies free_of(#[trigger] l0[i], '\n') by {
            assert(l0[i] == l[i]);
        }
        lemma_pieces_join(l0);
        let a = join_lines(l0) + seq!['\n'];
        assert(free_of(l[l.len() - 1], '\n'));
        lemma_pieces_append(a, l.last());
        assert(a.drop_last() =~= join_lines(l0));
        assert(pieces(a) == l0.push(Seq::<char>::empty()));
        assert(Seq::<char>::empty() + l.last() =~= l.last());
        assert(pieces(join_lines(l)) =~= l);
    }
}

/// Joining lines and splitting them again gives them back, but for an empty
/// last line, where neither newlines nor carriage returns occur in them.
proof fn lemma_lines_of_join(l: Seq<Seq<char>>)
    requires
        forall|i: int| 0 <= i < l.len() ==> free_of(#[trigger] l[i], '\n') && free_of(l[i], '\r'),
    ensures
        lines_of(join_lines(l)) == if l.len() > 0 && l.last().len() == 0 {
            l.drop_last()
        } else {
            l
        },
{
    if l.len() == 0 {
        assert(lines_of(join_lines(l)) =~= l);
    } else {
        lemma_pieces_join(l);
        assert forall|i: int| 0 <= i < l.drop_last().len() implies strip_cr(
            #[trigger] l.drop_last()[i],
        ) == l.drop_last()[i] by {
            assert(free_of(l[i], '\r'));
            if l[i].len() > 0 {
                assert(l[i][l[i].len() - 1] != '\r');
            }
        }
        assert(l.drop_last().map_values(|x: Seq<char>| strip_cr(x)) =~= l.drop_last());
        if l.last().len() != 0 {
            assert(l.drop_last().push(l.last()) =~= l);
        }
    }
}

/// The lines of a text hold no newline, and no carriage return where the text
/// holds none.
proof fn lemma_lines_free(s: Seq<char>)
    ensures
        forall|i: int| 0 <= i < lines_of(s).len() ==> free_of(#[trigger] lines_of(s)[i], '\n'),
        free_of(s, '\r') ==> forall|i: int| 0 <= i < lines_of(s).len() ==> free_of(
            #[trigger] lines_of(s)[i],
            '\r',
        ),
{
    lemma_pieces_free(s, '\r');
    lemma_pieces_nonempty(s);
    let p = pieces(s);
    let l = lines_of(s);
    assert forall|i: int| 0 <= i < l.len() implies free_of(#[trigger] l[i], '\n') && (free_of(
        s,
        '\r',
    ) ==> free_of(l[i], '\r')) by {
        if i < p.len() - 1 {
            assert(l[i] == strip_cr(p[i]));
            assert(free_of(p[i], '\n'));
            if p[i].len() > 0 && p[i].last() == '\r' {
                assert(p[i].drop_last().len() == p[i].len() - 1);
                assert forall|j: int| 0 <= j < l[i].len() implies l[i][j] != '\n' by {
                    assert(l[i][j] == p[i][j]);
                }
            }
            if free_of(s, '\r') {
                assert(free_of(p[i], '\r'));
            }
        } else {
            assert(l[i] == p[p.len() - 1]);
            assert(free_of(p[p.len() - 1], '\n'));
            if free_of(s, '\r') {
                assert(free_of(p[p.len() - 1], '\r'));
            }
        }
    }
}

proof fn lemma_line_value_drop_empty(l: Seq<Seq<char>>, key: Seq<char>)
    requires
        l.len() > 0,
        l.last().len() == 0,
    ensures
        line_value(l.drop_last(), key) == line_value(l, key),
    decreases l.len(),
{
    if l.len() == 1 {
        assert(!has_prefix(l[0], key_prefix(key)));
        assert(line_value(l.drop_first(), key) == None::<Seq<char>>);
    } else {
        assert(l.drop_last()[0] == l[0]);
        assert(l.drop_last().drop_first() =~= l.drop_first().drop_last());
        lemma_line_value_drop_empty(l.drop_first(), key);
    }
}

/// Of two different keys without `=`, no line starts with both `key=` prefixes.
proof fn lemma_key_prefix_exclusive(line: Seq<char>, k1: Seq<char>, k2: Seq<char>)
    requires
        free_of(k1, '='),
        free_of(k2, '='),
        k1 != k2,
        has_prefix(line, key_prefix(k1)),
    ensures
        !has_prefix(line, key_prefix(k2)),
{
    if has_prefix(line, key_prefix(k2)) {
        assert(line.subrange(0, k1.len() + 1 as int)[k1.len() as int] == '=');
        assert(line.subrange(0, k2.len() + 1 as int)[k2.len() as int] == '=');
        if k2.len() < k1.len() {
            assert(line.subrange(0, k1.len() + 1 as int)[k2.len() as int] == k1[k2.len() as int]);
            assert(line[k2.len() as int] == '=');
        } else if k1.len() < k2.len() {
            assert(line.subrange(0, k2.len() + 1 as int)[k1.len() as int] == k2[k1.len() as int]);
            assert(line[k1.len() as int] == '=');
        } else {
            assert forall|i: int| 0 <= i < k1.len() implies k1[i] == k2[i] by {
                assert(line.subrange(0, k1.len() + 1 as int)[i] == k1[i]);
                assert(line.subrange(0, k2.len() + 1 as int)[i] == k2[i]);
            }
            assert(k1 =~= k2);
        }
    }
}

/// The value of the first pair with `key`.
pub open spec fn pair_value(pairs: Seq<(Seq<char>, Seq<char>)>, key: Seq<char>) -> Option<Seq<char>>
    decreases pairs.len(),
{
    if pairs.len() == 0 {
        None
    } else if pairs[0].0 == key {
        Some(pairs[0].1)
    } else {
        pair_value(pairs.drop_first(), key)
    }
}

/// The value that a store's text holds for `key` once the lines of the pairs'
/// keys are replaced: the pair's value where the key had a line.
pub open spec fn value_after_rewrite(
    old: Option<Seq<char>>,
    pairs: Seq<(Seq<char>, Seq<char>)>,
    key: Seq<char>,
) -> Option<Seq<char>> {
    match old {
        None => None,
        Some(v) => match pair_value(pairs, key) {
            Some(w) => Some(w),
            None => Some(v),
        },
    }
}

/// Whether every key of the pairs is free of `=` and line breaks, and every
/// value free of line breaks.
pub open spec fn plain_pairs(pairs: Seq<(Seq<char>, Seq<char>)>) -> bool {
    forall|i: int|
        0 <= i < pairs.len() ==> free_of(#[trigger] pairs[i].0, '=') && free_of(pairs[i].0, '\n')
            && free_of(pairs[i].0, '\r') && free_of(pairs[i].1, '\n') && free_of(pairs[i].1, '\r')
}

proof fn lemma_plain_pairs_rest(pairs: Seq<(Seq<char>, Seq<char>)>)
    requires
        plain_pairs(pairs),
        pairs.len() > 0,
    ensures
        plain_pairs(pairs.drop_first()),
        free_of(pairs[0].0, '='),
        free_of(pairs[0].0, '\n'),
        free_of(pairs[0].0, '\r'),
        free_of(pairs[0].1, '\n'),
        free_of(pairs[0].1, '\r'),
{
    assert forall|i: int| 0 <= i < pairs.drop_first().len() implies free_of(
        #[trigger] pairs.drop_first()[i].0,
        '=',
    ) && free_of(pairs.drop_first()[i].0, '\n') && free_of(pairs.drop_first()[i].0, '\r')
        && free_of(pairs.drop_first()[i].1, '\n') && free_of(pairs.drop_first()[i].1, '\r') by {
        assert(pairs.drop_first()[i] == pairs[i + 1]);
    }
    assert(free_of(pairs[0].0, '='));
}

proof fn lemma_rewrite_line_key(x: Seq<char>, pairs: Seq<(Seq<char>, Seq<char>)>, key: Seq<char>)
    requires
        plain_pairs(pairs),
        free_of(key, '='),
    ensures
        has_prefix(rewrite_line(x, pairs), key_prefix(key)) == has_prefix(x, key_prefix(key)),
        has_prefix(x, key_prefix(key)) ==> rewrite_line(x, pairs).subrange(
            key.len() + 1 as int,
            rewrite_line(x, pairs).len() as int,
        ) == match pair_value(pairs, key) {
            Some(w) => w,
            None => x.subrange(key.len() + 1 as int, x.len() as int),
        },
    decreases pairs.len(),
{
    if pairs.len() > 0 {
        lemma_plain_pairs_rest(pairs);
        let k0 = pairs[0].0;
        let v0 = pairs[0].1;
        if has_prefix(x, key_prefix(k0)) {
            let y = key_prefix(k0) + v0;
            assert(y.subrange(0, k0.len() + 1 as int) =~= key_prefix(k0));
            if k0 == key {
                assert(y.subrange(key.len() + 1 as int, y.len() as int) =~= v0);
            } else {
                lemma_key_prefix_exclusive(x, k0, key);
                lemma_key_prefix_exclusive(y, k0, key);
            }
        } else {
            lemma_rewrite_line_key(x, pairs.drop_first(), key);
        }
    }
}

proof fn lemma_line_value_rewrite(
    l: Seq<Seq<char>>,
    pairs: Seq<(Seq<char>, Seq<char>)>,
    key: Seq<char>,
)
    requires
        plain_pairs(pairs),
        free_of(key, '='),
    ensures
        line_value(l.map_values(|x: Seq<char>| rewrite_line(x, pairs)), key) == value_after_rewrite(
            line_value(l, key),
            pairs,
            key,
        ),
    decreases l.len(),
{
    let m = l.map_values(|x: Seq<char>| rewrite_line(x, pairs));
    if l.len() > 0 {
        assert(m[0] == rewrite_line(l[0], pairs));
        assert(m.drop_first() =~= l.drop_first().map_values(
            |x: Seq<char>| rewrite_line(x, pairs),
        ));
        lemma_line_value_rewrite(l.drop_first(), pairs, key);
        lemma_rewrite_line_key(l[0], pairs, key);
    }
}

proof fn lemma_rewrite_line_free(x: Seq<char>, pairs: Seq<(Seq<char>, Seq<char>)>)
    requires
        plain_pairs(pairs),
        free_of(x, '\n'),
        free_of(x, '\r'),
    ensures
        free_of(rewrite_line(x, pairs), '\n'),
        free_of(rewrite_line(x, pairs), '\r'),
    decreases pairs.len(),
{
    if pairs.len() > 0 {
        lemma_plain_pairs_rest(pairs);
        let k0 = pairs[0].0;
        let v0 = pairs[0].1;
        if has_prefix(x, key_prefix(k0)) {
            let y = key_prefix(k0) + v0;
            assert forall|j: int| 0 <= j < y.len() implies y[j] != '\n' && y[j] != '\r' by {
                if j < k0.len() {
                    assert(y[j] == k0[j]);
                } else if j > k0.len() {
                    assert(y[j] == v0[j - k0.len() - 1]);
                }
            }
        } else {
            lemma_rewrite_line_free(x, pairs.drop_first());
        }
    }
}

/// Rewriting the lines of some keys in a text without carriage returns, with
/// values that hold no line break, and reading the text back, gives for each
/// key that had a line the value of its first pair, and for every other key
/// the old value.
pub proof fn lemma_rewrite_then_read(
    content: Seq<char>,
    pairs: Seq<(Seq<char>, Seq<char>)>,
    key: Seq<char>,
)
    requires
        free_of(content, '\r'),
        plain_pairs(pairs),
        free_of(key, '='),
    ensures
        stored_value(rewrite_content(content, pairs), key) == value_after_rewrite(
            stored_value(content, key),
            pairs,
            key,
        ),
{
    let l = lines_of(content);
    let m = l.map_values(|x: Seq<char>| rewrite_line(x, pairs));
    lemma_lines_free(content);
    assert forall|i: int| 0 <= i < m.len() implies free_of(#[trigger] m[i], '\n') && free_of(
        m[i],
        '\r',
    ) by {
        assert(free_of(l[i], '\n') && free_of(l[i], '\r'));
        lemma_rewrite_line_free(l[i], pairs);
    }
    lemma_lines_of_join(m);
    lemma_line_value_rewrite(l, pairs, key);
    if m.len() > 0 && m.last().len() == 0 {
        lemma_line_value_drop_empty(m, key);
    }
}

/// A line from a piece that a newline ended.
fn finish_line(cur: &Vec<char>) -> (r: String)
    ensures
        r@ == strip_cr(cur@),
{
    if cur.len() > 0 && cur[cur.len() - 1] == '\r' {
        let r = string_of_range(cur, 0, cur.len() - 1);
        assert(cur@.subrange(0, cur.len() - 1) =~= cur@.drop_last());
        r
    } else {
        string_of(cur)
    }
}

/// The lines of `content`, as `str::lines` yields them.
pub fn split_lines(content: &str) -> (r: Vec<String>)
    ensures
        views(r@) == lines_of(content@),
{
    let v = chars_of(content);
    let mut lines: Vec<String> = Vec::new();
    let mut cur: Vec<char> = Vec::new();
    let mut i: usize = 0;
    assert(v@.take(0) =~= Seq::<char>::empty());
    assert(views(lines@) =~= pieces(v@.take(0)).drop_last().map_values(
        |l: Seq<char>| strip_cr(l),
    ));
    while i < v.len()
        invariant
            i <= v.len(),
            views(lines@) == pieces(v@.take(i as int)).drop_last().map_values(
                |l: Seq<char>| strip_cr(l),
            ),
            cur@ == pieces(v@.take(i as int)).last(),
        decreases v.len() - i,
    {
        let ghost pre = v@.take(i as int);
        let ghost next = v@.take(i + 1);
        assert(next.drop_last() =~= pre);
        assert(next.last() == v@[i as int]);
        proof {
            lemma_pieces_nonempty(pre);
            lemma_pieces_nonempty(next);
        }
        let c = v[i];
        if c == '\n' {
            let line = finish_line(&cur);
            let ghost before = lines@;
            lines.push(line);
            assert(views(lines@) =~= views(before).push(line@));
            assert(pieces(next).drop_last() =~= pieces(pre));
            assert(pieces(pre).drop_last().push(pieces(pre).last()) =~= pieces(pre));
            assert(pieces(next).drop_last().map_values(|l: Seq<char>| strip_cr(l))
                =~= pieces(pre).drop_last().map_values(|l: Seq<char>| strip_cr(l)).push(
                strip_cr(pieces(pre).last()),
            ));
            cur = Vec::new();
            assert(cur@ =~= pieces(next).last());
        } else {
            cur.push(c);
            assert(pieces(next).drop_last() =~= pieces(pre).drop_last());
        }
        i = i + 1;
    }
    assert(v@.take(v.len() as int) =~= v@);
    if cur.len() > 0 {
        let last = string_of(&cur);
        let ghost before = lines@;
        lines.push(last);
        assert(views(lines@) =~= views(before).push(last@));
    }
    lines
}

/// The lines joined with a newline between each two.
pub fn join_with_newlines(lines: &Vec<String>) -> (r: String)
    ensures
        r@ == join_lines(views(lines@)),
{
    let mut r = String::new();
    let mut i: usize = 0;
    while i < lines.len()
        invariant
            i <= lines.len(),
            r@ == join_lines(views(lines@).take(i as int)),
        decreases lines.len() - i,
    {
        let ghost t = views(lines@).take(i + 1);
        assert(t.drop_last() =~= views(lines@).take(i as int));
        if i > 0 {
            r.push('\n');
        }
        push_str(&mut r, lines[i].as_str());
        proof {
            if i == 0 {
                assert(r@ =~= t[0]);
            } else {
                assert(r@ =~= join_lines(t.drop_last()) + seq!['\n'] + t.last());
            }
        }
        i = i + 1;
    }
    assert(views(lines@).take(lines.len() as int) =~= views(lines@));
    r
}

/// Whether `line` starts with `key=`.
fn holds_key(line: &Vec<char>, key: &str) -> (r: bool)
    ensures
        r == has_prefix(line@, key_prefix(key@)),
{
    let mut p = chars_of(key);
    p.push('=');
    prefix_at(line, 0, &p)
}

/// A line, with its value replaced by that of the first pair whose key it holds.
fn rewrite_one(line: &String, pairs: &Vec<(String, String)>) -> (r: String)
    ensures
        r@ == rewrite_line(line@, pair_views(pairs@)),
{
    let v = chars_of(line.as_str());
    let mut i: usize = 0;
    assert(pair_views(pairs@).subrange(0, pairs.len() as int) =~= pair_views(pairs@));
    while i < pairs.len()
        invariant
            i <= pairs.len(),
            v@ == line@,
            rewrite_line(line@, pair_views(pairs@)) == rewrite_line(
                line@,
                pair_views(pairs@).subrange(i as int, pairs.len() as int),
            ),
        decreases pairs.len() - i,
    {
        let ghost rest = pair_views(pairs@).subrange(i as int, pairs.len() as int);
        assert(rest[0] == (pairs@[i as int].0@, pairs@[i as int].1@));
        if holds_key(&v, pairs[i].0.as_str()) {
            let mut r = pairs[i].0.clone();
            r.push('=');
            push_str(&mut r, pairs[i].1.as_str());
            return r;
        }
        assert(rest.drop_first() =~= pair_views(pairs@).subrange(i + 1, pairs.len() as int));
        i = i + 1;
    }
    assert(pair_views(pairs@).subrange(i as int, pairs.len() as int).len() == 0);
    line.clone()
}

/// The store's text with the lines of the given keys replaced and every other
/// line kept; the lines are joined with newlines, with none after the last.
pub fn rewrite_store(content: &str, pairs: &Vec<(String, String)>) -> (r: String)
    ensures
        r@ == rewrite_content(content@, pair_views(pairs@)),
{
    let lines = split_lines(content);
    let mut out: Vec<String> = Vec::new();
    let mut i: usize = 0;
    while i < lines.len()
        invariant
            i <= lines.len(),
            views(out@) == views(lines@).take(i as int).map_values(
                |l: Seq<char>| rewrite_line(l, pair_views(pairs@)),
            ),
        decreases lines.len() - i,
    {
        let line = rewrite_one(&lines[i], pairs);
        let ghost before = out@;
        let ghost lv = line@;
        out.push(line);
        assert(views(out@) =~= views(before).push(lv));
        assert(views(lines@).take(i + 1) =~= views(lines@).take(i as int).push(lines@[i as int]@));
        assert(views(lines@).take(i + 1).map_values(
            |l: Seq<char>| rewrite_line(l, pair_views(pairs@)),
        ) =~= views(lines@).take(i as int).map_values(
            |l: Seq<char>| rewrite_line(l, pair_views(pairs@)),
        ).push(lv));
        i = i + 1;
    }
    assert(views(lines@).take(lines.len() as int) =~= views(lines@));
    join_with_newlines(&out)
}

/// The value that the store's text holds for `key`, from its first line that
/// starts with `key=`.
pub fn read_store_value(content: &str, key: &str) -> (r: Option<String>)
    ensures
        match r {
            Some(s) => stored_value(content@, key@) == Some(s@),
            None => stored_value(content@, key@) is None,
        },
{
    let lines = split_lines(content);
    let mut i: usize = 0;
    assert(views(lines@).subrange(0, lines.len() as int) =~= views(lines@));
    while i < lines.len()
        invariant
            i <= lines.len(),
            views(lines@) == lines_of(content@),
            line_value(views(lines@), key@) == line_value(
                views(lines@).subrange(i as int, lines.len() as int),
                key@,
            ),
        decreases lines.len() - i,
    {
        let ghost rest = views(lines@).subrange(i as int, lines.len() as int);
        assert(rest[0] == lines@[i as int]@);
        let v = chars_of(lines[i].as_str());
        if holds_key(&v, key) {
            let k = chars_of(key);
            assert(k.len() + 1 <= v.len());
            return Some(string_of_range(&v, k.len() + 1, v.len()));
        }
        assert(rest.drop_first() =~= views(lines@).subrange(i + 1, lines.len() as int));
        i = i + 1;
    }
    assert(views(lines@).subrange(i as int, lines.len() as int).len() == 0);
    None
}

} // verus!
