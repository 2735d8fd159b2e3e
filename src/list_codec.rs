//! A scalar value read as a sequence of tokens joined by a delimiter.
use vstd::prelude::*;

verus! {

/// The tokens of a list, as character sequences.
pub open spec fn views(v: Seq<String>) -> Seq<Seq<char>> {
    v.map_values(|t: String| t@)
}

/// `d` occurs in `s` starting at index `i`.
pub open spec fn matches_at(s: Seq<char>, d: Seq<char>, i: int) -> bool {
    0 <= i && i + d.len() <= s.len() && s.subrange(i, i + d.len()) == d
}

/// Splitting `s` on `d` from index `i` on, the current token having begun at `start`:
/// each leftmost occurrence of `d` ends a token.
pub open spec fn split_from(s: Seq<char>, d: Seq<char>, start: int, i: int) -> Seq<Seq<char>>
    decreases s.len() - i,
{
    if d.len() == 0 || i < 0 || i + d.len() > s.len() {
        seq![s.subrange(start, s.len() as int)]
    } else if matches_at(s, d, i) {
        seq![s.subrange(start, i)] + split_from(s, d, i + d.len(), i + d.len())
    } else {
        split_from(s, d, start, i + 1)
    }
}

/// The tokens of `s` split on every leftmost occurrence of `d`; a single
/// token when `d` is empty.
pub open spec fn split_seq(s: Seq<char>, d: Seq<char>) -> Seq<Seq<char>> {
    split_from(s, d, 0, 0)
}

pub open spec fn ends_with(s: Seq<char>, d: Seq<char>) -> bool {
    d.len() <= s.len() && s.subrange(s.len() - d.len(), s.len() as int) == d
}

/// `s` without one trailing occurrence of a non-empty `d`.
pub open spec fn trim_delim(s: Seq<char>, d: Seq<char>) -> Seq<char> {
    if d.len() > 0 && ends_with(s, d) {
        s.subrange(0, s.len() - d.len())
    } else {
        s
    }
}

/// The list that a stored value holds.
pub open spec fn decode_list(s: Seq<char>, d: Seq<char>) -> Seq<Seq<char>> {
    split_seq(trim_delim(s, d), d)
}

/// The tokens of `xs` joined by `d`.
pub open spec fn encode_list(xs: Seq<Seq<char>>, d: Seq<char>) -> Seq<char>
    decreases xs.len(),
{
    if xs.len() == 0 {
        Seq::empty()
    } else if xs.len() == 1 {
        xs[0]
    } else {
        encode_list(xs.drop_last(), d) + d + xs.last()
    }
}

/// The characters of `s`.
pub fn chars_of(s: &str) -> (r: Vec<char>)
    ensures
        r@ == s@,
{
    let n = s.unicode_len();
    let mut r: Vec<char> = Vec::new();
    let mut i: usize = 0;
    while i < n
        invariant
            n == s@.len(),
            i <= n,
            r@ == s@.subrange(0, i as int),
        decreases n - i,
    {
        r.push(s.get_char(i));
        i = i + 1;
    }
    assert(r@ =~= s@);
    r
}

fn matches_at_exec(s: &Vec<char>, d: &Vec<char>, i: usize) -> (r: bool)
    ensures
        r == matches_at(s@, d@, i as int),
{
    if d.len() > s.len() || i > s.len() - d.len() {
        return false;
    }
    let mut j: usize = 0;
    while j < d.len()
        invariant
            i + d.len() <= s.len(),
            j <= d.len(),
            forall|k: int| 0 <= k < j ==> s@[i + k] == d@[k],
        decreases d.len() - j,
    {
        if s[i + j] != d[j] {
            assert(s@.subrange(i as int, i + d.len())[j as int] != d@[j as int]);
            return false;
        }
        j = j + 1;
    }
    assert(s@.subrange(i as int, i + d.len()) =~= d@);
    true
}

/// Splits `value` on every leftmost occurrence of `delimiter`.
pub fn split_list(value: &str, delimiter: &str) -> (r: Vec<String>)
    ensures
        views(r@) == split_seq(value@, delimiter@),
{
    let s = chars_of(value);
    let d = chars_of(delimiter);
    let n = s.len();
    let m = d.len();
    let mut out: Vec<String> = Vec::new();
    let mut start: usize = 0;
    let mut i: usize = 0;
    if m > 0 {
        while m <= n && i <= n - m
            invariant
                s@ == value@,
                d@ == delimiter@,
                n == s@.len(),
                m == d@.len(),
                m > 0,
                start <= i <= n,
                views(out@) + split_from(s@, d@, start as int, i as int) == split_seq(s@, d@),
            decreases n - i,
        {
            if matches_at_exec(&s, &d, i) {
                let t = value.substring_char(start, i).to_owned();
                proof {
                    assert(views(out@.push(t)) =~= views(out@).push(t@));
                    assert(views(out@).push(t@) + split_from(s@, d@, (i + m) as int, (i + m) as int)
                        =~= views(out@) + split_from(s@, d@, start as int, i as int));
                }
                out.push(t);
                i = i + m;
                start = i;
            } else {
                i = i + 1;
            }
        }
    }
    let t = value.substring_char(start, n).to_owned();
    proof {
        assert(views(out@.push(t)) =~= views(out@).push(t@));
        assert(views(out@).push(t@) =~= views(out@) + split_from(s@, d@, start as int, i as int));
    }
    out.push(t);
    out
}

/// The tokens of `value` after one trailing `delimiter` is dropped: a value
/// such as `a;b;` holds the list `a`, `b`.
pub fn decode(value: &str, delimiter: &str) -> (r: Vec<String>)
    ensures
        views(r@) == decode_list(value@, delimiter@),
{
    let s = chars_of(value);
    let d = chars_of(delimiter);
    let n = s.len();
    let m = d.len();
    if m > 0 && m <= n && matches_at_exec(&s, &d, n - m) {
        let trimmed = value.substring_char(0, n - m);
        split_list(trimmed, delimiter)
    } else {
        proof {
            if delimiter@.len() > 0 && ends_with(value@, delimiter@) {
                assert(matches_at(s@, d@, n - m));
            }
        }
        split_list(value, delimiter)
    }
}

/// Joins `values` with `delimiter` between each two.
pub fn join_list(values: &Vec<String>, delimiter: &str) -> (r: String)
    ensures
        r@ == encode_list(views(values@), delimiter@),
{
    let mut out = String::new();
    let mut k: usize = 0;
    while k < values.len()
        invariant
            k <= values.len(),
            out@ == encode_list(views(values@.subrange(0, k as int)), delimiter@),
        decreases values.len() - k,
    {
        proof {
            let xs = views(values@.subrange(0, k as int + 1));
            assert(xs.drop_last() =~= views(values@.subrange(0, k as int)));
            assert(xs.last() == values@[k as int]@);
            if k == 0 {
                assert(out@ =~= Seq::<char>::empty());
            }
        }
        if k > 0 {
            out.append(delimiter);
        }
        out.append(values[k].as_str());
        k = k + 1;
    }
    assert(values@.subrange(0, values.len() as int) =~= values@);
    out
}

/// The joined value of `xs` shows exactly where each token ends: with an
/// empty `d`, `xs` is one token; else no occurrence of `d` begins inside a
/// token but the last, none lies inside the last token, and the joined
/// value does not end with `d`.
pub open spec fn separable(xs: Seq<Seq<char>>, d: Seq<char>) -> bool {
    &&& xs.len() > 0
    &&& if d.len() == 0 {
        xs.len() == 1
    } else {
        &&& forall|i: int, j: int|
            0 <= i < xs.len() - 1 && 0 <= j < xs[i].len() ==> !#[trigger] matches_at(xs[i] + d, d, j)
        &&& forall|j: int| !#[trigger] matches_at(xs.last(), d, j)
        &&& !ends_with(encode_list(xs, d), d)
    }
}

proof fn lemma_encode_front(xs: Seq<Seq<char>>, d: Seq<char>)
    requires
        xs.len() >= 2,
    ensures
        encode_list(xs, d) == xs[0] + d + encode_list(xs.drop_first(), d),
    decreases xs.len(),
{
    if xs.len() == 2 {
        assert(xs.drop_last() =~= seq![xs[0]]);
        assert(xs.drop_first() =~= seq![xs[1]]);
        assert(encode_list(seq![xs[0]], d) == xs[0]);
        assert(encode_list(seq![xs[1]], d) == xs[1]);
        assert(xs.last() == xs[1]);
    } else {
        lemma_encode_front(xs.drop_last(), d);
        assert(xs.drop_last()[0] == xs[0]);
        assert(encode_list(xs.drop_first(), d) == encode_list(xs.drop_first().drop_last(), d) + d
            + xs.drop_first().last());
        assert(xs.drop_last().drop_first() =~= xs.drop_first().drop_last());
        assert(xs.drop_first().last() == xs.last());
        let a = xs[0];
        let m = encode_list(xs.drop_first().drop_last(), d);
        assert(a + d + m + d + xs.last() =~= a + d + (m + d + xs.last()));
    }
}

proof fn lemma_split_shift(p: Seq<char>, b: Seq<char>, d: Seq<char>, st: int, i: int)
    requires
        d.len() > 0,
        0 <= st <= i,
        i <= b.len(),
    ensures
        split_from(p + b, d, p.len() + st, p.len() + i) == split_from(b, d, st, i),
    decreases b.len() - i,
{
    let s = p + b;
    let k = p.len() + i;
    if i + d.len() > b.len() {
        assert(s.subrange(p.len() + st, s.len() as int) =~= b.subrange(st, b.len() as int));
    } else {
        assert(s.subrange(k, k + d.len()) =~= b.subrange(i, i + d.len()));
        if matches_at(b, d, i) {
            assert(s.subrange(p.len() + st, k) =~= b.subrange(st, i));
            lemma_split_shift(p, b, d, i + d.len(), i + d.len());
        } else {
            lemma_split_shift(p, b, d, st, i + 1);
        }
    }
}

proof fn lemma_split_token(t: Seq<char>, d: Seq<char>, r: Seq<char>, j: int)
    requires
        d.len() > 0,
        0 <= j <= t.len(),
        forall|k: int| 0 <= k < t.len() ==> !#[trigger] matches_at(t + d, d, k),
    ensures
        split_from(t + d + r, d, 0, j) == seq![t] + split_from(
            t + d + r,
            d,
            (t.len() + d.len()) as int,
            (t.len() + d.len()) as int,
        ),
    decreases t.len() - j,
{
    let s = t + d + r;
    assert((t + d).subrange(0, (t.len() + d.len()) as int) =~= t + d);
    if j < t.len() {
        assert(s.subrange(j, j + d.len()) =~= (t + d).subrange(j, j + d.len()));
        assert(!matches_at(t + d, d, j));
        lemma_split_token(t, d, r, j + 1);
    } else {
        assert(s.subrange(j, j + d.len()) =~= d);
        assert(s.subrange(0, j) =~= t);
    }
}

proof fn lemma_split_last(t: Seq<char>, d: Seq<char>, j: int)
    requires
        d.len() > 0,
        0 <= j <= t.len(),
        forall|k: int| !#[trigger] matches_at(t, d, k),
    ensures
        split_from(t, d, 0, j) == seq![t],
    decreases t.len() - j,
{
    assert(t.subrange(0, t.len() as int) =~= t);
    if j + d.len() <= t.len() {
        assert(!matches_at(t, d, j));
        lemma_split_last(t, d, j + 1);
    }
}

proof fn lemma_split_encode(xs: Seq<Seq<char>>, d: Seq<char>)
    requires
        d.len() > 0,
        xs.len() > 0,
        forall|i: int, j: int|
            0 <= i < xs.len() - 1 && 0 <= j < xs[i].len() ==> !#[trigger] matches_at(xs[i] + d, d, j),
        forall|j: int| !#[trigger] matches_at(xs.last(), d, j),
    ensures
        split_seq(encode_list(xs, d), d) == xs,
    decreases xs.len(),
{
    if xs.len() == 1 {
        assert forall|k: int| !#[trigger] matches_at(xs[0], d, k) by {
            assert(xs.last() == xs[0]);
            assert(!matches_at(xs.last(), d, k));
        }
        lemma_split_last(xs[0], d, 0);
        assert(seq![xs[0]] =~= xs);
    } else {
        let rest = xs.drop_first();
        let r = encode_list(rest, d);
        lemma_encode_front(xs, d);
        assert forall|i: int, j: int|
            0 <= i < rest.len() - 1 && 0 <= j < rest[i].len() implies !#[trigger] matches_at(
            rest[i] + d,
            d,
            j,
        ) by {
            assert(rest[i] == xs[i + 1]);
        }
        assert(rest.last() == xs.last());
        lemma_split_encode(rest, d);
        assert forall|k: int| 0 <= k < xs[0].len() implies !#[trigger] matches_at(xs[0] + d, d, k) by {
            assert(!matches_at(xs[0] + d, d, k));
        }
        lemma_split_token(xs[0], d, r, 0);
        assert(xs[0] + d + r =~= (xs[0] + d) + r);
        lemma_split_shift(xs[0] + d, r, d, 0, 0);
        assert(seq![xs[0]] + rest =~= xs);
    }
}

/// Joining a list and reading it back gives the list, wherever the joined
/// value shows exactly where each token ends.
pub proof fn lemma_decode_encode(xs: Seq<Seq<char>>, d: Seq<char>)
    requires
        separable(xs, d),
    ensures
        decode_list(encode_list(xs, d), d) == xs,
{
    if d.len() == 0 {
        assert(xs[0].subrange(0, xs[0].len() as int) =~= xs[0]);
        assert(seq![xs[0]] =~= xs);
    } else {
        lemma_split_encode(xs, d);
    }
}

/// Inserting at the length of a list appends to it.
pub proof fn lemma_insert_at_end(xs: Seq<Seq<char>>, v: Seq<char>)
    ensures
        xs.insert(xs.len() as int, v) == xs.push(v),
{
    assert(xs.insert(xs.len() as int, v) =~= xs.push(v));
}

} // verus!
