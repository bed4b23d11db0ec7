//! Character-level text handling with the meaning that `str` gives it:
//! whitespace trimming, line splitting, field splitting and decimal numbers.

use vstd::prelude::*;

verus! {

/// Unicode `White_Space`, the set that `char::is_whitespace` tests.
pub open spec fn is_ws(c: char) -> bool {
    let u = c as u32;
    ||| 9 <= u <= 13
    ||| u == 32
    ||| u == 0x85
    ||| u == 0xA0
    ||| u == 0x1680
    ||| 0x2000 <= u <= 0x200A
    ||| u == 0x2028
    ||| u == 0x2029
    ||| u == 0x202F
    ||| u == 0x205F
    ||| u == 0x3000
}

/// Whether `c` is white space, with the meaning of `char::is_whitespace`.
pub fn is_whitespace(c: char) -> (b: bool)
    ensures
        b == is_ws(c),
{
    let u = c as u32;
    (9 <= u && u <= 13) || u == 32 || u == 0x85 || u == 0xA0 || u == 0x1680 || (0x2000 <= u && u
        <= 0x200A) || u == 0x2028 || u == 0x2029 || u == 0x202F || u == 0x205F || u == 0x3000
}

/// `s` without its leading white space.
pub open spec fn trim_start(s: Seq<char>) -> Seq<char>
    decreases s.len(),
{
    if s.len() > 0 && is_ws(s[0]) {
        trim_start(s.drop_first())
    } else {
        s
    }
}

/// `s` without its trailing white space.
pub open spec fn trim_end(s: Seq<char>) -> Seq<char>
    decreases s.len(),
{
    if s.len() > 0 && is_ws(s.last()) {
        trim_end(s.drop_last())
    } else {
        s
    }
}

/// `s` without leading and trailing white space, as `str::trim` gives it.
pub open spec fn trim(s: Seq<char>) -> Seq<char> {
    trim_end(trim_start(s))
}

/// Calls `String::push`, which appends one character; the contract claims
/// that the string afterwards is the old one followed by that character.
#[verifier::external_body]
fn push_char(s: &mut String, c: char)
    ensures
        final(s)@ == old(s)@.push(c),
{
    s.push(c);
}

/// The characters of `s`, one element each.
pub fn chars_of(s: &str) -> (v: Vec<char>)
    ensures
        v@ == s@,
{
    let mut v: Vec<char> = Vec::new();
    for c in it: s.chars()
        invariant
            v@ == it.seq().take(it.index() as int),
            it.seq() == s@,
    {
        v.push(c);
    }
    v
}

/// The `String` made of the characters of `v`.
pub fn string_of(v: &[char]) -> (s: String)
    ensures
        s@ == v@,
{
    let mut s = String::new();
    let mut i: usize = 0;
    while i < v.len()
        invariant
            i <= v.len(),
            s@ == v@.take(i as int),
        decreases v.len() - i,
    {
        push_char(&mut s, v[i]);
        assert(v@.take(i + 1) == v@.take(i as int).push(v@[i as int]));
        i = i + 1;
    }
    assert(v@.take(v.len() as int) == v@);
    s
}


/// The characters `v[lo..hi]` as a vector of their own.
pub fn sub_chars(v: &[char], lo: usize, hi: usize) -> (r: Vec<char>)
    requires
        lo <= hi <= v@.len(),
    ensures
        r@ == v@.subrange(lo as int, hi as int),
{
    let mut r: Vec<char> = Vec::new();
    let mut i: usize = lo;
    while i < hi
        invariant
            lo <= i <= hi <= v@.len(),
            r@ == v@.subrange(lo as int, i as int),
        decreases hi - i,
    {
        r.push(v[i]);
        assert(v@.subrange(lo as int, i + 1) == v@.subrange(lo as int, i as int).push(v@[i as int]));
        i = i + 1;
    }
    r
}

/// Leading white space that `trim_start` removes can be skipped first.
pub proof fn lemma_trim_start_skip(s: Seq<char>, i: int)
    requires
        0 <= i <= s.len(),
        forall|k: int| 0 <= k < i ==> is_ws(#[trigger] s[k]),
    ensures
        trim_start(s) == trim_start(s.skip(i)),
    decreases i,
{
    if i > 0 {
        assert(s.drop_first().skip(i - 1) =~= s.skip(i));
        assert forall|k: int| 0 <= k < i - 1 implies is_ws(#[trigger] s.drop_first()[k]) by {
            assert(s.drop_first()[k] == s[k + 1]);
        }
        lemma_trim_start_skip(s.drop_first(), i - 1);
    } else {
        assert(s.skip(0) =~= s);
    }
}

proof fn lemma_trim_end_take(s: Seq<char>, j: int)
    requires
        0 <= j <= s.len(),
        forall|k: int| j <= k < s.len() ==> is_ws(#[trigger] s[k]),
    ensures
        trim_end(s) == trim_end(s.take(j)),
    decreases s.len() - j,
{
    if j < s.len() {
        assert(s.drop_last().take(j) =~= s.take(j));
        lemma_trim_end_take(s.drop_last(), j);
    } else {
        assert(s.take(j) =~= s);
    }
}

/// `v` without leading and trailing white space.
pub fn trim_chars(v: &[char]) -> (r: Vec<char>)
    ensures
        r@ == trim(v@),
{
    let n = v.len();
    let mut i: usize = 0;
    while i < n && is_whitespace(v[i])
        invariant
            i <= n == v@.len(),
            forall|k: int| 0 <= k < i ==> is_ws(#[trigger] v@[k]),
        decreases n - i,
    {
        i = i + 1;
    }
    proof {
        lemma_trim_start_skip(v@, i as int);
    }
    let ghost rest = v@.skip(i as int);
    assert(trim_start(rest) == rest);
    let mut j: usize = n;
    while j > i && is_whitespace(v[j - 1])
        invariant
            i <= j <= n == v@.len(),
            forall|k: int| j <= k < n ==> is_ws(#[trigger] v@[k]),
        decreases j,
    {
        j = j - 1;
    }
    proof {
        assert forall|k: int| j - i <= k < rest.len() implies is_ws(#[trigger] rest[k]) by {
            assert(rest[k] == v@[k + i]);
        }
        lemma_trim_end_take(rest, j - i);
        assert(rest.take(j - i) =~= v@.subrange(i as int, j as int));
    }
    sub_chars(v, i, j)
}

/// `v` without leading white space.
pub fn trim_start_chars(v: &[char]) -> (r: Vec<char>)
    ensures
        r@ == trim_start(v@),
{
    let n = v.len();
    let mut i: usize = 0;
    while i < n && is_whitespace(v[i])
        invariant
            i <= n == v@.len(),
            forall|k: int| 0 <= k < i ==> is_ws(#[trigger] v@[k]),
        decreases n - i,
    {
        i = i + 1;
    }
    proof {
        lemma_trim_start_skip(v@, i as int);
        assert(v@.skip(i as int) =~= v@.subrange(i as int, n as int));
    }
    sub_chars(v, i, n)
}

/// Whether `a` and `b` hold the same characters.
pub fn same_chars(a: &[char], b: &[char]) -> (r: bool)
    ensures
        r == (a@ == b@),
{
    if a.len() != b.len() {
        return false;
    }
    let mut i: usize = 0;
    while i < a.len()
        invariant
            i <= a@.len() == b@.len(),
            forall|k: int| 0 <= k < i ==> a@[k] == b@[k],
        decreases a.len() - i,
    {
        if a[i] != b[i] {
            return false;
        }
        i = i + 1;
    }
    assert(a@ =~= b@);
    true
}

/// `s` with every `from` replaced by `to`.
pub open spec fn replace_char(s: Seq<char>, from: char, to: char) -> Seq<char> {
    Seq::new(s.len(), |i: int| if s[i] == from { to } else { s[i] })
}

/// `v` with every `from` replaced by `to`, as `str::replace` does for one
/// character replaced by another.
pub fn replace_char_chars(v: &[char], from: char, to: char) -> (r: Vec<char>)
    ensures
        r@ == replace_char(v@, from, to),
{
    let mut r: Vec<char> = Vec::new();
    let mut i: usize = 0;
    while i < v.len()
        invariant
            i <= v@.len(),
            r@ == replace_char(v@, from, to).take(i as int),
        decreases v.len() - i,
    {
        if v[i] == from {
            r.push(to);
        } else {
            r.push(v[i]);
        }
        assert(r@ =~= replace_char(v@, from, to).take(i + 1));
        i = i + 1;
    }
    assert(replace_char(v@, from, to).take(i as int) =~= replace_char(v@, from, to));
    r
}

/// Appends the characters of `b` to `a`.
pub fn append_chars(a: &mut Vec<char>, b: &[char])
    ensures
        final(a)@ == old(a)@ + b@,
{
    let mut i: usize = 0;
    while i < b.len()
        invariant
            i <= b@.len(),
            a@ == old(a)@ + b@.take(i as int),
        decreases b.len() - i,
    {
        a.push(b[i]);
        assert(a@ =~= old(a)@ + b@.take(i + 1));
        i = i + 1;
    }
    assert(b@.take(i as int) =~= b@);
}

/// The run of non-white-space characters that `s` ends with.
pub open spec fn trailing_word(s: Seq<char>) -> Seq<char>
    decreases s.len(),
{
    if s.len() == 0 || is_ws(s.last()) {
        seq![]
    } else {
        trailing_word(s.drop_last()).push(s.last())
    }
}

/// The last word of `s`, as `str::split_whitespace().last()` gives it: the
/// run of non-white-space characters before the trailing white space; `None`
/// where `s` is all white space.
pub open spec fn last_word(s: Seq<char>) -> Option<Seq<char>> {
    if trim_end(s).len() == 0 {
        None
    } else {
        Some(trailing_word(trim_end(s)))
    }
}

proof fn lemma_trailing_word(s: Seq<char>, i: int)
    requires
        0 <= i <= s.len(),
        forall|k: int| i <= k < s.len() ==> !is_ws(#[trigger] s[k]),
        i == 0 || is_ws(s[i - 1]),
    ensures
        trailing_word(s) == s.skip(i),
    decreases s.len() - i,
{
    if i < s.len() {
        lemma_trailing_word(s.drop_last(), i);
        assert(s.drop_last().skip(i).push(s.last()) =~= s.skip(i));
    } else {
        assert(s.skip(i) =~= Seq::<char>::empty());
    }
}

/// The last word of `v`; `None` where `v` is all white space.
pub fn last_word_chars(v: &[char]) -> (r: Option<Vec<char>>)
    ensures
        match r {
            Some(w) => last_word(v@) == Some(w@),
            None => last_word(v@) is None,
        },
{
    let mut j: usize = v.len();
    while j > 0 && is_whitespace(v[j - 1])
        invariant
            j <= v@.len(),
            forall|k: int| j <= k < v@.len() ==> is_ws(#[trigger] v@[k]),
        decreases j,
    {
        j = j - 1;
    }
    proof {
        lemma_trim_end_take(v@, j as int);
    }
    let ghost t = v@.take(j as int);
    assert(trim_end(t) == t);
    if j == 0 {
        return None;
    }
    let mut i: usize = j;
    while i > 0 && !is_whitespace(v[i - 1])
        invariant
            i <= j <= v@.len(),
            t == v@.take(j as int),
            forall|k: int| i <= k < j ==> !is_ws(#[trigger] v@[k]),
        decreases i,
    {
        i = i - 1;
    }
    proof {
        assert forall|k: int| i <= k < t.len() implies !is_ws(#[trigger] t[k]) by {
            assert(t[k] == v@[k]);
        }
        if i > 0 {
            assert(t[i - 1] == v@[i - 1]);
        }
        lemma_trailing_word(t, i as int);
        assert(t.skip(i as int) =~= v@.subrange(i as int, j as int));
    }
    Some(sub_chars(v, i, j))
}

/// `s` with every occurrence of `p` removed, matching from the left without
/// overlap, as `str::replace(p, "")` does for a non-empty `p`.
pub open spec fn remove_all(s: Seq<char>, p: Seq<char>) -> Seq<char>
    recommends
        p.len() > 0,
    decreases s.len(),
{
    if s.len() == 0 {
        seq![]
    } else if p.len() > 0 && p.is_prefix_of(s) {
        remove_all(s.skip(p.len() as int), p)
    } else {
        seq![s[0]] + remove_all(s.drop_first(), p)
    }
}

/// `v` with every occurrence of `p` removed, matching from the left without overlap.
pub fn remove_all_chars(v: &[char], p: &[char]) -> (r: Vec<char>)
    requires
        p@.len() > 0,
    ensures
        r@ == remove_all(v@, p@),
{
    let mut out: Vec<char> = Vec::new();
    let mut i: usize = 0;
    assert(v@.skip(0) =~= v@);
    while i < v.len()
        invariant
            i <= v@.len(),
            p@.len() > 0,
            remove_all(v@, p@) == out@ + remove_all(v@.skip(i as int), p@),
        decreases v.len() - i,
    {
        let ghost t = v@.skip(i as int);
        if occurs_at_chars(v, p, i) {
            assert(p@.is_prefix_of(t)) by {
                assert forall|j: int| 0 <= j < p@.len() implies p@[j] == t[j] by {
                    assert(v@.subrange(i as int, i + p@.len())[j] == v@[i + j]);
                }
            }
            assert(t.skip(p@.len() as int) =~= v@.skip(i + p@.len()));
            i = i + p.len();
        } else {
            assert(!p@.is_prefix_of(t)) by {
                if p@.is_prefix_of(t) {
                    assert(v@.subrange(i as int, i + p@.len()) =~= p@);
                }
            }
            assert(t.drop_first() =~= v@.skip(i + 1));
            out.push(v[i]);
            assert(out@ + remove_all(v@.skip(i + 1), p@) =~= out@.drop_last() + remove_all(t, p@));
            i = i + 1;
        }
    }
    assert(remove_all(v@.skip(i as int), p@) =~= Seq::<char>::empty());
    assert(out@ + Seq::<char>::empty() =~= out@);
    out
}

/// `s` without leading and trailing white space, as `str::trim` gives it.
pub fn trim_str(s: &str) -> (r: String)
    ensures
        r@ == trim(s@),
{
    let v = chars_of(s);
    let t = trim_chars(v.as_slice());
    string_of(t.as_slice())
}


/// The number of characters of `s` before its first `c` (all of them if none).
pub open spec fn pos_of(s: Seq<char>, c: char) -> nat
    decreases s.len(),
{
    if s.len() == 0 || s[0] == c {
        0
    } else {
        1 + pos_of(s.drop_first(), c)
    }
}

/// A line without the `'\r'` that ended it before its `'\n'`.
pub open spec fn strip_cr(l: Seq<char>) -> Seq<char> {
    if l.len() > 0 && l.last() == '\r' {
        l.drop_last()
    } else {
        l
    }
}

/// The lines of `s`, as `str::lines` yields them: split after each `'\n'`,
/// the `'\n'` and a `'\r'` just before it removed, no line after a final `'\n'`.
pub open spec fn lines(s: Seq<char>) -> Seq<Seq<char>>
    decreases s.len(),
{
    if s.len() == 0 {
        seq![]
    } else if pos_of(s, '\n') == s.len() {
        seq![s]
    } else {
        proof {
            lemma_pos_of_bound(s, '\n');
        }
        seq![strip_cr(s.take(pos_of(s, '\n') as int))] + lines(s.skip(pos_of(s, '\n') + 1int))
    }
}

/// Where the first `c` of `s` stands, and that no `c` comes before it.
pub proof fn lemma_pos_of_bound(s: Seq<char>, c: char)
    ensures
        pos_of(s, c) <= s.len(),
        pos_of(s, c) < s.len() ==> s[pos_of(s, c) as int] == c,
        forall|k: int| 0 <= k < pos_of(s, c) ==> #[trigger] s[k] != c,
    decreases s.len(),
{
    if s.len() > 0 && s[0] != c {
        lemma_pos_of_bound(s.drop_first(), c);
        assert forall|k: int| 0 <= k < pos_of(s, c) implies #[trigger] s[k] != c by {
            if k > 0 {
                assert(s[k] == s.drop_first()[k - 1]);
            }
        }
    }
}

/// A text that ends with a line break (or is empty), followed by more text,
/// splits into its own lines followed by the lines of the rest.
pub proof fn lemma_lines_append(p: Seq<char>, o: Seq<char>)
    requires
        p.len() == 0 || p.last() == '\n',
    ensures
        lines(p + o) == lines(p) + lines(o),
    decreases p.len(),
{
    if p.len() == 0 {
        assert(p + o =~= o);
        assert(lines(p) + lines(o) =~= lines(o));
    } else {
        lemma_pos_of_bound(p, '\n');
        let m = pos_of(p, '\n') as int;
        if m == p.len() {
            assert(p[p.len() - 1] == '\n');
            assert(false);
        }
        let t = p + o;
        assert forall|k: int| 0 <= k < m implies #[trigger] t[k] != '\n' by {
            assert(t[k] == p[k]);
        }
        assert(t[m] == p[m]);
        lemma_pos_of(t, '\n', m);
        assert(t.take(m) =~= p.take(m));
        assert(t.skip(m + 1) =~= p.skip(m + 1) + o);
        let rest = p.skip(m + 1);
        if rest.len() > 0 {
            assert(rest.last() == p.last());
        }
        lemma_lines_append(rest, o);
        assert(lines(t) =~= lines(p) + lines(o));
    }
}

/// The views of a sequence of character vectors.
pub open spec fn views(v: Seq<Vec<char>>) -> Seq<Seq<char>> {
    Seq::new(v.len(), |i: int| v[i]@)
}

/// The first `c` of `s` stands at `m` when none comes before it and `m` holds one
/// (or is the end).
pub proof fn lemma_pos_of(s: Seq<char>, c: char, m: int)
    requires
        0 <= m <= s.len(),
        forall|k: int| 0 <= k < m ==> #[trigger] s[k] != c,
        m == s.len() || s[m] == c,
    ensures
        pos_of(s, c) == m,
    decreases m,
{
    if m > 0 {
        assert forall|k: int| 0 <= k < m - 1 implies #[trigger] s.drop_first()[k] != c by {
            assert(s.drop_first()[k] == s[k + 1]);
        }
        lemma_pos_of(s.drop_first(), c, m - 1);
    }
}

/// Pushing a vector pushes its view.
pub proof fn lemma_views_push(v: Seq<Vec<char>>, x: Vec<char>)
    ensures
        views(v.push(x)) == views(v).push(x@),
{
    assert(views(v.push(x)) =~= views(v).push(x@));
}

/// `l` without a final `'\r'`.
fn strip_cr_chars(l: Vec<char>) -> (r: Vec<char>)
    ensures
        r@ == strip_cr(l@),
{
    let n = l.len();
    if n > 0 && l[n - 1] == '\r' {
        sub_chars(l.as_slice(), 0, n - 1)
    } else {
        l
    }
}

/// The lines of `v`, as `str::lines` yields them.
pub fn lines_of(v: &[char]) -> (r: Vec<Vec<char>>)
    ensures
        views(r@) == lines(v@),
{
    let n = v.len();
    let mut out: Vec<Vec<char>> = Vec::new();
    let mut start: usize = 0;
    let mut i: usize = 0;
    assert(v@.skip(0) =~= v@);
    assert(views(out@) + lines(v@) =~= lines(v@));
    while i < n
        invariant
            start <= i <= n == v@.len(),
            lines(v@) == views(out@) + lines(v@.skip(start as int)),
            forall|k: int| start <= k < i ==> #[trigger] v@[k] != '\n',
        decreases n - i,
    {
        if v[i] == '\n' {
            let ghost t = v@.skip(start as int);
            proof {
                assert forall|k: int| 0 <= k < i - start implies #[trigger] t[k] != '\n' by {
                    assert(t[k] == v@[k + start]);
                }
                lemma_pos_of(t, '\n', i - start);
                assert(t.take(i - start) =~= v@.subrange(start as int, i as int));
                assert(t.skip(i - start + 1) =~= v@.skip(i + 1));
            }
            let line = strip_cr_chars(sub_chars(v, start, i));
            proof {
                lemma_views_push(out@, line);
                assert(views(out@.push(line)) + lines(v@.skip(i + 1)) =~= views(out@) + lines(t));
            }
            out.push(line);
            start = i + 1;
        }
        i = i + 1;
    }
    let ghost t = v@.skip(start as int);
    if start < n {
        proof {
            assert forall|k: int| 0 <= k < n - start implies #[trigger] t[k] != '\n' by {
                assert(t[k] == v@[k + start]);
            }
            lemma_pos_of(t, '\n', n - start);
            assert(t =~= v@.subrange(start as int, n as int));
        }
        let last = sub_chars(v, start, n);
        proof {
            lemma_views_push(out@, last);
            assert(views(out@.push(last)) =~= views(out@) + lines(t));
        }
        out.push(last);
    } else {
        assert(views(out@) + lines(t) =~= views(out@));
    }
    out
}


/// The pieces of `s` between occurrences of `c`, as `str::split` yields them
/// for a character pattern.
pub open spec fn split(s: Seq<char>, c: char) -> Seq<Seq<char>>
    decreases s.len(),
{
    if pos_of(s, c) >= s.len() {
        seq![s]
    } else {
        proof {
            lemma_pos_of_bound(s, c);
        }
        seq![s.take(pos_of(s, c) as int)] + split(s.skip(pos_of(s, c) + 1int), c)
    }
}

/// Each element of `fs` trimmed.
pub open spec fn trim_all(fs: Seq<Seq<char>>) -> Seq<Seq<char>> {
    Seq::new(fs.len(), |i: int| trim(fs[i]))
}

/// The pieces of `v` between occurrences of `c`.
pub fn split_chars(v: &[char], c: char) -> (r: Vec<Vec<char>>)
    ensures
        views(r@) == split(v@, c),
{
    let n = v.len();
    let mut out: Vec<Vec<char>> = Vec::new();
    let mut start: usize = 0;
    let mut i: usize = 0;
    assert(v@.skip(0) =~= v@);
    assert(views(out@) + split(v@, c) =~= split(v@, c));
    while i < n
        invariant
            start <= i <= n == v@.len(),
            split(v@, c) == views(out@) + split(v@.skip(start as int), c),
            forall|k: int| start <= k < i ==> #[trigger] v@[k] != c,
        decreases n - i,
    {
        if v[i] == c {
            let ghost t = v@.skip(start as int);
            proof {
                assert forall|k: int| 0 <= k < i - start implies #[trigger] t[k] != c by {
                    assert(t[k] == v@[k + start]);
                }
                lemma_pos_of(t, c, i - start);
                assert(t.take(i - start) =~= v@.subrange(start as int, i as int));
                assert(t.skip(i - start + 1) =~= v@.skip(i + 1));
            }
            let piece = sub_chars(v, start, i);
            proof {
                lemma_views_push(out@, piece);
                assert(views(out@.push(piece)) + split(v@.skip(i + 1), c) =~= views(out@) + split(t, c));
            }
            out.push(piece);
            start = i + 1;
        }
        i = i + 1;
    }
    let ghost t = v@.skip(start as int);
    proof {
        assert forall|k: int| 0 <= k < n - start implies #[trigger] t[k] != c by {
            assert(t[k] == v@[k + start]);
        }
        lemma_pos_of(t, c, n - start);
        assert(t =~= v@.subrange(start as int, n as int));
    }
    let last = sub_chars(v, start, n);
    proof {
        lemma_views_push(out@, last);
        assert(views(out@.push(last)) =~= views(out@) + split(t, c));
    }
    out.push(last);
    out
}

/// The pieces of `v` between occurrences of `c`, each trimmed.
pub fn split_trimmed(v: &[char], c: char) -> (r: Vec<Vec<char>>)
    ensures
        views(r@) == trim_all(split(v@, c)),
{
    let pieces = split_chars(v, c);
    let mut out: Vec<Vec<char>> = Vec::new();
    let mut i: usize = 0;
    while i < pieces.len()
        invariant
            i <= pieces@.len(),
            views(pieces@) == split(v@, c),
            views(out@) == trim_all(split(v@, c)).take(i as int),
        decreases pieces.len() - i,
    {
        let t = trim_chars(pieces[i].as_slice());
        proof {
            lemma_views_push(out@, t);
            assert(pieces@[i as int]@ == views(pieces@)[i as int]);
            assert(trim_all(split(v@, c)).take(i + 1) =~= trim_all(split(v@, c)).take(i as int).push(t@));
        }
        out.push(t);
        i = i + 1;
    }
    assert(trim_all(split(v@, c)).take(i as int) =~= trim_all(split(v@, c)));
    out
}

/// Whether `p` occurs in `s` starting at index `i`.
pub open spec fn occurs_at(s: Seq<char>, p: Seq<char>, i: int) -> bool {
    0 <= i && i + p.len() <= s.len() && s.subrange(i, i + p.len()) == p
}

/// Whether `p` occurs anywhere in `s`, as `str::contains` tests.
pub open spec fn contains(s: Seq<char>, p: Seq<char>) -> bool {
    exists|i: int| occurs_at(s, p, i)
}

/// Whether `p` occurs in `s` at index `i`.
pub fn occurs_at_chars(s: &[char], p: &[char], i: usize) -> (b: bool)
    ensures
        b == occurs_at(s@, p@, i as int),
{
    if i > s.len() || p.len() > s.len() - i {
        return false;
    }
    let mut k: usize = 0;
    while k < p.len()
        invariant
            i + p@.len() <= s.len(),
            k <= p@.len(),
            forall|j: int| 0 <= j < k ==> s@[i + j] == p@[j],
        decreases p.len() - k,
    {
        if s[i + k] != p[k] {
            assert(s@.subrange(i as int, i + p@.len())[k as int] != p@[k as int]);
            return false;
        }
        k = k + 1;
    }
    assert(s@.subrange(i as int, i + p@.len()) =~= p@);
    true
}

/// Whether `s` begins with `p`, as `str::starts_with` tests.
pub fn starts_with_chars(s: &[char], p: &[char]) -> (b: bool)
    ensures
        b == p@.is_prefix_of(s@),
{
    let b = occurs_at_chars(s, p, 0);
    proof {
        if b {
            assert forall|j: int| 0 <= j < p@.len() implies p@[j] == s@[j] by {
                assert(s@.subrange(0, p@.len() as int)[j] == s@[j]);
            }
        }
        if p@.is_prefix_of(s@) {
            assert(s@.subrange(0, p@.len() as int) =~= p@);
        }
    }
    b
}

/// Whether `p` occurs anywhere in `s`, as `str::contains` tests.
pub fn contains_chars(s: &[char], p: &[char]) -> (b: bool)
    ensures
        b == contains(s@, p@),
{
    if p.len() > s.len() {
        return false;
    }
    let last = s.len() - p.len();
    let mut i: usize = 0;
    while i < last
        invariant
            i <= last,
            last + p@.len() == s@.len(),
            forall|j: int| 0 <= j < i ==> !occurs_at(s@, p@, j),
        decreases last - i,
    {
        if occurs_at_chars(s, p, i) {
            return true;
        }
        i = i + 1;
    }
    occurs_at_chars(s, p, last)
}

} // verus!
