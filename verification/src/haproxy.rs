//! Editing the HAProxy configuration for a new subdomain: a `use_backend`
//! rule at the end of the `frontend otdm_dev` section and a `backend` section
//! at the end of the file, each added only where it is not there yet.

use vstd::prelude::*;
use crate::text::{
    append_chars, occurs_at, is_ws, lemma_trim_start_skip, trim_end, lemma_pos_of, lemma_pos_of_bound, pos_of, strip_cr, chars_of, contains, contains_chars, lemma_views_push, lines, lines_of, replace_char,
    replace_char_chars, same_chars, starts_with_chars, string_of, trim, trim_chars, trim_start,
    trim_start_chars, views,
};

verus! {

/// The header that opens the frontend section the rules go into.
pub open spec fn frontend_name() -> Seq<char> {
    "frontend otdm_dev"@
}

/// Whether the line opens the frontend section.
pub open spec fn opens_frontend(l: Seq<char>) -> bool {
    frontend_name().is_prefix_of(trim_start(l))
}

/// Whether the line ends the section it follows: another section header, or a
/// blank line.
pub open spec fn ends_section(l: Seq<char>) -> bool {
    &&& !opens_frontend(l)
    &&& {
        ||| "frontend "@.is_prefix_of(trim_start(l))
        ||| "backend "@.is_prefix_of(trim_start(l))
        ||| "listen "@.is_prefix_of(trim_start(l))
        ||| trim(l).len() == 0
    }
}

/// The first index at or after `i` of a line that opens the frontend section
/// (`ls.len()` if none).
pub open spec fn first_opening(ls: Seq<Seq<char>>, i: int) -> int
    decreases ls.len() - i,
{
    if i >= ls.len() {
        ls.len() as int
    } else if opens_frontend(ls[i]) {
        i
    } else {
        first_opening(ls, i + 1)
    }
}

/// The first index at or after `i` of a line that ends a section (`ls.len()` if none).
pub open spec fn first_end(ls: Seq<Seq<char>>, i: int) -> int
    decreases ls.len() - i,
{
    if i >= ls.len() {
        ls.len() as int
    } else if ends_section(ls[i]) {
        i
    } else {
        first_end(ls, i + 1)
    }
}

/// The last index before `hi` of a line that opens the frontend section (-1 if none).
pub open spec fn last_opening(ls: Seq<Seq<char>>, hi: int) -> int
    decreases hi,
{
    if hi <= 0 {
        -1
    } else if opens_frontend(ls[hi - 1]) {
        hi - 1
    } else {
        last_opening(ls, hi - 1)
    }
}

/// Where the frontend section lies, as (header index, end index): it ends at the
/// first line after the first header that ends a section (or at the end of the
/// file), and its header is the last header line before that end.
pub open spec fn frontend_section(ls: Seq<Seq<char>>) -> Option<(int, int)> {
    let first = first_opening(ls, 0);
    if first >= ls.len() {
        None
    } else {
        let end = first_end(ls, first + 1);
        Some((last_opening(ls, end), end))
    }
}

/// The subdomain with every `.` written as `_`, as backend names use it.
pub open spec fn backend_name(subdomain: Seq<char>) -> Seq<char> {
    replace_char(subdomain, '.', '_')
}

/// The rule that sends requests for the subdomain to its backend.
pub open spec fn use_backend_line(subdomain: Seq<char>) -> Seq<char> {
    "    use_backend "@ + backend_name(subdomain) + " if { req.hdr(host) -i "@ + subdomain + " }"@
}

/// The header of the subdomain's backend section.
pub open spec fn backend_header(subdomain: Seq<char>) -> Seq<char> {
    "backend "@ + backend_name(subdomain)
}

/// The line that names the subdomain's one server.
pub open spec fn server_line(subdomain: Seq<char>, client_ip: Seq<char>) -> Seq<char> {
    "    server "@ + backend_name(subdomain) + " "@ + client_ip + ":80 check"@
}

/// The lines of the subdomain's backend section, after a blank line.
pub open spec fn backend_block(subdomain: Seq<char>, client_ip: Seq<char>) -> Seq<Seq<char>> {
    seq![
        Seq::<char>::empty(),
        backend_header(subdomain),
        "    mode http"@,
        "    balance roundrobin"@,
        server_line(subdomain, client_ip),
    ]
}

/// Whether some line in `ls[lo..hi]`, trimmed, is `t`.
pub open spec fn has_trimmed_line(ls: Seq<Seq<char>>, lo: int, hi: int, t: Seq<char>) -> bool {
    exists|k: int| lo <= k < hi && trim(#[trigger] ls[k]) == t
}

/// The lines with the `use_backend` rule added at the end of the frontend
/// section, unless the section already holds it.
pub open spec fn with_rule(ls: Seq<Seq<char>>, subdomain: Seq<char>) -> Seq<Seq<char>> {
    match frontend_section(ls) {
        Some((start, end)) => if has_trimmed_line(ls, start, end, trim(use_backend_line(subdomain))) {
            ls
        } else {
            ls.insert(end, use_backend_line(subdomain))
        },
        None => ls,
    }
}

/// The lines with the backend section added at the end, unless a line already
/// reads as its header.
pub open spec fn with_backend(ls: Seq<Seq<char>>, subdomain: Seq<char>, client_ip: Seq<char>) -> Seq<Seq<char>> {
    if has_trimmed_line(ls, 0, ls.len() as int, backend_header(subdomain)) {
        ls
    } else {
        ls + backend_block(subdomain, client_ip)
    }
}

/// The lines joined with `'\n'` between them.
pub open spec fn join_lines(ls: Seq<Seq<char>>) -> Seq<char>
    decreases ls.len(),
{
    if ls.len() == 0 {
        seq![]
    } else if ls.len() == 1 {
        ls[0]
    } else {
        join_lines(ls.drop_last()) + seq!['\n'] + ls.last()
    }
}

/// The lines of the configuration after both edits.
pub open spec fn updated_lines(config: Seq<char>, subdomain: Seq<char>, client_ip: Seq<char>) -> Seq<Seq<char>> {
    with_backend(with_rule(lines(config), subdomain), subdomain, client_ip)
}

/// The configuration text after both edits: the lines joined with `'\n'`, and a
/// final `'\n'`.
pub open spec fn updated_config(config: Seq<char>, subdomain: Seq<char>, client_ip: Seq<char>) -> Seq<char> {
    join_lines(updated_lines(config, subdomain, client_ip)) + seq!['\n']
}

/// Why the configuration could not be edited.
#[derive(Debug, PartialEq, Eq, Structural)]
pub enum HaproxyConfigError {
    /// The text holds no `frontend otdm_dev`, so there is no section for the rule.
    FrontendNotFound,
}


proof fn lemma_first_opening(ls: Seq<Seq<char>>, i: int, m: int)
    requires
        0 <= i <= m <= ls.len(),
        forall|k: int| i <= k < m ==> !opens_frontend(#[trigger] ls[k]),
        m == ls.len() || opens_frontend(ls[m]),
    ensures
        first_opening(ls, i) == m,
    decreases m - i,
{
    if i < m {
        lemma_first_opening(ls, i + 1, m);
    }
}

proof fn lemma_first_end(ls: Seq<Seq<char>>, i: int, m: int)
    requires
        0 <= i <= m <= ls.len(),
        forall|k: int| i <= k < m ==> !ends_section(#[trigger] ls[k]),
        m == ls.len() || ends_section(ls[m]),
    ensures
        first_end(ls, i) == m,
    decreases m - i,
{
    if i < m {
        lemma_first_end(ls, i + 1, m);
    }
}

proof fn lemma_last_opening(ls: Seq<Seq<char>>, hi: int, st: int)
    requires
        0 <= st < hi <= ls.len(),
        opens_frontend(ls[st]),
        forall|k: int| st < k < hi ==> !opens_frontend(#[trigger] ls[k]),
    ensures
        last_opening(ls, hi) == st,
    decreases hi - st,
{
    if hi - 1 > st {
        lemma_last_opening(ls, hi - 1, st);
    }
}

/// Whether the line opens the frontend section.
fn opens_frontend_line(l: &[char]) -> (b: bool)
    ensures
        b == opens_frontend(l@),
{
    let name = chars_of("frontend otdm_dev");
    let t = trim_start_chars(l);
    starts_with_chars(t.as_slice(), name.as_slice())
}

/// Whether the line ends the section it follows.
fn ends_section_line(l: &[char]) -> (b: bool)
    ensures
        b == ends_section(l@),
{
    if opens_frontend_line(l) {
        return false;
    }
    let t = trim_start_chars(l);
    let fe = chars_of("frontend ");
    let be = chars_of("backend ");
    let li = chars_of("listen ");
    let trimmed = trim_chars(l);
    starts_with_chars(t.as_slice(), fe.as_slice()) || starts_with_chars(t.as_slice(), be.as_slice())
        || starts_with_chars(t.as_slice(), li.as_slice()) || trimmed.len() == 0
}

/// Where the frontend section lies in the lines `ls`.
pub fn find_frontend_section(ls: &Vec<Vec<char>>) -> (r: Option<(usize, usize)>)
    ensures
        match r {
            Some((s, e)) => s < e <= ls@.len() && frontend_section(views(ls@)) == Some((s as int, e as int)),
            None => frontend_section(views(ls@)) is None,
        },
{
    let ghost v = views(ls@);
    let n = ls.len();
    let mut f: usize = 0;
    while f < n && !opens_frontend_line(ls[f].as_slice())
        invariant
            f <= n == ls@.len() == v.len(),
            v == views(ls@),
            forall|k: int| 0 <= k < f ==> !opens_frontend(#[trigger] v[k]),
        decreases n - f,
    {
        f = f + 1;
    }
    proof {
        lemma_first_opening(v, 0, f as int);
    }
    if f == n {
        return None;
    }
    let mut st: usize = f;
    let mut j: usize = f + 1;
    while j < n && !ends_section_line(ls[j].as_slice())
        invariant
            f < j <= n == ls@.len() == v.len(),
            v == views(ls@),
            f <= st < j,
            opens_frontend(v[st as int]),
            forall|k: int| f + 1 <= k < j ==> !ends_section(#[trigger] v[k]),
            forall|k: int| st < k < j ==> !opens_frontend(#[trigger] v[k]),
        decreases n - j,
    {
        if opens_frontend_line(ls[j].as_slice()) {
            st = j;
        }
        j = j + 1;
    }
    proof {
        lemma_first_end(v, f + 1, j as int);
        lemma_last_opening(v, j as int, st as int);
    }
    Some((st, j))
}

/// Whether some line in `ls[lo..hi]`, trimmed, is `t`.
fn has_trimmed_line_in(ls: &Vec<Vec<char>>, lo: usize, hi: usize, t: &[char]) -> (b: bool)
    requires
        lo <= hi <= ls@.len(),
    ensures
        b == has_trimmed_line(views(ls@), lo as int, hi as int, t@),
{
    let ghost v = views(ls@);
    let mut k: usize = lo;
    while k < hi
        invariant
            lo <= k <= hi <= ls@.len(),
            v == views(ls@),
            forall|j: int| lo <= j < k ==> trim(#[trigger] v[j]) != t@,
        decreases hi - k,
    {
        let tl = trim_chars(ls[k].as_slice());
        if same_chars(tl.as_slice(), t) {
            assert(trim(v[k as int]) == t@);
            return true;
        }
        k = k + 1;
    }
    false
}

/// The lines joined with `'\n'` between them.
fn join_lines_chars(ls: &Vec<Vec<char>>) -> (r: Vec<char>)
    ensures
        r@ == join_lines(views(ls@)),
{
    let ghost v = views(ls@);
    let mut out: Vec<char> = Vec::new();
    let mut i: usize = 0;
    assert(v.take(0) =~= Seq::<Seq<char>>::empty());
    while i < ls.len()
        invariant
            i <= ls@.len() == v.len(),
            v == views(ls@),
            out@ == join_lines(v.take(i as int)),
        decreases ls.len() - i,
    {
        assert(v.take(i + 1).drop_last() =~= v.take(i as int));
        assert(v.take(i + 1).last() == ls@[i as int]@);
        if i > 0 {
            out.push('\n');
        }
        append_chars(&mut out, ls[i].as_slice());
        i = i + 1;
    }
    assert(v.take(i as int) =~= v);
    out
}

proof fn lemma_views_insert(v: Seq<Vec<char>>, i: int, x: Vec<char>)
    requires
        0 <= i <= v.len(),
    ensures
        views(v.insert(i, x)) == views(v).insert(i, x@),
{
    assert(views(v.insert(i, x)) =~= views(v).insert(i, x@));
}

/// The configuration text with the subdomain's `use_backend` rule added at the
/// end of the `frontend otdm_dev` section and its backend section (one server,
/// `client_ip` on port 80) added at the end, each only where it is missing.
/// A text that does not mention `frontend otdm_dev` at all is refused.
pub fn update_haproxy_config(config: &str, subdomain: &str, client_ip: &str) -> (r: Result<
    String,
    HaproxyConfigError,
>)
    ensures
        match r {
            Ok(text) => contains(config@, frontend_name()) && text@ == updated_config(
                config@,
                subdomain@,
                client_ip@,
            ),
            Err(e) => e == HaproxyConfigError::FrontendNotFound && !contains(
                config@,
                frontend_name(),
            ),
        },
{
    let cfg = chars_of(config);
    let sub = chars_of(subdomain);
    let ip = chars_of(client_ip);
    let name = replace_char_chars(sub.as_slice(), '.', '_');
    let mut rule = chars_of("    use_backend ");
    append_chars(&mut rule, name.as_slice());
    append_chars(&mut rule, chars_of(" if { req.hdr(host) -i ").as_slice());
    append_chars(&mut rule, sub.as_slice());
    append_chars(&mut rule, chars_of(" }").as_slice());
    assert(rule@ =~= use_backend_line(subdomain@));
    let fe = chars_of("frontend otdm_dev");
    if !contains_chars(cfg.as_slice(), fe.as_slice()) {
        return Err(HaproxyConfigError::FrontendNotFound);
    }
    let mut ls = lines_of(cfg.as_slice());
    let ghost orig = views(ls@);
    match find_frontend_section(&ls) {
        Some((start, end)) => {
            let rule_trimmed = trim_chars(rule.as_slice());
            if !has_trimmed_line_in(&ls, start, end, rule_trimmed.as_slice()) {
                proof {
                    lemma_views_insert(ls@, end as int, rule);
                }
                ls.insert(end, rule);
            }
        },
        None => {},
    }
    assert(views(ls@) == with_rule(orig, subdomain@));
    let mut header = chars_of("backend ");
    append_chars(&mut header, name.as_slice());
    assert(header@ =~= backend_header(subdomain@));
    let ghost mid = views(ls@);
    let n = ls.len();
    if !has_trimmed_line_in(&ls, 0, n, header.as_slice()) {
        let mut server = chars_of("    server ");
        append_chars(&mut server, name.as_slice());
        append_chars(&mut server, chars_of(" ").as_slice());
        append_chars(&mut server, ip.as_slice());
        append_chars(&mut server, chars_of(":80 check").as_slice());
        let blank: Vec<char> = Vec::new();
        proof { lemma_views_push(ls@, blank); }
        ls.push(blank);
        proof { lemma_views_push(ls@, header); }
        ls.push(header);
        let mode = chars_of("    mode http");
        proof { lemma_views_push(ls@, mode); }
        ls.push(mode);
        let balance = chars_of("    balance roundrobin");
        proof { lemma_views_push(ls@, balance); }
        ls.push(balance);
        proof { lemma_views_push(ls@, server); }
        ls.push(server);
        assert(views(ls@) =~= mid + backend_block(subdomain@, client_ip@));
    }
    assert(views(ls@) == updated_lines(config@, subdomain@, client_ip@));
    let mut out = join_lines_chars(&ls);
    out.push('\n');
    Ok(string_of(out.as_slice()))
}


/// Whether the line holds no `'\n'`.
pub open spec fn no_newline(l: Seq<char>) -> bool {
    forall|i: int| 0 <= i < l.len() ==> #[trigger] l[i] != '\n'
}

/// Whether the line holds no `'\n'` and does not end with `'\r'`: a line that
/// reads back unchanged once written with a `'\n'` after it.
pub open spec fn clean_line(l: Seq<char>) -> bool {
    no_newline(l) && !(l.len() > 0 && l.last() == '\r')
}

proof fn lemma_lines_no_newline(s: Seq<char>)
    ensures
        forall|k: int| 0 <= k < lines(s).len() ==> no_newline(#[trigger] lines(s)[k]),
    decreases s.len(),
{
    if s.len() > 0 {
        lemma_pos_of_bound(s, '\n');
        let m = pos_of(s, '\n');
        if m < s.len() {
            lemma_lines_no_newline(s.skip(m + 1int));
            let first = strip_cr(s.take(m as int));
            assert(no_newline(first)) by {
                assert forall|i: int| 0 <= i < first.len() implies #[trigger] first[i] != '\n' by {
                    assert(first[i] == s[i]);
                }
            }
            assert forall|k: int| 0 <= k < lines(s).len() implies no_newline(#[trigger] lines(s)[k]) by {
                if k > 0 {
                    assert(lines(s)[k] == lines(s.skip(m + 1int))[k - 1]);
                }
            }
        }
    }
}

proof fn lemma_join_front(ls: Seq<Seq<char>>)
    requires
        ls.len() >= 2,
    ensures
        join_lines(ls) == ls[0] + seq!['\n'] + join_lines(ls.drop_first()),
    decreases ls.len(),
{
    if ls.len() == 2 {
        assert(ls.drop_last().len() == 1);
        assert(ls.drop_first().len() == 1);
        assert(join_lines(ls.drop_last()) == ls[0]);
        assert(join_lines(ls.drop_first()) == ls[1]);
    } else {
        lemma_join_front(ls.drop_last());
        assert(ls.drop_last().drop_first() =~= ls.drop_first().drop_last());
        assert(ls.drop_first().last() == ls.last());
        assert(ls.drop_last()[0] == ls[0]);
    }
}

proof fn lemma_lines_of_joined(ls: Seq<Seq<char>>)
    requires
        ls.len() >= 1,
        forall|k: int| 0 <= k < ls.len() ==> clean_line(#[trigger] ls[k]),
    ensures
        lines(join_lines(ls) + seq!['\n']) == ls,
    decreases ls.len(),
{
    let l0 = ls[0];
    assert(clean_line(ls[0]));
    let rest = if ls.len() == 1 {
        Seq::<char>::empty()
    } else {
        join_lines(ls.drop_first()) + seq!['\n']
    };
    let t = l0 + seq!['\n'] + rest;
    if ls.len() == 1 {
        assert(join_lines(ls) == l0);
        assert(join_lines(ls) + seq!['\n'] =~= t);
    } else {
        lemma_join_front(ls);
        assert(join_lines(ls) + seq!['\n'] =~= t);
        assert forall|k: int| 0 <= k < ls.drop_first().len() implies clean_line(#[trigger] ls.drop_first()[k]) by {
            assert(ls.drop_first()[k] == ls[k + 1]);
        }
        lemma_lines_of_joined(ls.drop_first());
    }
    let m = l0.len() as int;
    assert forall|k: int| 0 <= k < m implies #[trigger] t[k] != '\n' by {
        assert(t[k] == l0[k]);
    }
    lemma_pos_of(t, '\n', m);
    assert(t.take(m) =~= l0);
    assert(t.skip(m + 1) =~= rest);
    assert(strip_cr(l0) == l0);
    if ls.len() == 1 {
        assert(lines(rest) =~= Seq::<Seq<char>>::empty());
        assert(lines(t) =~= ls);
    } else {
        assert(lines(t) =~= seq![l0] + ls.drop_first());
        assert(seq![l0] + ls.drop_first() =~= ls);
    }
}


proof fn lemma_first_opening_props(ls: Seq<Seq<char>>, i: int)
    requires
        0 <= i <= ls.len(),
    ensures
        i <= first_opening(ls, i) <= ls.len(),
        forall|k: int| i <= k < first_opening(ls, i) ==> !opens_frontend(#[trigger] ls[k]),
        first_opening(ls, i) < ls.len() ==> opens_frontend(ls[first_opening(ls, i)]),
    decreases ls.len() - i,
{
    if i < ls.len() && !opens_frontend(ls[i]) {
        lemma_first_opening_props(ls, i + 1);
    }
}

proof fn lemma_first_end_props(ls: Seq<Seq<char>>, i: int)
    requires
        0 <= i <= ls.len(),
    ensures
        i <= first_end(ls, i) <= ls.len(),
        forall|k: int| i <= k < first_end(ls, i) ==> !ends_section(#[trigger] ls[k]),
        first_end(ls, i) < ls.len() ==> ends_section(ls[first_end(ls, i)]),
    decreases ls.len() - i,
{
    if i < ls.len() && !ends_section(ls[i]) {
        lemma_first_end_props(ls, i + 1);
    }
}

proof fn lemma_last_opening_props(ls: Seq<Seq<char>>, hi: int)
    requires
        0 <= hi <= ls.len(),
    ensures
        -1 <= last_opening(ls, hi) < hi,
        last_opening(ls, hi) >= 0 ==> opens_frontend(ls[last_opening(ls, hi)]),
        forall|k: int| last_opening(ls, hi) < k < hi ==> !opens_frontend(#[trigger] ls[k]),
    decreases hi,
{
    if hi > 0 && !opens_frontend(ls[hi - 1]) {
        lemma_last_opening_props(ls, hi - 1);
    }
}

/// The section found in `ls`, with the facts that fix it.
proof fn lemma_section_props(ls: Seq<Seq<char>>)
    ensures
        frontend_section(ls) is None <==> first_opening(ls, 0) >= ls.len(),
        frontend_section(ls) is None ==> forall|k: int| 0 <= k < ls.len() ==> !opens_frontend(#[trigger] ls[k]),
        frontend_section(ls) matches Some((st, e)) ==> {
            let f = first_opening(ls, 0);
            &&& 0 <= f <= st < e <= ls.len()
            &&& opens_frontend(ls[f])
            &&& opens_frontend(ls[st])
            &&& forall|k: int| 0 <= k < f ==> !opens_frontend(#[trigger] ls[k])
            &&& forall|k: int| f + 1 <= k < e ==> !ends_section(#[trigger] ls[k])
            &&& forall|k: int| st < k < e ==> !opens_frontend(#[trigger] ls[k])
            &&& (e < ls.len() ==> ends_section(ls[e]))
        },
{
    lemma_first_opening_props(ls, 0);
    let f = first_opening(ls, 0);
    if f < ls.len() {
        lemma_first_end_props(ls, f + 1);
        let e = first_end(ls, f + 1);
        lemma_last_opening_props(ls, e);
        let st = last_opening(ls, e);
        if st < f {
            assert(!opens_frontend(ls[f]));
        }
    }
}

/// The section of `ls` is found again from the facts that fix it.
proof fn lemma_section_from_props(ls: Seq<Seq<char>>, f: int, st: int, e: int)
    requires
        0 <= f <= st < e <= ls.len(),
        opens_frontend(ls[f]),
        opens_frontend(ls[st]),
        forall|k: int| 0 <= k < f ==> !opens_frontend(#[trigger] ls[k]),
        forall|k: int| f + 1 <= k < e ==> !ends_section(#[trigger] ls[k]),
        forall|k: int| st < k < e ==> !opens_frontend(#[trigger] ls[k]),
        e < ls.len() ==> ends_section(ls[e]),
    ensures
        frontend_section(ls) == Some((st, e)),
{
    lemma_first_opening(ls, 0, f);
    lemma_first_end(ls, f + 1, e);
    lemma_last_opening(ls, e, st);
}


/// Whether the `use_backend` rule for the subdomain stands in the frontend
/// section (or there is no such section).
pub open spec fn rule_in_place(ls: Seq<Seq<char>>, subdomain: Seq<char>) -> bool {
    frontend_section(ls) matches Some((st, e)) ==> has_trimmed_line(
        ls,
        st,
        e,
        trim(use_backend_line(subdomain)),
    )
}

/// A line whose first `k` characters are white space and whose next one is `c`
/// starts, once trimmed, with `c`.
proof fn lemma_trim_start_at(l: Seq<char>, k: int)
    requires
        0 <= k < l.len(),
        forall|i: int| 0 <= i < k ==> is_ws(#[trigger] l[i]),
        !is_ws(l[k]),
    ensures
        trim_start(l) == l.skip(k),
        trim_start(l).len() > 0,
        trim_start(l)[0] == l[k],
{
    lemma_trim_start_skip(l, k);
}

proof fn lemma_trim_end_nonempty(s: Seq<char>)
    requires
        s.len() > 0,
        !is_ws(s[0]),
    ensures
        trim_end(s).len() > 0,
    decreases s.len(),
{
    if s.len() > 1 && is_ws(s.last()) {
        lemma_trim_end_nonempty(s.drop_last());
    }
}

/// A line that, trimmed at the start, begins with a character other than `'f'`
/// neither opens the frontend section nor begins with `frontend `.
proof fn lemma_not_frontend(l: Seq<char>, k: int)
    requires
        0 <= k < l.len(),
        forall|i: int| 0 <= i < k ==> is_ws(#[trigger] l[i]),
        !is_ws(l[k]),
        l[k] != 'f',
    ensures
        !opens_frontend(l),
        !"frontend "@.is_prefix_of(trim_start(l)),
{
    lemma_trim_start_at(l, k);
    reveal_strlit("frontend otdm_dev");
    reveal_strlit("frontend ");
    assert(frontend_name()[0] == 'f');
    assert("frontend "@[0] == 'f');
}

proof fn lemma_rule_line(subdomain: Seq<char>)
    ensures
        !opens_frontend(use_backend_line(subdomain)),
        !ends_section(use_backend_line(subdomain)),
{
    let l = use_backend_line(subdomain);
    reveal_strlit("    use_backend ");
    reveal_strlit("backend ");
    reveal_strlit("listen ");
    assert(l[0] == ' ' && l[1] == ' ' && l[2] == ' ' && l[3] == ' ' && l[4] == 'u');
    assert forall|i: int| 0 <= i < 4 implies is_ws(#[trigger] l[i]) by {
        assert(l[i] == ' ');
    }
    lemma_not_frontend(l, 4);
    lemma_trim_start_at(l, 4);
    assert("backend "@[0] == 'b');
    assert("listen "@[0] == 'l');
    lemma_trim_end_nonempty(trim_start(l));
}

proof fn lemma_block_lines(subdomain: Seq<char>, client_ip: Seq<char>)
    ensures
        forall|k: int| 0 <= k < 5 ==> !opens_frontend(#[trigger] backend_block(subdomain, client_ip)[k]),
        ends_section(backend_block(subdomain, client_ip)[0]),
{
    let b = backend_block(subdomain, client_ip);
    reveal_strlit("backend ");
    reveal_strlit("    mode http");
    reveal_strlit("    balance roundrobin");
    reveal_strlit("    server ");
    reveal_strlit("frontend otdm_dev");
    assert(trim_start(b[0]) == b[0]);
    assert(!opens_frontend(b[0]));
    assert(trim(b[0]).len() == 0) by {
        assert(trim_start(b[0]).len() == 0);
    }
    assert(b[1][0] == 'b');
    lemma_not_frontend(b[1], 0);
    assert forall|i: int| 0 <= i < 4 implies is_ws(#[trigger] b[2][i]) by {
        assert(b[2][i] == ' ');
    }
    assert(b[2][4] == 'm');
    lemma_not_frontend(b[2], 4);
    assert forall|i: int| 0 <= i < 4 implies is_ws(#[trigger] b[3][i]) by {
        assert(b[3][i] == ' ');
    }
    assert(b[3][4] == 'b');
    lemma_not_frontend(b[3], 4);
    assert forall|i: int| 0 <= i < 4 implies is_ws(#[trigger] b[4][i]) by {
        assert(b[4][i] == ' ');
    }
    assert(b[4][4] == 's');
    lemma_not_frontend(b[4], 4);
}

proof fn lemma_with_rule_in_place(ls: Seq<Seq<char>>, subdomain: Seq<char>)
    ensures
        rule_in_place(with_rule(ls, subdomain), subdomain),
        frontend_section(with_rule(ls, subdomain)) is None <==> frontend_section(ls) is None,
{
    lemma_section_props(ls);
    let rule = use_backend_line(subdomain);
    if let Some((st, e)) = frontend_section(ls) {
        if !has_trimmed_line(ls, st, e, trim(rule)) {
            let r = ls.insert(e, rule);
            lemma_rule_line(subdomain);
            let f = first_opening(ls, 0);
            assert forall|k: int| 0 <= k < f implies !opens_frontend(#[trigger] r[k]) by {
                assert(r[k] == ls[k]);
            }
            assert forall|k: int| f + 1 <= k < e + 1 implies !ends_section(#[trigger] r[k]) by {
                if k < e {
                    assert(r[k] == ls[k]);
                }
            }
            assert forall|k: int| st < k < e + 1 implies !opens_frontend(#[trigger] r[k]) by {
                if k < e {
                    assert(r[k] == ls[k]);
                }
            }
            if e + 1 < r.len() {
                assert(r[e + 1] == ls[e]);
            }
            assert(r[f] == ls[f] && r[st] == ls[st]);
            lemma_section_from_props(r, f, st, e + 1);
            assert(trim(r[e]) == trim(rule));
        }
    }
}

/// Lines added after the frontend section, starting with one that ends a
/// section, leave the section and the rule in it as they are.
proof fn lemma_append_tail_in_place(ls: Seq<Seq<char>>, y: Seq<Seq<char>>, subdomain: Seq<char>)
    requires
        rule_in_place(ls, subdomain),
        y.len() > 0,
        ends_section(y[0]),
        frontend_section(ls) is None ==> forall|k: int| 0 <= k < y.len() ==> !opens_frontend(#[trigger] y[k]),
    ensures
        rule_in_place(ls + y, subdomain),
        frontend_section(ls + y) == frontend_section(ls),
{
    let r = ls + y;
    lemma_section_props(ls);
    lemma_section_props(r);
    match frontend_section(ls) {
        None => {
            assert forall|k: int| 0 <= k < r.len() implies !opens_frontend(#[trigger] r[k]) by {
                if k < ls.len() {
                    assert(r[k] == ls[k]);
                } else {
                    assert(r[k] == y[k - ls.len()]);
                }
            }
            lemma_first_opening(r, 0, r.len() as int);
        },
        Some((st, e)) => {
            let f = first_opening(ls, 0);
            assert forall|k: int| 0 <= k < f implies !opens_frontend(#[trigger] r[k]) by {
                assert(r[k] == ls[k]);
            }
            assert forall|k: int| f + 1 <= k < e implies !ends_section(#[trigger] r[k]) by {
                assert(r[k] == ls[k]);
            }
            assert forall|k: int| st < k < e implies !opens_frontend(#[trigger] r[k]) by {
                assert(r[k] == ls[k]);
            }
            if e < ls.len() {
                assert(r[e] == ls[e]);
            } else {
                assert(r[e] == y[0]);
            }
            assert(r[f] == ls[f] && r[st] == ls[st]);
            lemma_section_from_props(r, f, st, e);
            let t = trim(use_backend_line(subdomain));
            let k = choose|k: int| st <= k < e && trim(#[trigger] ls[k]) == t;
            assert(r[k] == ls[k]);
        },
    }
}

proof fn lemma_append_block_in_place(ls: Seq<Seq<char>>, subdomain: Seq<char>, client_ip: Seq<char>)
    requires
        rule_in_place(ls, subdomain),
    ensures
        rule_in_place(ls + backend_block(subdomain, client_ip), subdomain),
        frontend_section(ls + backend_block(subdomain, client_ip)) == frontend_section(ls),
{
    lemma_block_lines(subdomain, client_ip);
    lemma_append_tail_in_place(ls, backend_block(subdomain, client_ip), subdomain);
}

proof fn lemma_occurs_trans(a: Seq<char>, b: Seq<char>, p: Seq<char>, i: int, j: int)
    requires
        occurs_at(a, b, i),
        occurs_at(b, p, j),
    ensures
        occurs_at(a, p, i + j),
{
    assert(a.subrange(i + j, i + j + p.len()) =~= b.subrange(j, j + p.len()));
}

/// A pattern without line breaks that occurs in a text occurs in one of its lines.
proof fn lemma_occurrence_in_line(s: Seq<char>, p: Seq<char>, i: int)
    requires
        occurs_at(s, p, i),
        p.len() > 0,
        forall|k: int| 0 <= k < p.len() ==> #[trigger] p[k] != '\n' && p[k] != '\r',
    ensures
        exists|k: int| 0 <= k < lines(s).len() && contains(#[trigger] lines(s)[k], p),
    decreases s.len(),
{
    lemma_pos_of_bound(s, '\n');
    let m = pos_of(s, '\n') as int;
    if m == s.len() {
        assert(lines(s)[0] == s);
        assert(contains(lines(s)[0], p));
    } else {
        let first = strip_cr(s.take(m));
        if i + p.len() <= m {
            if i + p.len() == m && s[m - 1] == '\r' {
                assert(s.subrange(i, i + p.len())[p.len() - 1] == s[m - 1]);
                assert(false);
            }
            assert(first.subrange(i, i + p.len()) =~= s.subrange(i, i + p.len()));
            assert(occurs_at(first, p, i));
            assert(lines(s)[0] == first);
        } else if i <= m {
            assert(s.subrange(i, i + p.len())[m - i] == s[m]);
            assert(false);
        } else {
            let rest = s.skip(m + 1);
            assert(rest.subrange(i - m - 1, i - m - 1 + p.len()) =~= s.subrange(i, i + p.len()));
            lemma_occurrence_in_line(rest, p, i - m - 1);
            let k = choose|k: int| 0 <= k < lines(rest).len() && contains(#[trigger] lines(rest)[k], p);
            assert(lines(s)[k + 1] == lines(rest)[k]);
        }
    }
}

/// Every line occurs in the lines joined.
proof fn lemma_line_in_join(ls: Seq<Seq<char>>, k: int)
    requires
        0 <= k < ls.len(),
    ensures
        exists|o: int| occurs_at(join_lines(ls), ls[k], o),
    decreases ls.len(),
{
    let j = join_lines(ls);
    if ls.len() == 1 {
        assert(j.subrange(0, ls[0].len() as int) =~= ls[0]);
        assert(occurs_at(j, ls[k], 0));
    } else {
        let d = join_lines(ls.drop_last());
        if k == ls.len() - 1 {
            let o: int = d.len() as int + 1;
            assert(j.subrange(o, o + ls[k].len()) =~= ls[k]);
            assert(occurs_at(j, ls[k], o));
        } else {
            lemma_line_in_join(ls.drop_last(), k);
            assert(ls.drop_last()[k] == ls[k]);
            let o = choose|o: int| occurs_at(d, ls[k], o);
            assert(j.subrange(o, o + ls[k].len()) =~= d.subrange(o, o + ls[k].len()));
            assert(occurs_at(j, ls[k], o));
        }
    }
}

proof fn lemma_contains_kept(ls: Seq<Seq<char>>, k: int, p: Seq<char>)
    requires
        0 <= k < ls.len(),
        contains(ls[k], p),
    ensures
        contains(join_lines(ls) + seq!['\n'], p),
{
    lemma_line_in_join(ls, k);
    let j = join_lines(ls);
    assert(exists|o: int| occurs_at(j, ls[k], o));
    let o = choose|o: int| occurs_at(j, ls[k], o);
    let q = choose|q: int| occurs_at(ls[k], p, q);
    lemma_occurs_trans(j, ls[k], p, o, q);
    assert((j + seq!['\n']).subrange(o + q, o + q + p.len()) =~= j.subrange(o + q, o + q + p.len()));
    assert(occurs_at(j + seq!['\n'], p, o + q));
}


proof fn lemma_trim_start_len(s: Seq<char>)
    ensures
        trim_start(s).len() <= s.len(),
        trim_start(s).len() == s.len() ==> trim_start(s) == s,
    decreases s.len(),
{
    if s.len() > 0 && is_ws(s[0]) {
        lemma_trim_start_len(s.drop_first());
    }
}

proof fn lemma_trim_end_len(s: Seq<char>)
    ensures
        trim_end(s).len() <= s.len(),
        trim_end(s).len() == s.len() ==> trim_end(s) == s,
    decreases s.len(),
{
    if s.len() > 0 && is_ws(s.last()) {
        lemma_trim_end_len(s.drop_last());
    }
}

/// A non-empty text that trimming leaves alone does not end with white space.
proof fn lemma_trimmed_last(s: Seq<char>)
    requires
        trim(s) == s,
        s.len() > 0,
    ensures
        !is_ws(s.last()),
{
    lemma_trim_start_len(s);
    lemma_trim_end_len(trim_start(s));
    assert(trim_start(s) == s);
    if is_ws(s.last()) {
        lemma_trim_end_len(s.drop_last());
    }
}

proof fn lemma_no_newline_concat(a: Seq<char>, b: Seq<char>)
    requires
        no_newline(a),
        no_newline(b),
    ensures
        no_newline(a + b),
{
    assert forall|i: int| 0 <= i < (a + b).len() implies #[trigger] (a + b)[i] != '\n' by {
        if i < a.len() {
            assert((a + b)[i] == a[i]);
        } else {
            assert((a + b)[i] == b[i - a.len()]);
        }
    }
}

proof fn lemma_backend_name_no_newline(subdomain: Seq<char>)
    requires
        no_newline(subdomain),
    ensures
        no_newline(backend_name(subdomain)),
{
    assert forall|i: int| 0 <= i < backend_name(subdomain).len() implies #[trigger] backend_name(
        subdomain,
    )[i] != '\n' by {
        assert(subdomain[i] != '\n');
    }
}

proof fn lemma_added_lines_clean(subdomain: Seq<char>, client_ip: Seq<char>)
    requires
        no_newline(subdomain),
    ensures
        clean_line(use_backend_line(subdomain)),
        trim(backend_header(subdomain)) == backend_header(subdomain) ==> forall|k: int| 0 <= k < 4
            ==> clean_line(#[trigger] backend_block(subdomain, client_ip)[k]),
        no_crlf(client_ip) ==> no_crlf(server_line(subdomain, client_ip)),
        server_line(subdomain, client_ip).len() > 0 && server_line(subdomain, client_ip).last() == 'k',
{
    reveal_strlit("    use_backend ");
    reveal_strlit(" if { req.hdr(host) -i ");
    reveal_strlit(" }");
    reveal_strlit("backend ");
    reveal_strlit("    mode http");
    reveal_strlit("    balance roundrobin");
    reveal_strlit("    server ");
    reveal_strlit(" ");
    reveal_strlit(":80 check");
    let name = backend_name(subdomain);
    lemma_backend_name_no_newline(subdomain);
    assert(no_newline("    use_backend "@));
    assert(no_newline(" if { req.hdr(host) -i "@));
    assert(no_newline(" }"@));
    assert(no_newline("backend "@));
    assert(no_newline(" "@));
    assert(no_newline(":80 check"@));
    assert(no_newline("    server "@));
    assert(no_newline("    mode http"@));
    assert(no_newline("    balance roundrobin"@));
    lemma_no_newline_concat("    use_backend "@, name);
    lemma_no_newline_concat("    use_backend "@ + name, " if { req.hdr(host) -i "@);
    lemma_no_newline_concat("    use_backend "@ + name + " if { req.hdr(host) -i "@, subdomain);
    lemma_no_newline_concat("    use_backend "@ + name + " if { req.hdr(host) -i "@ + subdomain, " }"@);
    let rule = use_backend_line(subdomain);
    assert(rule.last() == '}');
    lemma_no_newline_concat("backend "@, name);
    let header = backend_header(subdomain);
    assert(header.len() > 0);
    if trim(header) == header {
        lemma_trimmed_last(header);
    }
    lemma_no_newline_concat("    server "@, name);
    lemma_no_newline_concat("    server "@ + name, " "@);
    let pre = "    server "@ + name + " "@;
    let sl = server_line(subdomain, client_ip);
    assert(sl == pre + client_ip + ":80 check"@);
    if no_crlf(client_ip) {
        lemma_no_crlf_of_no_newline(pre);
        lemma_no_crlf_of_no_newline(":80 check"@);
        assert(pre.last() == ' ');
        lemma_no_crlf_concat(pre, client_ip);
        assert(":80 check"@[0] == ':');
        lemma_no_crlf_concat(pre + client_ip, ":80 check"@);
    }
    let b = backend_block(subdomain, client_ip);
    assert(sl.last() == 'k');
    assert(b[2].last() == 'p');
    assert(b[3].last() == 'n');
    assert(clean_line(b[0]));
}

/// Whether no `'\r'` stands directly before a `'\n'` in `s`.
pub open spec fn no_crlf(s: Seq<char>) -> bool {
    forall|i: int| 0 < i < s.len() ==> !(s[i - 1] == '\r' && #[trigger] s[i] == '\n')
}

proof fn lemma_no_crlf_of_no_newline(s: Seq<char>)
    requires
        no_newline(s),
    ensures
        no_crlf(s),
{
    assert forall|i: int| 0 < i < s.len() implies !(s[i - 1] == '\r' && #[trigger] s[i] == '\n') by {
        assert(s[i] != '\n');
    }
}

proof fn lemma_no_crlf_concat(a: Seq<char>, b: Seq<char>)
    requires
        no_crlf(a),
        no_crlf(b),
        !(a.len() > 0 && b.len() > 0 && a.last() == '\r' && b[0] == '\n'),
    ensures
        no_crlf(a + b),
{
    let c = a + b;
    assert forall|i: int| 0 < i < c.len() implies !(c[i - 1] == '\r' && #[trigger] c[i] == '\n') by {
        if i < a.len() {
            assert(c[i - 1] == a[i - 1] && c[i] == a[i]);
        } else if i == a.len() {
            assert(c[i - 1] == a.last() && c[i] == b[0]);
        } else {
            assert(c[i - 1] == b[i - 1 - a.len()] && c[i] == b[i - a.len()]);
        }
    }
}

/// Lines without a carriage return before a line break inside, and not
/// ending with a carriage return, join to such a text.
proof fn lemma_no_crlf_joined(ls: Seq<Seq<char>>)
    requires
        ls.len() >= 1,
        forall|k: int| 0 <= k < ls.len() ==> no_crlf(#[trigger] ls[k]) && !(ls[k].len() > 0
            && ls[k].last() == '\r'),
    ensures
        no_crlf(join_lines(ls) + seq!['\n']),
    decreases ls.len(),
{
    let last = ls.last();
    assert(no_crlf(ls[ls.len() - 1]));
    assert(no_crlf(seq!['\n']));
    if ls.len() == 1 {
        lemma_no_crlf_concat(last, seq!['\n']);
        assert(join_lines(ls) == last);
    } else {
        let d = ls.drop_last();
        assert forall|k: int| 0 <= k < d.len() implies no_crlf(#[trigger] d[k]) && !(d[k].len() > 0
            && d[k].last() == '\r') by {
            assert(d[k] == ls[k]);
        }
        lemma_no_crlf_joined(d);
        let head = join_lines(d) + seq!['\n'];
        assert(head.last() == '\n');
        lemma_no_crlf_concat(head, last);
        lemma_no_crlf_concat(head + last, seq!['\n']);
        assert(join_lines(ls) + seq!['\n'] =~= head + last + seq!['\n']);
    }
}

/// A text that ends with a line break and holds no carriage return before a
/// line break is written back unchanged from its lines.
proof fn lemma_join_lines_round_trip(t: Seq<char>)
    requires
        t.len() > 0,
        t.last() == '\n',
        no_crlf(t),
    ensures
        lines(t).len() >= 1,
        join_lines(lines(t)) + seq!['\n'] == t,
    decreases t.len(),
{
    lemma_pos_of_bound(t, '\n');
    let m = pos_of(t, '\n') as int;
    assert(m < t.len());
    let first = t.take(m);
    let rest = t.skip(m + 1);
    if m > 0 && first.last() == '\r' {
        assert(t[m - 1] == '\r' && t[m] == '\n');
        assert(false);
    }
    assert(strip_cr(first) == first);
    assert(t =~= first + seq!['\n'] + rest);
    if rest.len() == 0 {
        assert(lines(rest) =~= Seq::<Seq<char>>::empty());
        assert(lines(t) =~= seq![first]);
        assert(join_lines(lines(t)) == first);
    } else {
        assert(rest.last() == t.last());
        assert forall|i: int| 0 < i < rest.len() implies !(rest[i - 1] == '\r' && #[trigger] rest[i]
            == '\n') by {
            assert(rest[i - 1] == t[i - 1 + m + 1] && rest[i] == t[i + m + 1]);
        }
        lemma_join_lines_round_trip(rest);
        let lt = lines(t);
        assert(lt == seq![first] + lines(rest));
        assert(lt.drop_first() =~= lines(rest));
        assert(lt[0] == first);
        lemma_join_front(lt);
    }
}

/// Clean lines followed by one last line read back as themselves, followed by
/// the lines that the last line itself splits into.
proof fn lemma_lines_of_joined_prefix(p: Seq<Seq<char>>, s: Seq<char>)
    requires
        forall|k: int| 0 <= k < p.len() ==> clean_line(#[trigger] p[k]),
    ensures
        lines(join_lines(p.push(s)) + seq!['\n']) == p + lines(s + seq!['\n']),
    decreases p.len(),
{
    if p.len() == 0 {
        assert(p.push(s) =~= seq![s]);
        assert(join_lines(p.push(s)) == s);
        assert(p + lines(s + seq!['\n']) =~= lines(s + seq!['\n']));
    } else {
        let q = p.push(s);
        let l0 = p[0];
        assert(clean_line(p[0]));
        lemma_join_front(q);
        assert(q.drop_first() =~= p.drop_first().push(s));
        assert forall|k: int| 0 <= k < p.drop_first().len() implies clean_line(#[trigger] p.drop_first()[k]) by {
            assert(p.drop_first()[k] == p[k + 1]);
        }
        lemma_lines_of_joined_prefix(p.drop_first(), s);
        let rest = join_lines(p.drop_first().push(s)) + seq!['\n'];
        let t = l0 + seq!['\n'] + rest;
        assert(join_lines(q) + seq!['\n'] =~= t);
        let m = l0.len() as int;
        assert forall|k: int| 0 <= k < m implies #[trigger] t[k] != '\n' by {
            assert(t[k] == l0[k]);
        }
        lemma_pos_of(t, '\n', m);
        assert(t.take(m) =~= l0);
        assert(t.skip(m + 1) =~= rest);
        assert(strip_cr(l0) == l0);
        assert(lines(t) =~= seq![l0] + (p.drop_first() + lines(s + seq!['\n'])));
        assert(seq![l0] + (p.drop_first() + lines(s + seq!['\n'])) =~= p + lines(s + seq!['\n']));
    }
}

/// Whether the edit adds the subdomain's backend section: no line, after the
/// rule is in place, reads as its header.
pub open spec fn adds_backend(config: Seq<char>, subdomain: Seq<char>) -> bool {
    let r = with_rule(lines(config), subdomain);
    !has_trimmed_line(r, 0, r.len() as int, backend_header(subdomain))
}

/// After the edit the subdomain is routed: where the configuration has a
/// frontend section, the `use_backend` rule stands in it, and a line reads as
/// the subdomain's backend header (where the edit adds that header, for a
/// subdomain whose header has no trailing white space, so that a trimmed line
/// can read as it).
pub proof fn update_haproxy_config_routes(config: Seq<char>, subdomain: Seq<char>, client_ip: Seq<char>)
    requires
        adds_backend(config, subdomain) ==> trim(backend_header(subdomain)) == backend_header(subdomain),
    ensures
        rule_in_place(updated_lines(config, subdomain, client_ip), subdomain),
        has_trimmed_line(
            updated_lines(config, subdomain, client_ip),
            0,
            updated_lines(config, subdomain, client_ip).len() as int,
            backend_header(subdomain),
        ),
{
    let r = with_rule(lines(config), subdomain);
    let l1 = updated_lines(config, subdomain, client_ip);
    lemma_with_rule_in_place(lines(config), subdomain);
    if !has_trimmed_line(r, 0, r.len() as int, backend_header(subdomain)) {
        lemma_append_block_in_place(r, subdomain, client_ip);
        assert(trim(l1[r.len() + 1int]) == backend_header(subdomain));
    }
}

/// Adding the same subdomain twice changes nothing the second time: on the
/// configuration that one edit wrote, the edit succeeds again and writes the
/// same text. It holds for a subdomain without line breaks and a
/// configuration none of whose lines ends with a carriage return (which
/// writing the lines back would drop). Where the edit adds the backend
/// section, it needs besides a header without trailing white space, a client
/// address with no carriage return before a line break, and, where the
/// configuration has no frontend section, that the text it writes has none
/// either, or one that already holds the rule (the server line's pieces
/// between line breaks may open such a section).
pub proof fn update_haproxy_config_idempotent(config: Seq<char>, subdomain: Seq<char>, client_ip: Seq<char>)
    requires
        contains(config, frontend_name()),
        no_newline(subdomain),
        forall|k: int| 0 <= k < lines(config).len() ==> !(#[trigger] lines(config)[k].len() > 0
            && lines(config)[k].last() == '\r'),
        adds_backend(config, subdomain) ==> {
            &&& trim(backend_header(subdomain)) == backend_header(subdomain)
            &&& no_crlf(client_ip)
            &&& frontend_section(lines(config)) is None ==> rule_in_place(
                lines(config) + backend_block(subdomain, client_ip).take(4) + lines(
                    server_line(subdomain, client_ip) + seq!['\n'],
                ),
                subdomain,
            )
        },
    ensures
        contains(updated_config(config, subdomain, client_ip), frontend_name()),
        updated_config(updated_config(config, subdomain, client_ip), subdomain, client_ip)
            == updated_config(config, subdomain, client_ip),
{
    let l0 = lines(config);
    let r = with_rule(l0, subdomain);
    let l1 = updated_lines(config, subdomain, client_ip);
    let out = updated_config(config, subdomain, client_ip);
    let b = backend_block(subdomain, client_ip);
    let header = backend_header(subdomain);
    // where the frontend name stands in the lines read from the configuration
    reveal_strlit("frontend otdm_dev");
    let fe = frontend_name();
    let i = choose|i: int| occurs_at(config, fe, i);
    lemma_occurrence_in_line(config, fe, i);
    let k0 = choose|k: int| 0 <= k < l0.len() && contains(#[trigger] l0[k], fe);
    // the lines after the first edit
    lemma_with_rule_in_place(l0, subdomain);
    lemma_section_props(l0);
    let k1 = if r.len() == l0.len() {
        k0
    } else {
        let (st, e) = frontend_section(l0)->0;
        if k0 < e {
            k0
        } else {
            k0 + 1
        }
    };
    assert(r[k1] == l0[k0]);
    lemma_lines_no_newline(config);
    lemma_added_lines_clean(subdomain, client_ip);
    assert forall|k: int| 0 <= k < r.len() implies clean_line(#[trigger] r[k]) by {
        if r.len() == l0.len() {
            assert(r[k] == l0[k]);
            assert(no_newline(l0[k]));
        } else {
            let (st, e) = frontend_section(l0)->0;
            if k < e {
                assert(r[k] == l0[k]);
                assert(no_newline(l0[k]));
            } else if k > e {
                assert(r[k] == l0[k - 1]);
                assert(no_newline(l0[k - 1]));
            }
        }
    }
    if !adds_backend(config, subdomain) {
        assert(l1 == r);
        lemma_contains_kept(l1, k1, fe);
        lemma_lines_of_joined(l1);
        assert(lines(out) == l1);
        assert(with_rule(l1, subdomain) == l1);
        assert(with_backend(l1, subdomain, client_ip) == l1);
    } else {
        assert(l1 == r + b);
        assert(l1[k1] == r[k1]);
        lemma_contains_kept(l1, k1, fe);
        // the text written back: the clean lines, then the server line's pieces
        let s = server_line(subdomain, client_ip);
        let f = lines(s + seq!['\n']);
        let p = l1.drop_last();
        assert(l1 =~= p.push(s));
        assert forall|k: int| 0 <= k < p.len() implies clean_line(#[trigger] p[k]) by {
            if k < r.len() {
                assert(p[k] == r[k]);
            } else {
                assert(p[k] == b[k - r.len()]);
            }
        }
        lemma_lines_of_joined_prefix(p, s);
        let lo = lines(out);
        assert(lo == p + f);
        let y = b.take(4) + f;
        assert(p =~= r + b.take(4));
        assert(lo =~= r + y);
        lemma_block_lines(subdomain, client_ip);
        assert(y[0] == b[0]);
        if frontend_section(l0) is None {
            // no frontend section to edit: what the second edit reads is the
            // configuration with the block appended, whose rule the caller vouches for
            assert(r == l0);
            assert(lo =~= l0 + b.take(4) + f);
        } else {
            lemma_append_tail_in_place(r, y, subdomain);
        }
        assert(with_rule(lo, subdomain) == lo);
        assert(lo[r.len() + 1int] == header);
        assert(trim(lo[r.len() + 1int]) == header);
        assert(with_backend(lo, subdomain, client_ip) == lo);
        // and it reads back as written
        assert forall|k: int| 0 <= k < l1.len() implies no_crlf(#[trigger] l1[k]) && !(l1[k].len() > 0
            && l1[k].last() == '\r') by {
            if k < p.len() {
                assert(l1[k] == p[k]);
                assert(clean_line(p[k]));
                lemma_no_crlf_of_no_newline(p[k]);
            } else {
                assert(l1[k] == s);
            }
        }
        lemma_no_crlf_joined(l1);
        lemma_join_lines_round_trip(out);
    }
}


/// A line that, after leading white space, begins with `frontend otdm_dev`
/// begins with `frontend `.
proof fn lemma_opening_is_frontend_header(l: Seq<char>)
    requires
        opens_frontend(l),
    ensures
        "frontend "@.is_prefix_of(trim_start(l)),
{
    reveal_strlit("frontend otdm_dev");
    reveal_strlit("frontend ");
    let t = trim_start(l);
    assert forall|k: int| 0 <= k < "frontend "@.len() implies "frontend "@[k] == t[k] by {
        assert(frontend_name()[k] == t[k]);
    }
}

/// The frontend section that the edit extends ends at the first line after its
/// header that, after leading white space, begins with `frontend `, `backend `
/// or `listen `, or that is blank; where the section does not hold the rule
/// yet, the edit writes the `use_backend` rule right before that line, so the
/// rule closes the frontend section and never lands in the section that
/// follows. The lines before it stay as they were.
pub proof fn use_backend_rule_closes_frontend_section(
    config: Seq<char>,
    subdomain: Seq<char>,
    client_ip: Seq<char>,
    i: int,
    j: int,
)
    requires
        0 <= i < j < lines(config).len(),
        opens_frontend(lines(config)[i]),
        forall|k: int| 0 <= k < i ==> !opens_frontend(#[trigger] lines(config)[k]),
        forall|k: int|
            i < k < j ==> {
                &&& !"frontend "@.is_prefix_of(trim_start(#[trigger] lines(config)[k]))
                &&& !"backend "@.is_prefix_of(trim_start(lines(config)[k]))
                &&& !"listen "@.is_prefix_of(trim_start(lines(config)[k]))
                &&& trim(lines(config)[k]).len() > 0
            },
        !opens_frontend(lines(config)[j]),
        ({
            let t = trim_start(lines(config)[j]);
            ||| "frontend "@.is_prefix_of(t)
            ||| "backend "@.is_prefix_of(t)
            ||| "listen "@.is_prefix_of(t)
            ||| trim(lines(config)[j]).len() == 0
        }),
        forall|k: int| i <= k < j ==> trim(#[trigger] lines(config)[k]) != trim(use_backend_line(subdomain)),
    ensures
        updated_lines(config, subdomain, client_ip).len() > j + 1,
        updated_lines(config, subdomain, client_ip).take(j) == lines(config).take(j),
        updated_lines(config, subdomain, client_ip)[j] == use_backend_line(subdomain),
        updated_lines(config, subdomain, client_ip)[j + 1] == lines(config)[j],
{
    let ls = lines(config);
    assert forall|k: int| i < k < j implies !opens_frontend(#[trigger] ls[k]) by {
        if opens_frontend(ls[k]) {
            lemma_opening_is_frontend_header(ls[k]);
        }
    }
    assert forall|k: int| i + 1 <= k < j implies !ends_section(#[trigger] ls[k]) by {}
    assert(ends_section(ls[j]));
    lemma_section_from_props(ls, i, i, j);
    assert(!has_trimmed_line(ls, i, j, trim(use_backend_line(subdomain))));
    let r = with_rule(ls, subdomain);
    assert(r == ls.insert(j, use_backend_line(subdomain)));
    let u = updated_lines(config, subdomain, client_ip);
    assert(u.len() >= r.len());
    assert forall|k: int| 0 <= k < r.len() implies u[k] == r[k] by {
        if !has_trimmed_line(r, 0, r.len() as int, backend_header(subdomain)) {
            assert(u == r + backend_block(subdomain, client_ip));
        }
    }
    assert(u.take(j) =~= ls.take(j)) by {
        assert forall|k: int| 0 <= k < j implies u.take(j)[k] == ls.take(j)[k] by {
            assert(u[k] == r[k]);
        }
    }
    assert(u[j] == r[j]);
    assert(u[j + 1] == r[j + 1]);
}

/// A line that, after leading white space, begins with `frontend `, `backend `
/// or `listen `, or that is blank, ends the frontend section it follows,
/// unless it opens the frontend section anew.
pub proof fn header_or_blank_line_ends_section(l: Seq<char>)
    requires
        !opens_frontend(l),
        ({
            let t = trim_start(l);
            ||| "frontend "@.is_prefix_of(t)
            ||| "backend "@.is_prefix_of(t)
            ||| "listen "@.is_prefix_of(t)
            ||| trim(l).len() == 0
        }),
    ensures
        ends_section(l),
{
}

} // verus!
