//! The API server that relays between customers and the VPN and proxy
//! servers: it records a customer's key, asks for a tunnel, and, once notified
//! that the database row is complete, reports the row back.

use vstd::prelude::*;
use crate::cql::{insert_customer_query, insert_customer_text};
use crate::customer::CustomerInfo;
use crate::number::{parse_usize_chars, parses_as_usize, strip_plus, value};
use crate::text::{
    lemma_lines_append,
    append_chars, chars_of, contains, contains_chars, last_word, last_word_chars, lines, lines_of,
    split, split_trimmed, string_of, trim, trim_all, trim_chars, views,
};

verus! {

/// Whether a line of the table is a data row: not blank, not the rule under
/// the header, and five `|`-separated cells.
pub open spec fn is_data_row(l: Seq<char>) -> bool {
    &&& trim(l).len() != 0
    &&& !(l.len() > 0 && l[0] == '-')
    &&& split(l, '|').len() == 5
}

/// The first index at or after `i` of a data row (`ls.len()` if none).
pub open spec fn first_data_row(ls: Seq<Seq<char>>, i: int) -> int
    decreases ls.len() - i,
{
    if i >= ls.len() {
        ls.len() as int
    } else if is_data_row(ls[i]) {
        i
    } else {
        first_data_row(ls, i + 1)
    }
}

/// The cells, trimmed, of the first data row after the first three lines.
pub open spec fn customer_row(output: Seq<char>) -> Option<Seq<Seq<char>>> {
    let ls = lines(output);
    let k = first_data_row(ls, 3);
    if k < ls.len() {
        Some(trim_all(split(ls[k], '|')))
    } else {
        None
    }
}

proof fn lemma_first_data_row(ls: Seq<Seq<char>>, i: int, m: int)
    requires
        0 <= i <= m <= ls.len(),
        forall|k: int| i <= k < m ==> !is_data_row(#[trigger] ls[k]),
        m == ls.len() || is_data_row(ls[m]),
    ensures
        first_data_row(ls, i) == m,
    decreases m - i,
{
    if i < m {
        lemma_first_data_row(ls, i + 1, m);
    }
}

proof fn lemma_first_data_row_props(ls: Seq<Seq<char>>, i: int)
    requires
        0 <= i,
    ensures
        i <= first_data_row(ls, i) || first_data_row(ls, i) == ls.len(),
        first_data_row(ls, i) <= ls.len() || i > ls.len(),
        forall|k: int| i <= k < first_data_row(ls, i) ==> !is_data_row(#[trigger] ls[k]),
        first_data_row(ls, i) < ls.len() ==> is_data_row(ls[first_data_row(ls, i)]),
    decreases ls.len() - i,
{
    if i < ls.len() && !is_data_row(ls[i]) {
        lemma_first_data_row_props(ls, i + 1);
    }
}

/// Once the output holds a row, text after it leaves the row that is read
/// unchanged: only the first data row counts.
pub proof fn trailing_text_ignored(output: Seq<char>, s: Seq<char>)
    requires
        customer_row(output) is Some,
        output.last() == '\n',
    ensures
        customer_row(output + s) == customer_row(output),
{
    lemma_lines_append(output, s);
    let a = lines(output);
    let ls = a + lines(s);
    lemma_first_data_row_props(a, 3);
    let k0 = first_data_row(a, 3);
    assert forall|k: int| 3 <= k < k0 implies !is_data_row(#[trigger] ls[k]) by {
        assert(ls[k] == a[k]);
    }
    assert(ls[k0] == a[k0]);
    lemma_first_data_row(ls, 3, k0);
}

/// Whether the line is a data row.
fn data_row_line(line: &[char]) -> (b: bool)
    ensures
        b == is_data_row(line@),
{
    let t = trim_chars(line);
    if t.len() == 0 {
        return false;
    }
    if line.len() > 0 && line[0] == '-' {
        return false;
    }
    let cells = split_trimmed(line, '|');
    assert(views(cells@).len() == cells@.len());
    assert(trim_all(split(line@, '|')).len() == split(line@, '|').len());
    cells.len() == 5
}

/// The customer's row from what `cqlsh` printed for the row query: past the
/// first three lines, the first line that is not blank, does not begin with
/// `-`, and splits at `|` into five cells, each trimmed.
pub fn parse_customer_info(output: &str) -> (r: Option<CustomerInfo>)
    ensures
        match r {
            Some(info) => customer_row(output@) == Some(info@),
            None => customer_row(output@) is None,
        },
{
    let text = chars_of(output);
    let ls = lines_of(text.as_slice());
    let ghost v = views(ls@);
    let mut k: usize = if ls.len() < 3 { ls.len() } else { 3 };
    proof {
        if ls.len() < 3 {
            assert(first_data_row(v, 3) == v.len());
        }
    }
    let ghost k0 = k as int;
    while k < ls.len() && !data_row_line(ls[k].as_slice())
        invariant
            k0 <= k <= ls@.len() == v.len(),
            k0 == 3 || (k0 == v.len() && first_data_row(v, 3) == v.len()),
            v == views(ls@),
            v == lines(output@),
            forall|j: int| k0 <= j < k ==> !is_data_row(#[trigger] v[j]),
        decreases ls.len() - k,
    {
        assert(ls@[k as int]@ == v[k as int]);
        k = k + 1;
    }
    proof {
        if k < ls.len() {
            assert(ls@[k as int]@ == v[k as int]);
        }
        if k0 == 3 {
            lemma_first_data_row(v, 3, k as int);
        }
    }
    if k == ls.len() {
        return None;
    }
    let cells = split_trimmed(ls[k].as_slice(), '|');
    assert(ls@[k as int]@ == v[k as int]);
    assert(views(cells@).len() == cells@.len());
    assert(trim_all(split(v[k as int], '|')).len() == split(v[k as int], '|').len());
    Some(CustomerInfo::from_cells(&cells))
}


/// Hands out customer numbers from 1 up, as an atomic counter does with
/// `fetch_add(1)`: after `usize::MAX` it wraps to 0.
pub struct IdCounter {
    next: usize,
}

impl View for IdCounter {
    type V = nat;

    /// The number that the next call hands out.
    closed spec fn view(&self) -> nat {
        self.next as nat
    }
}

impl IdCounter {
    /// A counter whose first number is 1.
    pub fn new() -> (c: IdCounter)
        ensures
            c@ == 1,
    {
        IdCounter { next: 1 }
    }

    /// The current number; the counter then moves on by one, wrapping to 0
    /// after `usize::MAX`.
    pub fn fetch_next(&mut self) -> (id: usize)
        ensures
            id == old(self)@,
            final(self)@ == next_id(old(self)@),
    {
        let id = self.next;
        self.next = if id == usize::MAX {
            0
        } else {
            id + 1
        };
        id
    }
}

/// The counter value after one number was handed out from `c`.
pub open spec fn next_id(c: nat) -> nat {
    if c == usize::MAX {
        0
    } else {
        c + 1
    }
}

/// The counter value after `k` numbers were handed out from `c`.
pub open spec fn ids_after(c: nat, k: nat) -> nat
    decreases k,
{
    if k == 0 {
        c
    } else {
        next_id(ids_after(c, (k - 1) as nat))
    }
}

proof fn lemma_ids_after(c: nat, k: nat)
    requires
        c + k <= usize::MAX,
    ensures
        ids_after(c, k) == c + k,
    decreases k,
{
    if k > 0 {
        lemma_ids_after(c, (k - 1) as nat);
    }
}

/// Customers get distinct numbers: the numbers that the `i`-th and the
/// `j`-th call hand out differ, as long as the counter has not gone past
/// `usize::MAX` and wrapped.
pub proof fn customer_ids_distinct(c: nat, i: nat, j: nat)
    requires
        i < j,
        c + j <= usize::MAX,
    ensures
        ids_after(c, i) != ids_after(c, j),
{
    lemma_ids_after(c, i);
    lemma_ids_after(c, j);
}

/// The text by which the VPN server announces that a customer's row is stored.
pub open spec fn insert_notice() -> Seq<char> {
    "INSERT completed for Customer ID"@
}

/// The customer number at the end of a notice: its last word read as a
/// number; `None` where the notice has no last word or the word is not a
/// number that fits in `usize`.
pub open spec fn notice_customer_id(text: Seq<char>) -> Option<usize> {
    match last_word(text) {
        Some(w) => if parses_as_usize(w) {
            Some(value(strip_plus(w)) as usize)
        } else {
            None
        },
        None => None,
    }
}

/// What the API server does with a received text.
pub enum ConnectAction {
    /// The row of this customer is stored: ask for its subdomain and report
    /// the row. `None` where the notice names no customer number.
    ReportCustomer(Option<usize>),
    /// A new customer: store its key under this number with this statement,
    /// then ask for its tunnel.
    RegisterCustomer { id: usize, insert_query: String },
}

/// The API server's state across messages: the counter of customer numbers.
pub struct ConnectSession {
    pub ids: IdCounter,
}

impl ConnectSession {
    /// A session whose first customer is number 1.
    pub fn new() -> (s: ConnectSession)
        ensures
            s.ids@ == 1,
    {
        ConnectSession { ids: IdCounter::new() }
    }

    /// The step for a received text. A text that holds the notice reports the
    /// customer that its last word names; any other text is a new customer's
    /// public key, stored under the next customer number.
    pub fn on_text(&mut self, text: &str) -> (a: ConnectAction)
        ensures
            contains(text@, insert_notice()) ==> a == ConnectAction::ReportCustomer(
                notice_customer_id(text@),
            ) && final(self).ids@ == old(self).ids@,
            !contains(text@, insert_notice()) ==> (a matches ConnectAction::RegisterCustomer {
                id,
                insert_query,
            } && id == old(self).ids@ && insert_query@ == insert_customer_text(id as nat, text@))
                && final(self).ids@ == (if old(self).ids@ == usize::MAX {
                0
            } else {
                old(self).ids@ + 1
            }),
    {
        let v = chars_of(text);
        let notice = chars_of("INSERT completed for Customer ID");
        if contains_chars(v.as_slice(), notice.as_slice()) {
            let id = match last_word_chars(v.as_slice()) {
                Some(w) => parse_usize_chars(w.as_slice()),
                None => None,
            };
            ConnectAction::ReportCustomer(id)
        } else {
            let id = self.ids.fetch_next();
            ConnectAction::RegisterCustomer { id, insert_query: insert_customer_query(id, text) }
        }
    }
}

/// The report of a customer's row that the API server sends to the customer.
pub open spec fn customer_report_text(row: Seq<Seq<char>>) -> Seq<char> {
    "顧客情報:\n顧客公開鍵: "@ + row[0] + "\nサーバ公開鍵: "@ + row[1] + "\n顧客IP: "@ + row[2]
        + "\nサーバIP: "@ + row[3] + "\nサブドメイン: "@ + row[4]
}

/// The report of a customer's row that the API server sends to the customer.
pub fn customer_report(info: &CustomerInfo) -> (r: String)
    ensures
        r@ == customer_report_text(info@),
{
    let mut v = chars_of("顧客情報:\n顧客公開鍵: ");
    append_chars(&mut v, chars_of(info.client_public_key.as_str()).as_slice());
    append_chars(&mut v, chars_of("\nサーバ公開鍵: ").as_slice());
    append_chars(&mut v, chars_of(info.server_public_key.as_str()).as_slice());
    append_chars(&mut v, chars_of("\n顧客IP: ").as_slice());
    append_chars(&mut v, chars_of(info.vpn_ip_client.as_str()).as_slice());
    append_chars(&mut v, chars_of("\nサーバIP: ").as_slice());
    append_chars(&mut v, chars_of(info.vpn_ip_server.as_str()).as_slice());
    append_chars(&mut v, chars_of("\nサブドメイン: ").as_slice());
    append_chars(&mut v, chars_of(info.subdomain.as_str()).as_slice());
    string_of(v.as_slice())
}

/// The notice sent after the report of a customer's row.
pub fn operation_completed_message() -> (m: String)
    ensures
        m@ == "Operation completed"@,
{
    string_of(chars_of("Operation completed").as_slice())
}

/// The answer when a customer's row cannot be read.
pub fn report_failed_message() -> (m: String)
    ensures
        m@ == "顧客情報の取得に失敗しました"@,
{
    string_of(chars_of("顧客情報の取得に失敗しました").as_slice())
}

/// The customer's row from a finished row query: read from the output where
/// `cqlsh` succeeded, `None` where it failed.
pub fn customer_info_from_query(succeeded: bool, output: &str) -> (r: Option<CustomerInfo>)
    ensures
        !succeeded ==> r is None,
        succeeded ==> match r {
            Some(info) => customer_row(output@) == Some(info@),
            None => customer_row(output@) is None,
        },
{
    if succeeded {
        parse_customer_info(output)
    } else {
        None
    }
}

} // verus!
