//! The API server that registers customers one message at a time: it stores
//! the key, asks for the tunnel and the subdomain, waits for the row to be
//! complete and reports it.

use vstd::prelude::*;
use crate::connect::IdCounter;
use crate::cql::{
    insert_customer_query, insert_customer_text, select_customer_info_query,
    select_customer_info_text,
};
use crate::customer::{CustomerInfo, is_complete_row};
use crate::retry::{after_check, RetryStep, MAX_ATTEMPTS};
use crate::text::{
    lemma_lines_append,
    chars_of, contains, contains_chars, lines, lines_of, split, split_trimmed, trim_all, views,
};

verus! {

/// The first index at or after `i` of a line that names the key column
/// (`ls.len()` if none).
pub open spec fn first_header(ls: Seq<Seq<char>>, i: int) -> int
    decreases ls.len() - i,
{
    if i >= ls.len() {
        ls.len() as int
    } else if contains(ls[i], "client_public_key"@) {
        i
    } else {
        first_header(ls, i + 1)
    }
}

/// The cells, trimmed, of the line two below the first header line, where it
/// exists and has five cells, none of them empty.
pub open spec fn row_below_header(output: Seq<char>) -> Option<Seq<Seq<char>>> {
    let ls = lines(output);
    let h = first_header(ls, 0);
    if h + 2 < ls.len() {
        let cells = trim_all(split(ls[h + 2], '|'));
        if cells.len() == 5 && (forall|i: int| 0 <= i < 5 ==> #[trigger] cells[i].len() > 0) {
            Some(cells)
        } else {
            None
        }
    } else {
        None
    }
}

proof fn lemma_first_header(ls: Seq<Seq<char>>, i: int, m: int)
    requires
        0 <= i <= m <= ls.len(),
        forall|k: int| i <= k < m ==> !contains(#[trigger] ls[k], "client_public_key"@),
        m == ls.len() || contains(ls[m], "client_public_key"@),
    ensures
        first_header(ls, i) == m,
    decreases m - i,
{
    if i < m {
        lemma_first_header(ls, i + 1, m);
    }
}

proof fn lemma_first_header_props(ls: Seq<Seq<char>>, i: int)
    requires
        0 <= i <= ls.len(),
    ensures
        i <= first_header(ls, i) <= ls.len(),
        forall|k: int| i <= k < first_header(ls, i) ==> !contains(#[trigger] ls[k], "client_public_key"@),
        first_header(ls, i) < ls.len() ==> contains(ls[first_header(ls, i)], "client_public_key"@),
    decreases ls.len() - i,
{
    if i < ls.len() && !contains(ls[i], "client_public_key"@) {
        lemma_first_header_props(ls, i + 1);
    }
}

/// Lines before the output that do not name the key column, such as
/// warnings or banners, leave the row that is read unchanged.
pub proof fn leading_lines_ignored(p: Seq<char>, output: Seq<char>)
    requires
        p.len() == 0 || p.last() == '\n',
        forall|k: int| 0 <= k < lines(p).len() ==> !contains(#[trigger] lines(p)[k], "client_public_key"@),
    ensures
        row_below_header(p + output) == row_below_header(output),
{
    lemma_lines_append(p, output);
    let a = lines(p);
    let b = lines(output);
    let ls = a + b;
    lemma_first_header_props(b, 0);
    let h = first_header(b, 0);
    assert forall|k: int| 0 <= k < a.len() + h implies !contains(#[trigger] ls[k], "client_public_key"@) by {
        if k < a.len() {
            assert(ls[k] == a[k]);
        } else {
            assert(ls[k] == b[k - a.len()]);
        }
    }
    if h < b.len() {
        assert(ls[a.len() + h] == b[h]);
    }
    lemma_first_header(ls, 0, a.len() + h);
    if h + 2 < b.len() {
        assert(ls[a.len() + h + 2] == b[h + 2]);
    }
}

/// Once the output holds a complete row, text after it leaves the row that
/// is read unchanged: only the line two below the first header line counts.
pub proof fn trailing_text_ignored(output: Seq<char>, s: Seq<char>)
    requires
        row_below_header(output) is Some,
        output.last() == '\n',
    ensures
        row_below_header(output + s) == row_below_header(output),
{
    lemma_lines_append(output, s);
    let a = lines(output);
    let ls = a + lines(s);
    lemma_first_header_props(a, 0);
    let h = first_header(a, 0);
    assert forall|k: int| 0 <= k < h implies !contains(#[trigger] ls[k], "client_public_key"@) by {
        assert(ls[k] == a[k]);
    }
    assert(ls[h] == a[h]);
    lemma_first_header(ls, 0, h);
    assert(ls[h + 2] == a[h + 2]);
}

/// The customer's row from what `cqlsh` printed for the row query: the line
/// two below the header line (skipping the rule), split at `|` into five
/// cells, each trimmed and none empty.
pub fn parse_customer_info(output: &str) -> (r: Option<CustomerInfo>)
    ensures
        match r {
            Some(info) => row_below_header(output@) == Some(info@),
            None => row_below_header(output@) is None,
        },
{
    let text = chars_of(output);
    let ls = lines_of(text.as_slice());
    let ghost v = views(ls@);
    let header = chars_of("client_public_key");
    let mut h: usize = 0;
    while h < ls.len() && !contains_chars(ls[h].as_slice(), header.as_slice())
        invariant
            h <= ls@.len() == v.len(),
            v == views(ls@),
            v == lines(output@),
            header@ == "client_public_key"@,
            forall|j: int| 0 <= j < h ==> !contains(#[trigger] v[j], "client_public_key"@),
        decreases ls.len() - h,
    {
        assert(ls@[h as int]@ == v[h as int]);
        h = h + 1;
    }
    proof {
        if h < ls.len() {
            assert(ls@[h as int]@ == v[h as int]);
        }
        lemma_first_header(v, 0, h as int);
    }
    if h >= ls.len() || ls.len() - h <= 2 {
        return None;
    }
    let cells = split_trimmed(ls[h + 2].as_slice(), '|');
    assert(ls@[h + 2]@ == v[h + 2]);
    assert(views(cells@).len() == cells@.len());
    if cells.len() != 5 {
        return None;
    }
    let ghost row = trim_all(split(v[h + 2], '|'));
    assert(views(cells@) == row);
    let mut i: usize = 0;
    while i < 5
        invariant
            i <= 5,
            cells@.len() == 5,
            views(cells@) == row,
            row == trim_all(split(lines(output@)[h + 2], '|')),
            h + 2 < lines(output@).len(),
            first_header(lines(output@), 0) == h,
            forall|k: int| 0 <= k < i ==> #[trigger] row[k].len() > 0,
        decreases 5 - i,
    {
        assert(views(cells@)[i as int] == cells@[i as int]@);
        if cells[i].len() == 0 {
            assert(row[i as int].len() == 0);
            return None;
        }
        i = i + 1;
    }
    Some(CustomerInfo::from_cells(&cells))
}

/// The customer's row from a finished row query: read from the output, with
/// the header line and the row two below it, where `cqlsh` succeeded; `None`
/// where it failed.
pub fn customer_info_from_query(succeeded: bool, output: &str) -> (r: Option<CustomerInfo>)
    ensures
        !succeeded ==> r is None,
        succeeded ==> match r {
            Some(info) => row_below_header(output@) == Some(info@),
            None => row_below_header(output@) is None,
        },
{
    if succeeded {
        parse_customer_info(output)
    } else {
        None
    }
}

/// Where a registration stands.
#[derive(Debug, PartialEq, Eq, Structural)]
pub enum RegistrationState {
    /// Waiting for a customer's key.
    Idle,
    /// The key of this customer is being stored.
    Storing(usize),
    /// The tunnel of this customer has been asked for.
    Tunneling(usize),
    /// The subdomain of this customer has been asked for.
    Naming(usize),
    /// The row of this customer has been read this many times.
    Checking(usize, u32),
}

/// What the outside world reports to a registration.
pub enum RegistrationEvent {
    /// A customer sent this public key.
    KeyReceived(String),
    /// The key was stored, or not.
    Stored(bool),
    /// The tunnel request went out.
    TunnelRequested,
    /// The subdomain request went out.
    SubdomainRequested,
    /// The row was read: the row, or `None` where it could not be read.
    RowRead(Option<CustomerInfo>),
}

/// What a registration asks the outside world to do next.
pub enum RegistrationAction {
    /// Run this statement, which stores the customer's key.
    Store(String),
    /// Tell the customer the key could not be stored.
    ReportStoreFailed,
    /// Ask the VPN server for this customer's tunnel.
    RequestTunnel(usize),
    /// Ask the proxy server for this customer's subdomain.
    RequestSubdomain(usize),
    /// Run this statement, which reads the customer's row, after pausing first
    /// where `.0` holds.
    ReadRow(bool, String),
    /// Send the complete row, then the completion notice.
    ReportRow(CustomerInfo),
    /// Pause, then tell the customer the row never became complete, then send
    /// the completion notice.
    PauseThenReportRowMissing,
    /// Nothing: the event does not fit the state.
    Nothing,
}

/// One registration at a time; the customer numbers come from a counter that
/// all registrations share.
pub struct Registration {
    pub state: RegistrationState,
}

impl Registration {
    /// No registration under way.
    pub fn new() -> (r: Registration)
        ensures
            r.state == RegistrationState::Idle,
    {
        Registration { state: RegistrationState::Idle }
    }

    /// The step for one event. A key starts a registration under the next
    /// number; a failed store ends it; then the tunnel and the subdomain are
    /// asked for and the row is read until it is complete, at most
    /// `MAX_ATTEMPTS` times with a pause before each new read.
    pub fn step(&mut self, ids: &mut IdCounter, event: RegistrationEvent) -> (a: RegistrationAction)
        requires
            old(self).state matches RegistrationState::Checking(_, n) ==> 1 <= n <= MAX_ATTEMPTS,
        ensures
            final(self).state matches RegistrationState::Checking(_, n) ==> 1 <= n <= MAX_ATTEMPTS,
            match (old(self).state, event) {
                (RegistrationState::Idle, RegistrationEvent::KeyReceived(key)) => {
                    let id = old(ids)@ as usize;
                    &&& a matches RegistrationAction::Store(q) && q@ == insert_customer_text(id as nat, key@)
                    &&& final(self).state == RegistrationState::Storing(id)
                    &&& final(ids)@ == if old(ids)@ == usize::MAX { 0 } else { old(ids)@ + 1 }
                },
                (RegistrationState::Storing(id), RegistrationEvent::Stored(ok)) => {
                    &&& ok ==> a == RegistrationAction::RequestTunnel(id) && final(self).state
                        == RegistrationState::Tunneling(id)
                    &&& !ok ==> a is ReportStoreFailed && final(self).state == RegistrationState::Idle
                    &&& final(ids)@ == old(ids)@
                },
                (RegistrationState::Tunneling(id), RegistrationEvent::TunnelRequested) => {
                    &&& a == RegistrationAction::RequestSubdomain(id)
                    &&& final(self).state == RegistrationState::Naming(id)
                    &&& final(ids)@ == old(ids)@
                },
                (RegistrationState::Naming(id), RegistrationEvent::SubdomainRequested) => {
                    &&& a matches RegistrationAction::ReadRow(pause, q) && !pause && q@
                        == select_customer_info_text(id as nat)
                    &&& final(self).state == RegistrationState::Checking(id, 1)
                    &&& final(ids)@ == old(ids)@
                },
                (RegistrationState::Checking(id, n), RegistrationEvent::RowRead(row)) => {
                    &&& final(ids)@ == old(ids)@
                    &&& (row matches Some(info) && (info.server_public_key@ == "null"@ || info.vpn_ip_client@
                        == "null"@ || info.vpn_ip_server@ == "null"@ || info.subdomain@ == "null"@)) ==> !(a is ReportRow)
                    &&& (row matches Some(info) && is_complete_row(info@)) ==> (a
                        == RegistrationAction::ReportRow(row->0) && final(self).state
                        == RegistrationState::Idle)
                    &&& !(row matches Some(info) && is_complete_row(info@)) && n < MAX_ATTEMPTS ==> (a
                        matches RegistrationAction::ReadRow(pause, q) && pause && q@
                        == select_customer_info_text(id as nat) && final(self).state
                        == RegistrationState::Checking(id, (n + 1) as u32))
                    &&& !(row matches Some(info) && is_complete_row(info@)) && n >= MAX_ATTEMPTS ==> (
                    a is PauseThenReportRowMissing && final(self).state == RegistrationState::Idle)
                },
                _ => a is Nothing && final(self).state == old(self).state && final(ids)@
                    == old(ids)@,
            },
    {
        match (&self.state, event) {
            (RegistrationState::Idle, RegistrationEvent::KeyReceived(key)) => {
                let id = ids.fetch_next();
                self.state = RegistrationState::Storing(id);
                RegistrationAction::Store(insert_customer_query(id, key.as_str()))
            },
            (RegistrationState::Storing(id), RegistrationEvent::Stored(ok)) => {
                let id = *id;
                if ok {
                    self.state = RegistrationState::Tunneling(id);
                    RegistrationAction::RequestTunnel(id)
                } else {
                    self.state = RegistrationState::Idle;
                    RegistrationAction::ReportStoreFailed
                }
            },
            (RegistrationState::Tunneling(id), RegistrationEvent::TunnelRequested) => {
                let id = *id;
                self.state = RegistrationState::Naming(id);
                RegistrationAction::RequestSubdomain(id)
            },
            (RegistrationState::Naming(id), RegistrationEvent::SubdomainRequested) => {
                let id = *id;
                self.state = RegistrationState::Checking(id, 1);
                RegistrationAction::ReadRow(false, select_customer_info_query(id))
            },
            (RegistrationState::Checking(id, n), RegistrationEvent::RowRead(row)) => {
                let id = *id;
                let n = *n;
                let ready = match &row {
                    Some(info) => info.is_complete(),
                    None => false,
                };
                match after_check(n, ready) {
                    RetryStep::Done => {
                        self.state = RegistrationState::Idle;
                        match row {
                            Some(info) => RegistrationAction::ReportRow(info),
                            None => RegistrationAction::Nothing,
                        }
                    },
                    RetryStep::PauseThenCheck(next) => {
                        self.state = RegistrationState::Checking(id, next);
                        RegistrationAction::ReadRow(true, select_customer_info_query(id))
                    },
                    RetryStep::PauseThenGiveUp => {
                        self.state = RegistrationState::Idle;
                        RegistrationAction::PauseThenReportRowMissing
                    },
                }
            },
            _ => RegistrationAction::Nothing,
        }
    }
}

} // verus!
