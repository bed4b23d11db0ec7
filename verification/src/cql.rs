//! The CQL statements that the servers send through `cqlsh`, and the reading
//! of the tables that `cqlsh` prints back.

use vstd::prelude::*;
use crate::number::{decimal, decimal_chars};
use crate::text::{
    append_chars, chars_of, contains, contains_chars, lines, lines_of, split, split_trimmed,
    starts_with_chars, string_of, trim, trim_all, trim_chars, views,
};

verus! {

/// The address of the database server that `cqlsh` connects to.
pub open spec fn db_host() -> Seq<char> {
    "10.0.10.40"@
}

/// The statement that records a new customer with its public key.
pub open spec fn insert_customer_text(id: nat, public_key: Seq<char>) -> Seq<char> {
    "INSERT INTO customer_data.customer_info (customer_id, client_public_key) VALUES ("@
        + decimal(id) + ", '"@ + public_key + "');"@
}

/// The statement that reads every column of a customer's row.
pub open spec fn select_customer_info_text(id: nat) -> Seq<char> {
    "SELECT client_public_key, server_public_key, vpn_ip_client, vpn_ip_server, subdomain FROM customer_data.customer_info WHERE customer_id = "@
        + decimal(id) + ";"@
}

/// The statement that stores a customer's subdomain.
pub open spec fn update_subdomain_text(id: nat, subdomain: Seq<char>) -> Seq<char> {
    "UPDATE customer_data.customer_info SET subdomain = '"@ + subdomain + "' WHERE customer_id = "@
        + decimal(id) + ";"@
}

/// The statement that reads a customer's two tunnel addresses.
pub open spec fn select_virtual_ips_text(id: nat) -> Seq<char> {
    "SELECT vpn_ip_client, vpn_ip_server FROM customer_data.customer_info WHERE customer_id = "@
        + decimal(id) + ";"@
}

/// The statement that reads a customer's public key.
pub open spec fn select_public_key_text(id: nat) -> Seq<char> {
    "SELECT client_public_key FROM customer_data.customer_info WHERE customer_id = "@ + decimal(id)
        + ";"@
}

/// The statement that stores the tunnel of a customer: both keys and both addresses.
pub open spec fn update_tunnel_text(
    id: nat,
    server_public_key: Seq<char>,
    client_public_key: Seq<char>,
    client_ip: Seq<char>,
    server_ip: Seq<char>,
) -> Seq<char> {
    "UPDATE customer_data.customer_info SET server_public_key = '"@ + server_public_key
        + "', client_public_key = '"@ + client_public_key + "', vpn_ip_client = '"@ + client_ip
        + "', vpn_ip_server = '"@ + server_ip + "' WHERE customer_id = "@ + decimal(id) + ";"@
}

/// The statement that records a new customer with its public key.
pub fn insert_customer_query(id: usize, public_key: &str) -> (q: String)
    ensures
        q@ == insert_customer_text(id as nat, public_key@),
{
    let mut v = chars_of(
        "INSERT INTO customer_data.customer_info (customer_id, client_public_key) VALUES (",
    );
    append_chars(&mut v, decimal_chars(id).as_slice());
    append_chars(&mut v, chars_of(", '").as_slice());
    append_chars(&mut v, chars_of(public_key).as_slice());
    append_chars(&mut v, chars_of("');").as_slice());
    string_of(v.as_slice())
}

/// The statement that reads every column of a customer's row.
pub fn select_customer_info_query(id: usize) -> (q: String)
    ensures
        q@ == select_customer_info_text(id as nat),
{
    let mut v = chars_of(
        "SELECT client_public_key, server_public_key, vpn_ip_client, vpn_ip_server, subdomain FROM customer_data.customer_info WHERE customer_id = ",
    );
    append_chars(&mut v, decimal_chars(id).as_slice());
    append_chars(&mut v, chars_of(";").as_slice());
    string_of(v.as_slice())
}

/// The statement that stores a customer's subdomain.
pub fn update_subdomain_query(id: usize, subdomain: &str) -> (q: String)
    ensures
        q@ == update_subdomain_text(id as nat, subdomain@),
{
    let mut v = chars_of("UPDATE customer_data.customer_info SET subdomain = '");
    append_chars(&mut v, chars_of(subdomain).as_slice());
    append_chars(&mut v, chars_of("' WHERE customer_id = ").as_slice());
    append_chars(&mut v, decimal_chars(id).as_slice());
    append_chars(&mut v, chars_of(";").as_slice());
    string_of(v.as_slice())
}

/// The statement that reads a customer's two tunnel addresses.
pub fn select_virtual_ips_query(id: usize) -> (q: String)
    ensures
        q@ == select_virtual_ips_text(id as nat),
{
    let mut v = chars_of(
        "SELECT vpn_ip_client, vpn_ip_server FROM customer_data.customer_info WHERE customer_id = ",
    );
    append_chars(&mut v, decimal_chars(id).as_slice());
    append_chars(&mut v, chars_of(";").as_slice());
    string_of(v.as_slice())
}

/// The statement that reads a customer's public key.
pub fn select_public_key_query(id: usize) -> (q: String)
    ensures
        q@ == select_public_key_text(id as nat),
{
    let mut v = chars_of("SELECT client_public_key FROM customer_data.customer_info WHERE customer_id = ");
    append_chars(&mut v, decimal_chars(id).as_slice());
    append_chars(&mut v, chars_of(";").as_slice());
    string_of(v.as_slice())
}

/// The statement that stores the tunnel of a customer.
pub fn update_tunnel_query(
    id: usize,
    server_public_key: &str,
    client_public_key: &str,
    client_ip: &str,
    server_ip: &str,
) -> (q: String)
    ensures
        q@ == update_tunnel_text(
            id as nat,
            server_public_key@,
            client_public_key@,
            client_ip@,
            server_ip@,
        ),
{
    let mut v = chars_of("UPDATE customer_data.customer_info SET server_public_key = '");
    append_chars(&mut v, chars_of(server_public_key).as_slice());
    append_chars(&mut v, chars_of("', client_public_key = '").as_slice());
    append_chars(&mut v, chars_of(client_public_key).as_slice());
    append_chars(&mut v, chars_of("', vpn_ip_client = '").as_slice());
    append_chars(&mut v, chars_of(client_ip).as_slice());
    append_chars(&mut v, chars_of("', vpn_ip_server = '").as_slice());
    append_chars(&mut v, chars_of(server_ip).as_slice());
    append_chars(&mut v, chars_of("' WHERE customer_id = ").as_slice());
    append_chars(&mut v, decimal_chars(id).as_slice());
    append_chars(&mut v, chars_of(";").as_slice());
    string_of(v.as_slice())
}

/// The arguments that run one statement through `cqlsh` against the database
/// server, with or without pinning the CQL version.
pub fn cqlsh_args(query: &str, pin_version: bool) -> (args: Vec<String>)
    ensures
        pin_version ==> args@.len() == 4 && args@[0]@ == db_host() && args@[1]@ == "--cqlversion=3.4.6"@
            && args@[2]@ == "-e"@ && args@[3]@ == query@,
        !pin_version ==> args@.len() == 3 && args@[0]@ == db_host() && args@[1]@ == "-e"@
            && args@[2]@ == query@,
{
    let mut args: Vec<String> = Vec::new();
    args.push(string_of(chars_of("10.0.10.40").as_slice()));
    if pin_version {
        args.push(string_of(chars_of("--cqlversion=3.4.6").as_slice()));
    }
    args.push(string_of(chars_of("-e").as_slice()));
    args.push(string_of(chars_of(query).as_slice()));
    args
}


/// Whether a line of the address table is not a row: blank, a warning, or the
/// header that names the columns.
pub open spec fn skipped_ip_line(l: Seq<char>) -> bool {
    ||| trim(l).len() == 0
    ||| "WARNING"@.is_prefix_of(l)
    ||| contains(l, "vpn_ip_client"@)
}

/// Whether a line of the address table is a row of two `|`-separated cells.
pub open spec fn is_ip_row(l: Seq<char>) -> bool {
    !skipped_ip_line(l) && split(l, '|').len() == 2
}

/// The first index at or after `i` of a row of two cells (`ls.len()` if none).
pub open spec fn first_ip_row(ls: Seq<Seq<char>>, i: int) -> int
    decreases ls.len() - i,
{
    if i >= ls.len() {
        ls.len() as int
    } else if is_ip_row(ls[i]) {
        i
    } else {
        first_ip_row(ls, i + 1)
    }
}

/// The client and server addresses that the first row of two cells holds,
/// each trimmed; `None` where the output has no such row.
pub open spec fn virtual_ips_of(output: Seq<char>) -> Option<(Seq<char>, Seq<char>)> {
    let ls = lines(output);
    let k = first_ip_row(ls, 0);
    if k < ls.len() {
        Some((trim(split(ls[k], '|')[0]), trim(split(ls[k], '|')[1])))
    } else {
        None
    }
}

proof fn lemma_first_ip_row(ls: Seq<Seq<char>>, i: int, m: int)
    requires
        0 <= i <= m <= ls.len(),
        forall|k: int| i <= k < m ==> !is_ip_row(#[trigger] ls[k]),
        m == ls.len() || is_ip_row(ls[m]),
    ensures
        first_ip_row(ls, i) == m,
    decreases m - i,
{
    if i < m {
        lemma_first_ip_row(ls, i + 1, m);
    }
}

/// Whether the line is a row of two cells of the address table.
fn ip_row_line(line: &[char]) -> (b: bool)
    ensures
        b == is_ip_row(line@),
{
    let warning = chars_of("WARNING");
    let header = chars_of("vpn_ip_client");
    let blank = trim_chars(line).len() == 0;
    if blank || starts_with_chars(line, warning.as_slice()) || contains_chars(line, header.as_slice()) {
        return false;
    }
    let cells = split_trimmed(line, '|');
    assert(views(cells@).len() == cells@.len());
    assert(trim_all(split(line@, '|')).len() == split(line@, '|').len());
    cells.len() == 2
}

/// The client and server addresses from what `cqlsh` printed for the address
/// query: the first line that is not blank, not a warning and not the header,
/// and that splits at `|` into exactly two cells.
pub fn parse_virtual_ips(output: &str) -> (r: Option<(String, String)>)
    ensures
        match r {
            Some((c, s)) => virtual_ips_of(output@) == Some((c@, s@)),
            None => virtual_ips_of(output@) is None,
        },
{
    let text = chars_of(output);
    let ls = lines_of(text.as_slice());
    let ghost v = views(ls@);
    let mut k: usize = 0;
    while k < ls.len() && !ip_row_line(ls[k].as_slice())
        invariant
            k <= ls@.len() == v.len(),
            v == views(ls@),
            v == lines(output@),
            forall|j: int| 0 <= j < k ==> !is_ip_row(#[trigger] v[j]),
        decreases ls.len() - k,
    {
        assert(ls@[k as int]@ == v[k as int]);
        k = k + 1;
    }
    proof {
        if k < ls.len() {
            assert(ls@[k as int]@ == v[k as int]);
        }
        lemma_first_ip_row(v, 0, k as int);
    }
    if k == ls.len() {
        return None;
    }
    let cells = split_trimmed(ls[k].as_slice(), '|');
    assert(ls@[k as int]@ == v[k as int]);
    assert(is_ip_row(v[k as int]));
    assert(views(cells@).len() == cells@.len());
    assert(trim_all(split(v[k as int], '|')).len() == split(v[k as int], '|').len());
    assert(cells@.len() == 2);
    assert(views(cells@)[0] == cells@[0]@);
    assert(views(cells@)[1] == cells@[1]@);
    let c = string_of(cells[0].as_slice());
    let s = string_of(cells[1].as_slice());
    Some((c, s))
}

/// The public key that the fifth line of the output holds, trimmed, where the
/// output has more than five lines and that line is not blank.
pub open spec fn public_key_in_fifth_line(output: Seq<char>) -> Option<Seq<char>> {
    let ls = lines(output);
    if ls.len() > 5 && trim(ls[4]).len() > 0 {
        Some(trim(ls[4]))
    } else {
        None
    }
}

/// The public key from what `cqlsh` printed for the key query, read from the
/// fifth line of the output.
pub fn parse_public_key_fifth_line(output: &str) -> (r: Option<String>)
    ensures
        match r {
            Some(k) => public_key_in_fifth_line(output@) == Some(k@),
            None => public_key_in_fifth_line(output@) is None,
        },
{
    let text = chars_of(output);
    let ls = lines_of(text.as_slice());
    assert(views(ls@) == lines(output@));
    if ls.len() > 5 {
        let t = trim_chars(ls[4].as_slice());
        assert(ls@[4]@ == views(ls@)[4]);
        if t.len() > 0 {
            return Some(string_of(t.as_slice()));
        }
    }
    None
}

/// Whether the line, trimmed, begins with `-`: the rule under a table header.
pub open spec fn is_rule_line(l: Seq<char>) -> bool {
    trim(l).len() > 0 && trim(l)[0] == '-'
}

/// The first index at or after `i` of a rule line (`ls.len()` if none).
pub open spec fn first_rule_line(ls: Seq<Seq<char>>, i: int) -> int
    decreases ls.len() - i,
{
    if i >= ls.len() {
        ls.len() as int
    } else if is_rule_line(ls[i]) {
        i
    } else {
        first_rule_line(ls, i + 1)
    }
}

/// The public key on the line after the first rule line, trimmed; `None` where
/// there is no rule line or nothing follows it.
pub open spec fn public_key_after_rule(output: Seq<char>) -> Option<Seq<char>> {
    let ls = lines(output);
    let k = first_rule_line(ls, 0);
    if k + 1 < ls.len() {
        Some(trim(ls[k + 1]))
    } else {
        None
    }
}

proof fn lemma_first_rule_line(ls: Seq<Seq<char>>, i: int, m: int)
    requires
        0 <= i <= m <= ls.len(),
        forall|k: int| i <= k < m ==> !is_rule_line(#[trigger] ls[k]),
        m == ls.len() || is_rule_line(ls[m]),
    ensures
        first_rule_line(ls, i) == m,
    decreases m - i,
{
    if i < m {
        lemma_first_rule_line(ls, i + 1, m);
    }
}

/// Whether the line, trimmed, begins with `-`.
fn rule_line(line: &[char]) -> (b: bool)
    ensures
        b == is_rule_line(line@),
{
    let t = trim_chars(line);
    t.len() > 0 && t[0] == '-'
}

/// The public key from what `cqlsh` printed for the key query, read from the
/// line that follows the rule under the table header.
pub fn parse_public_key_after_rule(output: &str) -> (r: Option<String>)
    ensures
        match r {
            Some(k) => public_key_after_rule(output@) == Some(k@),
            None => public_key_after_rule(output@) is None,
        },
{
    let text = chars_of(output);
    let ls = lines_of(text.as_slice());
    let ghost v = views(ls@);
    let mut k: usize = 0;
    while k < ls.len() && !rule_line(ls[k].as_slice())
        invariant
            k <= ls@.len() == v.len(),
            v == views(ls@),
            v == lines(output@),
            forall|j: int| 0 <= j < k ==> !is_rule_line(#[trigger] v[j]),
        decreases ls.len() - k,
    {
        assert(ls@[k as int]@ == v[k as int]);
        k = k + 1;
    }
    proof {
        if k < ls.len() {
            assert(ls@[k as int]@ == v[k as int]);
        }
        lemma_first_rule_line(v, 0, k as int);
    }
    if ls.len() > 0 && k < ls.len() - 1 {
        assert(ls@[k + 1]@ == v[k + 1]);
        let t = trim_chars(ls[k + 1].as_slice());
        Some(string_of(t.as_slice()))
    } else {
        None
    }
}

} // verus!
