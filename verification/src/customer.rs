//! A customer's row as the database returns it.

use vstd::prelude::*;
use crate::text::{chars_of, same_chars, string_of, views};

verus! {

/// The five columns of a customer's row.
pub struct CustomerInfo {
    pub client_public_key: String,
    pub server_public_key: String,
    pub vpn_ip_client: String,
    pub vpn_ip_server: String,
    pub subdomain: String,
}

impl View for CustomerInfo {
    type V = Seq<Seq<char>>;

    /// The five columns, in the order that the table lists them.
    open spec fn view(&self) -> Seq<Seq<char>> {
        seq![
            self.client_public_key@,
            self.server_public_key@,
            self.vpn_ip_client@,
            self.vpn_ip_server@,
            self.subdomain@,
        ]
    }
}

/// Whether none of the columns that the tunnel set-up fills in still reads `null`.
pub open spec fn is_complete_row(row: Seq<Seq<char>>) -> bool {
    &&& row[1] != "null"@
    &&& row[2] != "null"@
    &&& row[3] != "null"@
    &&& row[4] != "null"@
}

impl CustomerInfo {
    /// The row whose columns are the five cells, in order.
    pub fn from_cells(cells: &Vec<Vec<char>>) -> (info: CustomerInfo)
        requires
            cells@.len() == 5,
        ensures
            info@ == views(cells@),
    {
        let info = CustomerInfo {
            client_public_key: string_of(cells[0].as_slice()),
            server_public_key: string_of(cells[1].as_slice()),
            vpn_ip_client: string_of(cells[2].as_slice()),
            vpn_ip_server: string_of(cells[3].as_slice()),
            subdomain: string_of(cells[4].as_slice()),
        };
        assert(info@ =~= views(cells@));
        info
    }

    /// Whether the server key, both addresses and the subdomain have all been
    /// filled in (none of them reads `null`).
    pub fn is_complete(&self) -> (b: bool)
        ensures
            b == is_complete_row(self@),
            self.server_public_key@ == "null"@ ==> !b,
            self.vpn_ip_client@ == "null"@ ==> !b,
            self.vpn_ip_server@ == "null"@ ==> !b,
            self.subdomain@ == "null"@ ==> !b,
            self.server_public_key@ != "null"@ && self.vpn_ip_client@ != "null"@ && self.vpn_ip_server@
                != "null"@ && self.subdomain@ != "null"@ ==> b,
    {
        let null = chars_of("null");
        !same_chars(chars_of(self.server_public_key.as_str()).as_slice(), null.as_slice())
            && !same_chars(chars_of(self.vpn_ip_client.as_str()).as_slice(), null.as_slice())
            && !same_chars(chars_of(self.vpn_ip_server.as_str()).as_slice(), null.as_slice())
            && !same_chars(chars_of(self.subdomain.as_str()).as_slice(), null.as_slice())
    }
}

/// A row is complete exactly when none of the server key, the client address,
/// the server address and the subdomain reads `null`; the client key, which
/// the registration itself stores, does not count.
pub proof fn complete_iff_no_null_column(info: CustomerInfo)
    ensures
        is_complete_row(info@) <==> (info.server_public_key@ != "null"@ && info.vpn_ip_client@ != "null"@
            && info.vpn_ip_server@ != "null"@ && info.subdomain@ != "null"@),
{
}

} // verus!
