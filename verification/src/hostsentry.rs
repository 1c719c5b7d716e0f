//! One hostname-to-address mapping: an IPv4 address paired with a
//! fully-qualified domain name.
use vstd::prelude::*;
use vstd::string::*;

use crate::address::{spec_addr_lt, spec_addr_text, spec_ipv4_accepts, spec_ipv4_addr, Address};
use crate::hostname::{fqdn_canon, spec_hostname_ok, Hostname};
use crate::text::spec_text_lt;

verus! {

/// The mathematical value of an entry: the address and the canonical
/// hostname text.
pub struct EntryModel {
    pub ip: Address,
    pub host: Seq<char>,
}

/// An active mapping from a hostname to an IPv4 address.
#[derive(Debug, PartialEq, Eq)]
pub struct HostsEntry {
    pub ip: Address,
    pub host: Hostname,
}

impl View for HostsEntry {
    type V = EntryModel;

    open spec fn view(&self) -> EntryModel {
        EntryModel { ip: self.ip, host: self.host@ }
    }
}

impl DeepView for HostsEntry {
    type V = EntryModel;

    open spec fn deep_view(&self) -> EntryModel {
        self.view()
    }
}

impl Clone for HostsEntry {
    fn clone(&self) -> (r: Self)
        ensures
            r == *self,
    {
        HostsEntry { ip: self.ip, host: self.host.clone() }
    }
}

/// Order on entries: by address first, then by the canonical hostname
/// text, lexicographically.
pub open spec fn spec_entry_lt(a: EntryModel, b: EntryModel) -> bool {
    spec_addr_lt(a.ip, b.ip) || (a.ip == b.ip && spec_text_lt(a.host, b.host))
}

/// The text of an entry line: the address, one space, the hostname.
pub open spec fn spec_render_entry(e: EntryModel) -> Seq<char> {
    spec_addr_text(e.ip) + seq![' '] + e.host
}

impl HostsEntry {
    pub open spec fn wf(&self) -> bool {
        self.host.wf()
    }

    pub fn new(ip: Address, host: Hostname) -> (r: Self)
        ensures
            r.ip == ip && r.host == host,
    {
        HostsEntry { ip, host }
    }

    /// Builds an entry from four octets and a domain name text that is
    /// already known to be acceptable.
    pub fn from(ip: (u8, u8, u8, u8), fqdn: &str) -> (r: Self)
        requires
            spec_hostname_ok(fqdn@),
        ensures
            r.ip == (Address { o0: ip.0, o1: ip.1, o2: ip.2, o3: ip.3 }),
            r.host@ == fqdn_canon(fqdn@),
            r.wf(),
    {
        let host = match Hostname::parse(fqdn) {
            Some(h) => h,
            None => vstd::pervasive::unreached(),
        };
        HostsEntry { ip: Address::new(ip.0, ip.1, ip.2, ip.3), host }
    }

    /// Parses an address text and a hostname text into an entry.
    /// Succeeds exactly when the address is a valid dotted quad and the
    /// hostname is an acceptable domain name of depth at least one.
    pub fn parse(ip: &str, host: &str) -> (r: Result<Self, String>)
        ensures
            r is Ok <==> spec_ipv4_accepts(ip@) && spec_hostname_ok(host@),
            r matches Ok(e) ==> e.ip == spec_ipv4_addr(ip@) && e.host@ == fqdn_canon(host@)
                && e.wf(),
    {
        let parsed_ip = match Address::parse(ip) {
            Some(a) => a,
            None => {
                return Err(String::from_str("invalid IPv4 address"));
            },
        };
        match Hostname::parse(host) {
            Some(_) => (),
            None => {
                return Err(String::from_str("invalid fully-qualified domain name"));
            },
        };
        let entry = HostsEntry::from((parsed_ip.o0, parsed_ip.o1, parsed_ip.o2, parsed_ip.o3), host);
        Ok(entry)
    }

    /// The text of this entry's line: the address, one space, the
    /// hostname.
    pub fn render(&self) -> (r: String)
        ensures
            r@ == spec_render_entry(self@),
    {
        let sp = " ";
        proof {
            reveal_strlit(" ");
            assert(sp@ =~= seq![' ']);
        }
        let mut r = self.ip.to_text();
        r.append(sp);
        r.append(self.host.as_text());
        proof {
            assert(r@ =~= spec_render_entry(self@));
        }
        r
    }

    /// Order on entries: by address first, then by the canonical
    /// hostname text, lexicographically.
    pub fn lt(&self, other: &Self) -> (r: bool)
        ensures
            r == spec_entry_lt(self@, other@),
    {
        if self.ip.lt(&other.ip) {
            true
        } else if other.ip.lt(&self.ip) {
            false
        } else {
            proof {
                assert(self.ip == other.ip);
            }
            self.host.lt(&other.host)
        }
    }
}

} // verus!
