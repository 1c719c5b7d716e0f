//! Fully-qualified domain names, kept in the canonical (normalized,
//! lower-case, no trailing dot) textual form that the `fqdn` crate
//! produces. Validity requires domain depth of at least one, that is,
//! at least one subdomain under the top level: two labels or more.
use vstd::prelude::*;
use vstd::string::*;

use crate::text::{
    contains_char, spec_contains_char, spec_is_whitespace, spec_text_lt, spec_trim_end, text_lt,
};

verus! {

/// Whether the `fqdn` crate accepts `s` as a domain name.
pub uninterp spec fn fqdn_accepts(s: Seq<char>) -> bool;

/// The canonical text of the domain name written `s`: labels lower-cased
/// and joined with dots, no trailing dot; the root domain reads `"."`.
pub uninterp spec fn fqdn_canon(s: Seq<char>) -> Seq<char>;

/// A character permitted inside a domain label: `a`-`z`, `0`-`9`,
/// `-`, `_` or `#`.
pub open spec fn spec_label_char(c: char) -> bool {
    let u = c as u32;
    (0x61 <= u && u <= 0x7A) || (0x30 <= u && u <= 0x39) || u == 0x2D || u == 0x5F || u == 0x23
}

/// The shape of every canonical domain text: non-empty, made of label
/// characters and dots only.
pub open spec fn spec_canon_text(t: Seq<char>) -> bool {
    t.len() > 0 && forall|i: int| 0 <= i < t.len() ==> spec_label_char(#[trigger] t[i]) || t[i]
        == '.'
}

/// Accepted as a domain name of depth at least one: the `fqdn` crate
/// accepts it, and the name has at least one subdomain under its top
/// level — at least two labels, so the canonical text contains a dot.
/// A bare single label and the root domain (canonical text `"."`, the
/// only accepted name without a label) are rejected.
pub open spec fn spec_hostname_ok(s: Seq<char>) -> bool {
    &&& fqdn_accepts(s)
    &&& fqdn_canon(s) != seq!['.']
    &&& spec_contains_char(fqdn_canon(s), '.')
}

/// A text that is the canonical form of a valid hostname: accepted,
/// a fixed point of canonicalization, of canonical shape, neither the
/// root domain nor a bare single label.
pub open spec fn spec_canonical_host(t: Seq<char>) -> bool {
    &&& fqdn_accepts(t)
    &&& fqdn_canon(t) == t
    &&& spec_canon_text(t)
    &&& t != seq!['.']
    &&& spec_contains_char(t, '.')
}

/// Relies on the `fqdn` crate: `FQDN::from_str` accepts a name exactly
/// when every dot-separated label is non-empty and made of the permitted
/// characters (upper-case letters are lowered, one trailing dot is
/// allowed), and `Display` prints the lower-cased labels joined with
/// dots, the root domain as `"."`. Printing an accepted name and parsing
/// the printed text yields the same value again, so the canonical text
/// is a fixed point of canonicalization.
#[verifier::external_body]
pub(crate) fn fqdn_canonical(s: &str) -> (r: Option<String>)
    ensures
        r is Some <==> fqdn_accepts(s@),
        r matches Some(c) ==> c@ == fqdn_canon(s@) && fqdn_accepts(c@) && fqdn_canon(c@) == c@
            && spec_canon_text(c@),
{
    match s.parse::<fqdn::FQDN>() {
        Ok(f) => Some(f.to_string()),
        Err(_) => None,
    }
}

/// A fully-qualified domain name of depth at least one, stored as its
/// canonical text.
#[derive(Debug, PartialEq, Eq)]
pub struct Hostname {
    pub text: String,
}

impl View for Hostname {
    type V = Seq<char>;

    open spec fn view(&self) -> Seq<char> {
        self.text@
    }
}

impl DeepView for Hostname {
    type V = Seq<char>;

    open spec fn deep_view(&self) -> Seq<char> {
        self.text@
    }
}

impl Clone for Hostname {
    fn clone(&self) -> (r: Self)
        ensures
            r == *self,
    {
        Hostname { text: self.text.clone() }
    }
}

impl Hostname {
    /// Well-formed: the stored text is the canonical form of an accepted
    /// domain name of depth at least one.
    pub open spec fn wf(&self) -> bool {
        spec_canonical_host(self.text@)
    }

    /// Parses and normalizes a domain name, rejecting anything the
    /// `fqdn` crate rejects, the bare root domain, and names of a
    /// single label (no subdomain under the top level).
    pub fn parse(s: &str) -> (r: Option<Hostname>)
        ensures
            r is Some <==> spec_hostname_ok(s@),
            r matches Some(h) ==> h@ == fqdn_canon(s@) && h.wf(),
    {
        match fqdn_canonical(s) {
            None => None,
            Some(c) => {
                let dot = String::from_str(".");
                proof {
                    reveal_strlit(".");
                    assert(dot@ =~= seq!['.']);
                }
                if c == dot {
                    None
                } else if !contains_char(c.as_str(), '.') {
                    None
                } else {
                    Some(Hostname { text: c })
                }
            },
        }
    }

    /// The canonical text of this name.
    pub fn as_text(&self) -> (r: &str)
        ensures
            r@ == self@,
    {
        self.text.as_str()
    }

    /// Lexicographic order on the canonical text, by code point.
    pub fn lt(&self, other: &Hostname) -> (r: bool)
        ensures
            r == spec_text_lt(self@, other@),
    {
        text_lt(self.text.as_str(), other.text.as_str())
    }
}

/// A canonical domain text contains no white space, so trimming
/// trailing white space leaves it unchanged.
pub proof fn lemma_canon_text_no_whitespace(t: Seq<char>)
    requires
        spec_canon_text(t),
    ensures
        forall|i: int| 0 <= i < t.len() ==> !spec_is_whitespace(#[trigger] t[i]) && t[i] != ' ',
        spec_trim_end(t) == t,
{
    assert forall|i: int| 0 <= i < t.len() implies !spec_is_whitespace(#[trigger] t[i]) && t[i]
        != ' ' by {
        assert(spec_label_char(t[i]) || t[i] == '.');
    }
    assert(!spec_is_whitespace(t.last()));
}

} // verus!
