//! The line classifier: tags one raw text line as an entry, a comment,
//! a blank line, or an invalid line.
use vstd::prelude::*;
use vstd::string::*;

use super::HostsFile;
use crate::address::{
    lemma_addr_text_roundtrip, spec_addr_text, spec_ipv4_accepts, spec_ipv4_addr, spec_is_digit,
    Address,
};
use crate::hostname::{
    fqdn_canon, lemma_canon_text_no_whitespace, spec_canonical_host, spec_hostname_ok, Hostname,
};
use crate::hostsentry::{spec_render_entry, EntryModel, HostsEntry};
use crate::text::{
    lemma_split_len, lemma_split_sepfree, lemma_split_sepfree_prefix, spec_drop_empty, spec_split,
    spec_tokens, spec_trim_end, tokens_of, trim_end_str,
};

verus! {

/// One classified line of a hosts file.
#[derive(Debug, PartialEq, Eq)]
pub enum ParsedLine {
    /// A line holding a valid hostname-to-address mapping.
    Entry(HostsEntry),
    /// A line beginning with `#`, kept verbatim.
    Comment(String),
    /// Any other unrecognized line, kept verbatim.
    Invalid(String),
    /// An empty line.
    Empty,
}

/// The mathematical value of a classified line.
pub enum LineModel {
    Entry(EntryModel),
    Comment(Seq<char>),
    Invalid(Seq<char>),
    Empty,
}

impl View for ParsedLine {
    type V = LineModel;

    open spec fn view(&self) -> LineModel {
        match self {
            ParsedLine::Entry(e) => LineModel::Entry(e@),
            ParsedLine::Comment(s) => LineModel::Comment(s@),
            ParsedLine::Invalid(s) => LineModel::Invalid(s@),
            ParsedLine::Empty => LineModel::Empty,
        }
    }
}

impl DeepView for ParsedLine {
    type V = LineModel;

    open spec fn deep_view(&self) -> LineModel {
        self.view()
    }
}

impl Clone for ParsedLine {
    fn clone(&self) -> (r: Self)
        ensures
            r == *self,
    {
        match self {
            ParsedLine::Entry(e) => ParsedLine::Entry(e.clone()),
            ParsedLine::Comment(s) => ParsedLine::Comment(s.clone()),
            ParsedLine::Invalid(s) => ParsedLine::Invalid(s.clone()),
            ParsedLine::Empty => ParsedLine::Empty,
        }
    }
}

/// The text a classified line is written back as: an entry as address,
/// space, hostname; a comment or invalid line verbatim; a blank line as
/// the empty text.
pub open spec fn spec_render_line(l: LineModel) -> Seq<char> {
    match l {
        LineModel::Entry(e) => spec_render_entry(e),
        LineModel::Comment(t) => t,
        LineModel::Invalid(t) => t,
        LineModel::Empty => Seq::<char>::empty(),
    }
}

impl ParsedLine {
    /// Well-formed: an entry line holds a well-formed entry.
    pub open spec fn wf(&self) -> bool {
        self matches ParsedLine::Entry(e) ==> e.wf()
    }

    /// The text this line is written back as.
    pub fn render(&self) -> (r: String)
        ensures
            r@ == spec_render_line(self@),
    {
        match self {
            ParsedLine::Entry(e) => e.render(),
            ParsedLine::Comment(s) => s.clone(),
            ParsedLine::Invalid(s) => s.clone(),
            ParsedLine::Empty => String::new(),
        }
    }
}

/// The classification of one raw line, in priority order: empty lines
/// are blank; a leading space is invalid; a leading `#` is a comment;
/// otherwise the first token must be an IPv4 address and the second,
/// trimmed of trailing white space, a hostname of depth at least one;
/// one further token is tolerated only if it begins with `#`.
pub open spec fn spec_classify(s: Seq<char>) -> LineModel {
    if s.len() == 0 {
        LineModel::Empty
    } else if s[0] == ' ' {
        LineModel::Invalid(s)
    } else if s[0] == '#' {
        LineModel::Comment(s)
    } else {
        let toks = spec_tokens(s);
        if !spec_ipv4_accepts(toks[0]) {
            LineModel::Invalid(s)
        } else if toks.len() == 1 {
            // the classifier cannot complete here; see `spec_scan_completes`
            LineModel::Invalid(s)
        } else {
            let h = spec_trim_end(toks[1]);
            if !spec_hostname_ok(h) {
                LineModel::Invalid(s)
            } else if toks.len() >= 3 && toks[2][0] != '#' {
                LineModel::Invalid(s)
            } else {
                LineModel::Entry(EntryModel { ip: spec_ipv4_addr(toks[0]), host: fqdn_canon(h) })
            }
        }
    }
}

/// Whether the classifier's scan can complete on this line. It cannot
/// when a valid address stands alone with no further token: the scan
/// then ends with no hostname, a fatal internal condition.
pub open spec fn spec_scan_completes(s: Seq<char>) -> bool {
    !(s.len() > 0 && s[0] != ' ' && s[0] != '#' && spec_tokens(s).len() == 1 && spec_ipv4_accepts(
        spec_tokens(s)[0],
    ))
}

proof fn lemma_first_token_nonempty(s: Seq<char>)
    requires
        s.len() > 0,
        s[0] != ' ',
    ensures
        spec_tokens(s).len() >= 1,
{
    let parts = spec_split(s, ' ');
    lemma_split_len(s, ' ');
    assert(parts[0].len() > 0);
    assert(spec_drop_empty(parts).len() >= 1);
}

impl HostsFile {
    /// Classifies one raw line, returning `None` when the scan cannot
    /// complete (a valid address standing alone).
    pub fn try_parse_line(line: &str) -> (r: Option<ParsedLine>)
        ensures
            r is Some <==> spec_scan_completes(line@),
            r matches Some(p) ==> p@ == spec_classify(line@) && p.wf(),
    {
        if line.unicode_len() == 0 {
            return Some(ParsedLine::Empty);
        }
        let c0 = line.get_char(0);
        if c0 == ' ' {
            return Some(ParsedLine::Invalid(String::from_str(line)));
        }
        if c0 == '#' {
            return Some(ParsedLine::Comment(String::from_str(line)));
        }
        let toks = tokens_of(line);
        proof {
            lemma_first_token_nonempty(line@);
            assert(toks.deep_view()[0] == toks@[0]@);
        }
        let ip = match Address::parse(toks[0].as_str()) {
            Some(a) => a,
            None => {
                return Some(ParsedLine::Invalid(String::from_str(line)));
            },
        };
        if toks.len() == 1 {
            return None;
        }
        proof {
            assert(toks.deep_view()[1] == toks@[1]@);
        }
        let trimmed = trim_end_str(toks[1].as_str());
        let host = match Hostname::parse(trimmed) {
            Some(h) => h,
            None => {
                return Some(ParsedLine::Invalid(String::from_str(line)));
            },
        };
        if toks.len() >= 3 {
            proof {
                assert(toks.deep_view()[2] == toks@[2]@);
                assert(toks.deep_view()[2].len() > 0);
            }
            let c = toks[2].as_str().get_char(0);
            if c != '#' {
                return Some(ParsedLine::Invalid(String::from_str(line)));
            }
        }
        Some(ParsedLine::Entry(HostsEntry { ip, host }))
    }

    /// Classifies one raw line. The line must be one on which the scan
    /// completes; on every other input the classification is defined by
    /// the explicit branches alone.
    pub fn parse_line(line: &str) -> (r: ParsedLine)
        requires
            spec_scan_completes(line@),
        ensures
            r@ == spec_classify(line@),
            r.wf(),
            line@.len() == 0 ==> r@ == LineModel::Empty,
            line@.len() > 0 && line@[0] == ' ' ==> r@ == LineModel::Invalid(line@),
            line@.len() > 0 && line@[0] == '#' ==> r@ == LineModel::Comment(line@),
    {
        match Self::try_parse_line(line) {
            Some(p) => p,
            None => vstd::pervasive::unreached(),
        }
    }
}

/// Classification looks only at the first character and at the
/// non-empty tokens: two lines with the same tokens classify alike, so
/// repeated interior spaces and trailing spaces do not change the
/// result.
pub proof fn lemma_classify_token_insensitive(s1: Seq<char>, s2: Seq<char>)
    requires
        s1.len() > 0 && s1[0] != ' ' && s1[0] != '#',
        s2.len() > 0 && s2[0] != ' ' && s2[0] != '#',
        spec_tokens(s1) == spec_tokens(s2),
    ensures
        spec_scan_completes(s1) == spec_scan_completes(s2),
        spec_classify(s1) matches LineModel::Entry(e) ==> spec_classify(s2) == LineModel::Entry(e),
        spec_classify(s1) is Invalid ==> spec_classify(s2) == LineModel::Invalid(s2),
{
}

/// After a valid address and hostname, one further token is tolerated
/// exactly when it begins with the inline comment marker `#`; any other
/// token makes the line invalid.
pub proof fn lemma_inline_comment(s: Seq<char>)
    requires
        s.len() > 0 && s[0] != ' ' && s[0] != '#',
        spec_tokens(s).len() >= 3,
        spec_ipv4_accepts(spec_tokens(s)[0]),
        spec_hostname_ok(spec_trim_end(spec_tokens(s)[1])),
    ensures
        spec_tokens(s)[2][0] == '#' ==> spec_classify(s) is Entry,
        spec_tokens(s)[2][0] != '#' ==> spec_classify(s) == LineModel::Invalid(s),
{
}

/// Round-trip stability of the file model: rendering any well-formed
/// classified line back to text and classifying that text yields the
/// same record again — comment, blank and invalid lines verbatim, an
/// entry line as an equivalent entry.
pub proof fn lemma_line_render_roundtrip(p: ParsedLine, s: Seq<char>)
    requires
        p.wf(),
        spec_scan_completes(s),
        p@ == spec_classify(s),
    ensures
        spec_scan_completes(spec_render_line(p@)),
        spec_classify(spec_render_line(p@)) == p@,
{
    match p@ {
        LineModel::Entry(e) => {
            lemma_render_classify_roundtrip(e);
        },
        LineModel::Comment(t) => {
            assert(t == s && s.len() > 0 && s[0] == '#');
        },
        LineModel::Invalid(t) => {
            assert(t == s);
        },
        LineModel::Empty => {
            assert(spec_render_line(p@).len() == 0);
        },
    }
}

/// Round trip: rendering a valid entry and classifying the rendered
/// line yields exactly that entry again.
pub proof fn lemma_render_classify_roundtrip(e: EntryModel)
    requires
        spec_canonical_host(e.host),
    ensures
        spec_scan_completes(spec_render_entry(e)),
        spec_classify(spec_render_entry(e)) == LineModel::Entry(e),
{
    let t0 = spec_addr_text(e.ip);
    let h = e.host;
    let s = spec_render_entry(e);
    lemma_addr_text_roundtrip(e.ip);
    lemma_canon_text_no_whitespace(h);
    assert(s =~= t0 + seq![' '] + h);
    assert(forall|i: int| 0 <= i < t0.len() ==> #[trigger] t0[i] != ' ');
    lemma_split_sepfree_prefix(t0, h, ' ');
    lemma_split_sepfree(h, ' ');
    let p = seq![t0, h];
    assert(spec_split(s, ' ') =~= p);
    assert(t0.len() > 0 && h.len() > 0);
    assert(p.drop_first() =~= seq![h]);
    assert(seq![h].drop_first() =~= Seq::<Seq<char>>::empty());
    assert(spec_drop_empty(Seq::<Seq<char>>::empty()) =~= Seq::<Seq<char>>::empty());
    assert(spec_drop_empty(seq![h]) =~= seq![h]);
    assert(spec_drop_empty(p) =~= p);
    assert(spec_tokens(s) == p);
    assert(s[0] == t0[0]);
    assert(spec_is_digit(s[0]));
    assert(s[0] != ' ' && s[0] != '#');
    assert(spec_tokens(s)[0] == t0);
    assert(spec_tokens(s)[1] == h);
    assert(spec_tokens(s).len() == 2);
    assert(spec_trim_end(h) == h);
    assert(spec_hostname_ok(h));
    assert(spec_ipv4_addr(t0) == e.ip);
    assert(fqdn_canon(h) == h);
    assert(spec_classify(s) == LineModel::Entry(EntryModel { ip: e.ip, host: h }));
}

} // verus!
