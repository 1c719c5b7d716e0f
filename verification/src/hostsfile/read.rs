//! Building the file model: every raw line is classified in order, and
//! the width of the widest entry address is tracked across the scan.
use vstd::prelude::*;
use vstd::string::*;

use super::parse::{spec_classify, spec_scan_completes, LineModel, ParsedLine};
use super::{spec_width, HostsFile};

verus! {

impl HostsFile {
    /// Classifies every raw line in order, returning `None` when the
    /// classifier's scan cannot complete on some line.
    pub fn try_read_from_lines(lines: &Vec<String>) -> (r: Option<HostsFile>)
        ensures
            r is Some <==> (forall|i: int|
                0 <= i < lines.deep_view().len() ==> spec_scan_completes(
                    #[trigger] lines.deep_view()[i],
                )),
            r matches Some(hf) ==> hf.lines.deep_view() == lines.deep_view().map_values(
                |l: Seq<char>| spec_classify(l),
            ) && hf.ip_width == spec_width(hf.lines.deep_view()) && (forall|i: int|
                0 <= i < hf.lines@.len() ==> (#[trigger] hf.lines@[i]).wf()),
    {
        let ghost ldv = lines.deep_view();
        let mut parsed_lines: Vec<ParsedLine> = Vec::new();
        let mut ip_width: usize = 0;
        let mut i: usize = 0;
        let n: usize = lines.len();
        proof {
            assert(parsed_lines.deep_view() =~= ldv.take(0).map_values(
                |l: Seq<char>| spec_classify(l),
            ));
        }
        while i < n
            invariant
                0 <= i <= n == lines.len(),
                ldv == lines.deep_view(),
                forall|k: int| 0 <= k < i ==> spec_scan_completes(#[trigger] ldv[k]),
                parsed_lines.deep_view() == ldv.take(i as int).map_values(
                    |l: Seq<char>| spec_classify(l),
                ),
                ip_width == spec_width(parsed_lines.deep_view()),
                forall|k: int|
                    0 <= k < parsed_lines@.len() ==> (#[trigger] parsed_lines@[k]).wf(),
            decreases n - i,
        {
            proof {
                assert(ldv[i as int] == lines@[i as int]@);
            }
            let parsed_line = match Self::try_parse_line(lines[i].as_str()) {
                Some(p) => p,
                None => {
                    return None;
                },
            };
            let ghost prev = parsed_lines.deep_view();
            match &parsed_line {
                ParsedLine::Entry(entry) => {
                    let entry_ip_width = entry.ip.text_len();
                    if entry_ip_width > ip_width {
                        ip_width = entry_ip_width;
                    }
                },
                ParsedLine::Comment(_) => {},
                ParsedLine::Invalid(_) => {},
                ParsedLine::Empty => {},
            }
            parsed_lines.push(parsed_line);
            proof {
                assert(parsed_lines.deep_view() =~= prev.push(spec_classify(ldv[i as int])));
                assert(parsed_lines.deep_view().drop_last() =~= prev);
                assert(parsed_lines.deep_view() =~= ldv.take(i + 1).map_values(
                    |l: Seq<char>| spec_classify(l),
                ));
            }
            i = i + 1;
        }
        proof {
            assert(ldv.take(n as int) =~= ldv);
        }
        Some(HostsFile { lines: parsed_lines, ip_width })
    }

    /// Builds the file model from raw lines on which the classifier's
    /// scan completes.
    pub fn read_from_lines(lines: &Vec<String>) -> (r: HostsFile)
        requires
            forall|i: int|
                0 <= i < lines.deep_view().len() ==> spec_scan_completes(
                    #[trigger] lines.deep_view()[i],
                ),
        ensures
            r.lines.deep_view() == lines.deep_view().map_values(|l: Seq<char>| spec_classify(l)),
            r.ip_width == spec_width(r.lines.deep_view()),
            forall|i: int| 0 <= i < r.lines@.len() ==> (#[trigger] r.lines@[i]).wf(),
    {
        match Self::try_read_from_lines(lines) {
            Some(hf) => hf,
            None => vstd::pervasive::unreached(),
        }
    }
}

} // verus!
