//! The file model: the ordered sequence of classified lines of a hosts
//! file, together with the display width of the widest entry address.
use vstd::prelude::*;
use vstd::string::*;

use self::parse::{LineModel, ParsedLine};
use crate::address::spec_addr_text;
use crate::hostsentry::{EntryModel, HostsEntry};

pub mod add;
pub mod parse;
pub mod read;
pub mod remove;
pub mod write;

verus! {

/// An ordered sequence of classified lines, in original file order,
/// plus the textual length of the widest entry address.
#[derive(Debug, PartialEq, Eq)]
pub struct HostsFile {
    pub lines: Vec<ParsedLine>,
    pub ip_width: usize,
}

/// The entry records of a line sequence, in order.
pub open spec fn spec_entries(models: Seq<LineModel>) -> Seq<EntryModel>
    decreases models.len(),
{
    if models.len() == 0 {
        Seq::<EntryModel>::empty()
    } else {
        spec_entries(models.drop_last()) + (match models.last() {
            LineModel::Entry(e) => seq![e],
            _ => Seq::<EntryModel>::empty(),
        })
    }
}

/// The raw texts of the invalid lines of a line sequence, in order.
pub open spec fn spec_invalids(models: Seq<LineModel>) -> Seq<Seq<char>>
    decreases models.len(),
{
    if models.len() == 0 {
        Seq::<Seq<char>>::empty()
    } else {
        spec_invalids(models.drop_last()) + (match models.last() {
            LineModel::Invalid(t) => seq![t],
            _ => Seq::<Seq<char>>::empty(),
        })
    }
}

/// The textual length of the widest entry address of a line sequence,
/// or zero if there is no entry.
pub open spec fn spec_width(models: Seq<LineModel>) -> int
    decreases models.len(),
{
    if models.len() == 0 {
        0
    } else {
        let w = spec_width(models.drop_last());
        let lw = match models.last() {
            LineModel::Entry(e) => spec_addr_text(e.ip).len() as int,
            _ => 0,
        };
        if lw > w {
            lw
        } else {
            w
        }
    }
}

impl HostsFile {
    /// The entry records of the file, in file order.
    pub fn entries(&self) -> (r: Vec<&HostsEntry>)
        ensures
            r.deep_view() == spec_entries(self.lines.deep_view()),
    {
        let ghost dv = self.lines.deep_view();
        let mut entries: Vec<&HostsEntry> = Vec::new();
        let mut i: usize = 0;
        let n: usize = self.lines.len();
        proof {
            assert(dv.take(0) =~= Seq::<LineModel>::empty());
            assert(entries.deep_view() =~= spec_entries(dv.take(0)));
        }
        while i < n
            invariant
                0 <= i <= n == self.lines.len(),
                dv == self.lines.deep_view(),
                entries.deep_view() == spec_entries(dv.take(i as int)),
            decreases n - i,
        {
            proof {
                assert(dv.take(i + 1).drop_last() =~= dv.take(i as int));
                assert(dv.take(i + 1).last() == dv[i as int]);
            }
            let ghost old_dv = entries.deep_view();
            match &self.lines[i] {
                ParsedLine::Entry(entry) => {
                    entries.push(entry);
                    proof {
                        assert(entries.deep_view() =~= old_dv.push(entry.deep_view()));
                        assert(entries.deep_view() =~= spec_entries(dv.take(i + 1)));
                    }
                },
                ParsedLine::Comment(_) => {
                    proof {
                        assert(spec_entries(dv.take(i + 1)) =~= old_dv);
                    }
                },
                ParsedLine::Invalid(_) => {
                    proof {
                        assert(spec_entries(dv.take(i + 1)) =~= old_dv);
                    }
                },
                ParsedLine::Empty => {
                    proof {
                        assert(spec_entries(dv.take(i + 1)) =~= old_dv);
                    }
                },
            }
            i = i + 1;
        }
        proof {
            assert(dv.take(n as int) =~= dv);
        }
        entries
    }

    /// The raw texts of the invalid lines of the file, in file order.
    pub fn invalids(&self) -> (r: Vec<&String>)
        ensures
            r.deep_view() == spec_invalids(self.lines.deep_view()),
    {
        let ghost dv = self.lines.deep_view();
        let mut invalids: Vec<&String> = Vec::new();
        let mut i: usize = 0;
        let n: usize = self.lines.len();
        proof {
            assert(dv.take(0) =~= Seq::<LineModel>::empty());
            assert(invalids.deep_view() =~= spec_invalids(dv.take(0)));
        }
        while i < n
            invariant
                0 <= i <= n == self.lines.len(),
                dv == self.lines.deep_view(),
                invalids.deep_view() == spec_invalids(dv.take(i as int)),
            decreases n - i,
        {
            proof {
                assert(dv.take(i + 1).drop_last() =~= dv.take(i as int));
                assert(dv.take(i + 1).last() == dv[i as int]);
            }
            let ghost old_dv = invalids.deep_view();
            match &self.lines[i] {
                ParsedLine::Invalid(line) => {
                    invalids.push(line);
                    proof {
                        assert(invalids.deep_view() =~= old_dv.push(line.deep_view()));
                        assert(invalids.deep_view() =~= spec_invalids(dv.take(i + 1)));
                    }
                },
                ParsedLine::Entry(_) => {
                    proof {
                        assert(spec_invalids(dv.take(i + 1)) =~= old_dv);
                    }
                },
                ParsedLine::Comment(_) => {
                    proof {
                        assert(spec_invalids(dv.take(i + 1)) =~= old_dv);
                    }
                },
                ParsedLine::Empty => {
                    proof {
                        assert(spec_invalids(dv.take(i + 1)) =~= old_dv);
                    }
                },
            }
            i = i + 1;
        }
        proof {
            assert(dv.take(n as int) =~= dv);
        }
        invalids
    }

    /// The number of entry records of the file.
    pub fn entries_count(&self) -> (r: usize)
        ensures
            r == spec_entries(self.lines.deep_view()).len(),
    {
        let ghost dv = self.lines.deep_view();
        let mut count: usize = 0;
        let mut i: usize = 0;
        let n: usize = self.lines.len();
        proof {
            assert(dv.take(0) =~= Seq::<LineModel>::empty());
        }
        while i < n
            invariant
                0 <= i <= n == self.lines.len(),
                dv == self.lines.deep_view(),
                count == spec_entries(dv.take(i as int)).len(),
                count <= i,
            decreases n - i,
        {
            proof {
                assert(dv.take(i + 1).drop_last() =~= dv.take(i as int));
                assert(dv.take(i + 1).last() == dv[i as int]);
            }
            match &self.lines[i] {
                ParsedLine::Entry(_) => {
                    count = count + 1;
                },
                ParsedLine::Comment(_) => {},
                ParsedLine::Invalid(_) => {},
                ParsedLine::Empty => {},
            }
            i = i + 1;
        }
        proof {
            assert(dv.take(n as int) =~= dv);
        }
        count
    }

    /// The number of invalid lines of the file.
    pub fn invalids_count(&self) -> (r: usize)
        ensures
            r == spec_invalids(self.lines.deep_view()).len(),
    {
        let ghost dv = self.lines.deep_view();
        let mut count: usize = 0;
        let mut i: usize = 0;
        let n: usize = self.lines.len();
        proof {
            assert(dv.take(0) =~= Seq::<LineModel>::empty());
        }
        while i < n
            invariant
                0 <= i <= n == self.lines.len(),
                dv == self.lines.deep_view(),
                count == spec_invalids(dv.take(i as int)).len(),
                count <= i,
            decreases n - i,
        {
            proof {
                assert(dv.take(i + 1).drop_last() =~= dv.take(i as int));
                assert(dv.take(i + 1).last() == dv[i as int]);
            }
            match &self.lines[i] {
                ParsedLine::Invalid(_) => {
                    count = count + 1;
                },
                ParsedLine::Entry(_) => {},
                ParsedLine::Comment(_) => {},
                ParsedLine::Empty => {},
            }
            i = i + 1;
        }
        proof {
            assert(dv.take(n as int) =~= dv);
        }
        count
    }
}

} // verus!
