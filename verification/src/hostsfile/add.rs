//! Adding or updating one mapping: a single left-to-right pass that
//! overwrites the address of every record carrying the target hostname,
//! or appends a new record when no line carries it.
use vstd::prelude::*;
use vstd::string::*;

use super::parse::{LineModel, ParsedLine};
use super::HostsFile;
use crate::address::Address;
use crate::hostsentry::{EntryModel, HostsEntry};

verus! {

/// The reported outcome of an add: a new record was appended, an
/// existing record's address was overwritten (carrying the address that
/// was overwritten), or an identical record already existed.
#[derive(Debug, Clone, Copy, PartialEq, Eq, Structural)]
pub enum AddResult {
    Added,
    Updated(Address),
    Skipped,
}

/// Whether this record is an entry carrying the target's hostname.
pub open spec fn spec_host_match(l: LineModel, e: EntryModel) -> bool {
    l matches LineModel::Entry(le) && le.host == e.host
}

/// The line sequence after the pass: every entry record carrying the
/// target's hostname now carries the target's address; every other
/// record is unchanged.
pub open spec fn spec_add_map(lines: Seq<LineModel>, e: EntryModel) -> Seq<LineModel> {
    lines.map_values(
        |l: LineModel|
            if spec_host_match(l, e) {
                LineModel::Entry(EntryModel { ip: e.ip, host: e.host })
            } else {
                l
            },
    )
}

/// The reported outcome: decided by the last record carrying the
/// target's hostname — `Skipped` if its address already equals the
/// target's, else `Updated` with its previous address — and `Added`
/// when no record carries the hostname.
pub open spec fn spec_add_outcome(lines: Seq<LineModel>, e: EntryModel) -> AddResult
    decreases lines.len(),
{
    if lines.len() == 0 {
        AddResult::Added
    } else if spec_host_match(lines.last(), e) {
        if lines.last()->Entry_0.ip == e.ip {
            AddResult::Skipped
        } else {
            AddResult::Updated(lines.last()->Entry_0.ip)
        }
    } else {
        spec_add_outcome(lines.drop_last(), e)
    }
}

/// The outcome is `Added` exactly when no record carries the target's
/// hostname.
pub proof fn lemma_add_outcome_added(lines: Seq<LineModel>, e: EntryModel)
    ensures
        spec_add_outcome(lines, e) is Added <==> (forall|i: int|
            0 <= i < lines.len() ==> !spec_host_match(#[trigger] lines[i], e)),
    decreases lines.len(),
{
    if lines.len() > 0 {
        lemma_add_outcome_added(lines.drop_last(), e);
        if !spec_host_match(lines.last(), e) {
            if spec_add_outcome(lines, e) is Added {
                assert forall|i: int|
                    0 <= i < lines.len() implies !spec_host_match(#[trigger] lines[i], e) by {
                    if i < lines.len() - 1 {
                        assert(lines[i] == lines.drop_last()[i]);
                    }
                }
            } else {
                let i = choose|i: int|
                    0 <= i < lines.drop_last().len() && spec_host_match(
                        #[trigger] lines.drop_last()[i],
                        e,
                    );
                assert(spec_host_match(lines[i], e));
            }
        }
    }
}

/// When no record carries the target's hostname, the pass changes
/// nothing.
pub proof fn lemma_add_map_identity(lines: Seq<LineModel>, e: EntryModel)
    requires
        forall|i: int| 0 <= i < lines.len() ==> !spec_host_match(#[trigger] lines[i], e),
    ensures
        spec_add_map(lines, e) == lines,
{
    assert(spec_add_map(lines, e) =~= lines);
}

/// Adding when no line carries the target's hostname appends exactly
/// one new entry record, keeps every existing record unchanged, and
/// reports `Added`.
pub proof fn lemma_add_no_match(lines: Seq<LineModel>, e: EntryModel)
    requires
        forall|i: int| 0 <= i < lines.len() ==> !spec_host_match(#[trigger] lines[i], e),
    ensures
        spec_add_outcome(lines, e) is Added,
        spec_add_map(lines, e) == lines,
{
    lemma_add_outcome_added(lines, e);
    lemma_add_map_identity(lines, e);
}

/// Adding an entry that already stands in the sequence — every record
/// carrying its hostname also carries its address — reports `Skipped`
/// and leaves the sequence unchanged.
pub proof fn lemma_add_exact_duplicate(lines: Seq<LineModel>, e: EntryModel)
    requires
        exists|i: int| 0 <= i < lines.len() && spec_host_match(#[trigger] lines[i], e),
        forall|i: int|
            0 <= i < lines.len() && spec_host_match(#[trigger] lines[i], e)
                ==> lines[i]->Entry_0.ip == e.ip,
    ensures
        spec_add_outcome(lines, e) == AddResult::Skipped,
        spec_add_map(lines, e) == lines,
    decreases lines.len(),
{
    assert forall|i: int|
        0 <= i < lines.len() implies #[trigger] spec_add_map(lines, e)[i] == lines[i] by {
        if spec_host_match(lines[i], e) {
            assert(lines[i] matches LineModel::Entry(le) && le == (EntryModel {
                ip: e.ip,
                host: e.host,
            }));
        }
    }
    assert(spec_add_map(lines, e) =~= lines);
    if spec_host_match(lines.last(), e) {
    } else {
        let i = choose|i: int| 0 <= i < lines.len() && spec_host_match(#[trigger] lines[i], e);
        assert(i < lines.len() - 1);
        assert(spec_host_match(lines.drop_last()[i], e));
        assert forall|k: int|
            0 <= k < lines.drop_last().len() && spec_host_match(
                #[trigger] lines.drop_last()[k],
                e,
            ) implies lines.drop_last()[k]->Entry_0.ip == e.ip by {
            assert(lines.drop_last()[k] == lines[k]);
        }
        lemma_add_exact_duplicate(lines.drop_last(), e);
    }
}

/// Adding an entry whose hostname already stands with a different
/// address overwrites addresses in place: the sequence keeps its length
/// and every record without that hostname, and the outcome is `Updated`
/// carrying the previous address of the last record with that hostname.
pub proof fn lemma_add_overwrites(lines: Seq<LineModel>, e: EntryModel, j: int)
    requires
        0 <= j < lines.len(),
        spec_host_match(lines[j], e),
        forall|i: int| j < i < lines.len() ==> !spec_host_match(#[trigger] lines[i], e),
        lines[j]->Entry_0.ip != e.ip,
    ensures
        spec_add_outcome(lines, e) == AddResult::Updated(lines[j]->Entry_0.ip),
        spec_add_map(lines, e).len() == lines.len(),
        spec_add_map(lines, e)[j] == LineModel::Entry(EntryModel { ip: e.ip, host: e.host }),
        forall|i: int|
            0 <= i < lines.len() && !spec_host_match(#[trigger] lines[i], e) ==> spec_add_map(
                lines,
                e,
            )[i] == lines[i],
    decreases lines.len(),
{
    assert(lines[j] matches LineModel::Entry(le) && le.host == e.host);
    if j == lines.len() - 1 {
        assert(spec_host_match(lines.last(), e));
    } else {
        assert(!spec_host_match(lines.last(), e));
        assert(lines.drop_last()[j] == lines[j]);
        assert forall|i: int|
            j < i < lines.drop_last().len() implies !spec_host_match(
            #[trigger] lines.drop_last()[i],
            e,
        ) by {
            assert(lines.drop_last()[i] == lines[i]);
        }
        lemma_add_overwrites(lines.drop_last(), e, j);
    }
}

impl HostsFile {
    /// One left-to-right pass with no early exit: every entry record
    /// carrying the target's hostname gets the target's address; the
    /// outcome reflects the last such record, and when none exists a
    /// new record is appended and the outcome is `Added`.
    pub fn add_to_lines(lines: &mut Vec<ParsedLine>, entry: &HostsEntry) -> (r: AddResult)
        ensures
            r == spec_add_outcome(old(lines).deep_view(), entry.deep_view()),
            final(lines).deep_view() == if r is Added {
                spec_add_map(old(lines).deep_view(), entry.deep_view()).push(
                    LineModel::Entry(entry.deep_view()),
                )
            } else {
                spec_add_map(old(lines).deep_view(), entry.deep_view())
            },
            r is Added ==> final(lines).deep_view() == old(lines).deep_view().push(
                LineModel::Entry(entry.deep_view()),
            ),
    {
        let ghost odv = lines.deep_view();
        let ghost e = entry.deep_view();
        let mut result: Vec<ParsedLine> = Vec::new();
        let mut action = AddResult::Added;
        let mut i: usize = 0;
        let n: usize = lines.len();
        proof {
            assert(odv.take(0) =~= Seq::<LineModel>::empty());
            assert(result.deep_view() =~= spec_add_map(odv.take(0), e));
        }
        while i < n
            invariant
                0 <= i <= n == lines.len(),
                odv == lines.deep_view(),
                e == entry.deep_view(),
                result.deep_view() == spec_add_map(odv.take(i as int), e),
                action == spec_add_outcome(odv.take(i as int), e),
            decreases n - i,
        {
            proof {
                assert(odv.take(i + 1).drop_last() =~= odv.take(i as int));
                assert(odv.take(i + 1).last() == odv[i as int]);
            }
            let ghost prev = result.deep_view();
            let line_is_match: bool = match &lines[i] {
                ParsedLine::Entry(line_entry) => line_entry.host.text == entry.host.text,
                ParsedLine::Comment(_) => false,
                ParsedLine::Invalid(_) => false,
                ParsedLine::Empty => false,
            };
            if line_is_match {
                match &lines[i] {
                    ParsedLine::Entry(line_entry) => {
                        if line_entry.ip == entry.ip {
                            action = AddResult::Skipped;
                            let kept = lines[i].clone();
                            result.push(kept);
                            proof {
                                assert(odv[i as int] == LineModel::Entry(
                                    EntryModel { ip: e.ip, host: e.host },
                                ));
                                assert(result.deep_view() =~= prev.push(odv[i as int]));
                                assert(result.deep_view() =~= spec_add_map(odv.take(i + 1), e));
                            }
                        } else {
                            action = AddResult::Updated(line_entry.ip);
                            let overwritten = ParsedLine::Entry(
                                HostsEntry { ip: entry.ip, host: line_entry.host.clone() },
                            );
                            result.push(overwritten);
                            proof {
                                assert(result.deep_view() =~= prev.push(
                                    LineModel::Entry(EntryModel { ip: e.ip, host: e.host }),
                                ));
                                assert(result.deep_view() =~= spec_add_map(odv.take(i + 1), e));
                            }
                        }
                    },
                    ParsedLine::Comment(_) => {},
                    ParsedLine::Invalid(_) => {},
                    ParsedLine::Empty => {},
                }
            } else {
                let kept = lines[i].clone();
                result.push(kept);
                proof {
                    assert(result.deep_view() =~= prev.push(odv[i as int]));
                    assert(result.deep_view() =~= spec_add_map(odv.take(i + 1), e));
                }
            }
            i = i + 1;
        }
        proof {
            assert(odv.take(n as int) =~= odv);
        }
        *lines = result;
        match action {
            AddResult::Added => {
                let ghost before = lines.deep_view();
                lines.push(ParsedLine::Entry(entry.clone()));
                proof {
                    assert(lines.deep_view() =~= before.push(LineModel::Entry(e)));
                    lemma_add_outcome_added(odv, e);
                    lemma_add_map_identity(odv, e);
                }
            },
            AddResult::Updated(_) => {},
            AddResult::Skipped => {},
        }
        action
    }
}

} // verus!
