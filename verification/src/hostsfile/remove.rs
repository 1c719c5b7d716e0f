//! Removing mappings: the target text is read as an IPv4 address or,
//! failing that, as a hostname, and every entry record matching it is
//! dropped; all other lines are kept in order.
use vstd::prelude::*;
use vstd::string::*;

use super::parse::{LineModel, ParsedLine};
use super::HostsFile;
use crate::address::{spec_ipv4_accepts, spec_ipv4_addr, Address};
use crate::hostname::{fqdn_accepts, fqdn_canon, fqdn_canonical};

verus! {

/// The reported outcome of a removal: how many records were dropped,
/// matched by address or by hostname, or that the target parses as
/// neither.
#[derive(Debug, Clone, Copy, PartialEq, Eq, Structural)]
pub enum RemoveResult {
    RemovedByIp(u8),
    RemovedByHost(u8),
    Invalid,
}

/// Whether removing `target` drops this record: an entry whose address
/// equals the target when the target parses as an address (the address
/// reading takes precedence), else an entry whose hostname equals the
/// target's canonical form when it parses as a domain name.
pub open spec fn spec_drops(l: LineModel, target: Seq<char>) -> bool {
    if spec_ipv4_accepts(target) {
        l matches LineModel::Entry(le) && le.ip == spec_ipv4_addr(target)
    } else if fqdn_accepts(target) {
        l matches LineModel::Entry(le) && le.host == fqdn_canon(target)
    } else {
        false
    }
}

/// The line sequence after the removal, in the original order.
pub open spec fn spec_remove(lines: Seq<LineModel>, target: Seq<char>) -> Seq<LineModel>
    decreases lines.len(),
{
    if lines.len() == 0 {
        Seq::<LineModel>::empty()
    } else {
        spec_remove(lines.drop_last(), target) + (if spec_drops(lines.last(), target) {
            Seq::<LineModel>::empty()
        } else {
            seq![lines.last()]
        })
    }
}

/// How many records the removal drops.
pub open spec fn spec_removed_count(lines: Seq<LineModel>, target: Seq<char>) -> int
    decreases lines.len(),
{
    if lines.len() == 0 {
        0int
    } else {
        spec_removed_count(lines.drop_last(), target) + (if spec_drops(lines.last(), target) {
            1int
        } else {
            0int
        })
    }
}

/// What `remove_from_lines` guarantees of the new sequence and the
/// reported outcome for a given target.
pub open spec fn spec_remove_post(
    old_lines: Seq<LineModel>,
    new_lines: Seq<LineModel>,
    target: Seq<char>,
    r: RemoveResult,
) -> bool {
    &&& (!spec_ipv4_accepts(target) && !fqdn_accepts(target) ==> r == RemoveResult::Invalid
        && new_lines == old_lines)
    &&& (spec_ipv4_accepts(target) ==> new_lines == spec_remove(old_lines, target) && r
        == RemoveResult::RemovedByIp(spec_removed_count(old_lines, target) as u8))
    &&& (!spec_ipv4_accepts(target) && fqdn_accepts(target) ==> new_lines == spec_remove(
        old_lines,
        target,
    ) && r == RemoveResult::RemovedByHost(spec_removed_count(old_lines, target) as u8))
}

/// The count over a prefix never exceeds the count over the whole
/// sequence.
pub proof fn lemma_removed_count_monotone(lines: Seq<LineModel>, target: Seq<char>, k: int)
    requires
        0 <= k <= lines.len(),
    ensures
        spec_removed_count(lines.take(k), target) <= spec_removed_count(lines, target),
        spec_removed_count(lines, target) <= lines.len(),
    decreases lines.len(),
{
    if lines.len() > 0 {
        lemma_removed_count_monotone(lines.drop_last(), target, if k < lines.len() {
            k
        } else {
            lines.len() - 1
        });
        if k < lines.len() {
            assert(lines.take(k) =~= lines.drop_last().take(k));
        } else {
            assert(lines.take(k) =~= lines);
        }
    } else {
        assert(lines.take(k) =~= lines);
    }
}

/// When no record matches the target, the removal changes nothing.
pub proof fn lemma_remove_nothing(lines: Seq<LineModel>, target: Seq<char>)
    requires
        forall|i: int| 0 <= i < lines.len() ==> !spec_drops(#[trigger] lines[i], target),
    ensures
        spec_removed_count(lines, target) == 0,
        spec_remove(lines, target) == lines,
    decreases lines.len(),
{
    if lines.len() > 0 {
        assert forall|i: int|
            0 <= i < lines.drop_last().len() implies !spec_drops(
            #[trigger] lines.drop_last()[i],
            target,
        ) by {
            assert(lines.drop_last()[i] == lines[i]);
        }
        lemma_remove_nothing(lines.drop_last(), target);
        assert(!spec_drops(lines.last(), target));
        assert(spec_remove(lines, target) =~= lines);
    } else {
        assert(spec_remove(lines, target) =~= lines);
    }
}

/// Removing a target that exactly one record matches drops that record
/// alone, keeps every other record in its order, and counts one.
pub proof fn lemma_remove_single_match(lines: Seq<LineModel>, target: Seq<char>, j: int)
    requires
        0 <= j < lines.len(),
        spec_drops(lines[j], target),
        forall|i: int| 0 <= i < lines.len() && i != j ==> !spec_drops(#[trigger] lines[i], target),
    ensures
        spec_removed_count(lines, target) == 1,
        spec_remove(lines, target) == lines.take(j) + lines.skip(j + 1),
    decreases lines.len(),
{
    if j == lines.len() - 1 {
        assert forall|i: int|
            0 <= i < lines.drop_last().len() implies !spec_drops(
            #[trigger] lines.drop_last()[i],
            target,
        ) by {
            assert(lines.drop_last()[i] == lines[i]);
        }
        lemma_remove_nothing(lines.drop_last(), target);
        assert(lines.take(j) =~= lines.drop_last());
        assert(lines.skip(j + 1) =~= Seq::<LineModel>::empty());
        assert(spec_remove(lines, target) =~= lines.take(j) + lines.skip(j + 1));
    } else {
        assert(!spec_drops(lines.last(), target));
        assert(lines.drop_last()[j] == lines[j]);
        assert forall|i: int|
            0 <= i < lines.drop_last().len() && i != j implies !spec_drops(
            #[trigger] lines.drop_last()[i],
            target,
        ) by {
            assert(lines.drop_last()[i] == lines[i]);
        }
        lemma_remove_single_match(lines.drop_last(), target, j);
        assert(lines.drop_last().take(j) =~= lines.take(j));
        assert(lines.drop_last().skip(j + 1) + seq![lines.last()] =~= lines.skip(j + 1));
        assert(spec_remove(lines, target) =~= lines.take(j) + lines.skip(j + 1));
    }
}

impl HostsFile {
    /// Drops every entry record that matches the target, reading the
    /// target as an address first and as a hostname otherwise; a target
    /// that is neither leaves the sequence unchanged. The number of
    /// matching records must fit the reported count.
    pub fn remove_from_lines(lines: &mut Vec<ParsedLine>, entry: &str) -> (r: RemoveResult)
        requires
            spec_removed_count(old(lines).deep_view(), entry@) <= u8::MAX,
        ensures
            spec_remove_post(old(lines).deep_view(), final(lines).deep_view(), entry@, r),
    {
        let ghost odv = lines.deep_view();
        let parsed_ip = Address::parse(entry);
        let parsed_host = fqdn_canonical(entry);
        if parsed_ip.is_none() && parsed_host.is_none() {
            return RemoveResult::Invalid;
        }
        let mut result: Vec<ParsedLine> = Vec::new();
        let mut removed: u8 = 0;
        let mut i: usize = 0;
        let n: usize = lines.len();
        proof {
            assert(odv.take(0) =~= Seq::<LineModel>::empty());
            assert(result.deep_view() =~= spec_remove(odv.take(0), entry@));
        }
        while i < n
            invariant
                0 <= i <= n == lines.len(),
                odv == lines.deep_view(),
                spec_removed_count(odv, entry@) <= u8::MAX,
                parsed_ip is Some <==> spec_ipv4_accepts(entry@),
                parsed_ip matches Some(a) ==> a == spec_ipv4_addr(entry@),
                parsed_host is Some <==> fqdn_accepts(entry@),
                parsed_host matches Some(c) ==> c@ == fqdn_canon(entry@),
                result.deep_view() == spec_remove(odv.take(i as int), entry@),
                removed == spec_removed_count(odv.take(i as int), entry@),
            decreases n - i,
        {
            proof {
                assert(odv.take(i + 1).drop_last() =~= odv.take(i as int));
                assert(odv.take(i + 1).last() == odv[i as int]);
                lemma_removed_count_monotone(odv, entry@, i + 1);
                lemma_removed_count_monotone(odv.take(i + 1), entry@, i as int);
                assert(odv.take(i + 1).take(i as int) =~= odv.take(i as int));
            }
            let drop_line: bool = match &lines[i] {
                ParsedLine::Entry(line_entry) => {
                    match &parsed_ip {
                        Some(ip) => line_entry.ip == *ip,
                        None => {
                            match &parsed_host {
                                Some(host) => line_entry.host.text == *host,
                                None => false,
                            }
                        },
                    }
                },
                ParsedLine::Comment(_) => false,
                ParsedLine::Invalid(_) => false,
                ParsedLine::Empty => false,
            };
            proof {
                assert(drop_line == spec_drops(odv[i as int], entry@));
            }
            let ghost prev = result.deep_view();
            if drop_line {
                removed = removed + 1;
                proof {
                    assert(result.deep_view() =~= spec_remove(odv.take(i + 1), entry@));
                }
            } else {
                let kept = lines[i].clone();
                result.push(kept);
                proof {
                    assert(result.deep_view() =~= prev.push(odv[i as int]));
                    assert(result.deep_view() =~= spec_remove(odv.take(i + 1), entry@));
                }
            }
            i = i + 1;
        }
        proof {
            assert(odv.take(n as int) =~= odv);
        }
        *lines = result;
        if parsed_ip.is_some() {
            RemoveResult::RemovedByIp(removed)
        } else {
            RemoveResult::RemovedByHost(removed)
        }
    }

    /// Counts the records the target would drop before removing them,
    /// and declines when the count would not fit the reported outcome.
    pub fn remove_from_lines_checked(lines: &mut Vec<ParsedLine>, entry: &str) -> (r: Option<
        RemoveResult,
    >)
        ensures
            r is None ==> spec_removed_count(old(lines).deep_view(), entry@) > u8::MAX
                && final(lines).deep_view() == old(lines).deep_view(),
            r matches Some(res) ==> spec_remove_post(
                old(lines).deep_view(),
                final(lines).deep_view(),
                entry@,
                res,
            ),
    {
        let ghost odv = lines.deep_view();
        let parsed_ip = Address::parse(entry);
        let parsed_host = fqdn_canonical(entry);
        let mut count: usize = 0;
        let mut i: usize = 0;
        let n: usize = lines.len();
        proof {
            assert(odv.take(0) =~= Seq::<LineModel>::empty());
        }
        while i < n
            invariant
                0 <= i <= n == lines.len(),
                odv == lines.deep_view(),
                parsed_ip is Some <==> spec_ipv4_accepts(entry@),
                parsed_ip matches Some(a) ==> a == spec_ipv4_addr(entry@),
                parsed_host is Some <==> fqdn_accepts(entry@),
                parsed_host matches Some(c) ==> c@ == fqdn_canon(entry@),
                count == spec_removed_count(odv.take(i as int), entry@),
                count <= i,
            decreases n - i,
        {
            proof {
                assert(odv.take(i + 1).drop_last() =~= odv.take(i as int));
                assert(odv.take(i + 1).last() == odv[i as int]);
            }
            let drop_line: bool = match &lines[i] {
                ParsedLine::Entry(line_entry) => {
                    match &parsed_ip {
                        Some(ip) => line_entry.ip == *ip,
                        None => {
                            match &parsed_host {
                                Some(host) => line_entry.host.text == *host,
                                None => false,
                            }
                        },
                    }
                },
                ParsedLine::Comment(_) => false,
                ParsedLine::Invalid(_) => false,
                ParsedLine::Empty => false,
            };
            proof {
                assert(drop_line == spec_drops(odv[i as int], entry@));
            }
            if drop_line {
                count = count + 1;
            }
            i = i + 1;
        }
        proof {
            assert(odv.take(n as int) =~= odv);
        }
        if count > 255 {
            return None;
        }
        Some(Self::remove_from_lines(lines, entry))
    }
}

} // verus!
