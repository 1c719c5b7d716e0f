//! Character-level text helpers: splitting a line at a separator,
//! dropping empty pieces, trimming trailing whitespace, and
//! lexicographic comparison of character sequences.
use vstd::prelude::*;
use vstd::string::*;

verus! {

/// Splits `s` at every occurrence of `sep`, keeping empty pieces,
/// exactly as iterating `str::split` would yield them.
pub open spec fn spec_split(s: Seq<char>, sep: char) -> Seq<Seq<char>>
    decreases s.len(),
{
    if s.len() == 0 {
        seq![Seq::<char>::empty()]
    } else {
        let rest = spec_split(s.drop_first(), sep);
        if s[0] == sep {
            seq![Seq::<char>::empty()] + rest
        } else {
            seq![seq![s[0]] + rest[0]] + rest.drop_first()
        }
    }
}

/// The pieces that remain after removing the empty ones.
pub open spec fn spec_drop_empty(parts: Seq<Seq<char>>) -> Seq<Seq<char>>
    decreases parts.len(),
{
    if parts.len() == 0 {
        Seq::<Seq<char>>::empty()
    } else if parts[0].len() == 0 {
        spec_drop_empty(parts.drop_first())
    } else {
        seq![parts[0]] + spec_drop_empty(parts.drop_first())
    }
}

/// The non-empty tokens of a line, split at single space characters.
pub open spec fn spec_tokens(s: Seq<char>) -> Seq<Seq<char>> {
    spec_drop_empty(spec_split(s, ' '))
}

pub proof fn lemma_split_len(s: Seq<char>, sep: char)
    ensures
        spec_split(s, sep).len() >= 1,
    decreases s.len(),
{
    if s.len() > 0 {
        lemma_split_len(s.drop_first(), sep);
    }
}

pub proof fn lemma_drop_empty_all_nonempty(parts: Seq<Seq<char>>)
    ensures
        forall|k: int|
            0 <= k < spec_drop_empty(parts).len() ==> #[trigger] spec_drop_empty(parts)[k].len()
                > 0,
    decreases parts.len(),
{
    if parts.len() > 0 {
        lemma_drop_empty_all_nonempty(parts.drop_first());
        let d = spec_drop_empty(parts.drop_first());
        if parts[0].len() > 0 {
            assert forall|k: int|
                0 <= k < spec_drop_empty(parts).len() implies #[trigger] spec_drop_empty(
                parts,
            )[k].len() > 0 by {
                if k > 0 {
                    assert(spec_drop_empty(parts)[k] == d[k - 1]);
                }
            }
        }
    }
}

/// Splitting a text that begins with a separator-free piece followed by the
/// separator yields that piece and then the split of the remainder.
pub proof fn lemma_split_sepfree_prefix(t: Seq<char>, rest: Seq<char>, sep: char)
    requires
        forall|i: int| 0 <= i < t.len() ==> t[i] != sep,
    ensures
        spec_split(t + seq![sep] + rest, sep) == seq![t] + spec_split(rest, sep),
    decreases t.len(),
{
    let s = t + seq![sep] + rest;
    lemma_split_len(rest, sep);
    if t.len() == 0 {
        assert(s =~= seq![sep] + rest);
        assert(s[0] == sep);
        assert(s.drop_first() =~= rest);
        assert(t =~= Seq::<char>::empty());
        assert(seq![t] =~= seq![Seq::<char>::empty()]);
    } else {
        assert(s[0] == t[0]);
        assert(s.drop_first() =~= t.drop_first() + seq![sep] + rest);
        lemma_split_sepfree_prefix(t.drop_first(), rest, sep);
        let r = spec_split(s.drop_first(), sep);
        assert(r == seq![t.drop_first()] + spec_split(rest, sep));
        assert(r[0] == t.drop_first());
        assert(r.drop_first() =~= spec_split(rest, sep));
        assert(seq![s[0]] + r[0] =~= t);
        assert(spec_split(s, sep) =~= seq![t] + spec_split(rest, sep));
    }
}

/// Splitting a separator-free text yields that text as the single piece.
pub proof fn lemma_split_sepfree(t: Seq<char>, sep: char)
    requires
        forall|i: int| 0 <= i < t.len() ==> t[i] != sep,
    ensures
        spec_split(t, sep) == seq![t],
    decreases t.len(),
{
    if t.len() == 0 {
        assert(t =~= Seq::<char>::empty());
        assert(spec_split(t, sep) =~= seq![t]);
    } else {
        lemma_split_sepfree(t.drop_first(), sep);
        let r = spec_split(t.drop_first(), sep);
        assert(r[0] == t.drop_first());
        assert(r.drop_first() =~= Seq::<Seq<char>>::empty());
        assert(seq![t[0]] + r[0] =~= t);
        assert(spec_split(t, sep) =~= seq![t]);
    }
}

/// Splits `s` at every occurrence of `sep`, keeping empty pieces.
pub fn split_str(s: &str, sep: char) -> (parts: Vec<String>)
    ensures
        parts.deep_view() == spec_split(s@, sep),
{
    let n: usize = s.unicode_len();
    let mut parts: Vec<String> = Vec::new();
    let mut start: usize = 0;
    let mut i: usize = 0;
    proof {
        lemma_split_len(s@, sep);
        let r = spec_split(s@.skip(0), sep);
        assert(s@.skip(0) =~= s@);
        assert(s@.subrange(0, 0) + r[0] =~= r[0]);
        assert(seq![r[0]] + r.drop_first() =~= r);
        assert(parts.deep_view() =~= Seq::<Seq<char>>::empty());
    }
    while i < n
        invariant
            0 <= start <= i <= n == s@.len(),
            forall|k: int| start <= k < i ==> s@[k] != sep,
            spec_split(s@, sep) == parts.deep_view() + ({
                let r = spec_split(s@.skip(i as int), sep);
                seq![s@.subrange(start as int, i as int) + r[0]] + r.drop_first()
            }),
        decreases n - i,
    {
        proof {
            lemma_split_len(s@.skip(i + 1), sep);
            assert(s@.skip(i as int).drop_first() =~= s@.skip(i + 1));
        }
        if s.get_char(i) == sep {
            let piece = String::from_str(s.substring_char(start, i));
            let ghost old_parts = parts.deep_view();
            parts.push(piece);
            proof {
                assert(parts.deep_view() =~= old_parts.push(s@.subrange(
                    start as int,
                    i as int,
                )));
                let r = spec_split(s@.skip(i as int), sep);
                let r2 = spec_split(s@.skip(i + 1), sep);
                assert(r == seq![Seq::<char>::empty()] + r2);
                assert(r[0] =~= Seq::<char>::empty());
                assert(r.drop_first() =~= r2);
                assert(s@.subrange(start as int, i as int) + r[0] =~= s@.subrange(
                    start as int,
                    i as int,
                ));
                assert(old_parts + (seq![s@.subrange(start as int, i as int) + r[0]]
                    + r.drop_first()) =~= parts.deep_view() + (seq![s@.subrange(i + 1, i + 1)
                    + r2[0]] + r2.drop_first()));
            }
            start = i + 1;
        } else {
            proof {
                let r = spec_split(s@.skip(i as int), sep);
                let r2 = spec_split(s@.skip(i + 1), sep);
                assert(r == seq![seq![s@.skip(i as int)[0]] + r2[0]] + r2.drop_first());
                assert(r.drop_first() =~= r2.drop_first());
                assert(s@.subrange(start as int, i as int) + r[0] =~= s@.subrange(
                    start as int,
                    i + 1,
                ) + r2[0]);
                assert(parts.deep_view() + (seq![s@.subrange(start as int, i as int) + r[0]]
                    + r.drop_first()) =~= parts.deep_view() + (seq![s@.subrange(start as int, i + 1)
                    + r2[0]] + r2.drop_first()));
            }
        }
        i = i + 1;
    }
    let last = String::from_str(s.substring_char(start, n));
    let ghost old_parts = parts.deep_view();
    parts.push(last);
    proof {
        let r = spec_split(s@.skip(n as int), sep);
        assert(s@.skip(n as int) =~= Seq::<char>::empty());
        assert(r == seq![Seq::<char>::empty()]);
        assert(s@.subrange(start as int, n as int) + r[0] =~= s@.subrange(start as int, n as int));
        assert(r.drop_first() =~= Seq::<Seq<char>>::empty());
        assert(parts.deep_view() =~= old_parts.push(s@.subrange(start as int, n as int)));
        assert(parts.deep_view() =~= spec_split(s@, sep));
    }
    parts
}

/// The non-empty tokens of a line, split at single space characters.
pub fn tokens_of(s: &str) -> (toks: Vec<String>)
    ensures
        toks.deep_view() == spec_tokens(s@),
        forall|k: int| 0 <= k < toks.deep_view().len() ==> #[trigger] toks.deep_view()[k].len() > 0,
{
    let parts = split_str(s, ' ');
    let ghost pv = parts.deep_view();
    let mut toks: Vec<String> = Vec::new();
    let mut i: usize = 0;
    let n: usize = parts.len();
    proof {
        assert(pv.skip(0) =~= pv);
    }
    while i < n
        invariant
            0 <= i <= n == parts.len(),
            pv == parts.deep_view(),
            spec_drop_empty(pv) == toks.deep_view() + spec_drop_empty(pv.skip(i as int)),
        decreases n - i,
    {
        proof {
            assert(pv.skip(i as int).drop_first() =~= pv.skip(i + 1));
            assert(pv.skip(i as int)[0] == pv[i as int]);
        }
        if parts[i].as_str().is_empty() {
            proof {
                assert(spec_drop_empty(pv.skip(i as int)) == spec_drop_empty(pv.skip(i + 1)));
            }
        } else {
            let piece = parts[i].clone();
            let ghost old_toks = toks.deep_view();
            toks.push(piece);
            proof {
                assert(toks.deep_view() =~= old_toks.push(pv[i as int]));
                assert(spec_drop_empty(pv.skip(i as int)) == seq![pv[i as int]] + spec_drop_empty(
                    pv.skip(i + 1),
                ));
                assert(old_toks + (seq![pv[i as int]] + spec_drop_empty(pv.skip(i + 1)))
                    =~= toks.deep_view() + spec_drop_empty(pv.skip(i + 1)));
            }
        }
        i = i + 1;
    }
    proof {
        assert(pv.skip(n as int) =~= Seq::<Seq<char>>::empty());
        assert(spec_drop_empty(pv.skip(n as int)) =~= Seq::<Seq<char>>::empty());
        assert(toks.deep_view() =~= spec_drop_empty(pv));
        lemma_drop_empty_all_nonempty(pv);
    }
    toks
}

/// Whether `s` contains the character `c`.
pub open spec fn spec_contains_char(s: Seq<char>, c: char) -> bool {
    exists|i: int| 0 <= i < s.len() && s[i] == c
}

/// Reports whether `s` contains the character `c`.
pub fn contains_char(s: &str, c: char) -> (b: bool)
    ensures
        b == spec_contains_char(s@, c),
{
    let n: usize = s.unicode_len();
    let mut i: usize = 0;
    while i < n
        invariant
            0 <= i <= n == s@.len(),
            forall|k: int| 0 <= k < i ==> s@[k] != c,
        decreases n - i,
    {
        if s.get_char(i) == c {
            return true;
        }
        i = i + 1;
    }
    false
}

/// The characters that `char::is_whitespace` reports as white space
/// (the Unicode `White_Space` property).
pub open spec fn spec_is_whitespace(c: char) -> bool {
    let u = c as u32;
    u == 0x9 || u == 0xA || u == 0xB || u == 0xC || u == 0xD || u == 0x20 || u == 0x85 || u == 0xA0
        || u == 0x1680 || (0x2000 <= u && u <= 0x200A) || u == 0x2028 || u == 0x2029 || u == 0x202F
        || u == 0x205F || u == 0x3000
}

pub fn is_whitespace_char(c: char) -> (b: bool)
    ensures
        b == spec_is_whitespace(c),
{
    let u = c as u32;
    u == 0x9 || u == 0xA || u == 0xB || u == 0xC || u == 0xD || u == 0x20 || u == 0x85 || u == 0xA0
        || u == 0x1680 || (0x2000 <= u && u <= 0x200A) || u == 0x2028 || u == 0x2029 || u == 0x202F
        || u == 0x205F || u == 0x3000
}

/// `t` without its trailing white-space characters.
pub open spec fn spec_trim_end(t: Seq<char>) -> Seq<char>
    decreases t.len(),
{
    if t.len() == 0 {
        t
    } else if spec_is_whitespace(t.last()) {
        spec_trim_end(t.drop_last())
    } else {
        t
    }
}

/// Removes trailing white-space characters, as `str::trim_end` does.
pub fn trim_end_str<'a>(s: &'a str) -> (r: &'a str)
    ensures
        r@ == spec_trim_end(s@),
{
    let mut k: usize = s.unicode_len();
    proof {
        assert(s@.take(k as int) =~= s@);
    }
    while k > 0 && is_whitespace_char(s.get_char(k - 1))
        invariant
            0 <= k <= s@.len(),
            spec_trim_end(s@) == spec_trim_end(s@.take(k as int)),
        decreases k,
    {
        proof {
            assert(s@.take(k as int).last() == s@[k - 1]);
            assert(s@.take(k as int).drop_last() =~= s@.take(k - 1));
        }
        k = k - 1;
    }
    proof {
        if k > 0 {
            assert(!spec_is_whitespace(s@.take(k as int).last()));
        }
        assert(spec_trim_end(s@.take(k as int)) == s@.take(k as int));
    }
    let r = s.substring_char(0, k);
    proof {
        assert(r@ =~= s@.take(k as int));
    }
    r
}

/// Strict lexicographic order on character sequences, by code point.
pub open spec fn spec_text_lt(a: Seq<char>, b: Seq<char>) -> bool
    decreases a.len() + b.len(),
{
    if b.len() == 0 {
        false
    } else if a.len() == 0 {
        true
    } else if (a[0] as u32) < (b[0] as u32) {
        true
    } else if (a[0] as u32) > (b[0] as u32) {
        false
    } else {
        spec_text_lt(a.drop_first(), b.drop_first())
    }
}

/// Compares two texts lexicographically, by code point.
pub fn text_lt(a: &str, b: &str) -> (r: bool)
    ensures
        r == spec_text_lt(a@, b@),
{
    let an: usize = a.unicode_len();
    let bn: usize = b.unicode_len();
    let mut i: usize = 0;
    proof {
        assert(a@.skip(0) =~= a@);
        assert(b@.skip(0) =~= b@);
    }
    while i < an && i < bn
        invariant
            0 <= i <= an == a@.len(),
            i <= bn == b@.len(),
            spec_text_lt(a@, b@) == spec_text_lt(a@.skip(i as int), b@.skip(i as int)),
        decreases an - i,
    {
        let ca = a.get_char(i);
        let cb = b.get_char(i);
        proof {
            assert(a@.skip(i as int)[0] == a@[i as int]);
            assert(b@.skip(i as int)[0] == b@[i as int]);
            assert(a@.skip(i as int).drop_first() =~= a@.skip(i + 1));
            assert(b@.skip(i as int).drop_first() =~= b@.skip(i + 1));
        }
        if (ca as u32) < (cb as u32) {
            return true;
        }
        if (ca as u32) > (cb as u32) {
            return false;
        }
        i = i + 1;
    }
    proof {
        if i >= an {
            assert(a@.skip(i as int) =~= Seq::<char>::empty());
        } else {
            assert(b@.skip(i as int) =~= Seq::<char>::empty());
        }
    }
    i >= an && i < bn
}

} // verus!
