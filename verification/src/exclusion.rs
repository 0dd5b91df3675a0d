//! Leaving displays out of a run: a display whose lid indicator reads
//! "closed" takes no part in fingerprinting or matching.

use crate::sorting::{canonical_sort, sort_heads};
use crate::text::same_text;
use crate::types::{head_views, text_views, Head, HeadView};
use vstd::prelude::*;

verus! {

/// Whether a byte is ASCII whitespace: space, tab, line feed, form feed or
/// carriage return.
pub open spec fn is_ascii_space(b: u8) -> bool {
    b == 0x20 || b == 0x09 || b == 0x0a || b == 0x0c || b == 0x0d
}

/// The bytes without the ASCII whitespace in front.
pub open spec fn trim_start(bytes: Seq<u8>) -> Seq<u8>
    decreases bytes.len(),
{
    if bytes.len() > 0 && is_ascii_space(bytes.first()) {
        trim_start(bytes.drop_first())
    } else {
        bytes
    }
}

/// The bytes without the ASCII whitespace at the end.
pub open spec fn trim_end(bytes: Seq<u8>) -> Seq<u8>
    decreases bytes.len(),
{
    if bytes.len() > 0 && is_ascii_space(bytes.last()) {
        trim_end(bytes.drop_last())
    } else {
        bytes
    }
}

/// The bytes without the ASCII whitespace on both sides.
pub open spec fn trim_ascii(bytes: Seq<u8>) -> Seq<u8> {
    trim_end(trim_start(bytes))
}

/// Whether `bytes` ends with `suffix`.
pub open spec fn ends_with(bytes: Seq<u8>, suffix: Seq<u8>) -> bool {
    suffix.len() <= bytes.len() && bytes.skip(bytes.len() - suffix.len()) == suffix
}

/// The word `closed` in ASCII.
pub open spec fn closed_word() -> Seq<u8> {
    seq![0x63u8, 0x6cu8, 0x6fu8, 0x73u8, 0x65u8, 0x64u8]
}

/// Whether the content of a lid indicator says that the lid is closed: apart
/// from whitespace on both sides, it ends with the word `closed`.
pub open spec fn lid_closed_spec(contents: Seq<u8>) -> bool {
    ends_with(trim_ascii(contents), closed_word())
}

/// Whether a byte is ASCII whitespace.
pub fn ascii_space(b: u8) -> (r: bool)
    ensures
        r == is_ascii_space(b),
{
    b == 0x20 || b == 0x09 || b == 0x0a || b == 0x0c || b == 0x0d
}

/// Whether the content of a lid indicator says that the lid is closed.
pub fn lid_closed(contents: &[u8]) -> (closed: bool)
    ensures
        closed == lid_closed_spec(contents@),
{
    let n = contents.len();
    let mut start: usize = 0;
    proof {
        assert(contents@.skip(0) =~= contents@);
    }
    while start < n && ascii_space(contents[start])
        invariant
            start <= n,
            n == contents.len(),
            trim_start(contents@) == trim_start(contents@.skip(start as int)),
        decreases n - start,
    {
        proof {
            let rest = contents@.skip(start as int);
            assert(rest.first() == contents@[start as int]);
            assert(rest.drop_first() =~= contents@.skip(start + 1));
        }
        start += 1;
    }
    proof {
        let rest = contents@.skip(start as int);
        if start < n {
            assert(rest.first() == contents@[start as int]);
        }
        assert(trim_start(contents@) == rest);
        assert(rest =~= contents@.subrange(start as int, n as int));
    }
    let mut end: usize = n;
    while end > start && ascii_space(contents[end - 1])
        invariant
            start <= end <= n,
            n == contents.len(),
            trim_ascii(contents@) == trim_end(contents@.subrange(start as int, end as int)),
        decreases end,
    {
        proof {
            let part = contents@.subrange(start as int, end as int);
            assert(part.last() == contents@[end - 1]);
            assert(part.drop_last() =~= contents@.subrange(start as int, end - 1));
        }
        end -= 1;
    }
    let ghost trimmed = contents@.subrange(start as int, end as int);
    proof {
        if end > start {
            assert(trimmed.last() == contents@[end - 1]);
        }
        assert(trim_ascii(contents@) == trimmed);
    }
    if end - start < 6 {
        return false;
    }
    let closed = contents[end - 6] == 0x63 && contents[end - 5] == 0x6c && contents[end - 4]
        == 0x6f && contents[end - 3] == 0x73 && contents[end - 2] == 0x65 && contents[end - 1]
        == 0x64;
    proof {
        let tail = trimmed.skip(trimmed.len() - 6);
        assert(tail.len() == 6);
        assert(forall|k: int| 0 <= k < 6 ==> tail[k] == contents@[end - 6 + k]);
        if closed {
            assert(tail =~= closed_word());
        } else {
            assert(closed_word()[0] == 0x63 && closed_word()[1] == 0x6c && closed_word()[2] == 0x6f
                && closed_word()[3] == 0x73 && closed_word()[4] == 0x65 && closed_word()[5]
                == 0x64);
        }
    }
    closed
}

/// A lid-exclusion rule together with what was read from its indicator:
/// `contents` is absent where the indicator could not be read.
#[derive(Clone, Debug, PartialEq, Eq)]
pub struct LidIndicator {
    pub head: String,
    pub contents: Option<Vec<u8>>,
}

impl LidIndicator {
    /// Whether the indicator excludes its display: it was read and says that
    /// the lid is closed. An indicator that could not be read excludes
    /// nothing.
    pub open spec fn excludes(&self) -> bool {
        match self.contents {
            Some(contents) => lid_closed_spec(contents@),
            None => false,
        }
    }

    /// Whether the indicator excludes its display.
    pub fn is_closed(&self) -> (closed: bool)
        ensures
            closed == self.excludes(),
    {
        match &self.contents {
            Some(contents) => lid_closed(contents.as_slice()),
            None => false,
        }
    }
}

/// The names of the displays that the indicators exclude, in the order of
/// the indicators.
pub open spec fn ignored_head_names_spec(indicators: Seq<LidIndicator>) -> Seq<Seq<char>>
    decreases indicators.len(),
{
    if indicators.len() == 0 {
        Seq::empty()
    } else {
        let front = ignored_head_names_spec(indicators.drop_last());
        if indicators.last().excludes() {
            front.push(indicators.last().head@)
        } else {
            front
        }
    }
}

/// The names of the displays to leave out of this run.
pub fn ignored_head_names(indicators: &[LidIndicator]) -> (names: Vec<String>)
    ensures
        text_views(names@) == ignored_head_names_spec(indicators@),
{
    let mut names: Vec<String> = Vec::new();
    let n = indicators.len();
    let mut i: usize = 0;
    proof {
        assert(text_views(names@) =~= ignored_head_names_spec(indicators@.take(0)));
    }
    while i < n
        invariant
            i <= n,
            n == indicators.len(),
            text_views(names@) == ignored_head_names_spec(indicators@.take(i as int)),
        decreases n - i,
    {
        proof {
            let grown = indicators@.take(i + 1);
            assert(grown.drop_last() =~= indicators@.take(i as int));
            assert(grown.last() == indicators@[i as int]);
        }
        if indicators[i].is_closed() {
            let ghost before = names@;
            names.push(indicators[i].head.clone());
            proof {
                assert(text_views(names@) =~= text_views(before).push(indicators@[i as int].head@));
            }
        }
        i += 1;
    }
    proof {
        assert(indicators@.take(n as int) =~= indicators@);
    }
    names
}

/// Whether a display is left out: it has a name and the name is excluded.
pub open spec fn is_ignored(head: HeadView, excluded: Seq<Seq<char>>) -> bool {
    match head.name {
        Some(name) => excluded.contains(name),
        None => false,
    }
}

/// The displays that take part, in the order of enumeration.
pub open spec fn active_part(heads: Seq<HeadView>, excluded: Seq<Seq<char>>) -> Seq<HeadView> {
    heads.filter(|h: HeadView| !is_ignored(h, excluded))
}

/// The displays that are left out, in the order of enumeration.
pub open spec fn ignored_part(heads: Seq<HeadView>, excluded: Seq<Seq<char>>) -> Seq<HeadView> {
    heads.filter(|h: HeadView| is_ignored(h, excluded))
}

/// Whether `name` is one of `names`.
pub fn contains_name(names: &[String], name: &str) -> (found: bool)
    ensures
        found == text_views(names@).contains(name@),
{
    let n = names.len();
    let mut i: usize = 0;
    while i < n
        invariant
            i <= n,
            n == names.len(),
            forall|k: int| 0 <= k < i ==> text_views(names@)[k] != name@,
        decreases n - i,
    {
        if same_text(names[i].as_str(), name) {
            proof {
                assert(text_views(names@)[i as int] == name@);
            }
            return true;
        }
        i += 1;
    }
    false
}

/// Whether a display is left out of this run.
pub fn head_is_ignored(head: &Head, ignored_head_names: &[String]) -> (ignored: bool)
    ensures
        ignored == is_ignored(head@, text_views(ignored_head_names@)),
{
    match &head.name {
        Some(name) => contains_name(ignored_head_names, name.as_str()),
        None => false,
    }
}

/// Parts the enumerated displays into those that take part and those that
/// are left out. Each part keeps the order of enumeration.
pub fn partition_heads(all_heads: &[Head], ignored_head_names: &[String]) -> (parts: (
    Vec<Head>,
    Vec<Head>,
))
    ensures
        head_views(parts.0@) == active_part(
            head_views(all_heads@),
            text_views(ignored_head_names@),
        ),
        head_views(parts.1@) == ignored_part(
            head_views(all_heads@),
            text_views(ignored_head_names@),
        ),
{
    let ghost excluded = text_views(ignored_head_names@);
    let ghost all = head_views(all_heads@);
    let mut active: Vec<Head> = Vec::new();
    let mut ignored: Vec<Head> = Vec::new();
    let n = all_heads.len();
    let mut i: usize = 0;
    proof {
        reveal(Seq::filter);
        assert(all.take(0) =~= Seq::<HeadView>::empty());
        assert(head_views(active@) =~= active_part(all.take(0), excluded));
        assert(head_views(ignored@) =~= ignored_part(all.take(0), excluded));
    }
    while i < n
        invariant
            i <= n,
            n == all_heads.len(),
            all == head_views(all_heads@),
            excluded == text_views(ignored_head_names@),
            head_views(active@) == active_part(all.take(i as int), excluded),
            head_views(ignored@) == ignored_part(all.take(i as int), excluded),
        decreases n - i,
    {
        let ghost active_before = active@;
        let ghost ignored_before = ignored@;
        let head = all_heads[i].clone();
        proof {
            assert(all.take(i + 1) =~= all.take(i as int).push(all[i as int]));
            all.take(i as int).lemma_filter_push(
                all[i as int],
                |h: HeadView| !is_ignored(h, excluded),
            );
            all.take(i as int).lemma_filter_push(
                all[i as int],
                |h: HeadView| is_ignored(h, excluded),
            );
        }
        if head_is_ignored(&head, ignored_head_names) {
            ignored.push(head);
            proof {
                assert(head_views(ignored@) =~= head_views(ignored_before).push(all[i as int]));
            }
        } else {
            active.push(head);
            proof {
                assert(head_views(active@) =~= head_views(active_before).push(all[i as int]));
            }
        }
        i += 1;
    }
    proof {
        assert(all.take(n as int) =~= all);
    }
    (active, ignored)
}

/// Prepares the enumerated displays for a run: those that take part, in the
/// canonical order, and those that are left out, in the order of
/// enumeration.
pub fn select_heads(all_heads: &[Head], ignored_head_names: &[String]) -> (parts: (
    Vec<Head>,
    Vec<Head>,
))
    ensures
        head_views(parts.0@) == canonical_sort(
            active_part(head_views(all_heads@), text_views(ignored_head_names@)),
        ),
        head_views(parts.1@) == ignored_part(
            head_views(all_heads@),
            text_views(ignored_head_names@),
        ),
{
    let (mut active, ignored) = partition_heads(all_heads, ignored_head_names);
    sort_heads(&mut active);
    (active, ignored)
}

/// No display that takes part is one to leave out, and every display that
/// is left out is one to leave out: a display under an excluded name never
/// reaches fingerprinting or matching.
pub proof fn lemma_partition_separates(heads: Seq<HeadView>, excluded: Seq<Seq<char>>)
    ensures
        forall|i: int|
            0 <= i < active_part(heads, excluded).len() ==> !is_ignored(
                #[trigger] active_part(heads, excluded)[i],
                excluded,
            ),
        forall|i: int|
            0 <= i < ignored_part(heads, excluded).len() ==> is_ignored(
                #[trigger] ignored_part(heads, excluded)[i],
                excluded,
            ),
        active_part(heads, excluded).len() + ignored_part(heads, excluded).len() == heads.len(),
{
    let keep = |h: HeadView| !is_ignored(h, excluded);
    let drop = |h: HeadView| is_ignored(h, excluded);
    assert forall|i: int| 0 <= i < heads.filter(keep).len() implies !is_ignored(
        #[trigger] heads.filter(keep)[i],
        excluded,
    ) by {
        heads.lemma_filter_pred(keep, i);
    }
    assert forall|i: int| 0 <= i < heads.filter(drop).len() implies is_ignored(
        #[trigger] heads.filter(drop)[i],
        excluded,
    ) by {
        heads.lemma_filter_pred(drop, i);
    }
    lemma_partition_len(heads, excluded);
}

/// Every display falls into exactly one of the two parts.
proof fn lemma_partition_len(heads: Seq<HeadView>, excluded: Seq<Seq<char>>)
    ensures
        active_part(heads, excluded).len() + ignored_part(heads, excluded).len() == heads.len(),
    decreases heads.len(),
{
    reveal(Seq::filter);
    if heads.len() > 0 {
        lemma_partition_len(heads.drop_last(), excluded);
    }
}

} // verus!
