//! The report of the `info` command.

use crate::text::{natural_text, push_natural};
use crate::types::{head_views, name_or_empty, Head, HeadView};
use vstd::prelude::*;
use vstd::string::StringExecFns;

verus! {

/// The lines that describe one display; an ignored one is marked.
pub open spec fn head_entry(head: HeadView, ignored: bool) -> Seq<char> {
    "* "@ + name_or_empty(head) + (if ignored {
        " [ignored]"@
    } else {
        Seq::empty()
    }) + "\n  Make: "@ + head.identity.make + "\n  Model: "@ + head.identity.model
        + "\n  Serial: "@ + head.identity.serial + "\n"@
}

/// The lines that describe the displays, one after the other.
pub open spec fn head_entries(heads: Seq<HeadView>, ignored: bool) -> Seq<char>
    decreases heads.len(),
{
    if heads.len() == 0 {
        Seq::empty()
    } else {
        head_entries(heads.drop_last(), ignored) + head_entry(heads.last(), ignored)
    }
}

/// The report: the number of connected displays, the active ones, the
/// ignored ones, and the path of the snapshot for the active ones.
pub open spec fn info_report_spec(
    heads: Seq<HeadView>,
    ignored_heads: Seq<HeadView>,
    path: Seq<char>,
) -> Seq<char> {
    natural_text(heads.len() + ignored_heads.len()) + " connected heads:\n"@ + head_entries(
        heads,
        false,
    ) + head_entries(ignored_heads, true) + "Configuration path: "@ + path + "\n"@
}

/// Appends the lines that describe one display.
fn push_head_entry(out: &mut String, head: &Head, ignored: bool)
    ensures
        final(out)@ == old(out)@ + head_entry(head@, ignored),
{
    out.append("* ");
    match &head.name {
        Some(name) => {
            out.append(name.as_str());
        },
        None => {},
    }
    if ignored {
        out.append(" [ignored]");
    }
    out.append("\n  Make: ");
    out.append(head.make.as_str());
    out.append("\n  Model: ");
    out.append(head.model.as_str());
    out.append("\n  Serial: ");
    out.append(head.serial.as_str());
    out.append("\n");
    proof {
        assert(final(out)@ =~= old(out)@ + head_entry(head@, ignored));
    }
}

/// Appends the lines that describe the displays.
fn push_head_entries(out: &mut String, heads: &[Head], ignored: bool)
    ensures
        final(out)@ == old(out)@ + head_entries(head_views(heads@), ignored),
{
    let n = heads.len();
    let mut i: usize = 0;
    proof {
        assert(out@ =~= old(out)@ + head_entries(head_views(heads@.take(0)), ignored));
    }
    while i < n
        invariant
            i <= n,
            n == heads.len(),
            out@ == old(out)@ + head_entries(head_views(heads@.take(i as int)), ignored),
        decreases n - i,
    {
        push_head_entry(out, &heads[i], ignored);
        proof {
            let grown = head_views(heads@.take(i + 1));
            assert(grown.drop_last() =~= head_views(heads@.take(i as int)));
            assert(grown.last() == heads@[i as int]@);
            assert(out@ =~= old(out)@ + head_entries(grown, ignored));
        }
        i += 1;
    }
    proof {
        assert(heads@.take(n as int) =~= heads@);
    }
}

/// The report of the `info` command for the active displays `heads`, the
/// ignored displays and the path of the snapshot.
pub fn info_report(heads: &[Head], ignored_heads: &[Head], path: &str) -> (report: String)
    ensures
        report@ == info_report_spec(head_views(heads@), head_views(ignored_heads@), path@),
{
    let mut out = String::new();
    let connected: u128 = heads.len() as u128 + ignored_heads.len() as u128;
    push_natural(&mut out, connected);
    out.append(" connected heads:\n");
    push_head_entries(&mut out, heads, false);
    push_head_entries(&mut out, ignored_heads, true);
    out.append("Configuration path: ");
    out.append(path);
    out.append("\n");
    proof {
        assert(out@ =~= info_report_spec(
            head_views(heads@),
            head_views(ignored_heads@),
            path@,
        ));
    }
    out
}

} // verus!
