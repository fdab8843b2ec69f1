//! The report: one line of text for each node.
//!
//! A line reads `<name>: <own> own bytes, <total> total bytes` and ends in a
//! line feed. Where a node's accounting is inconsistent the word
//! `inconsistent` stands in place of the number of own bytes.

use crate::accounting::{read_usage, usage_of_all, usage_views, NodeUsage, UsageView};
use crate::error::SaveError;
use crate::node::NodeView;
use crate::packed_int::packed_int_at;
use crate::save::{save_nodes, tree_start};
use vstd::prelude::*;
use vstd::string::StringExecFns;

verus! {

/// The character that writes the digit `d`.
pub open spec fn digit(d: int) -> char {
    if d == 0 {
        '0'
    } else if d == 1 {
        '1'
    } else if d == 2 {
        '2'
    } else if d == 3 {
        '3'
    } else if d == 4 {
        '4'
    } else if d == 5 {
        '5'
    } else if d == 6 {
        '6'
    } else if d == 7 {
        '7'
    } else if d == 8 {
        '8'
    } else {
        '9'
    }
}

/// `n` in decimal, without sign or leading zeros.
pub open spec fn decimal(n: nat) -> Seq<char>
    decreases n,
{
    if n < 10 {
        seq![digit(n as int)]
    } else {
        decimal(n / 10).push(digit((n % 10) as int))
    }
}

/// What the report says in place of own bytes that are not a number.
pub open spec fn own_bytes_text(own_bytes: Result<int, SaveError>) -> Seq<char> {
    match own_bytes {
        Ok(own) => decimal(own as nat),
        Err(_) => "inconsistent"@,
    }
}

/// The line of the report for one node.
pub open spec fn usage_line(usage: UsageView) -> Seq<char> {
    usage.name + ": "@ + own_bytes_text(usage.own_bytes) + " own bytes, "@ + decimal(
        usage.total_bytes,
    ) + " total bytes\n"@
}

/// The lines of all nodes, one after the other in the order given.
pub open spec fn report_text(usage: Seq<UsageView>) -> Seq<char>
    decreases usage.len(),
{
    if usage.len() == 0 {
        Seq::empty()
    } else {
        report_text(usage.drop_last()) + usage_line(usage.last())
    }
}

/// What is reported of a buffer that does not decode.
pub open spec fn failure_text() -> Seq<char> {
    "Could not load save"@
}

/// What is reported of a buffer: the lines of its nodes, or the failure text.
pub open spec fn load_report_text(buf: Seq<u8>) -> Seq<char> {
    match save_nodes(buf) {
        Ok(nodes) => report_text(usage_of_all(nodes)),
        Err(_) => failure_text(),
    }
}

fn digit_str(d: u32) -> (text: &'static str)
    requires
        d < 10,
    ensures
        text@ == seq![digit(d as int)],
{
    proof {
        reveal_strlit("0");
        reveal_strlit("1");
        reveal_strlit("2");
        reveal_strlit("3");
        reveal_strlit("4");
        reveal_strlit("5");
        reveal_strlit("6");
        reveal_strlit("7");
        reveal_strlit("8");
        reveal_strlit("9");
    }
    let text = if d == 0 {
        "0"
    } else if d == 1 {
        "1"
    } else if d == 2 {
        "2"
    } else if d == 3 {
        "3"
    } else if d == 4 {
        "4"
    } else if d == 5 {
        "5"
    } else if d == 6 {
        "6"
    } else if d == 7 {
        "7"
    } else if d == 8 {
        "8"
    } else {
        "9"
    };
    assert(text@ =~= seq![digit(d as int)]);
    text
}

/// Appends `n` in decimal to `out`.
pub fn push_decimal(out: &mut String, n: u32)
    ensures
        final(out)@ == old(out)@ + decimal(n as nat),
    decreases n,
{
    if n >= 10 {
        push_decimal(out, n / 10);
    }
    out.append(digit_str(n % 10));
    assert(out@ =~= old(out)@ + decimal(n as nat));
}

/// Appends the line of one node to `out`.
pub fn push_line(out: &mut String, entry: &NodeUsage)
    ensures
        final(out)@ == old(out)@ + usage_line(entry@),
{
    out.append(entry.name.as_str());
    out.append(": ");
    match entry.own_bytes {
        Ok(own) => push_decimal(out, own),
        Err(_) => out.append("inconsistent"),
    }
    out.append(" own bytes, ");
    push_decimal(out, entry.total_bytes);
    out.append(" total bytes\n");
    assert(out@ =~= old(out)@ + usage_line(entry@));
}

/// Renders the usages as text, one line each, in the order given.
pub fn render_report(usage: &Vec<NodeUsage>) -> (text: String)
    ensures
        text@ == report_text(usage_views(usage@)),
{
    let mut text = String::new();
    let mut idx: usize = 0;
    while idx < usage.len()
        invariant
            idx <= usage@.len(),
            text@ == report_text(usage_views(usage@).take(idx as int)),
        decreases usage@.len() - idx,
    {
        let ghost seen = usage_views(usage@).take(idx as int + 1);
        assert(seen.drop_last() =~= usage_views(usage@).take(idx as int));
        assert(seen.last() == usage@[idx as int]@);
        push_line(&mut text, &usage[idx]);
        idx = idx + 1;
    }
    assert(usage_views(usage@).take(idx as int) =~= usage_views(usage@));
    text
}

/// Decodes a buffer and reports on its nodes; a buffer that does not decode
/// is reported by one fixed sentence.
pub fn load_report(payload: &[u8]) -> (text: String)
    ensures
        text@ == load_report_text(payload@),
{
    match read_usage(payload) {
        Ok(usage) => render_report(&usage),
        Err(_) => String::from_str("Could not load save"),
    }
}

/// A save whose table announces no nodes decodes to no nodes, and its report
/// is empty.
pub proof fn lemma_empty_table(buf: Seq<u8>)
    requires
        tree_start(buf) matches Ok(pos) && packed_int_at(buf, pos) matches Some((count, _))
            && count == 0,
    ensures
        save_nodes(buf) == Ok::<Seq<NodeView>, SaveError>(Seq::empty()),
        load_report_text(buf) == Seq::<char>::empty(),
{
    assert(usage_of_all(Seq::<NodeView>::empty()) =~= Seq::empty());
}

} // verus!
