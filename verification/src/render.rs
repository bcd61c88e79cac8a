//! The `list` report: every registered container with its base image and
//! full history, pinned character by character.

use vstd::prelude::*;
use crate::model::ContainerModel;
use crate::model::EntryModel;
use crate::model::Registry;
use crate::model::StatefulContainer;
use crate::decimal::spec_dec_int;
use crate::decimal::i64_to_dec;

verus! {

/// One history entry's line in the report.
pub open spec fn spec_entry_line(e: EntryModel) -> Seq<char> {
    "    - id: "@ + e.container_id + ", at: "@ + spec_dec_int(e.timestamp) + ", image: "@
        + e.image + "\n"@
}

/// The history lines, in history order.
pub open spec fn spec_history_lines(h: Seq<EntryModel>) -> Seq<char>
    decreases h.len(),
{
    if h.len() == 0 {
        Seq::empty()
    } else {
        spec_history_lines(h.drop_last()) + spec_entry_line(h.last())
    }
}

/// One container's block in the report.
pub open spec fn spec_container_text(c: ContainerModel) -> Seq<char> {
    "Stateful Container: "@ + c.name + "\n  Current Image: "@ + c.image + "\n  History:\n"@
        + spec_history_lines(c.history)
}

/// The blocks of every registered container, in registration order.
pub open spec fn spec_list_blocks(rs: Seq<ContainerModel>) -> Seq<char>
    decreases rs.len(),
{
    if rs.len() == 0 {
        Seq::empty()
    } else {
        spec_list_blocks(rs.drop_last()) + spec_container_text(rs.last())
    }
}

/// The whole report; an empty registry says so instead.
pub open spec fn spec_list_text(rs: Seq<ContainerModel>) -> Seq<char> {
    if rs.len() == 0 {
        "No stateful containers found.\n"@
    } else {
        spec_list_blocks(rs)
    }
}

/// Appends one container's block.
fn append_container_text(out: &mut String, c: &StatefulContainer)
    ensures
        final(out)@ =~= old(out)@ + spec_container_text(c@),
{
    proof {
        reveal_strlit("Stateful Container: ");
        reveal_strlit("\n  Current Image: ");
        reveal_strlit("\n  History:\n");
    }
    out.append("Stateful Container: ");
    out.append(c.name.as_str());
    out.append("\n  Current Image: ");
    out.append(c.image.as_str());
    out.append("\n  History:\n");
    let ghost hist = c@.history;
    let ghost head = out@;
    let mut k: usize = 0;
    while k < c.history.len()
        invariant
            k <= c.history.len(),
            hist == c@.history,
            hist.len() == c.history.len(),
            out@ =~= head + spec_history_lines(hist.take(k as int)),
        decreases c.history.len() - k,
    {
        proof {
            reveal_strlit("    - id: ");
            reveal_strlit(", at: ");
            reveal_strlit(", image: ");
            reveal_strlit("\n");
            assert(hist.take(k as int + 1).drop_last() =~= hist.take(k as int));
            assert(hist.take(k as int + 1).last() == hist[k as int]);
        }
        out.append("    - id: ");
        out.append(c.history[k].container_id.as_str());
        out.append(", at: ");
        out.append(i64_to_dec(c.history[k].timestamp).as_str());
        out.append(", image: ");
        out.append(c.history[k].image.as_str());
        out.append("\n");
        k = k + 1;
    }
    proof {
        assert(hist.take(c.history.len() as int) =~= hist);
    }
}

/// Renders the `list` report.
pub fn list_text(reg: &Registry) -> (s: String)
    ensures
        s@ =~= spec_list_text(reg@),
{
    proof {
        reveal_strlit("No stateful containers found.\n");
    }
    if reg.containers.len() == 0 {
        return "No stateful containers found.\n".to_owned();
    }
    let mut out = String::new();
    let ghost rs = reg@;
    let mut k: usize = 0;
    while k < reg.containers.len()
        invariant
            k <= reg.containers.len(),
            rs == reg@,
            rs.len() == reg.containers.len(),
            out@ =~= spec_list_blocks(rs.take(k as int)),
        decreases reg.containers.len() - k,
    {
        proof {
            assert(rs.take(k as int + 1).drop_last() =~= rs.take(k as int));
            assert(rs.take(k as int + 1).last() == rs[k as int]);
        }
        append_container_text(&mut out, &reg.containers[k]);
        k = k + 1;
    }
    proof {
        assert(rs.take(reg.containers.len() as int) =~= rs);
    }
    out
}

} // verus!
