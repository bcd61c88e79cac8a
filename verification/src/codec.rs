//! The persisted text of the registry and the settings: pretty-printed
//! JSON, one canonical rendering per value, pinned character by character.
//! Timestamps persist as plain integers, seconds since the Unix epoch.

use vstd::prelude::*;
use crate::model::Config;
use crate::model::ContainerModel;
use crate::model::EntryModel;
use crate::model::HistoryEntry;
use crate::model::Registry;
use crate::model::StatefulContainer;
use crate::model::spec_runtime_name;
use crate::decimal::spec_dec_int;
use crate::decimal::i64_to_dec;
use crate::settings::spec_bool_text;

verus! {

/// How one character appears inside a JSON string: quote and backslash are
/// escaped, everything else stands as itself.
pub open spec fn spec_esc_char(c: char) -> Seq<char> {
    if c == '\\' || c == '"' {
        seq!['\\', c]
    } else {
        seq![c]
    }
}

/// The escaped body of a JSON string.
pub open spec fn spec_esc(s: Seq<char>) -> Seq<char>
    decreases s.len(),
{
    if s.len() == 0 {
        Seq::empty()
    } else {
        spec_esc(s.drop_last()) + spec_esc_char(s.last())
    }
}

/// A JSON string: quote, escaped body, quote.
pub open spec fn spec_quoted(s: Seq<char>) -> Seq<char> {
    seq!['"'] + spec_esc(s) + seq!['"']
}

/// One history entry as persisted, indented to its depth.
pub open spec fn spec_entry_json(e: EntryModel) -> Seq<char> {
    "      {\n        \"container_id\": "@ + spec_quoted(e.container_id)
        + ",\n        \"timestamp\": "@ + spec_dec_int(e.timestamp) + ",\n        \"image\": "@
        + spec_quoted(e.image) + "\n      }"@
}

/// The history entries, one per block, separated by comma and newline.
pub open spec fn spec_history_items(h: Seq<EntryModel>) -> Seq<char>
    decreases h.len(),
{
    if h.len() == 0 {
        Seq::empty()
    } else if h.len() == 1 {
        spec_entry_json(h.last())
    } else {
        spec_history_items(h.drop_last()) + ",\n"@ + spec_entry_json(h.last())
    }
}

/// A history as persisted: `[]` when empty, otherwise a bracketed block.
pub open spec fn spec_history_json(h: Seq<EntryModel>) -> Seq<char> {
    if h.len() == 0 {
        "[]"@
    } else {
        "[\n"@ + spec_history_items(h) + "\n    ]"@
    }
}

/// One stateful container as persisted, indented to its depth.
pub open spec fn spec_container_json(c: ContainerModel) -> Seq<char> {
    "  {\n    \"name\": "@ + spec_quoted(c.name) + ",\n    \"image\": "@ + spec_quoted(c.image)
        + ",\n    \"history\": "@ + spec_history_json(c.history) + "\n  }"@
}

/// The registry entries, one per block, separated by comma and newline.
pub open spec fn spec_registry_items(rs: Seq<ContainerModel>) -> Seq<char>
    decreases rs.len(),
{
    if rs.len() == 0 {
        Seq::empty()
    } else if rs.len() == 1 {
        spec_container_json(rs.last())
    } else {
        spec_registry_items(rs.drop_last()) + ",\n"@ + spec_container_json(rs.last())
    }
}

/// The whole registry file: `[]` when empty, otherwise a bracketed block.
pub open spec fn spec_registry_json(rs: Seq<ContainerModel>) -> Seq<char> {
    if rs.len() == 0 {
        "[]"@
    } else {
        "[\n"@ + spec_registry_items(rs) + "\n]"@
    }
}

/// The settings file.
pub open spec fn spec_config_json(c: Config) -> Seq<char> {
    "{\n  \"use_sudo\": "@ + spec_bool_text(c.use_sudo) + ",\n  \"container_runtime\": "@
        + spec_quoted(spec_runtime_name(c.container_runtime)) + "\n}"@
}

/// Relies on String::push: appends exactly the one character.
#[verifier::external_body]
pub(crate) fn push_char(out: &mut String, c: char)
    ensures
        final(out)@ == old(out)@.push(c),
{
    out.push(c);
}

/// Appends `s` as a JSON string, escaping quote and backslash.
fn append_quoted(out: &mut String, s: &String)
    ensures
        final(out)@ =~= old(out)@ + spec_quoted(s@),
{
    proof {
        reveal_strlit("\"");
    }
    push_char(out, '"');
    let ghost mid = out@;
    let n = s.as_str().unicode_len();
    let mut i: usize = 0;
    while i < n
        invariant
            i <= n,
            n == s@.len(),
            out@ =~= mid + spec_esc(s@.take(i as int)),
        decreases n - i,
    {
        proof {
            assert(s@.take(i as int + 1).drop_last() =~= s@.take(i as int));
            assert(s@.take(i as int + 1).last() == s@[i as int]);
        }
        let c = s.as_str().get_char(i);
        if c == '\\' || c == '"' {
            push_char(out, '\\');
        }
        push_char(out, c);
        i = i + 1;
    }
    proof {
        assert(s@.take(n as int) =~= s@);
    }
    push_char(out, '"');
}

/// Appends one history entry's persisted block.
fn append_entry(out: &mut String, e: &HistoryEntry)
    ensures
        final(out)@ =~= old(out)@ + spec_entry_json(e@),
{
    proof {
        reveal_strlit("      {\n        \"container_id\": ");
        reveal_strlit(",\n        \"timestamp\": ");
        reveal_strlit(",\n        \"image\": ");
        reveal_strlit("\n      }");
    }
    out.append("      {\n        \"container_id\": ");
    append_quoted(out, &e.container_id);
    out.append(",\n        \"timestamp\": ");
    out.append(i64_to_dec(e.timestamp).as_str());
    out.append(",\n        \"image\": ");
    append_quoted(out, &e.image);
    out.append("\n      }");
}

/// Appends one container's persisted block.
fn append_container(out: &mut String, c: &StatefulContainer)
    ensures
        final(out)@ =~= old(out)@ + spec_container_json(c@),
{
    proof {
        reveal_strlit("  {\n    \"name\": ");
        reveal_strlit(",\n    \"image\": ");
        reveal_strlit(",\n    \"history\": ");
        reveal_strlit("[]");
        reveal_strlit("[\n");
        reveal_strlit("\n    ]");
        reveal_strlit(",\n");
        reveal_strlit("\n  }");
    }
    out.append("  {\n    \"name\": ");
    append_quoted(out, &c.name);
    out.append(",\n    \"image\": ");
    append_quoted(out, &c.image);
    out.append(",\n    \"history\": ");
    if c.history.len() == 0 {
        out.append("[]");
    } else {
        out.append("[\n");
        let ghost hist = c@.history;
        let ghost head = out@;
        let mut k: usize = 0;
        while k < c.history.len()
            invariant
                k <= c.history.len(),
                hist == c@.history,
                hist.len() == c.history.len(),
                out@ =~= head + spec_history_items(hist.take(k as int)),
            decreases c.history.len() - k,
        {
            proof {
                reveal_strlit(",\n");
                assert(hist.take(k as int + 1).drop_last() =~= hist.take(k as int));
                assert(hist.take(k as int + 1).last() == hist[k as int]);
            }
            if k > 0 {
                out.append(",\n");
            }
            append_entry(out, &c.history[k]);
            k = k + 1;
        }
        proof {
            assert(hist.take(c.history.len() as int) =~= hist);
        }
        out.append("\n    ]");
    }
    out.append("\n  }");
}

/// Renders the registry file: the canonical pretty-printed text of every
/// registered container, in registration order.
pub fn encode_registry(reg: &Registry) -> (s: String)
    ensures
        s@ =~= spec_registry_json(reg@),
{
    proof {
        reveal_strlit("[]");
        reveal_strlit("[\n");
        reveal_strlit("\n]");
        reveal_strlit(",\n");
    }
    if reg.containers.len() == 0 {
        return "[]".to_owned();
    }
    let mut out = "[\n".to_owned();
    let ghost rs = reg@;
    let mut k: usize = 0;
    while k < reg.containers.len()
        invariant
            k <= reg.containers.len(),
            rs == reg@,
            rs.len() == reg.containers.len(),
            out@ =~= "[\n"@ + spec_registry_items(rs.take(k as int)),
        decreases reg.containers.len() - k,
    {
        proof {
            reveal_strlit(",\n");
            assert(rs.take(k as int + 1).drop_last() =~= rs.take(k as int));
            assert(rs.take(k as int + 1).last() == rs[k as int]);
        }
        if k > 0 {
            out.append(",\n");
        }
        append_container(&mut out, &reg.containers[k]);
        k = k + 1;
    }
    proof {
        assert(rs.take(reg.containers.len() as int) =~= rs);
    }
    out.append("\n]");
    out
}

/// Renders the settings file.
pub fn encode_config(c: &Config) -> (s: String)
    ensures
        s@ =~= spec_config_json(*c),
{
    proof {
        reveal_strlit("{\n  \"use_sudo\": ");
        reveal_strlit("true");
        reveal_strlit("false");
        reveal_strlit(",\n  \"container_runtime\": ");
        reveal_strlit("\n}");
    }
    let mut out = "{\n  \"use_sudo\": ".to_owned();
    if c.use_sudo {
        out.append("true");
    } else {
        out.append("false");
    }
    out.append(",\n  \"container_runtime\": ");
    append_quoted(&mut out, &c.container_runtime.name());
    out.append("\n}");
    out
}

} // verus!
