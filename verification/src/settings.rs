//! Operator settings: validated updates and the textual report.

use vstd::prelude::*;
use crate::model::Config;
use crate::model::Runtime;
use crate::model::spec_runtime_name;

verus! {

/// Why a settings update was refused. A refusal changes nothing.
#[derive(Clone, Copy, PartialEq, Eq, Structural, Debug)]
pub enum SettingsError {
    /// The key is neither `use_sudo` nor `container_runtime`.
    InvalidKey,
    /// `use_sudo` takes only `true` or `false`.
    InvalidUseSudo,
    /// `container_runtime` takes only `docker` or `podman`.
    InvalidRuntime,
}

/// The text a boolean setting shows as.
pub open spec fn spec_bool_text(b: bool) -> Seq<char> {
    if b {
        "true"@
    } else {
        "false"@
    }
}

/// The full `config show` report.
pub open spec fn spec_show_text(c: Config) -> Seq<char> {
    "Current configuration:\n  use_sudo: "@ + spec_bool_text(c.use_sudo)
        + "\n  container_runtime: "@ + spec_runtime_name(c.container_runtime) + "\n"@
}

/// True exactly when the string's characters are the literal's.
fn is_lit(s: &String, lit: &str) -> (r: bool)
    ensures
        r == (s@ == lit@),
{
    *s == lit.to_owned()
}

/// The recognized keys and values are pairwise distinct texts.
proof fn lemma_setting_texts_distinct()
    ensures
        "use_sudo"@ != "container_runtime"@,
        "true"@ != "false"@,
        "docker"@ != "podman"@,
{
    broadcast use vstd::string::group_string_axioms;

    reveal_strlit("use_sudo");
    reveal_strlit("container_runtime");
    reveal_strlit("true");
    reveal_strlit("false");
    reveal_strlit("docker");
    reveal_strlit("podman");
    assert("use_sudo"@.len() == 8);
    assert("container_runtime"@.len() == 17);
    assert("true"@.len() == 4);
    assert("false"@.len() == 5);
    assert("docker"@[0] == 'd');
    assert("podman"@[0] == 'p');
}

/// Sets one settings field from its textual key and value. The key must be
/// `use_sudo` (value `true` or `false`) or `container_runtime` (value
/// `docker` or `podman`); anything else is refused and changes nothing.
pub fn config_set(c: &mut Config, key: &String, value: &String) -> (r: Result<(), SettingsError>)
    ensures
        r is Ok <==> ((key@ == "use_sudo"@ && (value@ == "true"@ || value@ == "false"@)) || (key@
            == "container_runtime"@ && (value@ == "docker"@ || value@ == "podman"@))),
        r is Err ==> *final(c) == *old(c),
        key@ == "use_sudo"@ && value@ == "true"@ ==> *final(c) == (Config {
            use_sudo: true,
            ..*old(c)
        }),
        key@ == "use_sudo"@ && value@ == "false"@ ==> *final(c) == (Config {
            use_sudo: false,
            ..*old(c)
        }),
        key@ == "container_runtime"@ && value@ == "docker"@ ==> *final(c) == (Config {
            container_runtime: Runtime::Docker,
            ..*old(c)
        }),
        key@ == "container_runtime"@ && value@ == "podman"@ ==> *final(c) == (Config {
            container_runtime: Runtime::Podman,
            ..*old(c)
        }),
        key@ != "use_sudo"@ && key@ != "container_runtime"@ ==> r == Err::<(), SettingsError>(
            SettingsError::InvalidKey,
        ),
        key@ == "use_sudo"@ && value@ != "true"@ && value@ != "false"@ ==> r == Err::<
            (),
            SettingsError,
        >(SettingsError::InvalidUseSudo),
        key@ == "container_runtime"@ && value@ != "docker"@ && value@ != "podman"@ ==> r == Err::<
            (),
            SettingsError,
        >(SettingsError::InvalidRuntime),
{
    proof {
        lemma_setting_texts_distinct();
    }
    if is_lit(key, "use_sudo") {
        if is_lit(value, "true") {
            c.use_sudo = true;
            Ok(())
        } else if is_lit(value, "false") {
            c.use_sudo = false;
            Ok(())
        } else {
            Err(SettingsError::InvalidUseSudo)
        }
    } else if is_lit(key, "container_runtime") {
        if is_lit(value, "docker") {
            c.container_runtime = Runtime::Docker;
            Ok(())
        } else if is_lit(value, "podman") {
            c.container_runtime = Runtime::Podman;
            Ok(())
        } else {
            Err(SettingsError::InvalidRuntime)
        }
    } else {
        Err(SettingsError::InvalidKey)
    }
}

/// Renders the `config show` report.
pub fn show_text(c: &Config) -> (s: String)
    ensures
        s@ =~= spec_show_text(*c),
{
    proof {
        reveal_strlit("Current configuration:\n  use_sudo: ");
        reveal_strlit("\n  container_runtime: ");
        reveal_strlit("\n");
        reveal_strlit("true");
        reveal_strlit("false");
    }
    let mut s = "Current configuration:\n  use_sudo: ".to_owned();
    if c.use_sudo {
        s.append("true");
    } else {
        s.append("false");
    }
    s.append("\n  container_runtime: ");
    s.append(c.container_runtime.name().as_str());
    s.append("\n");
    s
}

} // verus!
