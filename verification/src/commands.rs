//! Shell-level command lines for the external container runtime, each pinned
//! to its exact text. The caller hands these to a shell; nothing here runs
//! anything.

use vstd::prelude::*;
use crate::model::Config;
use crate::model::spec_runtime_name;

verus! {

/// The privilege-elevation prefix, present exactly when the operator asked
/// for it.
pub open spec fn spec_sudo_prefix(c: Config) -> Seq<char> {
    if c.use_sudo {
        "sudo "@
    } else {
        Seq::<char>::empty()
    }
}

/// Common head of every command: optional prefix, then the engine binary.
pub open spec fn spec_command_base(c: Config) -> Seq<char> {
    spec_sudo_prefix(c) + spec_runtime_name(c.container_runtime)
}

/// `[sudo ]<runtime> --version`
pub open spec fn spec_version_command(c: Config) -> Seq<char> {
    spec_command_base(c) + " --version"@
}

/// `[sudo ]<runtime> run -d --name <name> <image> sleep infinity`
pub open spec fn spec_run_command(c: Config, name: Seq<char>, image: Seq<char>) -> Seq<char> {
    spec_command_base(c) + " run -d --name "@ + name + " "@ + image + " sleep infinity"@
}

/// `[sudo ]<runtime> ps -q -f name=<name>`
pub open spec fn spec_ps_running_command(c: Config, name: Seq<char>) -> Seq<char> {
    spec_command_base(c) + " ps -q -f name="@ + name
}

/// `[sudo ]<runtime> ps -a --filter name=<name> --format '{{.ID}}'`
pub open spec fn spec_ps_any_command(c: Config, name: Seq<char>) -> Seq<char> {
    spec_command_base(c) + " ps -a --filter name="@ + name + " --format '{{.ID}}'"@
}

/// `[sudo ]<runtime> stop <name>`
pub open spec fn spec_stop_command(c: Config, name: Seq<char>) -> Seq<char> {
    spec_command_base(c) + " stop "@ + name
}

/// `[sudo ]<runtime> commit <name> <tag>`
pub open spec fn spec_commit_command(c: Config, name: Seq<char>, tag: Seq<char>) -> Seq<char> {
    spec_command_base(c) + " commit "@ + name + " "@ + tag
}

/// `[sudo ]<runtime> rmi <image>`
pub open spec fn spec_rmi_command(c: Config, image: Seq<char>) -> Seq<char> {
    spec_command_base(c) + " rmi "@ + image
}

fn command_base(c: &Config) -> (s: String)
    ensures
        s@ =~= spec_command_base(*c),
{
    proof {
        reveal_strlit("sudo ");
    }
    let mut s: String = if c.use_sudo {
        "sudo ".to_owned()
    } else {
        String::new()
    };
    s.append(c.container_runtime.name().as_str());
    s
}

/// The availability probe.
pub fn version_command(c: &Config) -> (s: String)
    ensures
        s@ =~= spec_version_command(*c),
{
    proof {
        reveal_strlit(" --version");
    }
    let mut s = command_base(c);
    s.append(" --version");
    s
}

/// Starts a detached instance named `name` from `image`, kept alive by a
/// no-op sleep.
pub fn run_command(c: &Config, name: &String, image: &String) -> (s: String)
    ensures
        s@ =~= spec_run_command(*c, name@, image@),
{
    proof {
        reveal_strlit(" run -d --name ");
        reveal_strlit(" ");
        reveal_strlit(" sleep infinity");
    }
    let mut s = command_base(c);
    s.append(" run -d --name ");
    s.append(name.as_str());
    s.append(" ");
    s.append(image.as_str());
    s.append(" sleep infinity");
    s
}

/// Lists running instances filtered by name.
pub fn ps_running_command(c: &Config, name: &String) -> (s: String)
    ensures
        s@ =~= spec_ps_running_command(*c, name@),
{
    proof {
        reveal_strlit(" ps -q -f name=");
    }
    let mut s = command_base(c);
    s.append(" ps -q -f name=");
    s.append(name.as_str());
    s
}

/// Lists instances in any state filtered by name.
pub fn ps_any_command(c: &Config, name: &String) -> (s: String)
    ensures
        s@ =~= spec_ps_any_command(*c, name@),
{
    proof {
        reveal_strlit(" ps -a --filter name=");
        reveal_strlit(" --format '{{.ID}}'");
    }
    let mut s = command_base(c);
    s.append(" ps -a --filter name=");
    s.append(name.as_str());
    s.append(" --format '{{.ID}}'");
    s
}

/// Requests a graceful stop of the named instance.
pub fn stop_command(c: &Config, name: &String) -> (s: String)
    ensures
        s@ =~= spec_stop_command(*c, name@),
{
    proof {
        reveal_strlit(" stop ");
    }
    let mut s = command_base(c);
    s.append(" stop ");
    s.append(name.as_str());
    s
}

/// Snapshots the named instance's filesystem into a new image reference.
pub fn commit_command(c: &Config, name: &String, tag: &String) -> (s: String)
    ensures
        s@ =~= spec_commit_command(*c, name@, tag@),
{
    proof {
        reveal_strlit(" commit ");
        reveal_strlit(" ");
    }
    let mut s = command_base(c);
    s.append(" commit ");
    s.append(name.as_str());
    s.append(" ");
    s.append(tag.as_str());
    s
}

/// Removes one image reference, used by the snapshot-clearing delete
/// options.
pub fn rmi_command(c: &Config, image: &String) -> (s: String)
    ensures
        s@ =~= spec_rmi_command(*c, image@),
{
    proof {
        reveal_strlit(" rmi ");
    }
    let mut s = command_base(c);
    s.append(" rmi ");
    s.append(image.as_str());
    s
}

} // verus!
