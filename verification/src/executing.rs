//! Where a command keeps what it produces.

use vstd::prelude::*;

verus! {

/// The directory of the command `command_name` under the root `smelt_root`.
pub open spec fn target_root(smelt_root: Seq<char>, command_name: Seq<char>) -> Seq<char> {
    smelt_root + "/"@ + "smelt-out"@ + "/"@ + command_name
}

/// The directory in which the command `command_name` keeps what it
/// produces: `smelt-out` under the root, then the command's name.
pub fn get_target_root(smelt_root: &str, command_name: &str) -> (r: String)
    ensures
        r@ == target_root(smelt_root@, command_name@),
{
    let mut out = smelt_root.to_owned();
    out.append("/");
    out.append("smelt-out");
    out.append("/");
    out.append(command_name);
    out
}

/// The lines of a script, each closed by a line feed.
pub open spec fn lines_text(lines: Seq<String>, n: nat) -> Seq<char>
    decreases n,
{
    if n == 0 || n > lines.len() {
        Seq::empty()
    } else {
        lines_text(lines, (n - 1) as nat) + lines[n - 1]@ + "\n"@
    }
}

/// The text of the script that runs a command: it exports the root and the
/// command's own directory, changes to the working directory, and then runs
/// the lines of the command.
pub open spec fn script_text(
    smelt_root: Seq<char>,
    command_name: Seq<char>,
    working_dir: Seq<char>,
    script: Seq<String>,
) -> Seq<char> {
    "export SMELT_ROOT="@ + smelt_root + "\n"@ + "export TARGET_ROOT="@ + target_root(
        smelt_root,
        command_name,
    ) + "\n"@ + "cd "@ + working_dir + "\n"@ + lines_text(script, script.len())
}

/// Writes the script that runs the command `command_name`.
pub fn workspace_script(
    smelt_root: &str,
    command_name: &str,
    working_dir: &str,
    script: &Vec<String>,
) -> (r: String)
    ensures
        r@ == script_text(smelt_root@, command_name@, working_dir@, script@),
{
    let mut out = String::from_str("export SMELT_ROOT=");
    out.append(smelt_root);
    out.append("\n");
    out.append("export TARGET_ROOT=");
    out.append(get_target_root(smelt_root, command_name).as_str());
    out.append("\n");
    out.append("cd ");
    out.append(working_dir);
    out.append("\n");
    let ghost head = out@;
    let mut i: usize = 0;
    while i < script.len()
        invariant
            i <= script.len(),
            out@ == head + lines_text(script@, i as nat),
        decreases script.len() - i,
    {
        out.append(script[i].as_str());
        out.append("\n");
        assert(out@ =~= head + lines_text(script@, (i + 1) as nat));
        i = i + 1;
    }
    out
}

/// The exit code that is reported for a command: its own, or -555 where it
/// ended without one.
pub fn exit_code(code: Option<i32>) -> (r: i32)
    ensures
        code is Some ==> r == code->0,
        code is None ==> r == -555,
{
    match code {
        Some(c) => c,
        None => -555,
    }
}

} // verus!
