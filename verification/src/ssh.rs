//! The one shape of an SSH client invocation, shared by everything that reaches
//! a remote machine.

use crate::shell::{quoted, shell_quote};
use crate::text::texts;
use vstd::prelude::*;
use vstd::string::*;

verus! {

/// The words of the client before the target.
pub open spec fn ssh_words() -> Seq<Seq<char>> {
    seq![
        "ssh"@,
        "-o"@,
        "BatchMode=yes"@,
        "-o"@,
        "ConnectTimeout=10"@,
        "-o"@,
        "ServerAliveInterval=5"@,
        "-o"@,
        "ServerAliveCountMax=2"@,
        "--"@,
    ]
}

/// The words of a remote script.
pub open spec fn ssh_command(target: Seq<char>, script: Seq<char>) -> Seq<Seq<char>> {
    ssh_words() + seq![target, "bash"@, "-lic"@, quoted(script)]
}

/// The full argument list for running a script on a target.
pub fn ssh_argv(target: &str, script: &str) -> (r: Vec<String>)
    ensures
        texts(r@) == ssh_command(target@, script@),
{
    let mut argv: Vec<String> = Vec::new();
    argv.push("ssh".to_owned());
    argv.push("-o".to_owned());
    argv.push("BatchMode=yes".to_owned());
    argv.push("-o".to_owned());
    argv.push("ConnectTimeout=10".to_owned());
    argv.push("-o".to_owned());
    argv.push("ServerAliveInterval=5".to_owned());
    argv.push("-o".to_owned());
    argv.push("ServerAliveCountMax=2".to_owned());
    argv.push("--".to_owned());
    argv.push(target.to_owned());
    argv.push("bash".to_owned());
    argv.push("-lic".to_owned());
    argv.push(shell_quote(script));
    assert(texts(argv@) =~= ssh_command(target@, script@));
    argv
}

/// A remote script is run on its target alone, by a login shell there that reads the script
/// as it is, whatever it holds.
pub proof fn law_remote_script_is_read_as_it_is(target: Seq<char>, script: Seq<char>)
    ensures
        ({
            let words = ssh_command(target, script);
            let n = words.len() as int;
            &&& n > 4 && words[0] == "ssh"@
            &&& words[n - 5] == "--"@
            &&& words[n - 4] == target
            &&& words[n - 3] == "bash"@
            &&& words[n - 2] == "-lic"@
            &&& crate::shell::shell_word(words[n - 1], crate::shell::Reading::Bare) == Some(script)
        }),
{
    crate::shell::law_quoted_text_is_read_back(script);
}

} // verus!
