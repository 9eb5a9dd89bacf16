use inferlab::shell::{shell_quote, shell_quote_path};
use inferlab::ssh::ssh_argv;

#[test]
fn shell_quote_preserves_single_quotes() {
    assert_eq!(shell_quote("a'b"), "'a'\"'\"'b'");
}

#[test]
fn every_text_is_one_word() {
    assert_eq!(shell_quote(""), "''");
    assert_eq!(shell_quote("a b;$c"), "'a b;$c'");
    assert_eq!(shell_quote_path("/a b"), "'/a b'");
}

#[test]
fn the_script_is_the_last_word_of_a_remote_command() {
    let argv = ssh_argv("user@host", "echo hi");
    assert_eq!(argv[0], "ssh");
    assert_eq!(
        argv[argv.len() - 5..],
        ["--", "user@host", "bash", "-lic", "'echo hi'"]
    );
}
