//! POSIX shell text encoding for rendered scripts and remote commands.

use vstd::prelude::*;
use vstd::string::*;

verus! {

/// The text with every single quote closed, quoted in double quotes and reopened.
pub open spec fn reopened(value: Seq<char>) -> Seq<char>
    decreases value.len(),
{
    if value.len() == 0 {
        Seq::empty()
    } else {
        let last = value[value.len() - 1];
        if last == '\'' {
            reopened(value.drop_last()) + seq!['\'', '"', '\'', '"', '\'']
        } else {
            reopened(value.drop_last()).push(last)
        }
    }
}

/// The text as one quoted shell word.
pub open spec fn quoted(value: Seq<char>) -> Seq<char> {
    seq!['\''] + reopened(value) + seq!['\'']
}

/// The text as one quoted shell word.
pub fn shell_quote(value: &str) -> (r: String)
    ensures
        r@ == quoted(value@),
{
    let n: usize = value.unicode_len();
    let mut out = String::new();
    out.push('\'');
    let mut i: usize = 0;
    assert(value@.take(0) =~= Seq::<char>::empty());
    assert(out@ =~= seq!['\''] + reopened(value@.take(0)));
    while i < n
        invariant
            n == value@.len(),
            i <= n,
            out@ == seq!['\''] + reopened(value@.take(i as int)),
        decreases n - i,
    {
        let c = value.get_char(i);
        let ghost before = out@;
        proof {
            assert(value@.take(i + 1).drop_last() =~= value@.take(i as int));
            assert(value@.take(i + 1)[i as int] == c);
        }
        if c == '\'' {
            out.push('\'');
            out.push('"');
            out.push('\'');
            out.push('"');
            out.push('\'');
            assert(out@ =~= seq!['\''] + reopened(value@.take(i + 1)));
        } else {
            out.push(c);
            assert(out@ =~= seq!['\''] + reopened(value@.take(i + 1)));
        }
        i += 1;
    }
    assert(value@.take(n as int) =~= value@);
    out.push('\'');
    assert(out@ =~= quoted(value@));
    out
}

/// A path as one quoted shell word.
pub fn shell_quote_path(path: &str) -> (r: String)
    ensures
        r@ == quoted(path@),
{
    shell_quote(path)
}

// ---------------------------------------------------------------------------
// Laws

/// How a shell reads a character: outside of quotes, between single quotes or
/// between double quotes.
pub enum Reading {
    Bare,
    Single,
    Double,
}

/// The one word that a shell reads from a text made of quoted parts alone; none
/// where a part is left open, stands bare or holds what double quotes expand.
pub open spec fn shell_word(s: Seq<char>, reading: Reading) -> Option<Seq<char>>
    decreases s.len(),
{
    if s.len() == 0 {
        if reading is Bare {
            Some(Seq::empty())
        } else {
            None
        }
    } else {
        let c = s[0];
        let rest = s.skip(1);
        match reading {
            Reading::Bare => if c == '\'' {
                shell_word(rest, Reading::Single)
            } else if c == '"' {
                shell_word(rest, Reading::Double)
            } else {
                None
            },
            Reading::Single => if c == '\'' {
                shell_word(rest, Reading::Bare)
            } else {
                match shell_word(rest, Reading::Single) {
                    Some(word) => Some(seq![c] + word),
                    None => None,
                }
            },
            Reading::Double => if c == '"' {
                shell_word(rest, Reading::Bare)
            } else if c == '$' || c == '`' || c == '\\' || c == '!' {
                None
            } else {
                match shell_word(rest, Reading::Double) {
                    Some(word) => Some(seq![c] + word),
                    None => None,
                }
            },
        }
    }
}

/// What is read of a reopened text before what follows it.
proof fn lemma_reopened_word(value: Seq<char>, tail: Seq<char>)
    ensures
        shell_word(reopened(value) + tail, Reading::Single) == match shell_word(
            tail,
            Reading::Single,
        ) {
            Some(word) => Some(value + word),
            None => None,
        },
    decreases value.len(),
{
    if value.len() == 0 {
        assert(reopened(value) + tail =~= tail);
        if let Some(word) = shell_word(tail, Reading::Single) {
            assert(value + word =~= word);
        }
    } else {
        let front = value.drop_last();
        let last = value[value.len() - 1];
        if last == '\'' {
            let middle = seq!['\'', '"', '\'', '"', '\''];
            assert(reopened(value) + tail =~= reopened(front) + (middle + tail));
            lemma_reopened_word(front, middle + tail);
            let s0 = middle + tail;
            let s1 = s0.skip(1);
            let s2 = s1.skip(1);
            let s3 = s2.skip(1);
            let s4 = s3.skip(1);
            assert(s0[0] == '\'' && s1[0] == '"' && s2[0] == '\'' && s3[0] == '"' && s4[0] == '\'');
            assert(s4.skip(1) =~= tail);
            assert(shell_word(s4, Reading::Bare) == shell_word(tail, Reading::Single));
            assert(shell_word(s3, Reading::Double) == shell_word(s4, Reading::Bare));
            assert(shell_word(s1, Reading::Bare) == shell_word(s2, Reading::Double));
            assert(shell_word(s0, Reading::Single) == shell_word(s1, Reading::Bare));
            assert(shell_word(s2, Reading::Double) == match shell_word(s3, Reading::Double) {
                Some(word) => Some(seq!['\''] + word),
                None => None,
            });
            if let Some(word) = shell_word(tail, Reading::Single) {
                assert(shell_word(s2, Reading::Double) == Some(seq!['\''] + word));
                assert(front + (seq!['\''] + word) =~= value + word);
            }
        } else {
            assert(reopened(value) + tail =~= reopened(front) + (seq![last] + tail));
            lemma_reopened_word(front, seq![last] + tail);
            let s0 = seq![last] + tail;
            assert(s0[0] == last);
            assert(s0.skip(1) =~= tail);
            assert(shell_word(s0, Reading::Single) == match shell_word(tail, Reading::Single) {
                Some(word) => Some(seq![last] + word),
                None => None,
            });
            if let Some(word) = shell_word(tail, Reading::Single) {
                assert(front + (seq![last] + word) =~= value + word);
            }
        }
    }
}

/// A shell reads a quoted text back as it was, whatever it holds.
pub proof fn law_quoted_text_is_read_back(value: Seq<char>)
    ensures
        shell_word(quoted(value), Reading::Bare) == Some(value),
{
    let tail = seq!['\''];
    assert(quoted(value)[0] == '\'');
    assert(quoted(value).skip(1) =~= reopened(value) + tail);
    lemma_reopened_word(value, tail);
    assert(tail.skip(1) =~= Seq::<char>::empty());
    assert(shell_word(tail.skip(1), Reading::Bare) == Some(Seq::<char>::empty()));
    assert(shell_word(tail, Reading::Single) == shell_word(tail.skip(1), Reading::Bare));
    assert(value + Seq::<char>::empty() =~= value);
}

} // verus!
