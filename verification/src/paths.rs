//! Paths as texts with `/` between their parts.

use crate::text::{cat2, cat3, find_last_char, last_position, text_of};
use vstd::prelude::*;
use vstd::string::*;

verus! {

/// The path begins at the root.
pub open spec fn absolute(path: Seq<char>) -> bool {
    path.len() > 0 && path[0] == '/'
}

/// Whether the path begins at the root.
pub fn is_absolute(path: &str) -> (r: bool)
    ensures
        r == absolute(path@),
{
    path.unicode_len() > 0 && path.get_char(0) == '/'
}

/// One path under another; an absolute one stands for itself.
pub open spec fn joined_path(base: Seq<char>, part: Seq<char>) -> Seq<char> {
    if absolute(part) {
        part
    } else if base.len() == 0 || base.last() == '/' {
        base + part
    } else {
        base + "/"@ + part
    }
}

/// One path under another; an absolute one stands for itself.
pub fn join_path(base: &str, part: &str) -> (r: String)
    ensures
        r@ == joined_path(base@, part@),
{
    let n: usize = base.unicode_len();
    if is_absolute(part) {
        part.to_owned()
    } else if n == 0 || base.get_char(n - 1) == '/' {
        cat2(base, part)
    } else {
        cat3(base, "/", part)
    }
}

/// What `format!("{:?}", Path::new(s))` renders of a path: the quoted form that the
/// standard library gives a path, which may escape more than that of a text.
pub uninterp spec fn debug_path_text(path: Seq<char>) -> Seq<char>;

/// `format!("{:?}", std::path::Path::new(path))`: the result is the named quoted
/// form of the path.
#[verifier::external_body]
pub(crate) fn debug_path(path: &str) -> (r: String)
    ensures
        r@ == debug_path_text(path@),
{
    format!("{:?}", std::path::Path::new(path))
}

/// The path without what ends it and names nothing: slashes and single dots.
pub open spec fn settled(path: Seq<char>) -> Seq<char>
    decreases path.len(),
{
    if path.len() > 1 && path.last() == '/' {
        settled(path.drop_last())
    } else if path.len() > 1 && path.last() == '.' && path[path.len() - 2] == '/' {
        settled(path.drop_last())
    } else {
        path
    }
}

/// The path without what ends it and names nothing: slashes and single dots.
pub fn settle(path: &str) -> (r: &str)
    ensures
        r@ == settled(path@),
{
    let n: usize = path.unicode_len();
    let mut to: usize = n;
    assert(path@.take(n as int) =~= path@);
    while to > 1 && (path.get_char(to - 1) == '/' || (path.get_char(to - 1) == '.' && path.get_char(
        to - 2,
    ) == '/'))
        invariant
            n == path@.len(),
            to <= n,
            settled(path@) == settled(path@.take(to as int)),
        decreases to,
    {
        assert(path@.take(to as int).drop_last() =~= path@.take(to - 1));
        to -= 1;
    }
    let out = path.substring_char(0, to);
    assert(out@ =~= path@.take(to as int));
    out
}

/// The directory that holds what the path names, where it names more than the
/// root.
pub open spec fn parent_of(path: Seq<char>) -> Option<Seq<char>> {
    let whole = settled(path);
    let cut = last_position(whole, '/');
    if whole.len() == 0 || whole == seq!['/'] {
        None
    } else if cut < 0 {
        Some(Seq::empty())
    } else if cut == 0 {
        Some(whole.take(1))
    } else {
        Some(settled(whole.take(cut)))
    }
}

/// The directory that holds what the path names, where it names more than the
/// root.
pub fn parent(path: &str) -> (r: Option<String>)
    ensures
        text_of(r) == parent_of(path@),
{
    let whole = settle(path);
    let n: usize = whole.unicode_len();
    if n == 0 {
        return None;
    }
    if n == 1 && whole.get_char(0) == '/' {
        assert(whole@ =~= seq!['/']);
        return None;
    }
    assert(whole@ != seq!['/']) by {
        if whole@ == seq!['/'] {
            assert(whole@.len() == 1 && whole@[0] == '/');
        }
    }
    match find_last_char(whole, '/') {
        None => Some(String::new()),
        Some(cut) => if cut == 0 {
            let root = whole.substring_char(0, 1);
            assert(root@ =~= whole@.take(1));
            Some(root.to_owned())
        } else {
            let front = whole.substring_char(0, cut);
            assert(front@ =~= whole@.take(cut as int));
            Some(settle(front).to_owned())
        },
    }
}

/// The directory that holds what the path names; a path with none stays.
pub open spec fn parent_dir(path: Seq<char>) -> Seq<char> {
    match parent_of(path) {
        Some(dir) => dir,
        None => path,
    }
}

/// The directory that holds what the path names; a path with none stays.
pub fn parent_path(path: &str) -> (r: String)
    ensures
        r@ == parent_dir(path@),
{
    match parent(path) {
        Some(dir) => dir,
        None => path.to_owned(),
    }
}

/// No parent ends in a slash or in a single dot after one, unless it is the root.
pub proof fn law_parent_is_settled(path: Seq<char>)
    requires
        parent_of(path) is Some,
    ensures
        settled(parent_of(path)->0) == parent_of(path)->0,
{
    let whole = settled(path);
    let cut = last_position(whole, '/');
    if cut > 0 {
        lemma_settled_twice(whole.take(cut));
    }
}

/// Nothing is left to take from a settled path.
proof fn lemma_settled_twice(path: Seq<char>)
    ensures
        settled(settled(path)) == settled(path),
    decreases path.len(),
{
    if path.len() > 1 && (path.last() == '/' || (path.last() == '.' && path[path.len() - 2]
        == '/')) {
        lemma_settled_twice(path.drop_last());
    }
}

/// A path below another begins with it and ends with its own part; an absolute one
/// stands for itself.
pub proof fn law_joined_path_lies_below_its_base(base: Seq<char>, part: Seq<char>)
    ensures
        part.len() > 0 && part[0] == '/' ==> joined_path(base, part) == part,
        !(part.len() > 0 && part[0] == '/') ==> {
            let whole = joined_path(base, part);
            &&& whole.len() >= base.len() + part.len()
            &&& whole.take(base.len() as int) == base
            &&& whole.skip(whole.len() - part.len()) == part
            &&& base.len() > 0 ==> whole[whole.len() - part.len() - 1] == '/'
        },
{
    reveal_strlit("/");
    if !absolute(part) {
        let whole = joined_path(base, part);
        assert(whole.take(base.len() as int) =~= base);
        assert(whole.skip(whole.len() - part.len()) =~= part);
    }
}

/// The directory that holds a name under a path is that path.
pub proof fn law_parent_undoes_join(base: Seq<char>, name: Seq<char>)
    requires
        base.len() > 0,
        settled(base) == base,
        name.len() > 0,
        !name.contains('/'),
        name != "."@,
    ensures
        parent_of(joined_path(base, name)) == Some(base),
{
    reveal_strlit("/");
    reveal_strlit(".");
    assert("."@ =~= seq!['.']);
    let whole = joined_path(base, name);
    assert(name[0] != '/');
    assert(name[name.len() - 1] != '/');
    assert(whole.last() == name.last());
    if whole.last() == '.' && whole[whole.len() - 2] == '/' {
        if name.len() > 1 {
            assert(whole[whole.len() - 2] == name[name.len() - 2]);
        } else {
            assert(name =~= seq!['.']);
        }
    }
    assert(settled(whole) == whole);
    let at = whole.len() - name.len() - 1;
    assert(whole[at] == '/');
    assert forall|j: int| at < j < whole.len() implies whole[j] != '/' by {
        assert(whole[j] == name[j - at - 1]);
    }
    lemma_last_position_is(whole, '/', at);
    if base.last() == '/' {
        if base.len() > 1 {
            lemma_settled_is_no_longer(base.drop_last());
        }
        assert(whole.take(1) =~= base);
    } else {
        assert(whole.take(at) =~= base);
    }
    assert(whole != seq!['/']) by {
        assert(whole.len() > 1);
    }
}

proof fn lemma_settled_is_no_longer(path: Seq<char>)
    ensures
        settled(path).len() <= path.len(),
    decreases path.len(),
{
    if path.len() > 1 {
        lemma_settled_is_no_longer(path.drop_last());
    }
}

proof fn lemma_last_position_is(s: Seq<char>, c: char, at: int)
    requires
        0 <= at < s.len(),
        s[at] == c,
        forall|j: int| at < j < s.len() ==> s[j] != c,
    ensures
        last_position(s, c) == at,
    decreases s.len(),
{
    if at < s.len() - 1 {
        lemma_last_position_is(s.drop_last(), c, at);
    }
}

} // verus!
