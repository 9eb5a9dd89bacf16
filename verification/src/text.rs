//! Text as sequences of characters: the string operations that the rest of the
//! library is stated with.

use vstd::prelude::*;
use vstd::string::*;
use vstd::utf8::{decode_utf8, encode_utf8, valid_utf8};

verus! {

/// `String::push`: the character is appended to the string.
pub assume_specification[ String::push ](s: &mut String, c: char)
    ensures
        final(s)@ == old(s)@.push(c),
;

/// What `format!("{:?}", s)` renders of a string: the quoted, escaped form.
pub uninterp spec fn debug_text(s: Seq<char>) -> Seq<char>;

/// `format!("{s:?}")`: the result is the named quoted form of the text.
#[verifier::external_body]
pub(crate) fn debug(s: &str) -> (r: String)
    ensures
        r@ == debug_text(s@),
{
    format!("{s:?}")
}

// ---------------------------------------------------------------------------
// Equality and concatenation

/// Whether two texts are the same.
pub fn same(a: &str, b: &str) -> (r: bool)
    ensures
        r == (a@ == b@),
{
    a.to_owned() == b.to_owned()
}

/// Two texts, one after the other.
pub fn cat2(a: &str, b: &str) -> (r: String)
    ensures
        r@ == a@ + b@,
{
    let mut s = a.to_owned();
    s.append(b);
    s
}

/// Three texts, one after the other.
pub fn cat3(a: &str, b: &str, c: &str) -> (r: String)
    ensures
        r@ == a@ + b@ + c@,
{
    let mut s = cat2(a, b);
    s.append(c);
    s
}

/// Four texts, one after the other.
pub fn cat4(a: &str, b: &str, c: &str, d: &str) -> (r: String)
    ensures
        r@ == a@ + b@ + c@ + d@,
{
    let mut s = cat3(a, b, c);
    s.append(d);
    s
}

/// Five texts, one after the other.
pub fn cat5(a: &str, b: &str, c: &str, d: &str, e: &str) -> (r: String)
    ensures
        r@ == a@ + b@ + c@ + d@ + e@,
{
    let mut s = cat4(a, b, c, d);
    s.append(e);
    s
}

/// Six texts, one after the other.
pub fn cat6(a: &str, b: &str, c: &str, d: &str, e: &str, f: &str) -> (r: String)
    ensures
        r@ == a@ + b@ + c@ + d@ + e@ + f@,
{
    let mut s = cat5(a, b, c, d, e);
    s.append(f);
    s
}

/// Seven texts, one after the other.
pub fn cat7(a: &str, b: &str, c: &str, d: &str, e: &str, f: &str, g: &str) -> (r: String)
    ensures
        r@ == a@ + b@ + c@ + d@ + e@ + f@ + g@,
{
    let mut s = cat6(a, b, c, d, e, f);
    s.append(g);
    s
}

/// The text of an optional string, where there is one.
pub open spec fn optional_text(s: Option<&str>) -> Option<Seq<char>> {
    match s {
        Some(text) => Some(text@),
        None => None,
    }
}

/// What `format!("{:?}", s)` renders of an optional string.
pub open spec fn debug_optional_text(s: Option<Seq<char>>) -> Seq<char> {
    match s {
        Some(text) => "Some("@ + debug_text(text) + ")"@,
        None => "None"@,
    }
}

/// The debug form of an optional string.
pub fn debug_optional(s: Option<&str>) -> (r: String)
    ensures
        r@ == debug_optional_text(optional_text(s)),
{
    match s {
        Some(text) => cat3("Some(", debug(text).as_str(), ")"),
        None => "None".to_owned(),
    }
}

/// Whether a text is one of a list of strings.
pub open spec fn lists(list: Seq<String>, t: Seq<char>) -> bool {
    exists|i: int| 0 <= i < list.len() && (#[trigger] list[i])@ == t
}

/// Whether a text is one of a list of strings.
pub fn list_contains(list: &[String], t: &str) -> (r: bool)
    ensures
        r == lists(list@, t@),
{
    let mut i: usize = 0;
    while i < list.len()
        invariant
            i <= list@.len(),
            forall|j: int| 0 <= j < i ==> (#[trigger] list@[j])@ != t@,
        decreases list@.len() - i,
    {
        if same(list[i].as_str(), t) {
            assert(list@[i as int]@ == t@);
            return true;
        }
        i += 1;
    }
    false
}

/// How often a text stands in a list of strings.
pub open spec fn occurrences(list: Seq<String>, t: Seq<char>) -> nat
    decreases list.len(),
{
    if list.len() == 0 {
        0
    } else {
        occurrences(list.drop_last(), t) + if list.last()@ == t {
            1nat
        } else {
            0nat
        }
    }
}

/// How often a text stands in a list of strings.
pub fn count_text(list: &[String], t: &str) -> (r: usize)
    ensures
        r == occurrences(list@, t@),
{
    let mut i: usize = 0;
    let mut count: usize = 0;
    while i < list.len()
        invariant
            i <= list@.len(),
            count <= i,
            count == occurrences(list@.take(i as int), t@),
        decreases list@.len() - i,
    {
        assert(list@.take(i + 1).drop_last() =~= list@.take(i as int));
        if same(list[i].as_str(), t) {
            count += 1;
        }
        i += 1;
    }
    assert(list@.take(i as int) =~= list@);
    count
}

/// A copy of a list of strings.
pub fn copy_list(list: &[String]) -> (r: Vec<String>)
    ensures
        r@ == list@,
{
    let mut out: Vec<String> = Vec::new();
    let mut i: usize = 0;
    while i < list.len()
        invariant
            i <= list@.len(),
            out@ =~= list@.take(i as int),
        decreases list@.len() - i,
    {
        out.push(list[i].clone());
        i += 1;
    }
    assert(list@.take(i as int) =~= list@);
    out
}

/// The texts of a list of strings.
pub open spec fn texts(list: Seq<String>) -> Seq<Seq<char>> {
    list.map_values(|s: String| s@)
}

/// The texts one after the other with `sep` between neighbours.
pub open spec fn joined(parts: Seq<Seq<char>>, sep: Seq<char>) -> Seq<char>
    decreases parts.len(),
{
    if parts.len() == 0 {
        Seq::empty()
    } else if parts.len() == 1 {
        parts[0]
    } else {
        joined(parts.drop_last(), sep) + sep + parts.last()
    }
}

/// The strings one after the other with `sep` between neighbours.
pub fn join(parts: &[String], sep: &str) -> (r: String)
    ensures
        r@ == joined(texts(parts@), sep@),
{
    let mut out = String::new();
    let mut i: usize = 0;
    while i < parts.len()
        invariant
            i <= parts@.len(),
            out@ == joined(texts(parts@.take(i as int)), sep@),
        decreases parts@.len() - i,
    {
        proof {
            let next = texts(parts@.take(i + 1));
            assert(next.drop_last() =~= texts(parts@.take(i as int)));
            assert(next.last() == parts@[i as int]@);
            if i == 0 {
                assert(next[0] == parts@[0]@);
                assert(out@ =~= Seq::empty());
                assert(Seq::<char>::empty() + parts@[0]@ =~= parts@[0]@);
            }
        }
        if i > 0 {
            out.append(sep);
        }
        out.append(parts[i].as_str());
        i += 1;
    }
    assert(parts@.take(i as int) =~= parts@);
    out
}

// ---------------------------------------------------------------------------
// Characters

/// The Unicode `White_Space` property.
pub open spec fn white_space(c: char) -> bool {
    let n = c as int;
    ||| 0x9 <= n <= 0xd
    ||| n == 0x20
    ||| n == 0x85
    ||| n == 0xa0
    ||| n == 0x1680
    ||| 0x2000 <= n <= 0x200a
    ||| n == 0x2028
    ||| n == 0x2029
    ||| n == 0x202f
    ||| n == 0x205f
    ||| n == 0x3000
}

/// Whether the character is white space.
pub fn is_white_space(c: char) -> (r: bool)
    ensures
        r == white_space(c),
{
    let n: u32 = c as u32;
    (0x9 <= n && n <= 0xd) || n == 0x20 || n == 0x85 || n == 0xa0 || n == 0x1680 || (0x2000 <= n && n
        <= 0x200a) || n == 0x2028 || n == 0x2029 || n == 0x202f || n == 0x205f || n == 0x3000
}

/// An ASCII decimal digit.
pub open spec fn digit(c: char) -> bool {
    '0' <= c <= '9'
}

/// Whether the character is an ASCII decimal digit.
pub fn is_digit(c: char) -> (r: bool)
    ensures
        r == digit(c),
{
    '0' <= c && c <= '9'
}

/// The text of the error that `String::from_utf8` gives for bytes.
pub uninterp spec fn utf8_error(bytes: Seq<u8>) -> Seq<char>;

/// `String::from_utf8`: the text that the bytes encode where they are valid
/// UTF-8, and the named error where they are not.
#[verifier::external_body]
pub(crate) fn decode_bytes(bytes: Vec<u8>) -> (r: Result<String, String>)
    ensures
        match r {
            Ok(text) => valid_utf8(bytes@) && text@ == decode_utf8(bytes@) && encode_utf8(text@)
                == bytes@,
            Err(text) => !valid_utf8(bytes@) && text@ == utf8_error(bytes@),
        },
{
    String::from_utf8(bytes).map_err(|error| error.to_string())
}

// ---------------------------------------------------------------------------
// Searching and cutting

/// Whether `part` stands somewhere in `s`.
pub open spec fn contains_text(s: Seq<char>, part: Seq<char>) -> bool {
    exists|i: int| #![trigger s.subrange(i, i + part.len())]
        0 <= i && i + part.len() <= s.len() && s.subrange(i, i + part.len()) == part
}

/// Whether `part` stands somewhere in `s`.
pub fn contains(s: &str, part: &str) -> (r: bool)
    ensures
        r == contains_text(s@, part@),
{
    let n: usize = s.unicode_len();
    let m: usize = part.unicode_len();
    if m > n {
        return false;
    }
    let mut i: usize = 0;
    while i <= n - m
        invariant
            n == s@.len(),
            m == part@.len(),
            m <= n,
            i <= n - m + 1,
            forall|j: int| 0 <= j < i ==> #[trigger] s@.subrange(j, j + part@.len()) != part@,
        decreases n - m + 1 - i,
    {
        if same(s.substring_char(i, i + m), part) {
            return true;
        }
        if i == n - m {
            return false;
        }
        i += 1;
    }
    false
}

/// Whether the character stands somewhere in the text.
pub fn contains_char(s: &str, c: char) -> (r: bool)
    ensures
        r == s@.contains(c),
{
    let n: usize = s.unicode_len();
    let mut i: usize = 0;
    while i < n
        invariant
            n == s@.len(),
            i <= n,
            forall|j: int| 0 <= j < i ==> s@[j] != c,
        decreases n - i,
    {
        if s.get_char(i) == c {
            assert(s@[i as int] == c);
            return true;
        }
        i += 1;
    }
    false
}

/// Whether `s` begins with `prefix`.
pub open spec fn starts(s: Seq<char>, prefix: Seq<char>) -> bool {
    prefix.len() <= s.len() && s.take(prefix.len() as int) == prefix
}

/// Whether `s` begins with `prefix`.
pub fn starts_with(s: &str, prefix: &str) -> (r: bool)
    ensures
        r == starts(s@, prefix@),
{
    let n: usize = s.unicode_len();
    let m: usize = prefix.unicode_len();
    if m > n {
        return false;
    }
    assert(s@.take(m as int) =~= s@.subrange(0, m as int));
    same(s.substring_char(0, m), prefix)
}

/// What follows `prefix` in `s`, where `s` begins with it.
pub open spec fn after_prefix(s: Seq<char>, prefix: Seq<char>) -> Option<Seq<char>> {
    if starts(s, prefix) {
        Some(s.skip(prefix.len() as int))
    } else {
        None
    }
}

/// What follows `prefix` in `s`, where `s` begins with it.
pub fn strip_prefix<'a>(s: &'a str, prefix: &str) -> (r: Option<&'a str>)
    ensures
        match r {
            Some(rest) => after_prefix(s@, prefix@) == Some(rest@),
            None => after_prefix(s@, prefix@) is None,
        },
{
    if starts_with(s, prefix) {
        let n: usize = s.unicode_len();
        let m: usize = prefix.unicode_len();
        assert(s@.skip(m as int) =~= s@.subrange(m as int, n as int));
        Some(s.substring_char(m, n))
    } else {
        None
    }
}

/// The place of the first `c` in `s`; the length of `s` where there is none.
pub open spec fn position(s: Seq<char>, c: char) -> int
    decreases s.len(),
{
    if s.len() == 0 {
        0
    } else if s[0] == c {
        0
    } else {
        1 + position(s.skip(1), c)
    }
}

/// `position` is the least index of the character, or the length.
pub proof fn lemma_position(s: Seq<char>, c: char)
    ensures
        0 <= position(s, c) <= s.len(),
        forall|j: int| 0 <= j < position(s, c) ==> s[j] != c,
        position(s, c) < s.len() ==> s[position(s, c)] == c,
        s.contains(c) <==> position(s, c) < s.len(),
    decreases s.len(),
{
    if s.len() > 0 && s[0] != c {
        lemma_position(s.skip(1), c);
        let p = position(s.skip(1), c);
        assert forall|j: int| 0 <= j < position(s, c) implies s[j] != c by {
            if j > 0 {
                assert(s[j] == s.skip(1)[j - 1]);
            }
        }
        if p < s.skip(1).len() {
            assert(s[p + 1] == s.skip(1)[p]);
        }
    }
}

/// The place of the first `c`, if any.
pub fn find_char(s: &str, c: char) -> (r: Option<usize>)
    ensures
        match r {
            Some(i) => i < s@.len() && i == position(s@, c),
            None => position(s@, c) == s@.len(),
        },
{
    let n: usize = s.unicode_len();
    let mut i: usize = 0;
    proof {
        lemma_position(s@, c);
    }
    while i < n
        invariant
            n == s@.len(),
            i <= n,
            i <= position(s@, c),
            forall|j: int| 0 <= j < position(s@, c) ==> s@[j] != c,
            position(s@, c) <= s@.len(),
            position(s@, c) < s@.len() ==> s@[position(s@, c)] == c,
        decreases n - i,
    {
        if s.get_char(i) == c {
            return Some(i);
        }
        i += 1;
    }
    None
}

/// The text without its leading white space.
pub open spec fn trimmed_start(s: Seq<char>) -> Seq<char>
    decreases s.len(),
{
    if s.len() > 0 && white_space(s[0]) {
        trimmed_start(s.skip(1))
    } else {
        s
    }
}

/// The text without its trailing white space.
pub open spec fn trimmed_end(s: Seq<char>) -> Seq<char>
    decreases s.len(),
{
    if s.len() > 0 && white_space(s.last()) {
        trimmed_end(s.drop_last())
    } else {
        s
    }
}

/// The text without the white space at its ends.
pub open spec fn trimmed(s: Seq<char>) -> Seq<char> {
    trimmed_end(trimmed_start(s))
}

/// The text without the white space at its ends.
pub fn trim<'a>(s: &'a str) -> (r: &'a str)
    ensures
        r@ == trimmed(s@),
{
    let n: usize = s.unicode_len();
    let mut from: usize = 0;
    assert(s@.skip(0) =~= s@);
    while from < n && is_white_space(s.get_char(from))
        invariant
            n == s@.len(),
            from <= n,
            trimmed_start(s@) == trimmed_start(s@.skip(from as int)),
        decreases n - from,
    {
        assert(s@.skip(from as int).skip(1) =~= s@.skip(from + 1));
        from += 1;
    }
    let ghost rest = s@.skip(from as int);
    let mut to: usize = n;
    assert(s@.subrange(from as int, n as int) =~= rest);
    while to > from && is_white_space(s.get_char(to - 1))
        invariant
            n == s@.len(),
            from <= to <= n,
            trimmed_end(rest) == trimmed_end(s@.subrange(from as int, to as int)),
        decreases to,
    {
        assert(s@.subrange(from as int, to as int).drop_last() =~= s@.subrange(from as int, to - 1));
        to -= 1;
    }
    s.substring_char(from, to)
}

// ---------------------------------------------------------------------------
// Splitting

/// The pieces of the text between the separators; one more than separators.
pub open spec fn split_on(s: Seq<char>, c: char) -> Seq<Seq<char>>
    decreases s.len(),
{
    if s.len() == 0 {
        seq![Seq::empty()]
    } else {
        let before = split_on(s.drop_last(), c);
        if s.last() == c {
            before.push(Seq::empty())
        } else {
            before.drop_last().push(before.last().push(s.last()))
        }
    }
}

/// Splitting always yields a piece.
pub proof fn lemma_split_nonempty(s: Seq<char>, c: char)
    ensures
        split_on(s, c).len() >= 1,
    decreases s.len(),
{
    if s.len() > 0 {
        lemma_split_nonempty(s.drop_last(), c);
    }
}

/// The pieces of the text between the separators.
pub fn split(s: &str, c: char) -> (r: Vec<String>)
    ensures
        texts(r@) == split_on(s@, c),
        r@.len() >= 1,
{
    let mut done: Vec<String> = Vec::new();
    let mut current = String::new();
    let n: usize = s.unicode_len();
    let mut i: usize = 0;
    assert(s@.take(0) =~= Seq::empty());
    assert(texts(done@).push(current@) =~= seq![Seq::<char>::empty()]);
    while i < n
        invariant
            n == s@.len(),
            i <= n,
            texts(done@).push(current@) =~= split_on(s@.take(i as int), c),
        decreases n - i,
    {
        let x = s.get_char(i);
        let ghost before = texts(done@).push(current@);
        assert(s@.take(i + 1).drop_last() =~= s@.take(i as int));
        if x == c {
            done.push(current);
            current = String::new();
            assert(texts(done@) =~= before);
        } else {
            current.push(x);
            assert(before.drop_last() =~= texts(done@));
        }
        i += 1;
    }
    assert(s@.take(n as int) =~= s@);
    done.push(current);
    assert(texts(done@) =~= split_on(s@, c));
    done
}

/// The line without the carriage return that ends it.
pub open spec fn without_return(line: Seq<char>) -> Seq<char> {
    if line.len() > 0 && line.last() == '\r' {
        line.drop_last()
    } else {
        line
    }
}

/// The lines of a text: pieces ended by `\n` or `\r\n`, and what follows the
/// last line end where that is not empty.
pub open spec fn text_lines(s: Seq<char>) -> Seq<Seq<char>> {
    let pieces = split_on(s, '\n');
    let ended = pieces.drop_last().map_values(|p: Seq<char>| without_return(p));
    if pieces.last().len() == 0 {
        ended
    } else {
        ended.push(pieces.last())
    }
}

/// The lines of a text.
pub fn lines(s: &str) -> (r: Vec<String>)
    ensures
        texts(r@) == text_lines(s@),
{
    let pieces = split(s, '\n');
    let mut out: Vec<String> = Vec::new();
    let mut i: usize = 0;
    let ghost all = split_on(s@, '\n');
    let last: usize = pieces.len() - 1;
    while i < last
        invariant
            last == pieces@.len() - 1,
            i <= last,
            texts(pieces@) == all,
            texts(out@) =~= all.take(i as int).map_values(|p: Seq<char>| without_return(p)),
        decreases last - i,
    {
        let piece = pieces[i].as_str();
        let ghost before = out@;
        assert(all[i as int] == piece@);
        let n: usize = piece.unicode_len();
        if n > 0 && piece.get_char(n - 1) == '\r' {
            assert(piece@.drop_last() =~= piece@.subrange(0, n - 1));
            out.push(piece.substring_char(0, n - 1).to_owned());
        } else {
            out.push(piece.to_owned());
        }
        proof {
            assert(out@.last()@ == without_return(all[i as int]));
            assert(all.take(i + 1) =~= all.take(i as int).push(all[i as int]));
            assert(texts(out@) =~= texts(before).push(without_return(all[i as int])));
        }
        i += 1;
    }
    assert(all.take(last as int) =~= all.drop_last());
    assert(all.last() == pieces@[last as int]@);
    if !pieces[last].as_str().is_empty() {
        out.push(pieces[last].as_str().to_owned());
    }
    assert(texts(out@) =~= text_lines(s@));
    out
}

/// The finished words and the word in progress after a text.
pub open spec fn word_scan(s: Seq<char>) -> (Seq<Seq<char>>, Seq<char>)
    decreases s.len(),
{
    if s.len() == 0 {
        (Seq::empty(), Seq::empty())
    } else {
        let (done, current) = word_scan(s.drop_last());
        if !white_space(s.last()) {
            (done, current.push(s.last()))
        } else if current.len() == 0 {
            (done, current)
        } else {
            (done.push(current), Seq::empty())
        }
    }
}

/// The words of a text: its longest runs without white space.
pub open spec fn words_of(s: Seq<char>) -> Seq<Seq<char>> {
    let (done, current) = word_scan(s);
    if current.len() == 0 {
        done
    } else {
        done.push(current)
    }
}

/// The words of a text.
pub fn words(s: &str) -> (r: Vec<String>)
    ensures
        texts(r@) == words_of(s@),
{
    let mut done: Vec<String> = Vec::new();
    let mut current = String::new();
    let n: usize = s.unicode_len();
    let mut i: usize = 0;
    assert(texts(done@) =~= word_scan(s@.take(0)).0);
    while i < n
        invariant
            n == s@.len(),
            i <= n,
            texts(done@) =~= word_scan(s@.take(i as int)).0,
            current@ =~= word_scan(s@.take(i as int)).1,
        decreases n - i,
    {
        let x = s.get_char(i);
        assert(s@.take(i + 1).drop_last() =~= s@.take(i as int));
        let ghost before = texts(done@);
        if !is_white_space(x) {
            current.push(x);
        } else if !current.as_str().is_empty() {
            done.push(current);
            current = String::new();
            assert(texts(done@) =~= before.push(word_scan(s@.take(i as int)).1));
        }
        i += 1;
    }
    assert(s@.take(n as int) =~= s@);
    if !current.as_str().is_empty() {
        done.push(current);
    }
    assert(texts(done@) =~= words_of(s@));
    done
}

// ---------------------------------------------------------------------------
// Decimal numbers

/// The value of a digit string.
pub open spec fn decimal_value(s: Seq<char>) -> nat
    decreases s.len(),
{
    if s.len() == 0 {
        0
    } else {
        10 * decimal_value(s.drop_last()) + (s.last() as int - '0' as int) as nat
    }
}

/// Whether every character is a digit.
pub open spec fn all_digits(s: Seq<char>) -> bool {
    forall|i: int| 0 <= i < s.len() ==> digit(#[trigger] s[i])
}

/// The digits of a decimal literal: a leading `+` is allowed.
pub open spec fn unsigned_digits(s: Seq<char>) -> Seq<char> {
    if s.len() > 0 && s[0] == '+' {
        s.skip(1)
    } else {
        s
    }
}

/// The number that a text denotes: an optional `+`, then at least one digit;
/// none where the text has another form or the number exceeds `max`.
pub open spec fn parsed_unsigned(s: Seq<char>, max: nat) -> Option<nat> {
    let digits = unsigned_digits(s);
    if digits.len() > 0 && all_digits(digits) && decimal_value(digits) <= max {
        Some(decimal_value(digits))
    } else {
        None
    }
}

/// A longer digit string denotes no smaller number.
proof fn lemma_decimal_monotone(s: Seq<char>, i: int)
    requires
        0 <= i <= s.len(),
        all_digits(s),
    ensures
        decimal_value(s.take(i)) <= decimal_value(s),
    decreases s.len() - i,
{
    if i < s.len() {
        assert(s.take(i + 1).drop_last() =~= s.take(i));
        assert(digit(s[i]));
        lemma_decimal_monotone(s, i + 1);
    } else {
        assert(s.take(i) =~= s);
    }
}

/// The number that a text denotes, where it is at most `max`.
pub fn parse_unsigned(s: &str, max: u64) -> (r: Option<u64>)
    ensures
        match r {
            Some(n) => parsed_unsigned(s@, max as nat) == Some(n as nat),
            None => parsed_unsigned(s@, max as nat) is None,
        },
{
    let n: usize = s.unicode_len();
    let from: usize = if n > 0 && s.get_char(0) == '+' { 1 } else { 0 };
    let ghost digits = unsigned_digits(s@);
    assert(digits =~= s@.skip(from as int));
    if from == n {
        return None;
    }
    let mut i: usize = from;
    let mut value: u64 = 0;
    while i < n
        invariant
            n == s@.len(),
            from <= i <= n,
            digits == s@.skip(from as int),
            digits == unsigned_digits(s@),
            value == decimal_value(digits.take(i - from)),
            value <= max,
            all_digits(digits.take(i - from)),
        decreases n - i,
    {
        let c = s.get_char(i);
        assert(digits[i - from] == c);
        if !is_digit(c) {
            return None;
        }
        let d: u64 = c as u64 - '0' as u64;
        let ghost next = digits.take(i - from + 1);
        assert(next.drop_last() =~= digits.take(i - from));
        assert(next.last() == c);
        assert(decimal_value(next) == 10 * value + d);
        let too_large: bool = value > (u64::MAX - d) / 10 || value * 10 + d > max;
        if too_large {
            proof {
                if all_digits(digits) {
                    lemma_decimal_monotone(digits, i - from + 1);
                }
            }
            return None;
        }
        value = value * 10 + d;
        i += 1;
    }
    assert(digits.take(n - from) =~= digits);
    Some(value)
}

/// The digit character of a number below ten.
pub open spec fn digit_char(n: nat) -> char {
    ('0' as int + n as int) as char
}

/// The decimal text of a number, without leading zeros.
pub open spec fn decimal(n: nat) -> Seq<char>
    decreases n,
{
    if n < 10 {
        seq![digit_char(n)]
    } else {
        decimal(n / 10).push(digit_char(n % 10))
    }
}

/// The digit character of a number below ten.
fn to_digit_char(n: u64) -> (c: char)
    requires
        n < 10,
    ensures
        c == digit_char(n as nat),
{
    ('0' as u8 + n as u8) as char
}

/// The decimal text of a number.
pub fn to_decimal(n: u64) -> (r: String)
    ensures
        r@ == decimal(n as nat),
    decreases n,
{
    if n < 10 {
        let mut out = String::new();
        out.push(to_digit_char(n));
        assert(out@ =~= decimal(n as nat));
        out
    } else {
        let mut out = to_decimal(n / 10);
        out.push(to_digit_char(n % 10));
        out
    }
}

/// The decimal text of a wide number.
pub fn to_decimal_wide(n: u128) -> (r: String)
    ensures
        r@ == decimal(n as nat),
    decreases n,
{
    if n <= u64::MAX as u128 {
        to_decimal(n as u64)
    } else {
        let mut out = to_decimal_wide(n / 10);
        out.push(to_digit_char((n % 10) as u64));
        out
    }
}

/// As many zeros.
pub open spec fn zeros(n: nat) -> Seq<char> {
    Seq::new(n, |i: int| '0')
}

/// The text with zeros in front so that it has at least `width` characters.
pub open spec fn padded(s: Seq<char>, width: nat) -> Seq<char> {
    if s.len() >= width {
        s
    } else {
        zeros((width - s.len()) as nat) + s
    }
}

/// The decimal text of a number with at least `width` digits.
pub fn to_padded(n: u64, width: usize) -> (r: String)
    ensures
        r@ == padded(decimal(n as nat), width as nat),
{
    let text = to_decimal(n);
    let len: usize = text.as_str().unicode_len();
    if len >= width {
        return text;
    }
    let missing: usize = width - len;
    let mut out = String::new();
    let mut i: usize = 0;
    while i < missing
        invariant
            i <= missing,
            out@ == zeros(i as nat),
        decreases missing - i,
    {
        out.push('0');
        i += 1;
        assert(out@ =~= zeros(i as nat));
    }
    out.append(text.as_str());
    out
}

/// Whether two lists of strings hold the same texts.
pub fn same_list(a: &[String], b: &[String]) -> (r: bool)
    ensures
        r == (texts(a@) == texts(b@)),
{
    if a.len() != b.len() {
        assert(texts(a@).len() != texts(b@).len());
        return false;
    }
    let mut i: usize = 0;
    while i < a.len()
        invariant
            a@.len() == b@.len(),
            i <= a@.len(),
            forall|j: int| 0 <= j < i ==> (#[trigger] a@[j])@ == b@[j]@,
        decreases a@.len() - i,
    {
        if !same(a[i].as_str(), b[i].as_str()) {
            assert(texts(a@)[i as int] != texts(b@)[i as int]);
            return false;
        }
        i += 1;
    }
    assert(texts(a@) =~= texts(b@));
    true
}

// ---------------------------------------------------------------------------
// Outside readings

/// What `String::from_utf8_lossy` makes of bytes.
pub uninterp spec fn lossy_text(bytes: Seq<u8>) -> Seq<char>;

/// `String::from_utf8_lossy`: the named text of the bytes, which is the text that
/// they encode where they are valid UTF-8.
#[verifier::external_body]
pub(crate) fn decode_lossy(bytes: &[u8]) -> (r: String)
    ensures
        r@ == lossy_text(bytes@),
        valid_utf8(bytes@) ==> encode_utf8(r@) == bytes@,
{
    String::from_utf8_lossy(bytes).into_owned()
}

/// The text of the error that `str::parse::<u64>` gives for a text.
pub uninterp spec fn number_error(s: Seq<char>) -> Seq<char>;

/// `str::parse::<u64>`: the number that the text denotes where it denotes one
/// that fits, and the named error where it does not.
#[verifier::external_body]
pub(crate) fn parse_u64(s: &str) -> (r: Result<u64, String>)
    ensures
        match r {
            Ok(n) => parsed_unsigned(s@, u64::MAX as nat) == Some(n as nat),
            Err(text) => parsed_unsigned(s@, u64::MAX as nat) is None && text@ == number_error(s@),
        },
{
    s.parse::<u64>().map_err(|error| error.to_string())
}

/// The place of the last `c` in `s`; minus one where there is none.
pub open spec fn last_position(s: Seq<char>, c: char) -> int
    decreases s.len(),
{
    if s.len() == 0 {
        -1
    } else if s.last() == c {
        s.len() - 1
    } else {
        last_position(s.drop_last(), c)
    }
}

/// The place of the last `c`, if any.
pub fn find_last_char(s: &str, c: char) -> (r: Option<usize>)
    ensures
        match r {
            Some(i) => i < s@.len() && i == last_position(s@, c),
            None => last_position(s@, c) == -1,
        },
{
    let n: usize = s.unicode_len();
    let mut i: usize = n;
    assert(s@.take(n as int) =~= s@);
    while i > 0
        invariant
            n == s@.len(),
            i <= n,
            last_position(s@.take(i as int), c) == last_position(s@, c),
        decreases i,
    {
        assert(s@.take(i as int).drop_last() =~= s@.take(i - 1));
        if s.get_char(i - 1) == c {
            return Some(i - 1);
        }
        i -= 1;
    }
    None
}

/// The text of the error that `str::parse::<u32>` gives for a text.
pub uninterp spec fn small_number_error(s: Seq<char>) -> Seq<char>;

/// `str::parse::<u32>`: the number that the text denotes where it denotes one
/// that fits, and the named error where it does not.
#[verifier::external_body]
pub(crate) fn parse_u32(s: &str) -> (r: Result<u32, String>)
    ensures
        match r {
            Ok(n) => parsed_unsigned(s@, u32::MAX as nat) == Some(n as nat),
            Err(text) => parsed_unsigned(s@, u32::MAX as nat) is None && text@
                == small_number_error(s@),
        },
{
    s.parse::<u32>().map_err(|error| error.to_string())
}

/// The place of the first occurrence of `sep` in `s`.
pub open spec fn text_position(s: Seq<char>, sep: Seq<char>) -> Option<int>
    decreases s.len(),
{
    if starts(s, sep) {
        Some(0)
    } else if s.len() == 0 {
        None
    } else {
        match text_position(s.skip(1), sep) {
            Some(i) => Some(i + 1),
            None => None,
        }
    }
}

/// An occurrence lies within the text.
pub proof fn lemma_text_position(s: Seq<char>, sep: Seq<char>)
    ensures
        text_position(s, sep) matches Some(i) ==> 0 <= i && i + sep.len() <= s.len(),
    decreases s.len(),
{
    if !starts(s, sep) && s.len() > 0 {
        lemma_text_position(s.skip(1), sep);
    }
}

/// The pieces between the occurrences of a separator that is not empty.
pub open spec fn split_at(s: Seq<char>, sep: Seq<char>) -> Seq<Seq<char>>
    decreases s.len(),
    when sep.len() > 0
    via split_at_decreases
{
    match text_position(s, sep) {
        None => seq![s],
        Some(i) => seq![s.take(i)] + split_at(s.skip(i + sep.len()), sep),
    }
}

#[via_fn]
proof fn split_at_decreases(s: Seq<char>, sep: Seq<char>) {
    lemma_text_position(s, sep);
}

fn find_text(s: &str, sep: &str) -> (r: Option<usize>)
    ensures
        match r {
            Some(i) => text_position(s@, sep@) == Some(i as int) && i + sep@.len() <= s@.len(),
            None => text_position(s@, sep@) is None,
        },
{
    let n: usize = s.unicode_len();
    let mut i: usize = 0;
    assert(s@.skip(0) =~= s@);
    proof {
        lemma_text_position(s@, sep@);
    }
    while i < n
        invariant
            n == s@.len(),
            i <= n,
            text_position(s@, sep@) == match text_position(s@.skip(i as int), sep@) {
                Some(k) => Some(k + i),
                None => None,
            },
            text_position(s@, sep@) matches Some(k) ==> k + sep@.len() <= s@.len(),
        decreases n - i,
    {
        let rest = s.substring_char(i, n);
        assert(rest@ =~= s@.skip(i as int));
        if starts_with(rest, sep) {
            return Some(i);
        }
        assert(s@.skip(i as int).skip(1) =~= s@.skip(i + 1));
        i += 1;
    }
    let rest = s.substring_char(n, n);
    assert(rest@ =~= s@.skip(n as int));
    if starts_with(rest, sep) {
        return Some(n);
    }
    None
}

/// The pieces between the occurrences of a separator.
pub fn split_text(s: &str, sep: &str) -> (r: Vec<String>)
    requires
        sep@.len() > 0,
    ensures
        texts(r@) == split_at(s@, sep@),
    decreases s@.len(),
{
    proof {
        lemma_text_position(s@, sep@);
    }
    match find_text(s, sep) {
        None => {
            let mut out: Vec<String> = Vec::new();
            out.push(s.to_owned());
            assert(texts(out@) =~= seq![s@]);
            out
        },
        Some(i) => {
            let n: usize = s.unicode_len();
            let width: usize = sep.unicode_len();
            let rest = s.substring_char(i + width, n);
            assert(rest@ =~= s@.skip(i + width));
            let mut out = split_text(rest, sep);
            let ghost tail = texts(out@);
            let head = s.substring_char(0, i).to_owned();
            assert(head@ =~= s@.take(i as int));
            out.insert(0, head);
            assert(texts(out@) =~= seq![s@.take(i as int)] + tail);
            out
        },
    }
}

/// The text without its trailing white space.
pub fn trim_end<'a>(s: &'a str) -> (r: &'a str)
    ensures
        r@ == trimmed_end(s@),
{
    let n: usize = s.unicode_len();
    let mut to: usize = n;
    assert(s@.take(n as int) =~= s@);
    while to > 0 && is_white_space(s.get_char(to - 1))
        invariant
            n == s@.len(),
            to <= n,
            trimmed_end(s@) == trimmed_end(s@.take(to as int)),
        decreases to,
    {
        assert(s@.take(to as int).drop_last() =~= s@.take(to - 1));
        to -= 1;
    }
    let out = s.substring_char(0, to);
    assert(out@ =~= s@.take(to as int));
    out
}

/// The decimal texts of numbers.
pub open spec fn decimals(numbers: Seq<u32>) -> Seq<Seq<char>> {
    numbers.map_values(|n: u32| decimal(n as nat))
}

/// The decimal texts of numbers, with a separator between them.
pub fn join_numbers(numbers: &[u32], sep: &str) -> (r: String)
    ensures
        r@ == joined(decimals(numbers@), sep@),
{
    let mut out: Vec<String> = Vec::new();
    let mut i: usize = 0;
    while i < numbers.len()
        invariant
            i <= numbers@.len(),
            out@.len() == i,
            forall|j: int| 0 <= j < i ==> (#[trigger] out@[j])@ == decimal(numbers@[j] as nat),
        decreases numbers@.len() - i,
    {
        out.push(to_decimal(numbers[i] as u64));
        i += 1;
    }
    assert(texts(out@) =~= decimals(numbers@));
    join(out.as_slice(), sep)
}

/// Numbers in brackets.
pub open spec fn number_list(numbers: Seq<u32>) -> Seq<char> {
    "["@ + joined(decimals(numbers), ", "@) + "]"@
}

/// Numbers in brackets.
pub fn show_numbers(numbers: &[u32]) -> (r: String)
    ensures
        r@ == number_list(numbers@),
{
    cat3("[", join_numbers(numbers, ", ").as_str(), "]")
}

/// The number that a text denotes: an optional sign, then at least one digit;
/// none where the text has another form or the number does not fit.
pub open spec fn parsed_signed(s: Seq<char>) -> Option<int> {
    if s.len() > 0 && s[0] == '-' {
        let digits = s.skip(1);
        if digits.len() > 0 && all_digits(digits) && decimal_value(digits) <= 0x8000_0000 {
            Some(-(decimal_value(digits) as int))
        } else {
            None
        }
    } else {
        match parsed_unsigned(s, 0x7fff_ffff) {
            Some(n) => Some(n as int),
            None => None,
        }
    }
}

/// The number of thirty-two bits that a text denotes.
pub fn parse_i32(s: &str) -> (r: Option<i32>)
    ensures
        match r {
            Some(n) => parsed_signed(s@) == Some(n as int),
            None => parsed_signed(s@) is None,
        },
{
    let n: usize = s.unicode_len();
    if n > 0 && s.get_char(0) == '-' {
        let digits = s.substring_char(1, n);
        assert(digits@ =~= s@.skip(1));
        if n > 1 && digits.get_char(0) == '+' {
            assert(!digit(digits@[0]));
            return None;
        }
        assert(unsigned_digits(digits@) == digits@);
        match parse_unsigned(digits, 0x8000_0000) {
            Some(value) => Some((0 - value as i64) as i32),
            None => None,
        }
    } else {
        match parse_unsigned(s, 0x7fff_ffff) {
            Some(value) => Some(value as i32),
            None => None,
        }
    }
}

/// The text that an optional string holds.
pub open spec fn text_of(value: Option<String>) -> Option<Seq<char>> {
    match value {
        Some(text) => Some(text@),
        None => None,
    }
}

/// What follows the marker on the last line that begins with it.
pub open spec fn last_marked(rows: Seq<Seq<char>>, marker: Seq<char>) -> Option<Seq<char>>
    decreases rows.len(),
{
    if rows.len() == 0 {
        None
    } else {
        match after_prefix(rows[rows.len() - 1], marker) {
            Some(payload) => Some(payload),
            None => last_marked(rows.drop_last(), marker),
        }
    }
}

/// What follows the marker on the last line that begins with it.
pub fn find_last_marked(output: &str, marker: &str) -> (r: Option<String>)
    ensures
        match r {
            Some(payload) => last_marked(text_lines(output@), marker@) == Some(payload@),
            None => last_marked(text_lines(output@), marker@) is None,
        },
{
    let rows = lines(output);
    let ghost all = text_lines(output@);
    let mut i: usize = rows.len();
    assert(all.take(i as int) =~= all);
    while i > 0
        invariant
            i <= rows@.len(),
            texts(rows@) == all,
            last_marked(all, marker@) == last_marked(all.take(i as int), marker@),
            all == text_lines(output@),
        decreases i,
    {
        proof {
            assert(all.take(i as int).drop_last() =~= all.take(i - 1));
            assert(all.take(i as int)[i - 1] == rows@[i - 1]@);
        }
        if let Some(payload) = strip_prefix(rows[i - 1].as_str(), marker) {
            return Some(payload.to_owned());
        }
        i -= 1;
    }
    None
}

/// A copy of an optional text.
pub fn copy_text(text: &Option<String>) -> (r: Option<String>)
    ensures
        r == *text,
{
    match text {
        Some(found) => Some(found.clone()),
        None => None,
    }
}

// ---------------------------------------------------------------------------
// Laws

/// The decimal text of a number consists of digits and denotes the number.
pub proof fn law_decimal_reads_back(n: nat)
    ensures
        decimal(n).len() > 0,
        all_digits(decimal(n)),
        decimal_value(decimal(n)) == n,
    decreases n,
{
    if n >= 10 {
        law_decimal_reads_back(n / 10);
        assert(decimal(n).drop_last() =~= decimal(n / 10));
        assert(digit(digit_char(n % 10)));
    } else {
        assert(decimal(n).drop_last() =~= Seq::empty());
        assert(decimal_value(decimal(n).drop_last()) == 0);
        assert(decimal(n).last() == digit_char(n));
    }
}

/// Numbers with the same decimal text are the same.
pub proof fn law_decimal_tells_numbers_apart(a: nat, b: nat)
    requires
        decimal(a) == decimal(b),
    ensures
        a == b,
{
    law_decimal_reads_back(a);
    law_decimal_reads_back(b);
}

/// Zeros in front of a digit string leave the number that it denotes.
pub proof fn law_padding_keeps_the_number(n: nat, width: nat)
    ensures
        padded(decimal(n), width).len() >= width,
        all_digits(padded(decimal(n), width)),
        decimal_value(padded(decimal(n), width)) == n,
{
    law_decimal_reads_back(n);
    if decimal(n).len() < width {
        lemma_zeros_in_front((width - decimal(n).len()) as nat, decimal(n));
    }
}

proof fn lemma_zeros_in_front(k: nat, s: Seq<char>)
    requires
        all_digits(s),
    ensures
        all_digits(zeros(k) + s),
        decimal_value(zeros(k) + s) == decimal_value(s),
    decreases s.len(), k,
{
    if s.len() > 0 {
        assert((zeros(k) + s).drop_last() =~= zeros(k) + s.drop_last());
        lemma_zeros_in_front(k, s.drop_last());
    } else if k > 0 {
        assert((zeros(k) + s).drop_last() =~= zeros((k - 1) as nat) + s);
        lemma_zeros_in_front((k - 1) as nat, s);
    } else {
        assert(zeros(k) + s =~= s);
    }
}

/// What holds no separator is added to the last piece.
proof fn lemma_split_on_appended(s: Seq<char>, t: Seq<char>, c: char)
    requires
        !t.contains(c),
    ensures
        split_on(s + t, c) == split_on(s, c).drop_last().push(split_on(s, c).last() + t),
    decreases t.len(),
{
    lemma_split_nonempty(s, c);
    let whole = split_on(s, c);
    if t.len() == 0 {
        assert(s + t =~= s);
        assert(whole.last() + t =~= whole.last());
        assert(whole.drop_last().push(whole.last()) =~= whole);
    } else {
        let shorter = t.drop_last();
        assert(!shorter.contains(c)) by {
            if shorter.contains(c) {
                let i = choose|i: int| 0 <= i < shorter.len() && shorter[i] == c;
                assert(t[i] == c);
            }
        }
        assert(t[t.len() - 1] != c);
        lemma_split_on_appended(s, shorter, c);
        assert((s + t).drop_last() =~= s + shorter);
        assert((whole.last() + shorter).push(t.last()) =~= whole.last() + t);
        assert(split_on(s + shorter, c).drop_last() =~= whole.drop_last());
    }
}

/// Splitting gives back the parts that were joined, where none of them holds the
/// separator.
pub proof fn law_split_undoes_join(parts: Seq<Seq<char>>, c: char)
    requires
        parts.len() > 0,
        forall|i: int| 0 <= i < parts.len() ==> !(#[trigger] parts[i]).contains(c),
    ensures
        split_on(joined(parts, seq![c]), c) == parts,
    decreases parts.len(),
{
    let last = parts.last();
    assert(!parts[parts.len() - 1].contains(c));
    if parts.len() == 1 {
        lemma_split_on_appended(Seq::empty(), last, c);
        assert(Seq::<char>::empty() + last =~= last);
        assert(split_on(Seq::empty(), c).drop_last().push(
            split_on(Seq::empty(), c).last() + last,
        ) =~= parts);
    } else {
        let before = parts.drop_last();
        assert forall|i: int| 0 <= i < before.len() implies !(#[trigger] before[i]).contains(c) by {
            assert(before[i] == parts[i]);
        }
        law_split_undoes_join(before, c);
        let head = joined(before, seq![c]) + seq![c];
        assert(head.drop_last() =~= joined(before, seq![c]));
        assert(split_on(head, c) == before.push(Seq::empty()));
        lemma_split_on_appended(head, last, c);
        assert(split_on(head, c).drop_last() =~= before);
        assert(Seq::<char>::empty() + last =~= last);
        assert(before.push(last) =~= parts);
    }
}

/// The pieces of a text hold no separator, and joining them gives the text back.
pub proof fn law_join_undoes_split(s: Seq<char>, c: char)
    ensures
        joined(split_on(s, c), seq![c]) == s,
        forall|i: int| 0 <= i < split_on(s, c).len() ==> !(#[trigger] split_on(s, c)[i]).contains(c),
    decreases s.len(),
{
    lemma_split_nonempty(s, c);
    let pieces = split_on(s, c);
    if s.len() == 0 {
        assert(joined(pieces, seq![c]) =~= s);
    } else {
        law_join_undoes_split(s.drop_last(), c);
        lemma_split_nonempty(s.drop_last(), c);
        let before = split_on(s.drop_last(), c);
        let x = s.last();
        if x == c {
            assert(pieces.drop_last() =~= before);
            assert(joined(pieces, seq![c]) =~= s.drop_last() + seq![c] + Seq::<char>::empty());
            assert(s =~= s.drop_last() + seq![c] + Seq::<char>::empty());
        } else {
            assert(pieces.drop_last() =~= before.drop_last());
            assert(joined(pieces, seq![c]) =~= joined(before, seq![c]).push(x));
            assert(s =~= s.drop_last().push(x));
            assert forall|i: int| 0 <= i < pieces.len() implies !(#[trigger] pieces[i]).contains(
                c,
            ) by {
                if i < before.len() - 1 {
                    assert(pieces[i] == before[i]);
                } else {
                    assert(!before[i].contains(c));
                    if pieces[i].contains(c) {
                        let k = choose|k: int| 0 <= k < pieces[i].len() && pieces[i][k] == c;
                        assert(k < before[i].len());
                        assert(before[i][k] == c);
                    }
                }
            }
        }
    }
}

/// The decimal text of a number is parsed as the number, where it is not too large.
pub proof fn law_decimal_is_parsed_back(n: nat, max: nat)
    ensures
        n <= max ==> parsed_unsigned(decimal(n), max) == Some(n),
        n > max ==> parsed_unsigned(decimal(n), max) is None,
{
    law_decimal_reads_back(n);
    assert(digit(decimal(n)[0]));
    assert(unsigned_digits(decimal(n)) == decimal(n));
}

/// The payload of the last line that begins with the marker is the one that counts,
/// whatever other lines stand before or behind it.
pub proof fn law_last_marked_line_counts(
    before: Seq<Seq<char>>,
    marker: Seq<char>,
    payload: Seq<char>,
    behind: Seq<Seq<char>>,
)
    requires
        forall|i: int| 0 <= i < behind.len() ==> !starts(#[trigger] behind[i], marker),
    ensures
        last_marked(before.push(marker + payload) + behind, marker) == Some(payload),
    decreases behind.len(),
{
    let rows = before.push(marker + payload) + behind;
    if behind.len() == 0 {
        let row = rows[rows.len() - 1];
        assert(row == marker + payload);
        assert(row.take(marker.len() as int) =~= marker);
        assert(row.skip(marker.len() as int) =~= payload);
    } else {
        assert(rows[rows.len() - 1] == behind[behind.len() - 1]);
        assert(rows.drop_last() =~= before.push(marker + payload) + behind.drop_last());
        assert forall|i: int| 0 <= i < behind.drop_last().len() implies !starts(
            #[trigger] behind.drop_last()[i],
            marker,
        ) by {
            assert(behind.drop_last()[i] == behind[i]);
        }
        law_last_marked_line_counts(before, marker, payload, behind.drop_last());
    }
}

} // verus!
