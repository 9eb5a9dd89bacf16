//! Record identities and the directories of the local state.

use crate::calendar::{
    earlier, law_earlier_moments_come_first, law_every_millisecond_has_its_moment,
    law_one_moment_for_each_millisecond, moment_of, utc_moment, UtcMoment, LAST_UNIX_MS,
};
use crate::dict::text_less;
use crate::error::InferlabError;
use crate::paths::joined_path;
use crate::text::{
    all_digits, cat2, cat4, cat6, debug, debug_text, decimal, digit, digit_char, is_digit, padded,
    same, to_decimal, to_padded,
};
use vstd::prelude::*;
use vstd::string::*;

verus! {

/// The root of the workspace-local state.
pub const STATE_DIR: &'static str = ".inferlab";

pub const CACHE_DIR: &'static str = ".inferlab/cache";

pub const RECORDS_DIR: &'static str = ".inferlab/records";

pub const RUNTIME_DIR: &'static str = ".inferlab/runtime";

pub const CONFIRMATION_CACHE_DIR: &'static str = ".inferlab/cache/confirmations";

pub const OBSERVATIONS_DIR: &'static str = ".inferlab/runtime/observations";

pub const RECORD_FILE: &'static str = "record.json";

/// What a record is of.
#[derive(Clone, Copy, Debug)]
pub enum RecordIdentity<'a> {
    Serve { server: &'a str, case: Option<&'a str> },
    Recipe { recipe: &'a str, case: Option<&'a str> },
    Bench { bench: &'a str },
    Image { image: &'a str },
}

/// Whether the result is the refusal of a lifecycle step with the text.
pub open spec fn refuses_lifecycle<T>(r: Result<T, InferlabError>, text: Seq<char>) -> bool {
    r matches Err(InferlabError::ServerLifecycle { message }) && message@ == text
}

/// The refusal of a lifecycle step.
pub fn lifecycle_error<T>(message: String) -> (r: Result<T, InferlabError>)
    ensures
        refuses_lifecycle(r, message@),
{
    Err(InferlabError::ServerLifecycle { message })
}

// ---------------------------------------------------------------------------
// Timestamps

/// The text of a moment: `YYYY-MM-DDTHH-MM-SS.mmmZ`.
pub open spec fn moment_text(m: UtcMoment) -> Seq<char> {
    padded(decimal(m.year as nat), 4) + ("-"@ + (padded(decimal(m.month as nat), 2) + ("-"@ + (
    padded(decimal(m.day as nat), 2) + ("T"@ + (padded(decimal(m.hour as nat), 2) + ("-"@ + (padded(
        decimal(m.minute as nat),
        2,
    ) + ("-"@ + (padded(decimal(m.second as nat), 2) + ("."@ + (padded(
        decimal(m.millisecond as nat),
        3,
    ) + "Z"@))))))))))))
}

/// Renders a moment.
pub fn render_moment(m: &UtcMoment) -> (r: String)
    ensures
        r@ == moment_text(*m),
{
    let tail = cat2(to_padded(m.millisecond as u64, 3).as_str(), "Z");
    let second = cat2(to_padded(m.second as u64, 2).as_str(), cat2(".", tail.as_str()).as_str());
    let minute = cat2(to_padded(m.minute as u64, 2).as_str(), cat2("-", second.as_str()).as_str());
    let hour = cat2(to_padded(m.hour as u64, 2).as_str(), cat2("-", minute.as_str()).as_str());
    let day = cat2(to_padded(m.day as u64, 2).as_str(), cat2("T", hour.as_str()).as_str());
    let month = cat2(to_padded(m.month as u64, 2).as_str(), cat2("-", day.as_str()).as_str());
    cat2(to_padded(m.year as u64, 4).as_str(), cat2("-", month.as_str()).as_str())
}

/// The timestamp of a count of milliseconds since the Unix epoch.
pub open spec fn timestamp_text(unix_ms: u64) -> Seq<char> {
    moment_text(moment_of(unix_ms))
}

/// A moment past the last that has a timestamp is refused.
pub open spec fn refuses_timestamp<T>(r: Result<T, InferlabError>) -> bool {
    refuses_lifecycle(
        r,
        "record timestamp is outside the supported range: "@ + "timestamp was not in range"@,
    )
}

/// The timestamp of a moment, in the shape that record identities begin with.
pub fn utc_timestamp(unix_ms: u64) -> (r: Result<String, InferlabError>)
    ensures
        if unix_ms <= LAST_UNIX_MS {
            r matches Ok(text) && text@ == timestamp_text(unix_ms)
        } else {
            refuses_timestamp(r)
        },
{
    match utc_moment(unix_ms) {
        Ok(moment) => Ok(render_moment(&moment)),
        Err(error) => lifecycle_error(
            cat2("record timestamp is outside the supported range: ", error.as_str()),
        ),
    }
}

// ---------------------------------------------------------------------------
// Identities

/// The identity of a record made at a moment by a process.
pub open spec fn identity_text(identity: RecordIdentity, timestamp: Seq<char>, pid: u32) -> Seq<
    char,
> {
    let tail = "-"@ + decimal(pid as nat);
    match identity {
        RecordIdentity::Serve { server, case } => match case {
            None => timestamp + "-serve-"@ + server@ + tail,
            Some(case) => timestamp + "-serve-"@ + server@ + "-"@ + case@ + tail,
        },
        RecordIdentity::Recipe { recipe, case } => match case {
            None => timestamp + "-recipe-"@ + recipe@ + tail,
            Some(case) => timestamp + "-recipe-"@ + recipe@ + "-"@ + case@ + tail,
        },
        RecordIdentity::Bench { bench } => timestamp + "-bench-"@ + bench@ + tail,
        RecordIdentity::Image { image } => timestamp + "-image-"@ + image@ + tail,
    }
}

/// Whether a record was given the identity of a moment and a process.
pub open spec fn identified(
    r: Result<String, InferlabError>,
    identity: RecordIdentity,
    unix_ms: u64,
    pid: u32,
) -> bool {
    if unix_ms <= LAST_UNIX_MS {
        r matches Ok(id) && id@ == identity_text(identity, timestamp_text(unix_ms), pid)
    } else {
        refuses_timestamp(r)
    }
}

/// The identity of a record made at a moment by a process.
pub fn record_id(identity: RecordIdentity, unix_ms: u64, pid: u32) -> (r: Result<
    String,
    InferlabError,
>)
    ensures
        identified(r, identity, unix_ms, pid),
{
    let timestamp = match utc_timestamp(unix_ms) {
        Ok(timestamp) => timestamp,
        Err(error) => return Err(error),
    };
    Ok(compose_identity(identity, timestamp.as_str(), pid))
}

/// The identity of a record with a timestamp, made by a process.
pub fn compose_identity(identity: RecordIdentity, timestamp: &str, pid: u32) -> (r: String)
    ensures
        r@ == identity_text(identity, timestamp@, pid),
{
    let tail = cat2("-", to_decimal(pid as u64).as_str());
    match identity {
        RecordIdentity::Serve { server, case } => match case {
            None => cat4(timestamp, "-serve-", server, tail.as_str()),
            Some(case) => cat6(timestamp, "-serve-", server, "-", case, tail.as_str()),
        },
        RecordIdentity::Recipe { recipe, case } => match case {
            None => cat4(timestamp, "-recipe-", recipe, tail.as_str()),
            Some(case) => cat6(timestamp, "-recipe-", recipe, "-", case, tail.as_str()),
        },
        RecordIdentity::Bench { bench } => cat4(timestamp, "-bench-", bench, tail.as_str()),
        RecordIdentity::Image { image } => cat4(timestamp, "-image-", image, tail.as_str()),
    }
}

/// The identity of a new record. The clock reading is the milliseconds since the
/// Unix epoch, or why there are none.
pub fn new_record_id(identity: RecordIdentity, clock: Result<u64, String>, pid: u32) -> (r: Result<
    String,
    InferlabError,
>)
    ensures
        match clock {
            Ok(unix_ms) => identified(r, identity, unix_ms, pid),
            Err(error) => refuses_lifecycle(r, "system clock is before Unix epoch: "@ + error@),
        },
{
    match clock {
        Ok(unix_ms) => record_id(identity, unix_ms, pid),
        Err(error) => lifecycle_error(
            cat2("system clock is before Unix epoch: ", error.as_str()),
        ),
    }
}

/// A character that a record identity may hold.
pub open spec fn id_char(c: char) -> bool {
    ('0' <= c && c <= '9') || ('a' <= c && c <= 'z') || ('A' <= c && c <= 'Z') || c == '-' || c
        == '_' || c == '.'
}

/// A name that may stand as one directory of the records.
pub open spec fn valid_id(id: Seq<char>) -> bool {
    id.len() > 0 && id != "."@ && id != ".."@ && forall|i: int|
        0 <= i < id.len() ==> id_char(#[trigger] id[i])
}

/// Checks the identity of a record.
pub fn validate_record_id(kind: &str, id: &str) -> (r: Result<(), InferlabError>)
    ensures
        if valid_id(id@) {
            r is Ok
        } else {
            refuses_lifecycle(r, "invalid "@ + kind@ + " id "@ + debug_text(id@))
        },
{
    let mut valid = !same(id, ".") && !same(id, "..") && id.unicode_len() > 0;
    let n: usize = id.unicode_len();
    let mut i: usize = 0;
    while i < n
        invariant
            n == id@.len(),
            i <= n,
            valid == (id@.len() > 0 && id@ != "."@ && id@ != ".."@ && forall|j: int|
                0 <= j < i ==> id_char(#[trigger] id@[j])),
        decreases n - i,
    {
        let c = id.get_char(i);
        let fine = is_digit(c) || ('a' <= c && c <= 'z') || ('A' <= c && c <= 'Z') || c == '-' || c
            == '_' || c == '.';
        assert(fine == id_char(id@[i as int]));
        valid = valid && fine;
        i += 1;
    }
    if valid {
        Ok(())
    } else {
        lifecycle_error(cat4("invalid ", kind, " id ", debug(id).as_str()))
    }
}

// ---------------------------------------------------------------------------
// Laws

/// A valid identity names one directory right under the records: it neither
/// leaves them nor descends.
pub proof fn law_valid_id_stays_under_the_records(records: Seq<char>, id: Seq<char>)
    requires
        valid_id(id),
        records.len() > 0,
        records.last() != '/',
    ensures
        joined_path(records, id) == records + "/"@ + id,
        !id.contains('/'),
        id != ".."@,
{
    assert(id_char(id[0]));
    assert(!id.contains('/')) by {
        if id.contains('/') {
            let i = choose|i: int| 0 <= i < id.len() && id[i] == '/';
            assert(id_char(id[i]));
        }
    }
}

/// The last digits of a number, as many as asked for.
pub open spec fn digits(n: nat, width: nat) -> Seq<char>
    decreases width,
{
    if width == 0 {
        Seq::empty()
    } else {
        digits(n / 10, (width - 1) as nat).push(digit_char(n % 10))
    }
}

/// Ten to a power.
pub open spec fn ten_to(width: nat) -> nat
    decreases width,
{
    if width == 0 {
        1
    } else {
        10 * ten_to((width - 1) as nat)
    }
}

/// A padded number that fits has its last digits.
proof fn lemma_padded_digits(n: nat, width: nat)
    requires
        width >= 1,
        n < ten_to(width),
    ensures
        padded(decimal(n), width) == digits(n, width),
        decimal(n).len() <= width,
        digits(n, width).len() == width,
    decreases width,
{
    reveal_with_fuel(digits, 2);
    reveal_with_fuel(ten_to, 2);
    if width == 1 {
        assert(padded(decimal(n), 1) =~= digits(n, 1));
    } else {
        let less = (width - 1) as nat;
        if n < 10 {
            assert(n / 10 == 0);
            assert(ten_to(less) >= 1) by {
                lemma_ten_to(less);
            }
            lemma_padded_digits(0, less);
            assert(decimal(n) =~= seq![digit_char(n)]);
            assert(digits(n, width) =~= padded(decimal(0), less).push(digit_char(n)));
            assert(padded(decimal(n), width) =~= digits(n, width));
        } else {
            assert(n / 10 < ten_to(less));
            lemma_padded_digits(n / 10, less);
            assert(padded(decimal(n), width) =~= padded(decimal(n / 10), less).push(
                digit_char(n % 10),
            ));
        }
    }
}

proof fn lemma_ten_to(width: nat)
    ensures
        ten_to(width) >= 1,
    decreases width,
{
    if width > 0 {
        lemma_ten_to((width - 1) as nat);
    }
}

/// What stands in front of two texts does not change their order.
proof fn lemma_less_behind(front: Seq<char>, a: Seq<char>, b: Seq<char>)
    requires
        text_less(a, b),
    ensures
        text_less(front + a, front + b),
    decreases front.len(),
{
    if front.len() == 0 {
        assert(front + a =~= a);
        assert(front + b =~= b);
    } else {
        lemma_less_behind(front.skip(1), a, b);
        assert((front + a).skip(1) =~= front.skip(1) + a);
        assert((front + b).skip(1) =~= front.skip(1) + b);
        assert((front + a)[0] == (front + b)[0]);
    }
}

/// What follows two different texts of one length does not change their order.
proof fn lemma_less_before(a: Seq<char>, b: Seq<char>, x: Seq<char>, y: Seq<char>)
    requires
        a.len() == b.len(),
        text_less(a, b),
    ensures
        text_less(a + x, b + y),
    decreases a.len(),
{
    assert((a + x)[0] == a[0]);
    assert((b + y)[0] == b[0]);
    if a[0] == b[0] {
        assert((a + x).skip(1) =~= a.skip(1) + x);
        assert((b + y).skip(1) =~= b.skip(1) + y);
        lemma_less_before(a.skip(1), b.skip(1), x, y);
    }
}

/// The digits of a smaller number come first.
proof fn lemma_digits_less(n: nat, m: nat, width: nat)
    requires
        n < m < ten_to(width),
    ensures
        text_less(digits(n, width), digits(m, width)),
        digits(n, width).len() == digits(m, width).len(),
    decreases width,
{
    if width > 0 {
        let less = (width - 1) as nat;
        let a = digits(n / 10, less);
        let b = digits(m / 10, less);
        let x = seq![digit_char(n % 10)];
        let y = seq![digit_char(m % 10)];
        assert(digits(n, width) =~= a + x);
        assert(digits(m, width) =~= b + y);
        if n / 10 < m / 10 {
            lemma_digits_less(n / 10, m / 10, less);
            lemma_less_before(a, b, x, y);
        } else {
            assert(n % 10 < m % 10);
            assert(x[0] < y[0]);
            assert(text_less(x, y));
            lemma_less_behind(a, x, y);
        }
    }
}

/// Two fields in front of two rests: the first fields decide, then the rests.
proof fn lemma_field(n: nat, m: nat, width: nat, mark: Seq<char>, x: Seq<char>, y: Seq<char>)
    requires
        width >= 1,
        n < ten_to(width),
        m < ten_to(width),
        n < m || (n == m && text_less(x, y)),
    ensures
        text_less(
            padded(decimal(n), width) + (mark + x),
            padded(decimal(m), width) + (mark + y),
        ),
{
    lemma_padded_digits(n, width);
    lemma_padded_digits(m, width);
    if n < m {
        lemma_digits_less(n, m, width);
        lemma_less_before(digits(n, width), digits(m, width), mark + x, mark + y);
    } else {
        lemma_less_behind(mark, x, y);
        lemma_less_behind(padded(decimal(n), width), mark + x, mark + y);
    }
}

/// Timestamps sort as text in the order of their moments, so the greatest record
/// identity is the newest record.
pub proof fn law_timestamps_sort_by_moment(a: UtcMoment, b: UtcMoment)
    requires
        a.valid(),
        b.valid(),
        earlier(a, b),
    ensures
        text_less(moment_text(a), moment_text(b)),
{
    reveal_with_fuel(ten_to, 5);
    let z = Seq::<char>::empty();
    let a6 = padded(decimal(a.millisecond as nat), 3) + "Z"@;
    let b6 = padded(decimal(b.millisecond as nat), 3) + "Z"@;
    let a5 = padded(decimal(a.second as nat), 2) + ("."@ + a6);
    let b5 = padded(decimal(b.second as nat), 2) + ("."@ + b6);
    let a4 = padded(decimal(a.minute as nat), 2) + ("-"@ + a5);
    let b4 = padded(decimal(b.minute as nat), 2) + ("-"@ + b5);
    let a3 = padded(decimal(a.hour as nat), 2) + ("-"@ + a4);
    let b3 = padded(decimal(b.hour as nat), 2) + ("-"@ + b4);
    let a2 = padded(decimal(a.day as nat), 2) + ("T"@ + a3);
    let b2 = padded(decimal(b.day as nat), 2) + ("T"@ + b3);
    let a1 = padded(decimal(a.month as nat), 2) + ("-"@ + a2);
    let b1 = padded(decimal(b.month as nat), 2) + ("-"@ + b2);
    if a.year == b.year {
        if a.month == b.month {
            if a.day == b.day {
                if a.hour == b.hour {
                    if a.minute == b.minute {
                        if a.second == b.second {
                            let n = a.millisecond as nat;
                            let m = b.millisecond as nat;
                            lemma_padded_digits(n, 3);
                            lemma_padded_digits(m, 3);
                            lemma_digits_less(n, m, 3);
                            lemma_less_before(digits(n, 3), digits(m, 3), "Z"@, "Z"@);
                        }
                        lemma_field(a.second as nat, b.second as nat, 2, "."@, a6, b6);
                    }
                    lemma_field(a.minute as nat, b.minute as nat, 2, "-"@, a5, b5);
                }
                lemma_field(a.hour as nat, b.hour as nat, 2, "-"@, a4, b4);
            }
            lemma_field(a.day as nat, b.day as nat, 2, "T"@, a3, b3);
        }
        lemma_field(a.month as nat, b.month as nat, 2, "-"@, a2, b2);
    }
    lemma_field(a.year as nat, b.year as nat, 4, "-"@, a1, b1);
}

/// What a timestamp looks like: `YYYY-MM-DDTHH-MM-SS.mmmZ`.
pub open spec fn timestamp_shaped(text: Seq<char>) -> bool {
    text.len() == 24 && forall|i: int|
        0 <= i < 24 ==> if i == 4 || i == 7 || i == 13 || i == 16 {
            #[trigger] text[i] == '-'
        } else if i == 10 {
            text[i] == 'T'
        } else if i == 19 {
            text[i] == '.'
        } else if i == 23 {
            text[i] == 'Z'
        } else {
            digit(text[i])
        }
}

/// The digits of a number are digits.
proof fn lemma_digits_are_digits(n: nat, width: nat)
    ensures
        digits(n, width).len() == width,
        all_digits(digits(n, width)),
    decreases width,
{
    if width > 0 {
        lemma_digits_are_digits(n / 10, (width - 1) as nat);
    }
}

/// A field of a timestamp has its digits.
proof fn lemma_field_shape(n: nat, width: nat)
    requires
        width >= 1,
        n < ten_to(width),
    ensures
        padded(decimal(n), width).len() == width,
        all_digits(padded(decimal(n), width)),
{
    lemma_padded_digits(n, width);
    lemma_digits_are_digits(n, width);
}

/// The text of a moment has the shape of a timestamp.
proof fn lemma_moment_shape(m: UtcMoment)
    requires
        m.valid(),
    ensures
        timestamp_shaped(moment_text(m)),
{
    reveal_with_fuel(ten_to, 5);
    reveal_strlit("-");
    reveal_strlit("T");
    reveal_strlit(".");
    reveal_strlit("Z");
    lemma_field_shape(m.year as nat, 4);
    lemma_field_shape(m.month as nat, 2);
    lemma_field_shape(m.day as nat, 2);
    lemma_field_shape(m.hour as nat, 2);
    lemma_field_shape(m.minute as nat, 2);
    lemma_field_shape(m.second as nat, 2);
    lemma_field_shape(m.millisecond as nat, 3);
}

/// Timestamps sort as text in the order of time, and each has the one shape of 24
/// characters.
pub proof fn law_timestamps_sort_by_time(a: u64, b: u64)
    requires
        a < b <= LAST_UNIX_MS,
    ensures
        timestamp_shaped(timestamp_text(a)),
        timestamp_shaped(timestamp_text(b)),
        text_less(timestamp_text(a), timestamp_text(b)),
{
    law_every_millisecond_has_its_moment(a);
    law_every_millisecond_has_its_moment(b);
    let x = moment_of(a);
    let y = moment_of(b);
    lemma_moment_shape(x);
    lemma_moment_shape(y);
    if earlier(y, x) {
        law_earlier_moments_come_first(y, x);
    }
    assert(x != y);
    assert(earlier(x, y));
    law_timestamps_sort_by_moment(x, y);
}

/// Time begins at the Unix epoch.
pub proof fn law_the_epoch_has_the_first_timestamp()
    ensures
        timestamp_text(0) == "1970-01-01T00-00-00.000Z"@,
{
    let epoch = UtcMoment {
        year: 1970,
        month: 1,
        day: 1,
        hour: 0,
        minute: 0,
        second: 0,
        millisecond: 0,
    };
    assert(epoch.marks(0));
    law_every_millisecond_has_its_moment(0);
    law_one_moment_for_each_millisecond(epoch, moment_of(0));
    reveal_with_fuel(ten_to, 5);
    reveal_with_fuel(digits, 5);
    lemma_padded_digits(1970, 4);
    lemma_padded_digits(1, 2);
    lemma_padded_digits(0, 2);
    lemma_padded_digits(0, 3);
    reveal_strlit("-");
    reveal_strlit("T");
    reveal_strlit(".");
    reveal_strlit("Z");
    reveal_strlit("1970-01-01T00-00-00.000Z");
    assert(digits(1970, 4) =~= seq!['1', '9', '7', '0']);
    assert(digits(1, 2) =~= seq!['0', '1']);
    assert(digits(0, 2) =~= seq!['0', '0']);
    assert(digits(0, 3) =~= seq!['0', '0', '0']);
    assert(moment_text(epoch) =~= "1970-01-01T00-00-00.000Z"@);
}

/// What an identity says behind its timestamp.
pub open spec fn identity_tail(identity: RecordIdentity, pid: u32) -> Seq<char> {
    identity_text(identity, Seq::empty(), pid)
}

/// An identity begins with its timestamp.
proof fn lemma_identity_begins(identity: RecordIdentity, timestamp: Seq<char>, pid: u32)
    ensures
        identity_text(identity, timestamp, pid) == timestamp + identity_tail(identity, pid),
{
    assert(identity_text(identity, timestamp, pid) =~= timestamp + identity_tail(identity, pid));
}

/// The identity of a record sorts before that of any record made later, whatever
/// the two are of and whichever processes made them: the greatest identity is the
/// newest record.
pub proof fn law_identities_sort_by_time(
    a: u64,
    b: u64,
    first: RecordIdentity,
    second: RecordIdentity,
    first_pid: u32,
    second_pid: u32,
)
    requires
        a < b <= LAST_UNIX_MS,
    ensures
        text_less(
            identity_text(first, timestamp_text(a), first_pid),
            identity_text(second, timestamp_text(b), second_pid),
        ),
{
    law_timestamps_sort_by_time(a, b);
    lemma_identity_begins(first, timestamp_text(a), first_pid);
    lemma_identity_begins(second, timestamp_text(b), second_pid);
    lemma_less_before(
        timestamp_text(a),
        timestamp_text(b),
        identity_tail(first, first_pid),
        identity_tail(second, second_pid),
    );
}

/// An identity begins with the moment of its record, says what the record is of, and
/// ends with the process that made it: records of one moment and one thing that two
/// processes make differ, and so do those of two servers, two recipes or a server and a
/// recipe that one process makes.
pub proof fn law_identities_tell_records_apart(
    one: &str,
    other: &str,
    timestamp: Seq<char>,
    a: u32,
    b: u32,
)
    ensures
        ({
            let serve = RecordIdentity::Serve { server: one, case: None };
            let recipe = RecordIdentity::Recipe { recipe: one, case: None };
            &&& a != b ==> identity_text(serve, timestamp, a) != identity_text(serve, timestamp, b)
            &&& a != b ==> identity_text(recipe, timestamp, a) != identity_text(recipe, timestamp, b)
            &&& one@ != other@ ==> identity_text(serve, timestamp, a) != identity_text(
                RecordIdentity::Serve { server: other, case: None },
                timestamp,
                a,
            )
            &&& one@ != other@ ==> identity_text(recipe, timestamp, a) != identity_text(
                RecordIdentity::Recipe { recipe: other, case: None },
                timestamp,
                a,
            )
            &&& identity_text(serve, timestamp, a) != identity_text(
                RecordIdentity::Recipe { recipe: other, case: None },
                timestamp,
                b,
            )
            &&& identity_text(serve, timestamp, a).take(timestamp.len() as int) == timestamp
            &&& identity_text(recipe, timestamp, a).take(timestamp.len() as int) == timestamp
        }),
{
    reveal_strlit("-serve-");
    reveal_strlit("-recipe-");
    reveal_strlit("-");
    lemma_parts_tell(timestamp + "-serve-"@, one@, other@, a, b);
    lemma_parts_tell(timestamp + "-recipe-"@, one@, other@, a, b);
    let serve = identity_text(RecordIdentity::Serve { server: one, case: None }, timestamp, a);
    let recipe = identity_text(
        RecordIdentity::Recipe { recipe: other, case: None },
        timestamp,
        b,
    );
    assert(serve[timestamp.len() as int + 1] == 's');
    assert(recipe[timestamp.len() as int + 1] == 'r');
    assert(serve.take(timestamp.len() as int) =~= timestamp);
    assert(identity_text(
        RecordIdentity::Recipe { recipe: one, case: None },
        timestamp,
        a,
    ).take(timestamp.len() as int) =~= timestamp);
}

proof fn lemma_parts_tell(head: Seq<char>, one: Seq<char>, other: Seq<char>, a: u32, b: u32)
    ensures
        a != b ==> head + one + ("-"@ + decimal(a as nat)) != head + one + ("-"@ + decimal(
            b as nat,
        )),
        one != other ==> head + one + ("-"@ + decimal(a as nat)) != head + other + ("-"@ + decimal(
            a as nat,
        )),
{
    let tail = "-"@ + decimal(a as nat);
    let first = head + one + tail;
    if a != b {
        let second = head + one + ("-"@ + decimal(b as nat));
        if first == second {
            let n = (head + one + "-"@).len() as int;
            assert(first.skip(n) =~= decimal(a as nat));
            assert(second.skip(n) =~= decimal(b as nat));
            crate::text::law_decimal_tells_numbers_apart(a as nat, b as nat);
        }
    }
    if one != other {
        let second = head + other + tail;
        if first == second {
            assert(first.len() == head.len() + one.len() + tail.len());
            assert(second.len() == head.len() + other.len() + tail.len());
            assert(first.subrange(head.len() as int, head.len() as int + one.len()) =~= one);
            assert(second.subrange(head.len() as int, head.len() as int + one.len()) =~= other);
        }
    }
}

} // verus!
