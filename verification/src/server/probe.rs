//! Probes over HTTP: their request, the transfer within the time of an attempt,
//! and what the response tells.

use crate::json_value::{json_parsed, read_json, JsonTree, JsonValue};
use crate::resolve::allocation::TargetRegistryPlan;
use crate::search::{first_index, lemma_first_index_is, lemma_first_index};
use crate::server::readiness::attempt_remaining;
use crate::server::registry::{
    expired_words, match_target_registry, matches_are, readiness_remaining, registry_told, MatchView,
    TargetRegistryMatchEvidence,
};
use crate::text::{
    cat2, cat3, cat4, cat7, debug, debug_text, decimal, decode_bytes, lines, parse_unsigned,
    parsed_unsigned, text_lines, texts, to_decimal, utf8_error, words, words_of,
};
use crate::time_bound::{AttemptBound, OperationBound, Remaining};
use vstd::prelude::*;
use vstd::slice::{slice_subrange, slice_to_vec};
use vstd::string::*;
use vstd::utf8::*;

verus! {

/// The request for a path.
pub open spec fn request_text(host: Seq<char>, port: u16, path: Seq<char>) -> Seq<char> {
    "GET "@ + path + " HTTP/1.1\r\nHost: "@ + host + ":"@ + decimal(port as nat)
        + "\r\nConnection: close\r\n\r\n"@
}

/// The request for a path.
pub fn http_request(host: &str, port: u16, path: &str) -> (r: String)
    ensures
        r@ == request_text(host@, port, path@),
{
    cat7(
        "GET ",
        path,
        " HTTP/1.1\r\nHost: ",
        host,
        ":",
        to_decimal(port as u64).as_str(),
        "\r\nConnection: close\r\n\r\n",
    )
}

// ---------------------------------------------------------------------------
// Transfer

/// What an attempt that has no time left is told, if it has none.
pub open spec fn overdue(attempt: AttemptBound, now: u128) -> Option<Seq<char>> {
    match attempt.kind.left_at(now) {
        Remaining::Finite(_) => None,
        Remaining::Expired => Some(expired_words()),
        Remaining::Unbounded => Some("bounded readiness attempt was unexpectedly unbounded"@),
    }
}

/// The time that an attempt has to connect. `resolved` says whether the endpoint
/// has an address, or why that is not known.
pub fn connect_within_attempt(
    attempt: &AttemptBound,
    resolved: &Result<bool, String>,
    now: u128,
    label: &str,
) -> (r: Result<u128, String>)
    ensures
        match *resolved {
            Err(error) => r matches Err(found) && found@ == "failed to resolve "@ + label@
                + " endpoint: "@ + error@,
            Ok(false) => r matches Err(found) && found@ == label@
                + " endpoint did not resolve to an address"@,
            Ok(true) => match overdue(*attempt, now) {
                Some(text) => r matches Err(found) && found@ == text,
                None => r matches Ok(left) && attempt.kind.left_at(now) == Remaining::Finite(left),
            },
        },
{
    match resolved {
        Err(error) => Err(cat4("failed to resolve ", label, " endpoint: ", error.as_str())),
        Ok(false) => Err(cat2(label, " endpoint did not resolve to an address")),
        Ok(true) => attempt_remaining(attempt, now),
    }
}

/// What came of one write.
#[derive(Debug)]
pub enum WriteOutcome {
    Wrote { count: usize },
    TimedOut,
    Failed { error: String },
}

/// What came of one read.
#[derive(Debug)]
pub enum ReadOutcome {
    /// Some bytes; none at the end.
    Data { bytes: Vec<u8> },
    TimedOut,
    Failed { error: String },
}

/// How a transfer goes on.
#[derive(Debug)]
pub enum TransferTurn {
    More,
    Done,
    Failed { error: String },
}

/// Whether a transfer failed with the text.
pub open spec fn transfer_fails(turn: TransferTurn, text: Seq<char>) -> bool {
    turn matches TransferTurn::Failed { error } && error@ == text
}

/// Whether a turn, and the bytes sent after it, are what a write within an attempt calls
/// for.
pub open spec fn write_turn(
    before: usize,
    after: usize,
    total: usize,
    outcome: WriteOutcome,
    attempt: AttemptBound,
    now: u128,
    label: Seq<char>,
    r: TransferTurn,
) -> bool {
    match outcome {
        WriteOutcome::TimedOut => after == before && transfer_fails(r, expired_words()),
        WriteOutcome::Failed { error } => after == before && transfer_fails(
            r,
            "failed to write "@ + label + " request: "@ + error@,
        ),
        WriteOutcome::Wrote { count } => if count == 0 {
            after == before && transfer_fails(
                r,
                "failed to write "@ + label + " request: connection closed"@,
            )
        } else {
            match overdue(attempt, now) {
                Some(text) => after == before && transfer_fails(r, text),
                None => after == before + count && if after == total {
                    r is Done
                } else {
                    r is More
                },
            }
        },
    }
}

/// One write of a request within an attempt. `sent` counts the bytes that were
/// written.
pub fn write_within_attempt(
    sent: &mut usize,
    total: usize,
    outcome: &WriteOutcome,
    attempt: &AttemptBound,
    now: u128,
    label: &str,
) -> (r: TransferTurn)
    requires
        *old(sent) <= total,
        outcome matches WriteOutcome::Wrote { count } ==> *old(sent) + *count <= total,
    ensures
        write_turn(*old(sent), *final(sent), total, *outcome, *attempt, now, label@, r),
{
    match outcome {
        WriteOutcome::TimedOut => TransferTurn::Failed {
            error: "readiness operation deadline expired".to_owned(),
        },
        WriteOutcome::Failed { error } => TransferTurn::Failed {
            error: cat4("failed to write ", label, " request: ", error.as_str()),
        },
        WriteOutcome::Wrote { count } => {
            if *count == 0 {
                return TransferTurn::Failed {
                    error: cat3("failed to write ", label, " request: connection closed"),
                };
            }
            match attempt_remaining(attempt, now) {
                Err(error) => return TransferTurn::Failed { error },
                Ok(_) => {},
            }
            *sent = *sent + *count;
            if *sent == total {
                TransferTurn::Done
            } else {
                TransferTurn::More
            }
        },
    }
}

/// Whether the bytes hold a line end.
pub open spec fn has_newline(bytes: Seq<u8>) -> bool {
    exists|i: int| 0 <= i < bytes.len() && #[trigger] bytes[i] == 10
}

fn contains_newline(bytes: &Vec<u8>) -> (r: bool)
    ensures
        r == has_newline(bytes@),
{
    let mut i: usize = 0;
    while i < bytes.len()
        invariant
            i <= bytes@.len(),
            forall|j: int| 0 <= j < i ==> #[trigger] bytes@[j] != 10,
        decreases bytes@.len() - i,
    {
        if bytes[i] == 10 {
            return true;
        }
        i += 1;
    }
    false
}

/// Whether a turn, and the response after it, are what a read within an attempt calls for.
pub open spec fn read_turn(
    before: Seq<u8>,
    after: Seq<u8>,
    outcome: ReadOutcome,
    attempt: AttemptBound,
    now: u128,
    stop_at_newline: bool,
    label: Seq<char>,
    r: TransferTurn,
) -> bool {
    match outcome {
        ReadOutcome::TimedOut => after == before && transfer_fails(r, expired_words()),
        ReadOutcome::Failed { error } => after == before && transfer_fails(
            r,
            "failed to read "@ + label + " response: "@ + error@,
        ),
        ReadOutcome::Data { bytes } => match overdue(attempt, now) {
            Some(text) => after == before && transfer_fails(r, text),
            None => after == before + bytes@ && if bytes@.len() == 0 || (stop_at_newline
                && has_newline(after)) {
                r is Done
            } else {
                r is More
            },
        },
    }
}

/// One read of a response within an attempt. A response of which only the first
/// line counts ends with it.
pub fn read_within_attempt(
    response: &mut Vec<u8>,
    outcome: ReadOutcome,
    attempt: &AttemptBound,
    now: u128,
    stop_at_newline: bool,
    label: &str,
) -> (r: TransferTurn)
    ensures
        read_turn(
            old(response)@,
            final(response)@,
            outcome,
            *attempt,
            now,
            stop_at_newline,
            label@,
            r,
        ),
{
    match outcome {
        ReadOutcome::TimedOut => TransferTurn::Failed {
            error: "readiness operation deadline expired".to_owned(),
        },
        ReadOutcome::Failed { error } => TransferTurn::Failed {
            error: cat4("failed to read ", label, " response: ", error.as_str()),
        },
        ReadOutcome::Data { bytes } => {
            match attempt_remaining(attempt, now) {
                Err(error) => return TransferTurn::Failed { error },
                Ok(_) => {},
            }
            let mut bytes = bytes;
            if bytes.len() == 0 {
                assert(response@ + bytes@ =~= response@);
                return TransferTurn::Done;
            }
            response.append(&mut bytes);
            if stop_at_newline && contains_newline(response) {
                TransferTurn::Done
            } else {
                TransferTurn::More
            }
        },
    }
}

// ---------------------------------------------------------------------------
// Responses

/// The status that a status line gives.
pub open spec fn line_status(line: Seq<char>) -> Option<nat> {
    let fields = words_of(line);
    if fields.len() < 2 {
        None
    } else {
        parsed_unsigned(fields[1], u16::MAX as nat)
    }
}

/// What is wrong with a status line.
pub open spec fn status_line_fault(line: Seq<char>, label: Seq<char>) -> Option<Seq<char>> {
    match line_status(line) {
        None => Some("invalid "@ + label + " HTTP status line "@ + debug_text(line)),
        Some(status) => if 200 <= status < 300 {
            None
        } else {
            Some(label + " returned HTTP "@ + decimal(status))
        },
    }
}

/// Refuses a status line that is not one of success.
fn check_status_line(line: &str, label: &str) -> (r: Result<(), String>)
    ensures
        crate::server::handle::checked(r, status_line_fault(line@, label@)),
{
    let fields = words(line);
    assert(texts(fields@).len() == fields@.len());
    let mut status: Option<u64> = None;
    if fields.len() >= 2 {
        assert(texts(fields@)[1] == fields@[1]@);
        status = parse_unsigned(fields[1].as_str(), u16::MAX as u64);
    }
    match status {
        None => Err(cat4("invalid ", label, " HTTP status line ", debug(line).as_str())),
        Some(code) => if 200 <= code && code < 300 {
            Ok(())
        } else {
            Err(cat3(label, " returned HTTP ", to_decimal(code).as_str()))
        },
    }
}

/// What is wrong with the answer to a readiness probe.
pub open spec fn answer_fault(response: Seq<u8>) -> Option<Seq<char>> {
    if !valid_utf8(response) {
        Some("readiness returned a non-UTF-8 status line: "@ + utf8_error(response))
    } else {
        status_line_fault(decode_utf8(response), "readiness"@)
    }
}

/// Refuses an answer to a readiness probe that is not one of success.
pub fn probe_http(response: Vec<u8>) -> (r: Result<(), String>)
    ensures
        crate::server::handle::checked(r, answer_fault(response@)),
{
    match decode_bytes(response) {
        Err(error) => Err(
            cat2("readiness returned a non-UTF-8 status line: ", error.as_str()),
        ),
        Ok(text) => check_status_line(text.as_str(), "readiness"),
    }
}

/// Whether a blank line begins at a place in a response.
pub open spec fn blank_at(response: Seq<u8>) -> spec_fn(int) -> bool {
    |i: int|
        i + 3 < response.len() && response[i] == 13 && response[i + 1] == 10 && response[i + 2]
            == 13 && response[i + 3] == 10
}

/// Where the headers of a response end.
pub open spec fn header_end(response: Seq<u8>) -> Option<int> {
    first_index(response.len(), blank_at(response))
}

fn find_header_end(response: &[u8]) -> (r: Option<usize>)
    ensures
        match r {
            Some(end) => end + 4 <= response@.len() && header_end(response@) == Some(end as int),
            None => header_end(response@) is None,
        },
{
    let ghost blank = blank_at(response@);
    let n: usize = response.len();
    let mut i: usize = 0;
    while i < n && n - i >= 4
        invariant
            n == response@.len(),
            i <= n,
            blank == blank_at(response@),
            forall|j: int| 0 <= j < i ==> !(#[trigger] blank(j)),
        decreases n - i,
    {
        if response[i] == 13 && response[i + 1] == 10 && response[i + 2] == 13 && response[i + 3]
            == 10 {
            assert(blank(i as int));
            proof {
                lemma_first_index_is(response@.len(), blank, i as int);
            }
            return Some(i);
        }
        assert(!blank(i as int));
        i += 1;
    }
    proof {
        lemma_first_index(response@.len(), blank);
        assert forall|j: int| 0 <= j < response@.len() implies !(#[trigger] blank(j)) by {
        }
    }
    None
}

/// The first line of the headers.
pub open spec fn first_line(headers: Seq<char>) -> Seq<char> {
    if text_lines(headers).len() == 0 {
        Seq::empty()
    } else {
        text_lines(headers)[0]
    }
}

/// What a response with a document tells.
pub open spec fn document_told(response: Seq<u8>, label: Seq<char>) -> Result<JsonTree, Seq<char>> {
    match header_end(response) {
        None => Err(label + " returned an invalid HTTP response"@),
        Some(end) => {
            let headers = response.subrange(0, end);
            if !valid_utf8(headers) {
                Err(label + " returned non-UTF-8 HTTP headers: "@ + utf8_error(headers))
            } else {
                match status_line_fault(first_line(decode_utf8(headers)), label) {
                    Some(text) => Err(text),
                    None => match json_parsed(response.subrange(end + 4, response.len() as int)) {
                        Err(error) => Err(label + " returned invalid JSON: "@ + error),
                        Ok(tree) => Ok(tree),
                    },
                }
            }
        },
    }
}

/// Whether a document is the expected one.
pub open spec fn document_is(r: Result<JsonValue, String>, expected: Result<JsonTree, Seq<char>>) -> bool {
    match expected {
        Ok(tree) => r matches Ok(value) && value@ == tree,
        Err(text) => r matches Err(found) && found@ == text,
    }
}

/// Reads the document in a response.
pub fn probe_http_json(response: &[u8], label: &str) -> (r: Result<JsonValue, String>)
    ensures
        document_is(r, document_told(response@, label@)),
{
    let end: usize = match find_header_end(response) {
        Some(end) => end,
        None => return Err(cat2(label, " returned an invalid HTTP response")),
    };
    let headers = match decode_bytes(slice_to_vec(slice_subrange(response, 0, end))) {
        Ok(headers) => headers,
        Err(error) => {
            return Err(cat3(label, " returned non-UTF-8 HTTP headers: ", error.as_str()));
        },
    };
    let rows = lines(headers.as_str());
    assert(texts(rows@).len() == rows@.len());
    let line = if rows.len() == 0 {
        String::new()
    } else {
        assert(texts(rows@)[0] == rows@[0]@);
        rows[0].clone()
    };
    assert(line@ =~= first_line(headers@));
    match check_status_line(line.as_str(), label) {
        Err(error) => return Err(error),
        Ok(()) => {},
    }
    let n: usize = response.len();
    match read_json(slice_subrange(response, end + 4, n)) {
        Ok(value) => Ok(value),
        Err(error) => Err(cat3(label, " returned invalid JSON: ", error.as_str())),
    }
}

/// What a reading of a registry tells.
pub open spec fn registry_read(
    response: Result<Seq<u8>, Seq<char>>,
    plan: TargetRegistryPlan,
    bound: OperationBound,
    now: u128,
) -> Result<Seq<MatchView>, Seq<char>> {
    match response {
        Err(text) => Err(text),
        Ok(bytes) => match document_told(bytes, "target registry"@) {
            Err(text) => Err(text),
            Ok(tree) => if bound.kind.left_at(now) is Expired {
                Err(expired_words())
            } else {
                registry_told(tree, plan)
            },
        },
    }
}

/// Reads a registry: the response, or why there is none, held to the expected
/// targets while time is left.
pub fn probe_target_registry_attempt(
    response: &Result<Vec<u8>, String>,
    plan: &TargetRegistryPlan,
    bound: &OperationBound,
    now: u128,
) -> (r: Result<Vec<TargetRegistryMatchEvidence>, String>)
    ensures
        matches_are(
            r,
            registry_read(
                match *response {
                    Ok(bytes) => Ok(bytes@),
                    Err(error) => Err(error@),
                },
                *plan,
                *bound,
                now,
            ),
        ),
{
    let bytes = match response {
        Err(error) => return Err(error.clone()),
        Ok(bytes) => bytes,
    };
    let value = match probe_http_json(bytes.as_slice(), "target registry") {
        Err(error) => return Err(error),
        Ok(value) => value,
    };
    match readiness_remaining(bound, now) {
        Err(error) => return Err(error),
        Ok(()) => {},
    }
    match_target_registry(&value, plan, bound, now)
}

// ---------------------------------------------------------------------------
// Laws

/// Once the time of a wait is up, no probe may connect, whatever its address.
pub proof fn law_expired_owner_prevents_a_fresh_attempt(
    owner: OperationBound,
    now: u128,
    cap: u128,
)
    requires
        owner.kind.left_at(now) is Expired,
    ensures
        overdue(AttemptBound { kind: owner.attempt_kind(now, Some(cap)) }, now) == Some(
            expired_words(),
        ),
{
}

/// A registry read after the time is up matches nothing, whatever it reports.
pub proof fn law_expired_owner_rejects_a_registry(
    response: Result<Seq<u8>, Seq<char>>,
    plan: TargetRegistryPlan,
    owner: OperationBound,
    now: u128,
)
    requires
        owner.kind.left_at(now) is Expired,
    ensures
        registry_read(response, plan, owner, now) is Err,
{
}

/// An endpoint is ready exactly where it answers with a status of success.
pub proof fn law_ready_endpoint_answers_with_success(line: Seq<char>, label: Seq<char>, status: nat)
    requires
        words_of(line).len() >= 2,
        words_of(line)[1] == decimal(status),
        status <= u16::MAX,
    ensures
        line_status(line) == Some(status),
        status_line_fault(line, label) is None <==> 200 <= status <= 299,
{
    crate::text::law_decimal_is_parsed_back(status, u16::MAX as nat);
}

/// The document of a response is what follows its headers, behind the first blank line.
pub proof fn law_document_follows_the_headers(
    response: Seq<u8>,
    headers: Seq<u8>,
    body: Seq<u8>,
    label: Seq<char>,
)
    requires
        response == headers + seq![13u8, 10u8, 13u8, 10u8] + body,
        forall|i: int| 0 <= i < headers.len() ==> !(#[trigger] blank_at(response)(i)),
        valid_utf8(headers),
        status_line_fault(first_line(decode_utf8(headers)), label) is None,
    ensures
        document_told(response, label) == (match json_parsed(body) {
            Ok(tree) => Ok::<JsonTree, Seq<char>>(tree),
            Err(error) => Err(label + " returned invalid JSON: "@ + error),
        }),
{
    let end = headers.len() as int;
    assert(blank_at(response)(end));
    crate::search::lemma_first_index_is(response.len(), blank_at(response), end);
    assert(response.subrange(0, end) =~= headers);
    assert(response.subrange(end + 4, response.len() as int) =~= body);
}

/// A request asks for its path at its own address.
pub proof fn law_request_asks_for_its_path(host: Seq<char>, port: u16, path: Seq<char>)
    ensures
        ({
            let head = "GET "@ + path + " HTTP/1.1\r\nHost: "@ + host + ":"@ + decimal(port as nat);
            request_text(host, port, path).take(head.len() as int) == head
        }),
{
    let head = "GET "@ + path + " HTTP/1.1\r\nHost: "@ + host + ":"@ + decimal(port as nat);
    assert(request_text(host, port, path).take(head.len() as int) =~= head);
}

/// A response grows by what was read in time, and by nothing else; it is complete where
/// nothing more came, or with its first line where only that counts.
pub proof fn law_response_grows_by_what_was_read(
    before: Seq<u8>,
    after: Seq<u8>,
    outcome: ReadOutcome,
    attempt: AttemptBound,
    now: u128,
    stop_at_newline: bool,
    label: Seq<char>,
    r: TransferTurn,
)
    requires
        read_turn(before, after, outcome, attempt, now, stop_at_newline, label, r),
    ensures
        r is Failed ==> after == before,
        !(r is Failed) ==> attempt.kind.left_at(now) is Finite && (
        outcome matches ReadOutcome::Data { bytes } && after == before + bytes@),
        r is Done ==> after == before || (stop_at_newline && after.contains(10)),
        r is More ==> after.len() > before.len() && !(stop_at_newline && after.contains(10)),
        outcome matches ReadOutcome::Data { .. } ==> (r is Failed <==> !(attempt.kind.left_at(now)
            is Finite)),
{
    if stop_at_newline && after.contains(10) {
        let i = choose|i: int| 0 <= i < after.len() && after[i] == 10;
        assert(after[i] == 10);
        assert(has_newline(after));
    }
    if has_newline(after) {
        let i = choose|i: int| 0 <= i < after.len() && #[trigger] after[i] == 10;
        assert(after.contains(10));
    }
    if let ReadOutcome::Data { bytes } = outcome {
        if bytes@.len() == 0 {
            assert(before + bytes@ =~= before);
        }
    }
}

/// A request is sent once all of its bytes were written in time; a write that fails, or
/// writes nothing, sends nothing.
pub proof fn law_request_is_sent_with_all_of_its_bytes(
    before: usize,
    after: usize,
    total: usize,
    outcome: WriteOutcome,
    attempt: AttemptBound,
    now: u128,
    label: Seq<char>,
    r: TransferTurn,
)
    requires
        before <= total,
        write_turn(before, after, total, outcome, attempt, now, label, r),
    ensures
        r is Failed ==> after == before,
        !(r is Failed) ==> after > before && attempt.kind.left_at(now) is Finite && (
        outcome matches WriteOutcome::Wrote { count } && after == before + count),
        r is Done ==> after == total,
        r is More ==> after != total,
        outcome matches WriteOutcome::Wrote { count } ==> (r is Failed <==> count == 0 || !(
        attempt.kind.left_at(now) is Finite)),
{
}

} // verus!
