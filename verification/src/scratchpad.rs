//! The operator's journal: one append-only stream of entries per workspace.
//! Records own execution facts; the journal owns the operator's narrative.

use crate::calendar::LAST_UNIX_MS;
use crate::dict::{
    lemma_less_irreflexive, lemma_less_total, lemma_less_transitive, less, text_less, Dict,
};
use crate::error::InferlabError;
use crate::record::{
    refuses_timestamp, timestamp_text, utc_timestamp, valid_id, validate_record_id,
};
use crate::text::{
    cat2, cat3, cat6, debug, debug_text, decimal, lines, list_contains, lists, same, text_lines,
    texts, to_decimal, trim, trimmed,
};
use vstd::prelude::*;
use vstd::string::*;

verus! {

pub const SCRATCHPADS_DIR: &'static str = ".inferlab/scratchpads";

pub const JOURNAL_FILE: &'static str = "journal.jsonl";

/// Entries that the default view renders before it points at the full journal.
pub const DEFAULT_TAIL: usize = 10;

/// A journal entry.
#[derive(Debug)]
pub struct Entry {
    pub timestamp: String,
    pub author: String,
    pub text: String,
    pub topic: Option<String>,
    pub records: Vec<String>,
}

/// What a line says of a referenced record.
#[derive(Debug)]
pub struct RecordSummary {
    pub kind: Option<String>,
    pub definition_id: Option<String>,
    pub status: Option<String>,
}

/// Whether the result is the refusal of the journal with the text.
pub open spec fn refuses_journal<T>(r: Result<T, InferlabError>, text: Seq<char>) -> bool {
    r matches Err(InferlabError::Scratchpad { message }) && message@ == text
}

/// The refusal of the journal.
pub fn fail<T>(message: String) -> (r: Result<T, InferlabError>)
    ensures
        refuses_journal(r, message@),
{
    Err(InferlabError::Scratchpad { message })
}

/// The failure to read or write a file of the journal.
pub fn io_fail(path: &str, source: String) -> (r: InferlabError)
    ensures
        r matches InferlabError::RecordIo { path: p, message } && p@ == path@ && message == source,
{
    InferlabError::RecordIo { path: path.to_owned(), message: source }
}

// ---------------------------------------------------------------------------
// References

/// Whether an id is the greatest of the listed ones.
pub open spec fn greatest(ids: Seq<String>, id: Seq<char>) -> bool {
    lists(ids, id) && forall|i: int|
        0 <= i < ids.len() ==> !text_less(id, #[trigger] ids[i]@)
}

/// Two greatest ids are one.
proof fn lemma_greatest_is_one(ids: Seq<String>, a: Seq<char>, b: Seq<char>)
    requires
        greatest(ids, a),
        greatest(ids, b),
    ensures
        a == b,
{
    let i = choose|i: int| 0 <= i < ids.len() && (#[trigger] ids[i])@ == a;
    let j = choose|j: int| 0 <= j < ids.len() && (#[trigger] ids[j])@ == b;
    assert(!text_less(a, ids[j]@));
    assert(!text_less(b, ids[i]@));
    lemma_less_total(a, b);
}

/// The newest record: the one with the greatest id.
pub fn newest_record(ids: &[String]) -> (r: Result<String, InferlabError>)
    ensures
        if ids@.len() == 0 {
            refuses_journal(r, "no records exist yet; `--record last` has nothing to reference"@)
        } else {
            r matches Ok(id) && greatest(ids@, id@)
        },
{
    if ids.len() == 0 {
        return fail(
            "no records exist yet; `--record last` has nothing to reference".to_owned(),
        );
    }
    let mut newest: usize = 0;
    let mut i: usize = 1;
    proof {
        lemma_less_irreflexive(ids@[0]@);
    }
    while i < ids.len()
        invariant
            1 <= i <= ids@.len(),
            newest < i,
            forall|j: int| 0 <= j < i ==> !text_less(ids@[newest as int]@, #[trigger] ids@[j]@),
        decreases ids@.len() - i,
    {
        if less(ids[newest].as_str(), ids[i].as_str()) {
            proof {
                let old_best = ids@[newest as int]@;
                let best = ids@[i as int]@;
                assert forall|j: int| 0 <= j < i + 1 implies !text_less(
                    best,
                    #[trigger] ids@[j]@,
                ) by {
                    lemma_less_irreflexive(best);
                    if j < i && text_less(best, ids@[j]@) {
                        lemma_less_transitive(old_best, best, ids@[j]@);
                    }
                }
            }
            newest = i;
        }
        i += 1;
    }
    assert(lists(ids@, ids@[newest as int]@));
    Ok(ids[newest].clone())
}

/// Where the ids of the existing records come from: their listing, or the path
/// that cannot be listed with the reason.
pub enum RecordListing {
    Ids { ids: Vec<String> },
    Failed { path: String, message: String },
}

/// Whether a reference resolves to the id: `last` to the newest record, any other
/// to itself.
pub open spec fn refers_to(reference: Seq<char>, listing: RecordListing, id: Seq<char>) -> bool {
    if reference == "last"@ {
        listing matches RecordListing::Ids { ids } && greatest(ids@, id)
    } else {
        id == reference
    }
}

/// Whether the result is the refusal of a reference.
pub open spec fn refuses_reference<T>(
    r: Result<T, InferlabError>,
    reference: Seq<char>,
    listing: RecordListing,
    existing: Seq<String>,
) -> bool {
    if reference == "last"@ && listing is Failed {
        r matches Err(InferlabError::RecordIo { path, message }) && path == listing->path && message
            == listing->message
    } else if reference == "last"@ && listing->ids@.len() == 0 {
        refuses_journal(r, "no records exist yet; `--record last` has nothing to reference"@)
    } else {
        exists|id: Seq<char>| #[trigger]
            refers_to(reference, listing, id) && if !valid_id(id) {
                refuses_journal(r, "invalid record reference "@ + debug_text(id))
            } else {
                !lists(existing, id) && refuses_journal(
                    r,
                    "record "@ + debug_text(id) + " does not exist in .inferlab/records"@,
                )
            }
    }
}

/// Whether a reference is accepted as the id.
pub open spec fn accepts_reference(
    reference: Seq<char>,
    listing: RecordListing,
    existing: Seq<String>,
    id: Seq<char>,
) -> bool {
    refers_to(reference, listing, id) && valid_id(id) && lists(existing, id)
}

fn resolve_reference(reference: &str, listing: &RecordListing, existing: &[String]) -> (r: Result<
    String,
    InferlabError,
>)
    ensures
        match r {
            Ok(id) => accepts_reference(reference@, *listing, existing@, id@),
            Err(_) => refuses_reference(r, reference@, *listing, existing@),
        },
{
    let id = if same(reference, "last") {
        match listing {
            RecordListing::Failed { path, message } => return Err(
                InferlabError::RecordIo { path: path.clone(), message: message.clone() },
            ),
            RecordListing::Ids { ids } => match newest_record(ids.as_slice()) {
                Ok(id) => id,
                Err(error) => return Err(error),
            },
        }
    } else {
        reference.to_owned()
    };
    assert(refers_to(reference@, *listing, id@));
    match validate_record_id("record", id.as_str()) {
        Ok(_) => {},
        Err(_) => return fail(
            cat2("invalid record reference ", debug(id.as_str()).as_str()),
        ),
    }
    if !list_contains(existing, id.as_str()) {
        return fail(
            cat3(
                "record ",
                debug(id.as_str()).as_str(),
                " does not exist in .inferlab/records",
            ),
        );
    }
    Ok(id)
}

/// A refusal is one of whatever was asked for.
proof fn lemma_refusal_carries(
    one: Result<String, InferlabError>,
    all: Result<Vec<String>, InferlabError>,
    reference: Seq<char>,
    listing: RecordListing,
    existing: Seq<String>,
)
    requires
        one is Err,
        all is Err,
        one->Err_0 == all->Err_0,
        refuses_reference(one, reference, listing, existing),
    ensures
        refuses_reference(all, reference, listing, existing),
{
    if !(reference == "last"@ && (listing is Failed || listing->ids@.len() == 0)) {
        let id = choose|id: Seq<char>| #[trigger]
            refers_to(reference, listing, id) && if !valid_id(id) {
                refuses_journal(one, "invalid record reference "@ + debug_text(id))
            } else {
                !lists(existing, id) && refuses_journal(
                    one,
                    "record "@ + debug_text(id) + " does not exist in .inferlab/records"@,
                )
            };
        assert(refers_to(reference, listing, id));
    }
}

/// Whether a reference is accepted.
pub open spec fn acceptable(reference: Seq<char>, listing: RecordListing, existing: Seq<String>) -> bool {
    exists|id: Seq<char>| #[trigger] accepts_reference(reference, listing, existing, id)
}

/// Whether the result is the refusal of the reference at the place, with every
/// earlier one accepted.
pub open spec fn refused_at<T>(
    r: Result<T, InferlabError>,
    refs: Seq<String>,
    listing: RecordListing,
    existing: Seq<String>,
    i: int,
) -> bool {
    &&& 0 <= i < refs.len()
    &&& refuses_reference(r, refs[i]@, listing, existing)
    &&& forall|j: int| 0 <= j < i ==> acceptable((#[trigger] refs[j])@, listing, existing)
}

/// Resolves references to records: each must name an existing record; `last`
/// names the newest. `existing` holds the ids under which a record was found.
pub fn resolve_record_refs(refs: &[String], listing: &RecordListing, existing: &[String]) -> (r: Result<
    Vec<String>,
    InferlabError,
>)
    ensures
        match r {
            Ok(ids) => ids@.len() == refs@.len() && forall|i: int|
                0 <= i < ids@.len() ==> accepts_reference(
                    refs@[i]@,
                    *listing,
                    existing@,
                    #[trigger] ids@[i]@,
                ),
            Err(_) => exists|i: int| #[trigger]
                refused_at(r, refs@, *listing, existing@, i),
        },
{
    let mut out: Vec<String> = Vec::new();
    let mut i: usize = 0;
    while i < refs.len()
        invariant
            i <= refs@.len(),
            out@.len() == i,
            forall|j: int|
                0 <= j < i ==> accepts_reference(
                    refs@[j]@,
                    *listing,
                    existing@,
                    #[trigger] out@[j]@,
                ),
        decreases refs@.len() - i,
    {
        match resolve_reference(refs[i].as_str(), listing, existing) {
            Ok(id) => out.push(id),
            Err(error) => {
                let ghost one: Result<String, InferlabError> = Err(error);
                let failed: Result<Vec<String>, InferlabError> = Err(error);
                proof {
                    assert forall|j: int| 0 <= j < i implies acceptable(
                        (#[trigger] refs@[j])@,
                        *listing,
                        existing@,
                    ) by {
                        assert(accepts_reference(refs@[j]@, *listing, existing@, out@[j]@));
                    }
                    lemma_refusal_carries(one, failed, refs@[i as int]@, *listing, existing@);
                    assert(refused_at(failed, refs@, *listing, existing@, i as int));
                }
                return failed;
            },
        }
        i += 1;
    }
    Ok(out)
}

// ---------------------------------------------------------------------------
// Entries

/// The topic of an entry: trimmed, and not empty.
pub fn entry_topic(topic: Option<&str>) -> (r: Result<Option<String>, InferlabError>)
    ensures
        match topic {
            None => r matches Ok(None),
            Some(text) => if trimmed(text@).len() == 0 {
                refuses_journal(r, "topic must not be empty"@)
            } else {
                r matches Ok(Some(found)) && found@ == trimmed(text@)
            },
        },
{
    match topic {
        None => Ok(None),
        Some(text) => {
            let cut = trim(text);
            if cut.is_empty() {
                fail("topic must not be empty".to_owned())
            } else {
                Ok(Some(cut.to_owned()))
            }
        },
    }
}

/// The author of an entry: the given one, else the user, else the operator.
pub open spec fn author_of(author: Option<&str>, user: Option<&str>) -> Seq<char> {
    match author {
        Some(name) => name@,
        None => match user {
            Some(name) => if name@.len() == 0 {
                "operator"@
            } else {
                name@
            },
            None => "operator"@,
        },
    }
}

/// The author of an entry: the given one, else the user, else the operator.
pub fn entry_author(author: Option<&str>, user: Option<&str>) -> (r: String)
    ensures
        r@ == author_of(author, user),
{
    match author {
        Some(name) => name.to_owned(),
        None => match user {
            Some(name) => if name.is_empty() {
                "operator".to_owned()
            } else {
                name.to_owned()
            },
            None => "operator".to_owned(),
        },
    }
}

/// The topic as a heading shows it.
pub open spec fn topic_tail(topic: Option<String>) -> Seq<char> {
    match topic {
        Some(text) => " · "@ + text@,
        None => Seq::empty(),
    }
}

/// One line for each record.
pub open spec fn reference_lines(records: Seq<Seq<char>>) -> Seq<char>
    decreases records.len(),
{
    if records.len() == 0 {
        Seq::empty()
    } else {
        reference_lines(records.drop_last()) + ("\n  -> "@ + records[records.len() - 1])
    }
}

/// What the operator is told of an entry that was written.
pub fn noted_message(entry: &Entry) -> (r: String)
    ensures
        r@ == "noted "@ + entry.timestamp@ + topic_tail(entry.topic) + reference_lines(
            texts(entry.records@),
        ),
{
    let tail = match &entry.topic {
        Some(text) => cat2(" · ", text.as_str()),
        None => String::new(),
    };
    let mut message = cat3("noted ", entry.timestamp.as_str(), tail.as_str());
    let ghost head = message@;
    let ghost all = texts(entry.records@);
    assert(all.take(0) =~= Seq::<Seq<char>>::empty());
    assert(tail@ =~= topic_tail(entry.topic));
    assert(head =~= head + reference_lines(all.take(0)));
    let mut i: usize = 0;
    while i < entry.records.len()
        invariant
            i <= entry.records@.len(),
            all == texts(entry.records@),
            message@ == head + reference_lines(all.take(i as int)),
        decreases entry.records@.len() - i,
    {
        let ghost before = message@;
        let line = cat2("\n  -> ", entry.records[i].as_str());
        message.append(line.as_str());
        proof {
            assert(all.take(i + 1).drop_last() =~= all.take(i as int));
            assert(all.take(i + 1)[i as int] == entry.records@[i as int]@);
            assert(message@ =~= head + reference_lines(all.take(i + 1)));
        }
        i += 1;
    }
    assert(all.take(entry.records@.len() as int) =~= all);
    message
}

/// The text, or what stands for it.
pub open spec fn text_or(value: Option<String>, other: Seq<char>) -> Seq<char> {
    match value {
        Some(text) => text@,
        None => other,
    }
}

fn given_or<'a>(value: &'a Option<String>, other: &'static str) -> (r: &'a str)
    ensures
        r@ == text_or(*value, other@),
{
    match value {
        Some(text) => text.as_str(),
        None => other,
    }
}

/// One line on a referenced record.
pub open spec fn summary_line(id: Seq<char>, summary: Option<RecordSummary>) -> Seq<char> {
    match summary {
        Some(found) => id + " — "@ + text_or(found.kind, "record"@) + " "@ + text_or(
            found.definition_id,
            "?"@,
        ) + ": "@ + text_or(found.status, "?"@),
        None => id + " — (record unavailable)"@,
    }
}

/// One line on a referenced record, which may have gone.
pub fn record_line(id: &str, summary: Option<&RecordSummary>) -> (r: String)
    ensures
        r@ == summary_line(
            id@,
            match summary {
                Some(found) => Some(*found),
                None => None,
            },
        ),
{
    match summary {
        Some(found) => crate::text::cat7(
            id,
            " — ",
            given_or(&found.kind, "record"),
            " ",
            given_or(&found.definition_id, "?"),
            ": ",
            given_or(&found.status, "?"),
        ),
        None => cat2(id, " — (record unavailable)"),
    }
}

// ---------------------------------------------------------------------------
// The view

/// Whether the view of a topic shows an entry; without a topic it shows all.
pub open spec fn on_topic(entry: Entry, topic: Option<&str>) -> bool {
    match topic {
        None => true,
        Some(wanted) => entry.topic is Some && entry.topic->0@ == wanted@,
    }
}

fn is_on_topic(entry: &Entry, topic: Option<&str>) -> (r: bool)
    ensures
        r == on_topic(*entry, topic),
{
    match topic {
        None => true,
        Some(wanted) => match &entry.topic {
            Some(text) => same(text.as_str(), wanted),
            None => false,
        },
    }
}

/// The places of the entries that the view of a topic shows.
pub open spec fn shown_places(entries: Seq<Entry>, topic: Option<&str>) -> Seq<int>
    decreases entries.len(),
{
    if entries.len() == 0 {
        Seq::empty()
    } else {
        let rest = shown_places(entries.drop_last(), topic);
        if on_topic(entries[entries.len() - 1], topic) {
            rest.push(entries.len() - 1)
        } else {
            rest
        }
    }
}

/// The lines on the records of an entry.
pub open spec fn record_lines(records: Seq<String>, summaries: Dict<RecordSummary>) -> Seq<char>
    decreases records.len(),
{
    if records.len() == 0 {
        Seq::empty()
    } else {
        let id = records[records.len() - 1]@;
        record_lines(records.drop_last(), summaries) + ("\n- "@ + summary_line(
            id,
            summaries.at(id),
        ) + "\n"@)
    }
}

/// An entry as the view shows it.
pub open spec fn entry_text(entry: Entry, summaries: Dict<RecordSummary>) -> Seq<char> {
    "\n## "@ + entry.timestamp@ + " — "@ + entry.author@ + topic_tail(entry.topic) + ("\n\n"@
        + entry.text@ + "\n"@) + record_lines(entry.records@, summaries)
}

/// The entries at the places from one on, as the view shows them.
pub open spec fn entries_text(
    entries: Seq<Entry>,
    places: Seq<int>,
    from: int,
    summaries: Dict<RecordSummary>,
) -> Seq<char>
    decreases places.len() - from,
{
    if from >= places.len() {
        Seq::empty()
    } else {
        entry_text(entries[places[from]], summaries) + entries_text(
            entries,
            places,
            from + 1,
            summaries,
        )
    }
}

/// The heading of the view.
pub open spec fn heading(topic: Option<&str>) -> Seq<char> {
    match topic {
        Some(text) => "# journal — topic "@ + text@ + "\n"@,
        None => "# journal\n"@,
    }
}

/// The view of the journal: the last entries on the topic, or all of them, with a
/// line on how many earlier ones are left out.
pub open spec fn journal_text(
    entries: Seq<Entry>,
    topic: Option<&str>,
    all: bool,
    summaries: Dict<RecordSummary>,
) -> Seq<char> {
    let places = shown_places(entries, topic);
    let omitted = if all || places.len() <= DEFAULT_TAIL {
        0
    } else {
        places.len() - DEFAULT_TAIL
    };
    if places.len() == 0 {
        heading(topic) + "\nno entries\n"@
    } else if omitted > 0 {
        heading(topic) + ("\n("@ + decimal(omitted as nat)
            + " earlier entries omitted; --all shows the full journal)\n"@) + entries_text(
            entries,
            places,
            omitted,
            summaries,
        )
    } else {
        heading(topic) + entries_text(entries, places, 0, summaries)
    }
}

fn render_entry(entry: &Entry, summaries: &Dict<RecordSummary>) -> (r: String)
    ensures
        r@ == entry_text(*entry, *summaries),
{
    let tail = match &entry.topic {
        Some(text) => cat2(" · ", text.as_str()),
        None => String::new(),
    };
    assert(tail@ =~= topic_tail(entry.topic));
    let body = cat3("\n\n", entry.text.as_str(), "\n");
    let mut out = cat6(
        "\n## ",
        entry.timestamp.as_str(),
        " — ",
        entry.author.as_str(),
        tail.as_str(),
        body.as_str(),
    );
    let ghost head = out@;
    let mut i: usize = 0;
    assert(entry.records@.take(0) =~= Seq::<String>::empty());
    assert(head =~= head + record_lines(entry.records@.take(0), *summaries));
    while i < entry.records.len()
        invariant
            i <= entry.records@.len(),
            out@ == head + record_lines(entry.records@.take(i as int), *summaries),
        decreases entry.records@.len() - i,
    {
        let id = entry.records[i].as_str();
        let line = cat3("\n- ", record_line(id, summaries.get(id)).as_str(), "\n");
        out.append(line.as_str());
        proof {
            assert(entry.records@.take(i + 1).drop_last() =~= entry.records@.take(i as int));
            assert(entry.records@.take(i + 1)[i as int] == entry.records@[i as int]);
            assert(out@ =~= head + record_lines(entry.records@.take(i + 1), *summaries));
        }
        i += 1;
    }
    assert(entry.records@.take(entry.records@.len() as int) =~= entry.records@);
    out
}

/// Renders the journal. `summaries` holds what could be read of the referenced
/// records, by id.
pub fn show(entries: &[Entry], topic: Option<&str>, all: bool, summaries: &Dict<RecordSummary>) -> (r:
    String)
    ensures
        r@ == journal_text(entries@, topic, all, *summaries),
{
    let mut places: Vec<usize> = Vec::new();
    let ghost mut marks: Seq<int> = Seq::empty();
    let mut i: usize = 0;
    assert(entries@.take(0) =~= Seq::<Entry>::empty());
    while i < entries.len()
        invariant
            i <= entries@.len(),
            marks == shown_places(entries@.take(i as int), topic),
            places@.len() == marks.len(),
            forall|k: int| 0 <= k < marks.len() ==> places@[k] == #[trigger] marks[k],
            forall|k: int| 0 <= k < places@.len() ==> (#[trigger] places@[k]) < entries@.len(),
        decreases entries@.len() - i,
    {
        proof {
            assert(entries@.take(i + 1).drop_last() =~= entries@.take(i as int));
            assert(entries@.take(i + 1)[i as int] == entries@[i as int]);
        }
        if is_on_topic(&entries[i], topic) {
            places.push(i);
            proof {
                marks = marks.push(i as int);
            }
        }
        i += 1;
    }
    assert(entries@.take(entries@.len() as int) =~= entries@);
    let mut out = match topic {
        Some(text) => cat3("# journal — topic ", text, "\n"),
        None => "# journal\n".to_owned(),
    };
    if places.len() == 0 {
        out.append("\nno entries\n");
        return out;
    }
    let omitted: usize = if all || places.len() <= DEFAULT_TAIL {
        0
    } else {
        places.len() - DEFAULT_TAIL
    };
    if omitted > 0 {
        let line = cat3(
            "\n(",
            to_decimal(omitted as u64).as_str(),
            " earlier entries omitted; --all shows the full journal)\n",
        );
        out.append(line.as_str());
    }
    let ghost head = out@;
    let ghost whole = entries_text(entries@, marks, omitted as int, *summaries);
    let mut k: usize = omitted;
    while k < places.len()
        invariant
            omitted <= k <= places@.len(),
            places@.len() == marks.len(),
            forall|j: int| 0 <= j < marks.len() ==> places@[j] == #[trigger] marks[j],
            forall|j: int| 0 <= j < places@.len() ==> (#[trigger] places@[j]) < entries@.len(),
            out@ + entries_text(entries@, marks, k as int, *summaries) == head + whole,
        decreases places@.len() - k,
    {
        let ghost before = out@;
        let at: usize = places[k];
        assert(marks[k as int] == at);
        let text = render_entry(&entries[at], summaries);
        out.append(text.as_str());
        proof {
            let rest = entries_text(entries@, marks, k + 1, *summaries);
            assert(entries_text(entries@, marks, k as int, *summaries) == text@ + rest);
            assert(out@ + rest =~= before + (text@ + rest));
        }
        k += 1;
    }
    assert(out@ + Seq::<char>::empty() =~= out@);
    out
}

/// The newest record is one, whichever way it is looked for.
pub proof fn law_last_names_one_record(reference: Seq<char>, listing: RecordListing, a: Seq<char>, b: Seq<
    char,
>)
    requires
        refers_to(reference, listing, a),
        refers_to(reference, listing, b),
    ensures
        a == b,
{
    if reference == "last"@ {
        lemma_greatest_is_one(listing->ids@, a, b);
    }
}

// ---------------------------------------------------------------------------
// Writing and reading

/// The entry that a note becomes: the moment that the journal was locked, who
/// wrote it, and what it says.
pub fn note_entry(
    text: &str,
    topic: Option<String>,
    records: Vec<String>,
    author: Option<&str>,
    user: Option<&str>,
    unix_ms: u64,
) -> (r: Result<Entry, InferlabError>)
    ensures
        if unix_ms <= LAST_UNIX_MS {
            r matches Ok(entry) && {
                &&& entry.timestamp@ == timestamp_text(unix_ms)
                &&& entry.author@ == author_of(author, user)
                &&& entry.text@ == text@
                &&& entry.topic == topic
                &&& entry.records == records
            }
        } else {
            refuses_timestamp(r)
        },
{
    let timestamp = match utc_timestamp(unix_ms) {
        Err(error) => {
            return Err(error);
        },
        Ok(timestamp) => timestamp,
    };
    Ok(Entry { timestamp, author: entry_author(author, user), text: text.to_owned(), topic, records })
}

/// The lines that are not blank.
pub open spec fn told_lines(rows: Seq<Seq<char>>) -> Seq<Seq<char>> {
    rows.filter(|row: Seq<char>| trimmed(row).len() != 0)
}

/// The lines of a journal that hold its entries, one each.
pub fn journal_lines(text: &str) -> (r: Vec<String>)
    ensures
        texts(r@) == told_lines(text_lines(text@)),
{
    let rows = lines(text);
    let ghost keep = |row: Seq<char>| trimmed(row).len() != 0;
    let mut out: Vec<String> = Vec::new();
    let mut i: usize = 0;
    assert(texts(rows@).take(0).filter(keep) =~= Seq::<Seq<char>>::empty()) by {
        reveal(Seq::filter);
    }
    while i < rows.len()
        invariant
            i <= rows@.len(),
            keep == (|row: Seq<char>| trimmed(row).len() != 0),
            texts(out@) == texts(rows@).take(i as int).filter(keep),
        decreases rows@.len() - i,
    {
        let ghost before = out@;
        let row = &rows[i];
        proof {
            let taken = texts(rows@).take(i + 1);
            assert(taken.drop_last() =~= texts(rows@).take(i as int));
            assert(taken.last() == row@);
            reveal(Seq::filter);
        }
        if !trim(row.as_str()).is_empty() {
            out.push(row.clone());
            assert(texts(out@) =~= texts(before).push(row@));
        }
        i += 1;
    }
    assert(texts(rows@).take(i as int) =~= texts(rows@));
    out
}

/// The view of a topic shows exactly the entries on it, in their order; without a topic
/// it shows all.
pub proof fn law_view_shows_the_entries_on_its_topic(
    entries: Seq<Entry>,
    topic: Option<&str>,
    i: int,
)
    requires
        0 <= i < entries.len(),
    ensures
        shown_places(entries, topic).contains(i) <==> (topic matches Some(wanted) ==> (
        entries[i].topic matches Some(own) && own@ == wanted@)),
        forall|a: int, b: int|
            0 <= a < b < shown_places(entries, topic).len() ==> (#[trigger] shown_places(
                entries,
                topic,
            )[a]) < (#[trigger] shown_places(entries, topic)[b]),
        forall|a: int|
            0 <= a < shown_places(entries, topic).len() ==> 0 <= (#[trigger] shown_places(
                entries,
                topic,
            )[a]) < entries.len(),
    decreases entries.len(),
{
    let all = shown_places(entries, topic);
    let fewer = entries.drop_last();
    let before = shown_places(fewer, topic);
    let last = entries.len() - 1;
    if fewer.len() > 0 {
        law_view_shows_the_entries_on_its_topic(
            fewer,
            topic,
            if i < last {
                i
            } else {
                0
            },
        );
    } else {
        assert(before =~= Seq::empty());
    }
    if i < last {
        assert(fewer[i] == entries[i]);
        if before.contains(i) {
            let k = choose|k: int| 0 <= k < before.len() && before[k] == i;
            assert(all[k] == i);
        }
        if all.contains(i) {
            let k = choose|k: int| 0 <= k < all.len() && all[k] == i;
            assert(before[k] == i);
        }
    } else if all.len() > before.len() {
        assert(all[before.len() as int] == i);
    }
}

/// An entry that is shown stands in the text as it is.
pub proof fn law_shown_entry_stands_in_the_text(
    entries: Seq<Entry>,
    places: Seq<int>,
    from: int,
    summaries: Dict<RecordSummary>,
    k: int,
) -> (at: int)
    requires
        0 <= from <= k < places.len(),
    ensures
        ({
            let text = entries_text(entries, places, from, summaries);
            let own = entry_text(entries[places[k]], summaries);
            &&& 0 <= at <= at + own.len() <= text.len()
            &&& text.subrange(at, at + own.len()) == own
        }),
    decreases places.len() - from,
{
    let text = entries_text(entries, places, from, summaries);
    let own = entry_text(entries[places[k]], summaries);
    let first = entry_text(entries[places[from]], summaries);
    if k == from {
        assert(text.subrange(0, own.len() as int) =~= own);
        0
    } else {
        let at = law_shown_entry_stands_in_the_text(entries, places, from + 1, summaries, k);
        let rest = entries_text(entries, places, from + 1, summaries);
        assert(text.subrange(first.len() + at, first.len() + at + own.len()) =~= rest.subrange(
            at,
            at + own.len(),
        ));
        first.len() + at
    }
}

/// The view shows all entries on the topic where it is asked to or where they are few,
/// and else the last of them, as many as it shows by itself, and tells how many it
/// leaves out.
pub proof fn law_view_shows_the_last_entries(
    entries: Seq<Entry>,
    topic: Option<&str>,
    all: bool,
    summaries: Dict<RecordSummary>,
)
    ensures
        ({
            let places = shown_places(entries, topic);
            let text = journal_text(entries, topic, all, summaries);
            &&& places.len() > 0 && (all || places.len() <= DEFAULT_TAIL) ==> text == heading(topic)
                + entries_text(entries, places, 0, summaries)
            &&& places.len() > DEFAULT_TAIL && !all ==> ({
                let shown = entries_text(entries, places, places.len() - DEFAULT_TAIL, summaries);
                let note = "\n("@ + decimal((places.len() - DEFAULT_TAIL) as nat)
                    + " earlier entries omitted; --all shows the full journal)\n"@;
                text == heading(topic) + note + shown
            })
            &&& places.len() == 0 ==> text == heading(topic) + "\nno entries\n"@
        }),
{
}

/// The author of an entry is the one that is given, else the user; an entry without
/// either is the operator's.
pub proof fn law_given_author_prevails(author: Option<&str>, user: Option<&str>)
    ensures
        author matches Some(name) ==> author_of(author, user) == name@,
        author is None ==> (user matches Some(name) && name@.len() > 0 ==> author_of(author, user)
            == user->0@),
        author is None && (user is None || user->0@.len() == 0) ==> author_of(author, user)
            == "operator"@,
{
}

/// The newest record is the one that no listed record comes after; any other reference
/// is the record that it names. A reference is accepted only where the record exists.
pub proof fn law_last_is_the_newest_record(
    reference: Seq<char>,
    ids: Vec<String>,
    existing: Seq<String>,
    id: Seq<char>,
    i: int,
)
    requires
        accepts_reference(reference, RecordListing::Ids { ids }, existing, id),
        0 <= i < ids@.len(),
    ensures
        lists(existing, id),
        valid_id(id),
        reference == "last"@ ==> lists(ids@, id) && (ids@[i]@ == id || text_less(ids@[i]@, id)),
        reference != "last"@ ==> id == reference,
{
    if reference == "last"@ {
        crate::dict::lemma_less_total(ids@[i]@, id);
    }
}

} // verus!
