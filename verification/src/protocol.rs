//! The conversation with the download client: the commands it is sent, the
//! lines by which it answers, and the state of one download request.

use crate::decimal::{
    append_decimal, append_digits, decimal, digits_of, is_digit, lemma_decimal_delimited,
};
use crate::manifest::{Item, ItemView};
use crate::text::{chars_of, chars_without_line_feeds, same_text, starts_with, without_line_feeds};
use vstd::prelude::*;

verus! {

/// The catalog in which the download client looks the items up.
pub const CATALOG_ID: u64 = 294100;

/// The command that logs in without an account.
pub open spec fn login_command_text() -> Seq<char> {
    "login anonymous"@
}

/// The line by which the client reports that the login is complete.
pub open spec fn login_marker() -> Seq<char> {
    "Waiting for user info...OK"@
}

/// The command that requests the item `identifier` of the catalog.
pub open spec fn download_command_text(identifier: i64) -> Seq<char> {
    "workshop_download_item "@ + digits_of(CATALOG_ID as nat) + " "@ + decimal(identifier as int)
}

/// How a line begins that reports the item `identifier` as downloaded.
pub open spec fn success_prefix(identifier: i64) -> Seq<char> {
    "Success. Downloaded item "@ + decimal(identifier as int) + " to"@
}

/// How a line begins that reports the download of the item `identifier` as
/// failed.
pub open spec fn failure_prefix(identifier: i64) -> Seq<char> {
    "ERROR! Download item "@ + decimal(identifier as int) + " failed"@
}

/// What a line of the client's output says about one item.
#[derive(Clone, Copy, Debug, PartialEq, Eq, Structural)]
pub enum Verdict {
    /// The item was downloaded.
    Success,
    /// The download of the item failed.
    Failure,
    /// Nothing: the line is about something else.
    Other,
}

/// What `line`, as read from the client, says about the item `identifier`.
/// Line feeds in the line do not count.
pub open spec fn verdict(line: Seq<char>, identifier: i64) -> Verdict {
    let text = without_line_feeds(line);
    if success_prefix(identifier).is_prefix_of(text) {
        Verdict::Success
    } else if failure_prefix(identifier).is_prefix_of(text) {
        Verdict::Failure
    } else {
        Verdict::Other
    }
}

/// `line`, as read from the client, reports that the login is complete: but
/// for line feeds it is the login marker, with nothing before or after it.
pub open spec fn completes_login(line: Seq<char>) -> bool {
    without_line_feeds(line) == login_marker()
}

/// The command that logs in without an account.
pub fn login_command() -> (r: String)
    ensures
        r@ == login_command_text(),
{
    "login anonymous".to_owned()
}

/// The command that requests the item `identifier`.
pub fn download_command(identifier: i64) -> (r: String)
    ensures
        r@ == download_command_text(identifier),
{
    let mut out = "workshop_download_item ".to_owned();
    append_digits(&mut out, CATALOG_ID);
    out.append(" ");
    append_decimal(&mut out, identifier);
    out
}

/// The text of `head`, the decimal notation of `identifier` and `tail`.
fn framed(head: &str, identifier: i64, tail: &str) -> (r: Vec<char>)
    ensures
        r@ == head@ + decimal(identifier as int) + tail@,
{
    let mut out = head.to_owned();
    append_decimal(&mut out, identifier);
    out.append(tail);
    chars_of(out.as_str())
}

/// Whether `line` reports that the login is complete.
pub fn is_login_marker(line: &str) -> (r: bool)
    ensures
        r == completes_login(line@),
{
    let text = chars_without_line_feeds(line);
    let marker = chars_of("Waiting for user info...OK");
    same_text(&text, &marker)
}

/// What `line` says about the item `identifier`.
pub fn classify(line: &str, identifier: i64) -> (r: Verdict)
    ensures
        r == verdict(line@, identifier),
{
    let text = chars_without_line_feeds(line);
    let success = framed("Success. Downloaded item ", identifier, " to");
    if starts_with(&text, &success) {
        return Verdict::Success;
    }
    let failure = framed("ERROR! Download item ", identifier, " failed");
    if starts_with(&text, &failure) {
        Verdict::Failure
    } else {
        Verdict::Other
    }
}

/// The download of an item failed.
#[derive(Clone, Debug, PartialEq, Eq)]
pub struct DownloadFailedError {
    /// The item's display name.
    pub name: String,
    /// The item's identifier.
    pub identifier: i64,
}

/// A failed download as a mathematical value.
pub struct DownloadFailedErrorView {
    pub name: Seq<char>,
    pub identifier: i64,
}

impl View for DownloadFailedError {
    type V = DownloadFailedErrorView;

    open spec fn view(&self) -> DownloadFailedErrorView {
        DownloadFailedErrorView { name: self.name@, identifier: self.identifier }
    }
}

/// The state of one download request.
#[derive(Clone, Debug, PartialEq, Eq)]
pub enum DownloadState {
    /// Nothing was asked yet.
    Idle,
    /// The request was sent; the answer is awaited.
    Requested,
    /// The client reported the item as downloaded.
    Succeeded,
    /// The client reported the download as failed.
    Failed(DownloadFailedError),
}

/// The state of a download request as a mathematical value.
pub enum DownloadStateView {
    Idle,
    Requested,
    Succeeded,
    Failed(DownloadFailedErrorView),
}

impl View for DownloadState {
    type V = DownloadStateView;

    open spec fn view(&self) -> DownloadStateView {
        match self {
            DownloadState::Idle => DownloadStateView::Idle,
            DownloadState::Requested => DownloadStateView::Requested,
            DownloadState::Succeeded => DownloadStateView::Succeeded,
            DownloadState::Failed(e) => DownloadStateView::Failed(e@),
        }
    }
}

/// The error that a failed download of `item` carries.
pub open spec fn failure_of(item: ItemView) -> DownloadFailedErrorView {
    DownloadFailedErrorView { name: item.display_name, identifier: item.identifier }
}

/// The state after the request for an item was sent.
pub open spec fn requested(state: DownloadStateView) -> DownloadStateView {
    match state {
        DownloadStateView::Idle => DownloadStateView::Requested,
        _ => state,
    }
}

/// The state after `line` was read while `item` is being downloaded. Only an
/// awaited answer changes the state, and only a line about this very item is
/// an answer.
pub open spec fn observed(state: DownloadStateView, item: ItemView, line: Seq<char>)
    -> DownloadStateView {
    match state {
        DownloadStateView::Requested => match verdict(line, item.identifier) {
            Verdict::Success => DownloadStateView::Succeeded,
            Verdict::Failure => DownloadStateView::Failed(failure_of(item)),
            Verdict::Other => DownloadStateView::Requested,
        },
        _ => state,
    }
}

impl DownloadState {
    /// Starts the request: from `Idle`, the state becomes `Requested` and the
    /// command to send is handed out. In any other state nothing is to be
    /// sent and the state stays.
    pub fn request(self, item: &Item) -> (r: (DownloadState, Option<String>))
        ensures
            r.0@ == requested(self@),
            r.1 is Some <==> self@ is Idle,
            r.1 matches Some(command) ==> command@ == download_command_text(item.identifier),
    {
        match self {
            DownloadState::Idle => (
                DownloadState::Requested,
                Some(download_command(item.identifier)),
            ),
            other => (other, None),
        }
    }

    /// Takes in one line of the client's output.
    pub fn observe(self, item: &Item, line: &str) -> (r: DownloadState)
        ensures
            r@ == observed(self@, item@, line@),
    {
        match self {
            DownloadState::Requested => match classify(line, item.identifier) {
                Verdict::Success => DownloadState::Succeeded,
                Verdict::Failure => DownloadState::Failed(
                    DownloadFailedError {
                        name: item.display_name.clone(),
                        identifier: item.identifier,
                    },
                ),
                Verdict::Other => DownloadState::Requested,
            },
            other => other,
        }
    }
}

/// Two texts that frame the decimal notations of two integers between the
/// same head and the same tail, where the tail begins with something that is
/// not a digit, cannot both begin one text unless the integers are the same.
proof fn lemma_framed_apart(text: Seq<char>, head: Seq<char>, tail: Seq<char>, a: int, b: int)
    requires
        tail.len() > 0,
        !is_digit(tail[0]),
        (head + decimal(a) + tail).is_prefix_of(text),
        (head + decimal(b) + tail).is_prefix_of(text),
    ensures
        a == b,
{
    let rest = text.skip(head.len() as int);
    let fa = head + decimal(a) + tail;
    let fb = head + decimal(b) + tail;
    assert forall|i: int| 0 <= i < decimal(a).len() implies rest[i] == decimal(a)[i] by {
        assert(text.subrange(0, fa.len() as int)[head.len() + i] == fa[head.len() + i]);
    }
    assert forall|i: int| 0 <= i < decimal(b).len() implies rest[i] == decimal(b)[i] by {
        assert(text.subrange(0, fb.len() as int)[head.len() + i] == fb[head.len() + i]);
    }
    assert(decimal(a) =~= rest.subrange(0, decimal(a).len() as int));
    assert(decimal(b) =~= rest.subrange(0, decimal(b).len() as int));
    assert(rest[decimal(a).len() as int] == tail[0]) by {
        let k = (head.len() + decimal(a).len()) as int;
        assert(text.subrange(0, fa.len() as int)[k] == fa[k]);
    }
    assert(rest[decimal(b).len() as int] == tail[0]) by {
        let k = (head.len() + decimal(b).len()) as int;
        assert(text.subrange(0, fb.len() as int)[k] == fb[k]);
    }
    lemma_decimal_delimited(rest, a, b);
}

/// A line says of at most one item that it was downloaded or that its
/// download failed: of every other item it says nothing.
pub proof fn lemma_verdict_names_one_item(line: Seq<char>, mine: i64, other: i64)
    requires
        mine != other,
        verdict(line, other) != Verdict::Other,
    ensures
        verdict(line, mine) == Verdict::Other,
{
    let text = without_line_feeds(line);
    reveal_strlit("Success. Downloaded item ");
    reveal_strlit(" to");
    reveal_strlit("ERROR! Download item ");
    reveal_strlit(" failed");
    let s_head = "Success. Downloaded item "@;
    let f_head = "ERROR! Download item "@;
    if success_prefix(mine).is_prefix_of(text) {
        if success_prefix(other).is_prefix_of(text) {
            lemma_framed_apart(text, s_head, " to"@, mine as int, other as int);
        } else {
            assert(failure_prefix(other).is_prefix_of(text));
            lemma_heads_apart(text, mine, other);
        }
    } else if failure_prefix(mine).is_prefix_of(text) {
        if failure_prefix(other).is_prefix_of(text) {
            lemma_framed_apart(text, f_head, " failed"@, mine as int, other as int);
        } else {
            assert(success_prefix(other).is_prefix_of(text));
            lemma_heads_apart(text, other, mine);
        }
    }
}

/// No text begins both as a report of success and as a report of failure.
proof fn lemma_heads_apart(text: Seq<char>, a: i64, b: i64)
    ensures
        !(success_prefix(a).is_prefix_of(text) && failure_prefix(b).is_prefix_of(text)),
{
    reveal_strlit("Success. Downloaded item ");
    reveal_strlit("ERROR! Download item ");
    let s = success_prefix(a);
    let f = failure_prefix(b);
    assert(s[0] == 'S');
    assert(f[0] == 'E');
    if s.is_prefix_of(text) && f.is_prefix_of(text) {
        assert(text.subrange(0, s.len() as int)[0] == s[0]);
        assert(text.subrange(0, f.len() as int)[0] == f[0]);
    }
}

/// The download protocol leaves `Requested` only for a line about the item
/// it asked for: it succeeds exactly on a line that begins with the report of
/// success for that item, fails exactly on one that begins with the report
/// of failure for it, and stays where it is on every other line, among them
/// every report about another item.
pub proof fn lemma_transitions_are_anchored(item: ItemView, line: Seq<char>, other: i64)
    ensures
        observed(DownloadStateView::Requested, item, line) is Succeeded <==> success_prefix(
            item.identifier,
        ).is_prefix_of(without_line_feeds(line)),
        observed(DownloadStateView::Requested, item, line) is Failed <==> failure_prefix(
            item.identifier,
        ).is_prefix_of(without_line_feeds(line)),
        other != item.identifier && verdict(line, other) != Verdict::Other ==> observed(
            DownloadStateView::Requested,
            item,
            line,
        ) == DownloadStateView::Requested,
{
    let text = without_line_feeds(line);
    if success_prefix(item.identifier).is_prefix_of(text) && failure_prefix(
        item.identifier,
    ).is_prefix_of(text) {
        lemma_heads_apart(text, item.identifier, item.identifier);
    }
    if other != item.identifier && verdict(line, other) != Verdict::Other {
        lemma_verdict_names_one_item(line, item.identifier, other);
    }
}

} // verus!
