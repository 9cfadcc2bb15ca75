//! Pagination by link headers: a response names the next page in a "next"
//! relation, and the walk ends with the first page that names none.

use crate::http::{
    paged_step, paged_step_after, Failure, FailureView, HttpError, RetryAfter, Step,
};
use crate::seqs::{contains_text, first_where, lemma_first_where_is, lemma_first_where_none};
use hyper_old_types::header::{Link, LinkValue};
use vstd::prelude::*;

verus! {

/// One value of a link header: a target and, where the header gives them, the
/// names of the relations of the target.
#[derive(Debug, PartialEq, Eq)]
pub struct LinkEntry {
    pub target: String,
    pub relations: Option<Vec<String>>,
}

pub struct LinkEntryView {
    pub target: Seq<char>,
    pub relations: Option<Seq<Seq<char>>>,
}

impl DeepView for LinkEntry {
    type V = LinkEntryView;

    open spec fn deep_view(&self) -> LinkEntryView {
        LinkEntryView { target: self.target@, relations: self.relations.deep_view() }
    }
}

/// The error type of `hyper_old_types`. Nothing is claimed of its values; one
/// is only told apart from a success.
#[verifier::external_type_specification]
#[verifier::external_body]
pub struct ExHeaderError(hyper_old_types::Error);

/// The values that `hyper_old_types` reads from a link header, or nothing
/// where it refuses the header.
pub uninterp spec fn parsed_link(header: Seq<char>) -> Option<Seq<LinkEntryView>>;

/// Parses a link header with `hyper_old_types::header::Link`'s `FromStr` and
/// hands out each value's target and the names of its relation types, as the
/// crate writes them. The contract claims only that the outcome is a function
/// of the header's text.
#[verifier::external_body]
fn parse_link_header(header: &str) -> (r: Result<Vec<LinkEntry>, hyper_old_types::Error>)
    ensures
        match r {
            Ok(entries) => parsed_link(header@) == Some(entries.deep_view()),
            Err(_) => parsed_link(header@) is None,
        },
{
    let link: Link = header.parse()?;
    let entry = |value: &LinkValue| LinkEntry {
        target: value.link().to_string(),
        relations: value.rel().map(|types| types.iter().map(|t| t.to_string()).collect()),
    };
    Ok(link.values().iter().map(entry).collect())
}

/// Holds of the link values that have the relation "next".
pub open spec fn names_next() -> spec_fn(LinkEntryView) -> bool {
    |entry: LinkEntryView|
        match entry.relations {
            Some(relations) => relations.contains("next"@),
            None => false,
        }
}

/// The target of the first link value with the relation "next".
pub open spec fn next_target(entries: Seq<LinkEntryView>) -> Option<Seq<char>> {
    match first_where(entries, names_next()) {
        Some(k) => Some(entries[k].target),
        None => None,
    }
}

/// A link header that cannot be read.
#[derive(Clone, Copy, Debug, PartialEq, Eq, Structural)]
pub struct BadLinkHeader;

/// The page that follows, as a response's link header names it: nothing
/// without a header, the first "next" target of a header that can be read, and
/// an error for a header that cannot.
pub open spec fn page_after(header: Option<Seq<char>>) -> Result<Option<Seq<char>>, BadLinkHeader> {
    match header {
        None => Ok(None),
        Some(text) => match parsed_link(text) {
            None => Err(BadLinkHeader),
            Some(entries) => Ok(next_target(entries)),
        },
    }
}

/// The target of the first link value with the relation "next".
pub fn next_link(entries: &Vec<LinkEntry>) -> (r: Option<String>)
    ensures
        r.deep_view() == next_target(entries.deep_view()),
{
    let ghost wanted = names_next();
    let ghost view = entries.deep_view();
    let next = String::from_str("next");
    let mut i: usize = 0;
    while i < entries.len()
        invariant
            i <= entries.len(),
            view == entries.deep_view(),
            wanted == names_next(),
            next@ == "next"@,
            forall|j: int| 0 <= j < i ==> !wanted(#[trigger] view[j]),
        decreases entries.len() - i,
    {
        assert(view[i as int] == entries[i as int].deep_view());
        let named = match &entries[i].relations {
            Some(relations) => contains_text(relations, &next),
            None => false,
        };
        if named {
            proof {
                assert(wanted(view[i as int]));
                lemma_first_where_is(view, wanted, i as int);
            }
            return Some(entries[i].target.clone());
        }
        assert(!wanted(view[i as int]));
        i += 1;
    }
    proof {
        lemma_first_where_none(view, wanted);
    }
    None
}

/// The address of the page that follows the one whose link header is given.
pub fn rest_paginated(header: Option<&String>) -> (r: Result<Option<String>, BadLinkHeader>)
    ensures
        match r {
            Ok(next) => page_after(header.deep_view()) == Ok::<Option<Seq<char>>, BadLinkHeader>(
                next.deep_view(),
            ),
            Err(e) => page_after(header.deep_view()) == Err::<Option<Seq<char>>, BadLinkHeader>(e),
        },
{
    match header {
        None => Ok(None),
        Some(text) => match parse_link_header(text.as_str()) {
            Err(_) => Err(BadLinkHeader),
            Ok(entries) => Ok(next_link(&entries)),
        },
    }
}

/// A walk over the pages of a listing. It holds the address to ask next and
/// what the pages gave so far.
#[derive(Debug, PartialEq, Eq)]
pub struct PageWalk<T> {
    /// The address of the page to ask for, nothing when the walk is over.
    pub next: Option<String>,
    /// How many pages were asked for and received.
    pub requests: usize,
    /// The items of the pages received, in order.
    pub items: Vec<T>,
}

/// A page as the walk takes it: its items and the address that its link header
/// gives for the page after it.
pub struct PageView<T> {
    pub items: Seq<T>,
    pub next: Option<Seq<char>>,
}

/// What a walk has come to.
pub struct WalkView<T> {
    pub next: Option<Seq<char>>,
    pub requests: nat,
    pub items: Seq<T>,
}

impl<T> View for PageWalk<T> {
    type V = WalkView<T>;

    open spec fn view(&self) -> WalkView<T> {
        WalkView { next: self.next.deep_view(), requests: self.requests as nat, items: self.items@ }
    }
}

/// The walk after one more page.
pub open spec fn walk_step<T>(walk: WalkView<T>, page: PageView<T>) -> WalkView<T> {
    WalkView { next: page.next, requests: walk.requests + 1, items: walk.items + page.items }
}

/// The walk over the pages that a server hands out one after the other,
/// from the page at `from` on: it goes on while a next page is named.
pub open spec fn walk_from<T>(walk: WalkView<T>, pages: Seq<PageView<T>>, from: nat) -> WalkView<T>
    decreases pages.len() - from,
{
    if walk.next is None || from >= pages.len() {
        walk
    } else {
        walk_from(walk_step(walk, pages[from as int]), pages, from + 1)
    }
}

/// The items of the first `n` pages, page after page.
pub open spec fn items_upto<T>(pages: Seq<PageView<T>>, n: nat) -> Seq<T>
    decreases n,
{
    if n == 0 {
        Seq::empty()
    } else {
        items_upto(pages, (n - 1) as nat) + pages[n - 1].items
    }
}

impl<T> PageWalk<T> {
    /// A walk that starts at `url`.
    pub fn start(url: String) -> (walk: Self)
        ensures
            walk@ == (WalkView::<T> { next: Some(url@), requests: 0, items: Seq::empty() }),
    {
        PageWalk { next: Some(url), requests: 0, items: Vec::new() }
    }

    /// Takes the page that was received for the address in `next`: its items
    /// and its link header. The walk is left as it was where the header cannot
    /// be read.
    pub fn page(&mut self, items: Vec<T>, header: Option<&String>) -> (r: Result<(), BadLinkHeader>)
        requires
            old(self).requests < usize::MAX,
        ensures
            match r {
                Ok(_) => page_after(header.deep_view()) is Ok && final(self)@ == walk_step(
                    old(self)@,
                    PageView { items: items@, next: page_after(header.deep_view())->Ok_0 },
                ),
                Err(e) => page_after(header.deep_view()) is Err && *final(self) == *old(self),
            },
    {
        match rest_paginated(header) {
            Err(e) => Err(e),
            Ok(next) => {
                let mut items = items;
                self.items.append(&mut items);
                self.requests = self.requests + 1;
                self.next = next;
                Ok(())
            },
        }
    }

    /// Ends the walk where it stands: no further page is asked for, and what
    /// the pages gave so far stays. This is for a page that could not be
    /// handled.
    pub fn abandon(&mut self)
        ensures
            final(self)@ == (WalkView { next: None, ..old(self)@ }),
    {
        self.next = None;
    }

    /// Takes the response to the request for the address in `next`: its
    /// status and wait, its body, its link header, and the items that the
    /// caller read from a body that came with a status of success. A limited
    /// response leaves the walk as it is and tells the wait, so that the same
    /// page is asked for again and its items are taken once. A response that
    /// fails, or whose link header cannot be read, ends the walk: its items
    /// are not taken, and no later page is asked for.
    pub fn answer(
        &mut self,
        status: u16,
        retry_after: RetryAfter,
        body: String,
        items: Vec<T>,
        header: Option<&String>,
    ) -> (turn: Turn)
        requires
            old(self).requests < usize::MAX,
        ensures
            (final(self)@, turn.deep_view()) == walk_answer(
                old(self)@,
                status,
                retry_after,
                body@,
                items@,
                header.deep_view(),
            ),
    {
        match paged_step(status, retry_after) {
            Step::Retry { millis } => Turn::Wait { millis },
            Step::Found => match self.page(items, header) {
                Ok(_) => Turn::Taken,
                Err(_) => {
                    self.abandon();
                    Turn::BadLink
                },
            },
            Step::Absent => {
                self.abandon();
                Turn::Failed(Failure { error: HttpError::UnexpectedStatus(status), status, body })
            },
            Step::Failed(error) => {
                self.abandon();
                Turn::Failed(Failure { error, status, body })
            },
        }
    }
}

/// What became of a response to a request for a page.
#[derive(Debug, PartialEq, Eq)]
pub enum Turn {
    /// The page was taken.
    Taken,
    /// Sleep this long, then ask for the same page again.
    Wait { millis: u64 },
    /// The request failed; the walk is over.
    Failed(Failure),
    /// The link header of the page cannot be read; the walk is over.
    BadLink,
}

pub enum TurnView {
    Taken,
    Wait { millis: u64 },
    Failed(FailureView),
    BadLink,
}

impl DeepView for Turn {
    type V = TurnView;

    open spec fn deep_view(&self) -> TurnView {
        match self {
            Turn::Taken => TurnView::Taken,
            Turn::Wait { millis } => TurnView::Wait { millis: *millis },
            Turn::Failed(failure) => TurnView::Failed(failure.deep_view()),
            Turn::BadLink => TurnView::BadLink,
        }
    }
}

/// The walk after a response, and what became of the response.
pub open spec fn walk_answer<T>(
    walk: WalkView<T>,
    status: u16,
    retry_after: RetryAfter,
    body: Seq<char>,
    items: Seq<T>,
    header: Option<Seq<char>>,
) -> (WalkView<T>, TurnView) {
    match paged_step_after(status, retry_after) {
        Step::Retry { millis } => (walk, TurnView::Wait { millis }),
        Step::Found => match page_after(header) {
            Ok(next) => (walk_step(walk, PageView { items, next }), TurnView::Taken),
            Err(_) => (WalkView { next: None, ..walk }, TurnView::BadLink),
        },
        Step::Absent => (
            WalkView { next: None, ..walk },
            TurnView::Failed(
                FailureView { error: HttpError::UnexpectedStatus(status), status, body },
            ),
        ),
        Step::Failed(error) => (
            WalkView { next: None, ..walk },
            TurnView::Failed(FailureView { error, status, body }),
        ),
    }
}

/// A limited page is asked for again after its wait, and nothing of it is
/// taken: the walk stands as before, and the wait is the one that the response
/// told.
pub proof fn lemma_limited_page_is_retried<T>(
    walk: WalkView<T>,
    millis: u64,
    body: Seq<char>,
    items: Seq<T>,
    header: Option<Seq<char>>,
)
    ensures
        walk_answer(walk, 429, RetryAfter::Millis(millis), body, items, header) == (
            walk,
            TurnView::Wait { millis },
        ),
{
}

/// Pagination completeness. A walk over `n` pages, of which each but the last
/// names a next page, asks for exactly `n` pages and gives the items of all of
/// them, each page's items once and in the order of the pages, whatever the
/// sizes of the pages.
pub proof fn lemma_pagination_complete<T>(start: Seq<char>, pages: Seq<PageView<T>>)
    requires
        pages.len() > 0,
        forall|i: int| 0 <= i < pages.len() - 1 ==> (#[trigger] pages[i]).next is Some,
        pages[pages.len() - 1].next is None,
    ensures
        walk_from(WalkView { next: Some(start), requests: 0, items: Seq::empty() }, pages, 0) == (
        WalkView { next: None, requests: pages.len(), items: items_upto(pages, pages.len()) }),
{
    lemma_walk(WalkView { next: Some(start), requests: 0, items: Seq::empty() }, pages, 0);
}

proof fn lemma_walk<T>(walk: WalkView<T>, pages: Seq<PageView<T>>, from: nat)
    requires
        from < pages.len(),
        walk.next is Some,
        walk.requests == from,
        walk.items == items_upto(pages, from),
        forall|i: int| 0 <= i < pages.len() - 1 ==> (#[trigger] pages[i]).next is Some,
        pages[pages.len() - 1].next is None,
    ensures
        walk_from(walk, pages, from) == (WalkView {
            next: None,
            requests: pages.len(),
            items: items_upto(pages, pages.len()),
        }),
    decreases pages.len() - from,
{
    let after = walk_step(walk, pages[from as int]);
    if from + 1 < pages.len() {
        lemma_walk(after, pages, from + 1);
    } else {
        assert(walk_from(after, pages, from + 1) == after);
    }
}

} // verus!
