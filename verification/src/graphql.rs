//! The GraphQL side of the read client: the response envelope and cursor
//! pagination.

use vstd::prelude::*;

verus! {

/// One error of a GraphQL response.
#[derive(Debug, PartialEq, Eq)]
pub struct GraphError {
    pub message: String,
}

/// The envelope of a GraphQL response.
#[derive(Debug, PartialEq, Eq)]
pub struct GraphResult<T> {
    pub data: Option<T>,
    pub errors: Vec<GraphError>,
}

/// Why a GraphQL response gives no data.
#[derive(Debug, PartialEq, Eq)]
pub enum GraphFailure {
    /// The response lists errors; this is the message of the first.
    Reported(String),
    /// The response has neither errors nor data.
    MissingData,
}

impl<T> GraphResult<T> {
    /// The data of a response. A response that lists errors is a failure,
    /// whether or not it also holds data.
    pub fn graphql(self) -> (r: Result<T, GraphFailure>)
        ensures
            match r {
                Ok(data) => self.errors.len() == 0 && self.data == Some(data),
                Err(GraphFailure::Reported(message)) => self.errors.len() > 0 && message@
                    == self.errors[0].message@,
                Err(GraphFailure::MissingData) => self.errors.len() == 0 && self.data is None,
            },
    {
        if self.errors.len() > 0 {
            Err(GraphFailure::Reported(self.errors[0].message.clone()))
        } else {
            match self.data {
                Some(data) => Ok(data),
                None => Err(GraphFailure::MissingData),
            }
        }
    }
}

/// A list of nodes of which some may be missing.
#[derive(Debug, PartialEq, Eq)]
pub struct GraphNodes<T> {
    pub nodes: Vec<Option<T>>,
}

/// A node that may be missing.
#[derive(Debug, PartialEq, Eq)]
pub struct GraphNode<T> {
    pub node: Option<T>,
}

/// The `pageInfo` object of a paginated GraphQL connection.
#[derive(Debug, PartialEq, Eq)]
pub struct GraphPageInfo {
    pub end_cursor: Option<String>,
    pub has_next_page: bool,
}

pub struct GraphPageInfoView {
    pub end_cursor: Option<Seq<char>>,
    pub has_next_page: bool,
}

impl DeepView for GraphPageInfo {
    type V = GraphPageInfoView;

    open spec fn deep_view(&self) -> GraphPageInfoView {
        GraphPageInfoView {
            end_cursor: self.end_cursor.deep_view(),
            has_next_page: self.has_next_page,
        }
    }
}

impl GraphPageInfo {
    /// The state before the first page was asked for: no cursor, and a page to
    /// fetch.
    pub fn start() -> (info: GraphPageInfo)
        ensures
            info.deep_view() == (GraphPageInfoView { end_cursor: None, has_next_page: true }),
    {
        GraphPageInfo { end_cursor: None, has_next_page: true }
    }
}

/// A walk over the pages of a GraphQL connection. It holds the page info of
/// the last page and what the pages gave so far.
#[derive(Debug, PartialEq, Eq)]
pub struct CursorWalk<T> {
    pub page_info: GraphPageInfo,
    /// How many pages were asked for and received.
    pub requests: usize,
    /// The items of the pages received, in order.
    pub items: Vec<T>,
}

/// A page of a connection as the walk takes it. A response without the node
/// that was asked for gives no page, and ends the walk.
pub struct CursorPage<T> {
    pub page: Option<(GraphPageInfoView, Seq<T>)>,
}

/// What a walk has come to.
pub struct CursorWalkView<T> {
    pub page_info: GraphPageInfoView,
    pub requests: nat,
    pub items: Seq<T>,
}

impl<T> View for CursorWalk<T> {
    type V = CursorWalkView<T>;

    open spec fn view(&self) -> CursorWalkView<T> {
        CursorWalkView {
            page_info: self.page_info.deep_view(),
            requests: self.requests as nat,
            items: self.items@,
        }
    }
}

/// The walk after one more response: a page replaces the page info and adds
/// its items; a response without the node tells of no further page, so the
/// walk is over with what it has.
pub open spec fn cursor_step<T>(walk: CursorWalkView<T>, page: CursorPage<T>) -> CursorWalkView<T> {
    match page.page {
        Some((info, items)) => CursorWalkView {
            page_info: info,
            requests: walk.requests + 1,
            items: walk.items + items,
        },
        None => CursorWalkView {
            page_info: GraphPageInfoView { has_next_page: false, ..walk.page_info },
            requests: walk.requests + 1,
            items: walk.items,
        },
    }
}

/// A response without the node ends the walk: no further page is asked for,
/// and what the walk gathered stays as it is.
pub proof fn lemma_missing_node_ends_walk<T>(walk: CursorWalkView<T>)
    ensures
        !cursor_step(walk, CursorPage { page: None }).page_info.has_next_page,
        cursor_step(walk, CursorPage { page: None }).items == walk.items,
        cursor_step(walk, CursorPage { page: None }).page_info.end_cursor
            == walk.page_info.end_cursor,
{
}

/// The walk over the responses that a server gives one after the other, from
/// the one at `from` on: it goes on while the page info tells of a next page.
pub open spec fn cursor_walk_from<T>(walk: CursorWalkView<T>, pages: Seq<CursorPage<T>>, from: nat) -> CursorWalkView<
    T,
>
    decreases pages.len() - from,
{
    if !walk.page_info.has_next_page || from >= pages.len() {
        walk
    } else {
        cursor_walk_from(cursor_step(walk, pages[from as int]), pages, from + 1)
    }
}

/// The items of the first `n` responses, page after page.
pub open spec fn cursor_items_upto<T>(pages: Seq<CursorPage<T>>, n: nat) -> Seq<T>
    decreases n,
{
    if n == 0 {
        Seq::empty()
    } else {
        cursor_items_upto(pages, (n - 1) as nat) + (match pages[n - 1].page {
            Some((_, items)) => items,
            None => Seq::empty(),
        })
    }
}

impl<T> CursorWalk<T> {
    /// A walk before its first page.
    pub fn start() -> (walk: Self)
        ensures
            walk@ == (CursorWalkView::<T> {
                page_info: GraphPageInfoView { end_cursor: None, has_next_page: true },
                requests: 0,
                items: Seq::empty(),
            }),
    {
        CursorWalk { page_info: GraphPageInfo::start(), requests: 0, items: Vec::new() }
    }

    /// Whether another page is to be asked for.
    pub fn has_next_page(&self) -> (b: bool)
        ensures
            b == self@.page_info.has_next_page,
    {
        self.page_info.has_next_page
    }

    /// The cursor to send with the request for the next page.
    pub fn cursor(&self) -> (c: Option<String>)
        ensures
            c.deep_view() == self@.page_info.end_cursor,
    {
        match &self.page_info.end_cursor {
            Some(cursor) => Some(cursor.clone()),
            None => None,
        }
    }

    /// Takes the response to the request for the next page.
    pub fn page(&mut self, page: Option<(GraphPageInfo, Vec<T>)>)
        requires
            old(self).requests < usize::MAX,
        ensures
            final(self)@ == cursor_step(
                old(self)@,
                CursorPage {
                    page: match page {
                        Some((info, items)) => Some((info.deep_view(), items@)),
                        None => None,
                    },
                },
            ),
    {
        self.requests = self.requests + 1;
        match page {
            Some((info, items)) => {
                let mut items = items;
                self.items.append(&mut items);
                self.page_info = info;
            },
            None => {
                self.page_info.has_next_page = false;
            },
        }
    }
}

/// Pagination completeness for cursors. A walk over `n` pages, of which each
/// but the last tells of a next page, asks for exactly `n` pages and gives the
/// items of all of them, each page's items once and in the order of the pages,
/// whatever the sizes of the pages.
pub proof fn lemma_cursor_pagination_complete<T>(pages: Seq<CursorPage<T>>)
    requires
        pages.len() > 0,
        forall|i: int| 0 <= i < pages.len() ==> (#[trigger] pages[i]).page is Some,
        forall|i: int|
            0 <= i < pages.len() - 1 ==> (#[trigger] pages[i]).page->Some_0.0.has_next_page,
        !pages[pages.len() - 1].page->Some_0.0.has_next_page,
    ensures
        cursor_walk_from(
            CursorWalkView {
                page_info: GraphPageInfoView { end_cursor: None, has_next_page: true },
                requests: 0,
                items: Seq::empty(),
            },
            pages,
            0,
        ) == (CursorWalkView {
            page_info: pages[pages.len() - 1].page->Some_0.0,
            requests: pages.len(),
            items: cursor_items_upto(pages, pages.len()),
        }),
{
    lemma_cursor_walk(
        CursorWalkView {
            page_info: GraphPageInfoView { end_cursor: None, has_next_page: true },
            requests: 0,
            items: Seq::empty(),
        },
        pages,
        0,
    );
}

proof fn lemma_cursor_walk<T>(walk: CursorWalkView<T>, pages: Seq<CursorPage<T>>, from: nat)
    requires
        from < pages.len(),
        walk.page_info.has_next_page,
        walk.requests == from,
        walk.items == cursor_items_upto(pages, from),
        forall|i: int| 0 <= i < pages.len() ==> (#[trigger] pages[i]).page is Some,
        forall|i: int|
            0 <= i < pages.len() - 1 ==> (#[trigger] pages[i]).page->Some_0.0.has_next_page,
        !pages[pages.len() - 1].page->Some_0.0.has_next_page,
    ensures
        cursor_walk_from(walk, pages, from) == (CursorWalkView {
            page_info: pages[pages.len() - 1].page->Some_0.0,
            requests: pages.len(),
            items: cursor_items_upto(pages, pages.len()),
        }),
    decreases pages.len() - from,
{
    assert(pages[from as int].page is Some);
    let after = cursor_step(walk, pages[from as int]);
    if from + 1 < pages.len() {
        lemma_cursor_walk(after, pages, from + 1);
    } else {
        assert(cursor_walk_from(after, pages, from + 1) == after);
    }
}

} // verus!
