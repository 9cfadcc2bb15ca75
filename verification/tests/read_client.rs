use sync_team::graphql::{CursorWalk, GraphError, GraphFailure, GraphPageInfo, GraphResult};
use sync_team::http::{
    absolute_url, error_for_status, paged_step, retry_step, send_option, with_rate_limiting,
    Answer, Failure, HttpError, Lookup, RetryAfter, Step,
};
use sync_team::pagination::{next_link, rest_paginated, BadLinkHeader, LinkEntry, PageWalk, Turn};

fn text(body: &str) -> String {
    body.to_string()
}

#[test]
fn a_limited_response_makes_the_client_wait_and_send_again() {
    assert_eq!(retry_step(429, RetryAfter::Millis(2000)), Step::Retry { millis: 2000 });
    assert_eq!(retry_step(429, RetryAfter::Millis(0)), Step::Retry { millis: 0 });
    assert_eq!(retry_step(200, RetryAfter::Missing), Step::Found);
    assert_eq!(
        with_rate_limiting(429, RetryAfter::Millis(2000), text("slow down")),
        Answer::Retry { millis: 2000 }
    );
    assert_eq!(with_rate_limiting(200, RetryAfter::Missing, text("{}")), Answer::Found(text("{}")));
}

#[test]
fn an_exchange_with_two_limited_responses_ends_with_the_answer() {
    let responses =
        [(429, RetryAfter::Millis(2000)), (429, RetryAfter::Millis(500)), (200, RetryAfter::Missing)];
    let mut requests = 0;
    let mut waited = 0;
    let mut end = None;
    for (status, retry_after) in responses {
        requests += 1;
        match with_rate_limiting(status, retry_after, text("body")) {
            Answer::Retry { millis } => waited += millis,
            other => {
                end = Some(other);
                break;
            }
        }
    }
    assert_eq!((requests, waited, end), (3, 2500, Some(Answer::Found(text("body")))));
}

#[test]
fn statuses_of_a_rate_limited_endpoint() {
    let failed = |status: u16, retry_after: RetryAfter, error: HttpError| {
        assert_eq!(retry_step(status, retry_after), Step::Failed(error));
        assert_eq!(
            with_rate_limiting(status, retry_after, text("what went wrong")),
            Answer::Failed(Failure { error, status, body: text("what went wrong") })
        );
    };
    assert_eq!(with_rate_limiting(404, RetryAfter::Missing, text("gone")), Answer::Absent);
    failed(400, RetryAfter::Missing, HttpError::BadRequest);
    failed(401, RetryAfter::Missing, HttpError::InvalidAuthToken);
    failed(403, RetryAfter::Millis(5), HttpError::InsufficientPermissions);
    failed(429, RetryAfter::Missing, HttpError::NoRetryAfter);
    failed(429, RetryAfter::Unreadable, HttpError::UnreadableRetryAfter);
    failed(500, RetryAfter::Missing, HttpError::UnexpectedStatus(500));
    failed(204, RetryAfter::Missing, HttpError::UnexpectedStatus(204));
}

#[test]
fn absence_is_an_answer() {
    assert_eq!(send_option(200, text("team")), Lookup::Found(text("team")));
    assert_eq!(send_option(404, text("no")), Lookup::Absent);
    assert_eq!(send_option(403, text("no")), Lookup::Failed { status: 403, body: text("no") });
    assert_eq!(send_option(500, text("oops")), Lookup::Failed { status: 500, body: text("oops") });
    assert_eq!(error_for_status(200, text("a")), Ok(text("a")));
    assert_eq!(error_for_status(299, text("a")), Ok(text("a")));
    for status in [404u16, 199, 300, 429] {
        assert_eq!(
            error_for_status(status, text("why")),
            Err(Failure { error: HttpError::UnexpectedStatus(status), status, body: text("why") })
        );
    }
}

#[test]
fn statuses_of_a_page() {
    assert_eq!(paged_step(200, RetryAfter::Missing), Step::Found);
    assert_eq!(paged_step(204, RetryAfter::Missing), Step::Found);
    assert_eq!(paged_step(429, RetryAfter::Millis(3000)), Step::Retry { millis: 3000 });
    assert_eq!(paged_step(429, RetryAfter::Missing), Step::Failed(HttpError::NoRetryAfter));
    assert_eq!(paged_step(404, RetryAfter::Missing), Step::Failed(HttpError::UnexpectedStatus(404)));
    assert_eq!(paged_step(500, RetryAfter::Millis(1)), Step::Failed(HttpError::UnexpectedStatus(500)));
}

#[test]
fn a_limited_page_is_asked_for_again_and_taken_once() {
    let mut walk: PageWalk<u64> = PageWalk::start("items".to_string());
    let next = link_to(2);
    assert_eq!(
        walk.answer(429, RetryAfter::Millis(2000), text("slow"), vec![], None),
        Turn::Wait { millis: 2000 }
    );
    assert_eq!(walk.next, Some("items".to_string()));
    assert_eq!((walk.requests, walk.items.len()), (0, 0));
    assert_eq!(walk.answer(200, RetryAfter::Missing, text("[1,2]"), vec![1, 2], Some(&next)), Turn::Taken);
    assert_eq!(walk.next, Some("https://api.example/items?page=2".to_string()));
    assert_eq!(walk.answer(200, RetryAfter::Missing, text("[3]"), vec![3], None), Turn::Taken);
    assert_eq!(walk.next, None);
    assert_eq!((walk.requests, walk.items), (2, vec![1, 2, 3]));
}

#[test]
fn a_failed_page_ends_the_walk() {
    let mut walk: PageWalk<u64> = PageWalk::start("items".to_string());
    let next = link_to(2);
    walk.answer(200, RetryAfter::Missing, text("[1]"), vec![1], Some(&next));
    assert_eq!(
        walk.answer(500, RetryAfter::Missing, text("oops"), vec![9], Some(&next)),
        Turn::Failed(Failure { error: HttpError::UnexpectedStatus(500), status: 500, body: text("oops") })
    );
    assert_eq!(walk.next, None);
    assert_eq!((walk.requests, walk.items), (1, vec![1]));

    let mut broken: PageWalk<u64> = PageWalk::start("items".to_string());
    let garbage = "garbage".to_string();
    assert_eq!(broken.answer(200, RetryAfter::Missing, text("[1]"), vec![1], Some(&garbage)), Turn::BadLink);
    assert_eq!(broken.next, None);
    assert_eq!(broken.items, Vec::<u64>::new());

    let mut given_up: PageWalk<u64> = PageWalk::start("items".to_string());
    given_up.page(vec![1], Some(&next)).unwrap();
    given_up.abandon();
    assert_eq!(given_up.next, None);
    assert_eq!((given_up.requests, given_up.items), (1, vec![1]));
}

#[test]
fn relative_addresses_go_under_the_base() {
    assert_eq!(
        absolute_url("https://api.github.com/", "orgs/rust-lang/teams"),
        "https://api.github.com/orgs/rust-lang/teams"
    );
    assert_eq!(
        absolute_url("https://api.github.com/", "https://api.github.com/organizations/1?page=2"),
        "https://api.github.com/organizations/1?page=2"
    );
    assert_eq!(absolute_url("https://discord.com/api", "/v8/x"), "https://discord.com/api/v8/x");
}

#[test]
fn the_next_link_is_read_from_the_header() {
    let header = "<https://api.github.com/organizations/1/members?page=2>; rel=\"next\", \
                  <https://api.github.com/organizations/1/members?page=5>; rel=\"last\""
        .to_string();
    assert_eq!(
        rest_paginated(Some(&header)),
        Ok(Some("https://api.github.com/organizations/1/members?page=2".to_string()))
    );
    let last = "<https://api.github.com/organizations/1/members?page=1>; rel=\"first\", \
                <https://api.github.com/organizations/1/members?page=4>; rel=\"prev\""
        .to_string();
    assert_eq!(rest_paginated(Some(&last)), Ok(None));
    assert_eq!(rest_paginated(None), Ok(None));
    let several = "<https://example.org/a>; rel=\"prev next\"".to_string();
    assert_eq!(rest_paginated(Some(&several)), Ok(Some("https://example.org/a".to_string())));
    let shouted = "<https://example.org/b>; rel=\"NEXT\"".to_string();
    assert_eq!(rest_paginated(Some(&shouted)), Ok(Some("https://example.org/b".to_string())));
    let archive = "<https://example.org/c>; rel=\"next-archive\"".to_string();
    assert_eq!(rest_paginated(Some(&archive)), Ok(None));
}

#[test]
fn a_header_that_cannot_be_read_is_an_error() {
    let broken = "rel=\"next\"".to_string();
    assert_eq!(rest_paginated(Some(&broken)), Err(BadLinkHeader));
    let unknown = "<https://example.org/a>; bogus=1".to_string();
    assert_eq!(rest_paginated(Some(&unknown)), Err(BadLinkHeader));
}

#[test]
fn the_first_next_relation_wins() {
    let entries = vec![
        LinkEntry { target: "a".to_string(), relations: None },
        LinkEntry { target: "b".to_string(), relations: Some(vec!["prev".to_string()]) },
        LinkEntry {
            target: "c".to_string(),
            relations: Some(vec!["first".to_string(), "next".to_string()]),
        },
        LinkEntry { target: "d".to_string(), relations: Some(vec!["next".to_string()]) },
    ];
    assert_eq!(next_link(&entries), Some("c".to_string()));
    assert_eq!(next_link(&entries[..2].iter().map(|e| LinkEntry {
        target: e.target.clone(),
        relations: e.relations.clone(),
    }).collect()), None);
    assert_eq!(next_link(&vec![]), None);
}

fn link_to(page: usize) -> String {
    format!("<https://api.example/items?page={}>; rel=\"next\"", page)
}

#[test]
fn a_walk_over_pages_asks_for_each_once_and_keeps_every_item() {
    for size in [1usize, 2, 3, 7] {
        let items: Vec<u64> = (0..7).collect();
        let pages: Vec<Vec<u64>> = items.chunks(size).map(|c| c.to_vec()).collect();
        let mut walk: PageWalk<u64> = PageWalk::start("items".to_string());
        let mut asked = Vec::new();
        while let Some(url) = walk.next.clone() {
            asked.push(url);
            let index = walk.requests;
            let header = if index + 1 < pages.len() { Some(link_to(index + 2)) } else { None };
            walk.page(pages[index].clone(), header.as_ref()).unwrap();
        }
        assert_eq!(walk.requests, pages.len());
        assert_eq!(asked.len(), pages.len());
        assert_eq!(asked[0], "items");
        if pages.len() > 1 {
            assert_eq!(asked[1], "https://api.example/items?page=2");
        }
        assert_eq!(walk.items, items);
    }
}

#[test]
fn a_walk_is_left_alone_by_a_bad_header() {
    let mut walk: PageWalk<u64> = PageWalk::start("items".to_string());
    let broken = "garbage".to_string();
    assert_eq!(walk.page(vec![1, 2], Some(&broken)), Err(BadLinkHeader));
    assert_eq!(walk.next, Some("items".to_string()));
    assert_eq!(walk.requests, 0);
    assert_eq!(walk.items, Vec::<u64>::new());
}

#[test]
fn page_info_starts_with_a_page_to_fetch() {
    let info = GraphPageInfo::start();
    assert_eq!(info.end_cursor, None);
    assert!(info.has_next_page);
}

#[test]
fn a_cursor_walk_follows_the_cursors_to_the_last_page() {
    let pages = vec![(vec![1u64, 2], Some("c1"), true), (vec![3], Some("c2"), true), (vec![4, 5], None, false)];
    let mut walk: CursorWalk<u64> = CursorWalk::start();
    let mut cursors = Vec::new();
    while walk.has_next_page() {
        cursors.push(walk.cursor());
        let (items, cursor, more) = pages[walk.requests].clone();
        walk.page(Some((
            GraphPageInfo { end_cursor: cursor.map(|c| c.to_string()), has_next_page: more },
            items,
        )));
    }
    assert_eq!(walk.requests, 3);
    assert_eq!(cursors, vec![None, Some("c1".to_string()), Some("c2".to_string())]);
    assert_eq!(walk.items, vec![1, 2, 3, 4, 5]);
}

#[test]
fn a_response_without_the_node_ends_the_walk() {
    let mut walk: CursorWalk<u64> = CursorWalk::start();
    walk.page(Some((GraphPageInfo { end_cursor: Some("c1".to_string()), has_next_page: true }, vec![1])));
    walk.page(None);
    assert_eq!(walk.requests, 2);
    assert!(!walk.has_next_page());
    assert_eq!(walk.cursor(), Some("c1".to_string()));
    assert_eq!(walk.items, vec![1]);

    let mut first: CursorWalk<u64> = CursorWalk::start();
    first.page(None);
    assert_eq!(first.requests, 1);
    assert!(!first.has_next_page());
    assert_eq!(first.items, Vec::<u64>::new());
}

#[test]
fn errors_in_the_envelope_are_fatal_even_with_data() {
    let both = GraphResult {
        data: Some(5u64),
        errors: vec![
            GraphError { message: "first".to_string() },
            GraphError { message: "second".to_string() },
        ],
    };
    assert_eq!(both.graphql(), Err(GraphFailure::Reported("first".to_string())));
    let fine = GraphResult { data: Some(5u64), errors: vec![] };
    assert_eq!(fine.graphql(), Ok(5));
    let empty: GraphResult<u64> = GraphResult { data: None, errors: vec![] };
    assert_eq!(empty.graphql(), Err(GraphFailure::MissingData));
}
