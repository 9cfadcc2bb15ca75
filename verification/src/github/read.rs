//! Reading the state of GitHub: the requests to make, page after page, and how
//! the pages add up to a result.

use crate::github::api::{
    api_call, api_request, team_node, team_node_id, user_node, user_node_id, GitHub, Team,
    TeamMember,
};
use crate::graphql::CursorWalk;
use crate::http::{Encoding, Method, Param, ParamView, Query, Request};
use crate::pagination::{PageWalk, WalkView};
use crate::seqs::{
    first_where, lemma_first_where, lemma_first_where_is, lemma_first_where_none,
    lemma_first_where_push, lemma_first_where_update, reversed,
};
use crate::text::decimal_string;
use std::collections::{HashMap, HashSet};
use vstd::prelude::*;

verus! {

broadcast use vstd::std_specs::hash::group_hash_axioms;

/// The credential with which the API is read.
#[derive(Debug, PartialEq, Eq)]
pub struct HttpClient {
    pub token: String,
}

impl HttpClient {
    /// A client with its credential.
    pub fn new(token: String) -> (client: Self)
        ensures
            client.token == token,
    {
        HttpClient { token }
    }

    /// A request without a body.
    pub fn req(&self, method: Method, url: &str) -> (r: Request)
        ensures
            r.deep_view() == api_request(self.token@, method, url@, Encoding::Empty, Seq::empty()),
    {
        let body: Vec<(String, Param)> = Vec::new();
        assert(body.deep_view() =~= Seq::<(Seq<char>, ParamView)>::empty());
        api_call(self.token.as_str(), method, url, Encoding::Empty, body)
    }

    /// The request that runs a GraphQL query with its variables.
    pub fn graphql(&self, query: Query, variables: Vec<(String, Param)>) -> (r: Request)
        ensures
            r.deep_view() == api_request(
                self.token@,
                Method::Post,
                "graphql"@,
                Encoding::Query(query),
                variables.deep_view(),
            ),
    {
        api_call(self.token.as_str(), Method::Post, "graphql", Encoding::Query(query), variables)
    }
}

/// How many ids one query for user names carries at most.
pub const USERNAMES_PER_QUERY: usize = 100;

/// The ids that the query at `k` asks about: a hundred, or what is left.
pub open spec fn chunk(ids: Seq<u64>, k: int) -> Seq<u64> {
    ids.subrange(
        100 * k,
        if 100 * k + 100 <= ids.len() {
            100 * k + 100
        } else {
            ids.len() as int
        },
    )
}

/// How many queries it takes to ask about `len` ids.
pub open spec fn chunk_count(len: nat) -> nat {
    (len + 99) / 100
}

/// The node ids of users.
pub open spec fn user_nodes(ids: Seq<u64>) -> Seq<Seq<char>> {
    Seq::new(ids.len(), |i: int| user_node(ids[i]))
}

/// The variables of a query for the names of users.
pub open spec fn usernames_variables(ids: Seq<u64>) -> Seq<(Seq<char>, ParamView)> {
    seq![("ids"@, ParamView::Texts(user_nodes(ids)))]
}

/// The variables of a query for a page of a team's members.
pub open spec fn members_variables(team: u64, cursor: Option<Seq<char>>) -> Seq<
    (Seq<char>, ParamView),
> {
    seq![
        ("team"@, ParamView::Text(team_node(team))),
        (
            "cursor"@,
            match cursor {
                Some(c) => ParamView::Text(c),
                None => ParamView::Missing,
            },
        ),
    ]
}

/// A user's name as a query for names gives it.
#[derive(Debug, PartialEq, Eq)]
pub struct Username {
    pub database_id: u64,
    pub login: String,
}

/// The names after those of the first `n` nodes were added; a name that comes
/// later replaces an earlier one of the same user, and a missing node adds
/// nothing.
pub open spec fn named_upto(names: Map<u64, String>, nodes: Seq<Option<Username>>, n: nat) -> Map<
    u64,
    String,
>
    decreases n,
{
    if n == 0 {
        names
    } else {
        match nodes[n - 1] {
            Some(node) => named_upto(names, nodes, (n - 1) as nat).insert(
                node.database_id,
                node.login,
            ),
            None => named_upto(names, nodes, (n - 1) as nat),
        }
    }
}

/// The members after the first `n` edges of a page were added.
pub open spec fn members_upto(members: Map<u64, TeamMember>, edges: Seq<TeamMember>, n: nat) -> Map<
    u64,
    TeamMember,
>
    decreases n,
{
    if n == 0 {
        members
    } else {
        members_upto(members, edges, (n - 1) as nat).insert(edges[n - 1].id, edges[n - 1])
    }
}

fn user_node_ids(ids: &Vec<u64>, from: usize, to: usize) -> (r: Vec<String>)
    requires
        from <= to <= ids.len(),
    ensures
        r.deep_view() == user_nodes(ids@.subrange(from as int, to as int)),
{
    let ghost part = ids@.subrange(from as int, to as int);
    let mut out: Vec<String> = Vec::new();
    let mut i: usize = from;
    while i < to
        invariant
            from <= i <= to <= ids.len(),
            part == ids@.subrange(from as int, to as int),
            out.len() == i - from,
            forall|j: int| 0 <= j < i - from ==> out[j]@ == user_node(part[j]),
        decreases to - i,
    {
        out.push(user_node_id(ids[i]));
        i += 1;
    }
    assert(out.deep_view() =~= user_nodes(part));
    out
}

/// The queries that ask for the names of the users with the given ids: one
/// for each hundred ids, in order.
pub fn usernames_queries(token: &str, ids: &Vec<u64>) -> (r: Vec<Request>)
    ensures
        r.len() == chunk_count(ids.len() as nat),
        forall|k: int|
            0 <= k < r.len() ==> (#[trigger] r[k]).deep_view() == api_request(
                token@,
                Method::Post,
                "graphql"@,
                Encoding::Query(Query::Usernames),
                usernames_variables(chunk(ids@, k)),
            ),
{
    let mut out: Vec<Request> = Vec::new();
    let mut from: usize = 0;
    while from < ids.len()
        invariant
            from <= ids.len(),
            (from == 100 * out.len()) || (from == ids.len() && 100 * (out.len() - 1) < ids.len()
                < 100 * out.len()),
            forall|k: int|
                0 <= k < out.len() ==> (#[trigger] out[k]).deep_view() == api_request(
                    token@,
                    Method::Post,
                    "graphql"@,
                    Encoding::Query(Query::Usernames),
                    usernames_variables(chunk(ids@, k)),
                ),
        decreases ids.len() - from,
    {
        let to = if ids.len() - from >= USERNAMES_PER_QUERY {
            from + USERNAMES_PER_QUERY
        } else {
            ids.len()
        };
        let nodes = user_node_ids(ids, from, to);
        let mut variables: Vec<(String, Param)> = Vec::new();
        variables.push((String::from_str("ids"), Param::Texts(nodes)));
        assert(variables.deep_view() =~= usernames_variables(chunk(ids@, out.len() as int)));
        out.push(
            api_call(token, Method::Post, "graphql", Encoding::Query(Query::Usernames), variables),
        );
        from = to;
    }
    out
}

/// Adds the names that one response gives.
pub fn add_usernames(names: &mut HashMap<u64, String>, nodes: &Vec<Option<Username>>)
    ensures
        final(names)@ == named_upto(old(names)@, nodes@, nodes.len() as nat),
{
    let mut i: usize = 0;
    while i < nodes.len()
        invariant
            i <= nodes.len(),
            names@ == named_upto(old(names)@, nodes@, i as nat),
        decreases nodes.len() - i,
    {
        match &nodes[i] {
            Some(node) => {
                names.insert(node.database_id, node.login.clone());
            },
            None => {},
        }
        i += 1;
    }
}

/// Adds the ids that one page gives.
pub fn add_ids(ids: &mut HashSet<u64>, page: &Vec<u64>)
    ensures
        final(ids)@ == old(ids)@.union(page@.to_set()),
{
    let mut i: usize = 0;
    while i < page.len()
        invariant
            i <= page.len(),
            ids@ == old(ids)@.union(page@.take(i as int).to_set()),
        decreases page.len() - i,
    {
        ids.insert(page[i]);
        proof {
            let before = page@.take(i as int);
            let after = page@.take(i + 1);
            assert(after =~= before.push(page@[i as int]));
            assert forall|x: u64| after.to_set().contains(x) <==> before.to_set().contains(x) || x
                == page@[i as int] by {
                if after.contains(x) {
                    let j = choose|j: int| 0 <= j < after.len() && after[j] == x;
                    if j < before.len() {
                        assert(before[j] == x);
                    }
                }
                if before.contains(x) {
                    let j = choose|j: int| 0 <= j < before.len() && before[j] == x;
                    assert(after[j] == x);
                }
                assert(after[i as int] == page@[i as int]);
            }
            assert(ids@ =~= old(ids)@.union(after.to_set()));
        }
        i += 1;
    }
    assert(page@.take(page.len() as int) =~= page@);
}

/// Adds the members that one page of a team's members gives.
pub fn add_members(members: &mut HashMap<u64, TeamMember>, edges: Vec<TeamMember>)
    ensures
        final(members)@ == members_upto(old(members)@, edges@, edges.len() as nat),
{
    let ghost all = edges@;
    let mut rest = reversed(edges);
    let ghost count = rest.len();
    let mut i: usize = 0;
    while rest.len() > 0
        invariant
            all.len() == count,
            i + rest@.len() == all.len(),
            forall|j: int| 0 <= j < rest@.len() ==> rest@[j] == all[all.len() - 1 - j],
            members@ == members_upto(old(members)@, all, i as nat),
        decreases rest.len(),
    {
        let edge = rest.pop().unwrap();
        assert(edge == all[i as int]);
        members.insert(edge.id, edge);
        i += 1;
    }
}

/// What a list of entries with text keys says: the value under each key;
/// where a key comes twice the first counts.
pub open spec fn keyed_view<T>(entries: Seq<(String, T)>) -> Seq<(Seq<char>, T)> {
    Seq::new(entries.len(), |i: int| (entries[i].0@, entries[i].1))
}

/// Holds of the entries under the key `key`.
pub open spec fn has_key<T>(key: Seq<char>) -> spec_fn((Seq<char>, T)) -> bool {
    |entry: (Seq<char>, T)| entry.0 == key
}

/// The value under each key of a list of entries.
pub open spec fn keyed_map<T>(entries: Seq<(Seq<char>, T)>) -> Map<Seq<char>, T> {
    Map::new(
        |key: Seq<char>| first_where(entries, has_key::<T>(key)) is Some,
        |key: Seq<char>| entries[first_where(entries, has_key::<T>(key))->Some_0].1,
    )
}

/// Puts a value under a key, in place of the value that the key had.
pub fn put_keyed<T>(entries: &mut Vec<(String, T)>, key: String, value: T)
    ensures
        keyed_map(keyed_view(final(entries)@)) == keyed_map(keyed_view(old(entries)@)).insert(
            key@,
            value,
        ),
{
    let ghost before = keyed_view(entries@);
    let ghost wanted = has_key::<T>(key@);
    let ghost new = (key@, value);
    let mut found: Option<usize> = None;
    let mut i: usize = 0;
    while i < entries.len() && found.is_none()
        invariant
            i <= entries.len(),
            before == keyed_view(entries@),
            wanted == has_key::<T>(key@),
            match found {
                Some(k) => k < entries.len() && first_where(before, wanted) == Some(k as int),
                None => forall|j: int| 0 <= j < i ==> !wanted(#[trigger] before[j]),
            },
        decreases entries.len() - i,
    {
        if entries[i].0 == key {
            proof {
                assert(wanted(before[i as int]));
                lemma_first_where_is(before, wanted, i as int);
            }
            found = Some(i);
        } else {
            assert(!wanted(before[i as int]));
        }
        i += 1;
    }
    match found {
        Some(k) => {
            entries.remove(k);
            entries.insert(k, (key, value));
            proof {
                let after = keyed_view(entries@);
                assert(after =~= before.update(k as int, new));
                lemma_first_where(before, wanted);
                assert forall|other: Seq<char>| #[trigger]
                    keyed_map(after).contains_key(other) == keyed_map(before).insert(
                        new.0,
                        new.1,
                    ).contains_key(other) && (keyed_map(after).contains_key(other) ==> keyed_map(
                    after,
                )[other] == keyed_map(before).insert(new.0, new.1)[other]) by {
                    lemma_first_where(before, has_key::<T>(other));
                    lemma_first_where_update(before, has_key::<T>(other), k as int, new);
                }
                assert(keyed_map(after) =~= keyed_map(before).insert(new.0, new.1));
            }
        },
        None => {
            proof {
                lemma_first_where_none(before, wanted);
            }
            entries.push((key, value));
            proof {
                let after = keyed_view(entries@);
                assert(after =~= before.push(new));
                assert forall|other: Seq<char>| #[trigger]
                    keyed_map(after).contains_key(other) == keyed_map(before).insert(
                        new.0,
                        new.1,
                    ).contains_key(other) && (keyed_map(after).contains_key(other) ==> keyed_map(
                    after,
                )[other] == keyed_map(before).insert(new.0, new.1)[other]) by {
                    lemma_first_where(before, has_key::<T>(other));
                    lemma_first_where_push(before, has_key::<T>(other), new);
                }
                assert(keyed_map(after) =~= keyed_map(before).insert(new.0, new.1));
            }
        },
    }
}

/// The entries after the first `n` nodes were added; a node that comes later
/// replaces an earlier one with the same key, and a missing node adds nothing.
pub open spec fn keyed_upto<T>(map: Map<Seq<char>, T>, nodes: Seq<Option<(String, T)>>, n: nat) -> Map<
    Seq<char>,
    T,
>
    decreases n,
{
    if n == 0 {
        map
    } else {
        match nodes[n - 1] {
            Some((key, value)) => keyed_upto(map, nodes, (n - 1) as nat).insert(key@, value),
            None => keyed_upto(map, nodes, (n - 1) as nat),
        }
    }
}

/// Adds the nodes of a response to a result that is keyed by text: the branch
/// protections of a repository by their patterns.
pub fn add_keyed<T>(result: &mut Vec<(String, T)>, nodes: Vec<Option<(String, T)>>)
    ensures
        keyed_map(keyed_view(final(result)@)) == keyed_upto(
            keyed_map(keyed_view(old(result)@)),
            nodes@,
            nodes.len() as nat,
        ),
{
    let ghost all = nodes@;
    let ghost start = keyed_map(keyed_view(result@));
    let mut rest = reversed(nodes);
    let ghost count = rest.len();
    let mut i: usize = 0;
    while rest.len() > 0
        invariant
            all.len() == count,
            i + rest@.len() == all.len(),
            forall|j: int| 0 <= j < rest@.len() ==> rest@[j] == all[all.len() - 1 - j],
            keyed_map(keyed_view(result@)) == keyed_upto(start, all, i as nat),
        decreases rest.len(),
    {
        let node = rest.pop().unwrap();
        assert(node == all[i as int]);
        match node {
            Some((key, value)) => {
                put_keyed(result, key, value);
            },
            None => {},
        }
        i += 1;
    }
}

/// Adds the texts of a page to a list that holds every text once.
pub fn add_texts(texts: &mut Vec<String>, page: &Vec<String>)
    ensures
        final(texts).deep_view().to_set() == old(texts).deep_view().to_set().union(
            page.deep_view().to_set(),
        ),
        old(texts).deep_view().no_duplicates() ==> final(texts).deep_view().no_duplicates(),
{
    let ghost start = texts.deep_view();
    let ghost given = page.deep_view();
    let mut i: usize = 0;
    while i < page.len()
        invariant
            i <= page.len(),
            given == page.deep_view(),
            texts.deep_view().to_set() == start.to_set().union(given.take(i as int).to_set()),
            start.no_duplicates() ==> texts.deep_view().no_duplicates(),
        decreases page.len() - i,
    {
        let ghost before = texts.deep_view();
        let ghost seen = given.take(i as int);
        assert(given[i as int] == page[i as int]@);
        let known = crate::seqs::contains_text(texts, &page[i]);
        if !known {
            texts.push(page[i].clone());
            assert(texts.deep_view() =~= before.push(given[i as int]));
        }
        proof {
            let after = texts.deep_view();
            let next = given.take(i + 1);
            assert(next =~= seen.push(given[i as int]));
            assert forall|x: Seq<char>|
                after.to_set().contains(x) <==> start.to_set().union(next.to_set()).contains(
                    x,
                ) by {
                if after.contains(x) {
                    let j = choose|j: int| 0 <= j < after.len() && after[j] == x;
                    if j < before.len() {
                        assert(before[j] == x);
                        assert(before.to_set().contains(x));
                    } else {
                        assert(next[i as int] == x);
                    }
                }
                if next.contains(x) {
                    let j = choose|j: int| 0 <= j < next.len() && next[j] == x;
                    if j < seen.len() {
                        assert(seen[j] == x);
                        assert(seen.to_set().contains(x));
                        assert(before.to_set().contains(x));
                    } else {
                        assert(x == given[i as int]);
                        if known {
                            assert(before.contains(x));
                        } else {
                            assert(after[before.len() as int] == x);
                        }
                    }
                }
                if start.contains(x) {
                    assert(start.to_set().contains(x));
                    assert(before.to_set().contains(x));
                }
                if before.contains(x) {
                    let j = choose|j: int| 0 <= j < before.len() && before[j] == x;
                    assert(after[j] == x);
                }
            }
            assert(after.to_set() =~= start.to_set().union(next.to_set()));
        }
        i += 1;
    }
    assert(given.take(page.len() as int) =~= given);
}

/// The request for one page of the members of the team with the id `team`.
pub fn members_query(token: &str, team: u64, cursor: Option<String>) -> (r: Request)
    ensures
        r.deep_view() == api_request(
            token@,
            Method::Post,
            "graphql"@,
            Encoding::Query(Query::TeamMembers),
            members_variables(team, cursor.deep_view()),
        ),
{
    let ghost given = cursor.deep_view();
    let mut variables: Vec<(String, Param)> = Vec::new();
    variables.push((String::from_str("team"), Param::Text(team_node_id(team))));
    let cursor = match cursor {
        Some(c) => Param::Text(c),
        None => Param::Missing,
    };
    variables.push((String::from_str("cursor"), cursor));
    assert(variables.deep_view() =~= members_variables(team, given));
    api_call(token, Method::Post, "graphql", Encoding::Query(Query::TeamMembers), variables)
}

/// Reads the state of GitHub.
#[derive(Debug, PartialEq, Eq)]
pub struct GitHubApiRead {
    pub client: HttpClient,
}

/// A walk that starts at `url`.
pub open spec fn walk_at<T>(url: Seq<char>) -> WalkView<T> {
    WalkView { next: Some(url), requests: 0, items: Seq::empty() }
}

impl GitHubApiRead {
    /// Reads with the given client. This cannot fail.
    pub fn from_client(client: HttpClient) -> (r: Self)
        ensures
            r == (GitHubApiRead { client }),
    {
        GitHubApiRead { client }
    }

    /// The queries for the names of the users with the given ids. Their
    /// responses are added up with `add_usernames`.
    pub fn usernames(&self, ids: &Vec<u64>) -> (r: Vec<Request>)
        ensures
            r.len() == chunk_count(ids.len() as nat),
            forall|k: int|
                0 <= k < r.len() ==> (#[trigger] r[k]).deep_view() == api_request(
                    self.client.token@,
                    Method::Post,
                    "graphql"@,
                    Encoding::Query(Query::Usernames),
                    usernames_variables(chunk(ids@, k)),
                ),
    {
        usernames_queries(self.client.token.as_str(), ids)
    }

    /// The walk over the owners of an organisation. Its pages are lists of
    /// ids, which `add_ids` adds up.
    pub fn org_owners(&self, org: &str) -> (walk: PageWalk<u64>)
        ensures
            walk@ == walk_at::<u64>("orgs/"@ + org@ + "/members?role=admin"@),
    {
        let mut url = String::from_str("orgs/");
        url.append(org);
        url.append("/members?role=admin");
        PageWalk::start(url)
    }

    /// The walk over the members of an organisation.
    pub fn org_members(&self, org: &str) -> (walk: PageWalk<u64>)
        ensures
            walk@ == walk_at::<u64>("orgs/"@ + org@ + "/members"@),
    {
        let mut url = String::from_str("orgs/");
        url.append(org);
        url.append("/members");
        PageWalk::start(url)
    }

    /// The walk over the app installations of an organisation.
    pub fn org_app_installations<T>(&self, org: &str) -> (walk: PageWalk<T>)
        ensures
            walk@ == walk_at::<T>("orgs/"@ + org@ + "/installations"@),
    {
        let mut url = String::from_str("orgs/");
        url.append(org);
        url.append("/installations");
        PageWalk::start(url)
    }

    /// The walk over the repositories that an app installation may reach.
    pub fn app_installation_repos<T>(&self, installation_id: u64) -> (walk: PageWalk<T>)
        ensures
            walk@ == walk_at::<T>(
                "user/installations/"@ + crate::text::decimal(installation_id as nat)
                    + "/repositories"@,
            ),
    {
        let mut url = String::from_str("user/installations/");
        let id = decimal_string(installation_id);
        url.append(id.as_str());
        url.append("/repositories");
        PageWalk::start(url)
    }

    /// The walk over the teams of an organisation, each a name and a slug.
    pub fn org_teams(&self, org: &str) -> (walk: PageWalk<(String, String)>)
        ensures
            walk@ == walk_at::<(String, String)>("orgs/"@ + org@ + "/teams"@),
    {
        let mut url = String::from_str("orgs/");
        url.append(org);
        url.append("/teams");
        PageWalk::start(url)
    }

    /// The request that looks a team up. Its response is read as a lookup.
    pub fn team(&self, org: &str, team: &str) -> (r: Request)
        ensures
            r.deep_view() == api_request(
                self.client.token@,
                Method::Get,
                "orgs/"@ + org@ + "/teams/"@ + team@,
                Encoding::Empty,
                Seq::empty(),
            ),
    {
        let mut url = String::from_str("orgs/");
        url.append(org);
        url.append("/teams/");
        url.append(team);
        self.client.req(Method::Get, url.as_str())
    }

    /// The walk over the members of a team, and nothing for a team that a dry
    /// run made up: such a team has no members to ask for. The request for
    /// each page comes from `members_query`, and `add_members` adds the pages
    /// up.
    pub fn team_memberships(&self, team: &Team) -> (walk: Option<CursorWalk<TeamMember>>)
        ensures
            walk is Some <==> team.id is Some,
            walk is Some ==> walk->Some_0@ == (crate::graphql::CursorWalkView::<TeamMember> {
                page_info: crate::graphql::GraphPageInfoView {
                    end_cursor: None,
                    has_next_page: true,
                },
                requests: 0,
                items: Seq::empty(),
            }),
    {
        match team.id {
            Some(_) => Some(CursorWalk::start()),
            None => None,
        }
    }

    /// The walk over the names of the users invited to a team. Its pages are
    /// lists of names, which `add_texts` adds up.
    pub fn team_membership_invitations(&self, org: &str, team: &str) -> (walk: PageWalk<String>)
        ensures
            walk@ == walk_at::<String>("orgs/"@ + org@ + "/teams/"@ + team@ + "/invitations"@),
    {
        let mut url = String::from_str("orgs/");
        url.append(org);
        url.append("/teams/");
        url.append(team);
        url.append("/invitations");
        PageWalk::start(url)
    }

    /// The request that looks a repository up. Its response is read as a
    /// lookup.
    pub fn repo(&self, org: &str, repo: &str) -> (r: Request)
        ensures
            r.deep_view() == api_request(
                self.client.token@,
                Method::Get,
                "repos/"@ + org@ + "/"@ + repo@,
                Encoding::Empty,
                Seq::empty(),
            ),
    {
        let mut url = String::from_str("repos/");
        url.append(org);
        url.append("/");
        url.append(repo);
        self.client.req(Method::Get, url.as_str())
    }

    /// The walk over the teams of a repository.
    pub fn repo_teams<T>(&self, org: &str, repo: &str) -> (walk: PageWalk<T>)
        ensures
            walk@ == walk_at::<T>("repos/"@ + org@ + "/"@ + repo@ + "/teams"@),
    {
        let mut url = String::from_str("repos/");
        url.append(org);
        url.append("/");
        url.append(repo);
        url.append("/teams");
        PageWalk::start(url)
    }

    /// The walk over the direct collaborators of a repository.
    pub fn repo_collaborators<T>(&self, org: &str, repo: &str) -> (walk: PageWalk<T>)
        ensures
            walk@ == walk_at::<T>(
                "repos/"@ + org@ + "/"@ + repo@ + "/collaborators?affiliation=direct"@,
            ),
    {
        let mut url = String::from_str("repos/");
        url.append(org);
        url.append("/");
        url.append(repo);
        url.append("/collaborators?affiliation=direct");
        PageWalk::start(url)
    }

    /// The walk over the branch protections of a repository, each with its
    /// pattern. The request for each page comes from
    /// `branch_protections_query`; the rules of all pages are added up by their
    /// patterns with `add_keyed`.
    pub fn branch_protections<T>(&self, org: &str, repo: &str) -> (walk: CursorWalk<(String, T)>)
        ensures
            walk@ == (crate::graphql::CursorWalkView::<(String, T)> {
                page_info: crate::graphql::GraphPageInfoView {
                    end_cursor: None,
                    has_next_page: true,
                },
                requests: 0,
                items: Seq::empty(),
            }),
    {
        CursorWalk::start()
    }
}

/// The variables of a query for a page of the branch protections of a
/// repository.
pub open spec fn protections_variables(org: Seq<char>, repo: Seq<char>, cursor: Option<Seq<char>>) -> Seq<
    (Seq<char>, ParamView),
> {
    seq![
        ("org"@, ParamView::Text(org)),
        ("repo"@, ParamView::Text(repo)),
        (
            "cursor"@,
            match cursor {
                Some(c) => ParamView::Text(c),
                None => ParamView::Missing,
            },
        ),
    ]
}

/// The request for one page of the branch protections of a repository.
pub fn branch_protections_query(token: &str, org: &str, repo: &str, cursor: Option<String>) -> (r:
    Request)
    ensures
        r.deep_view() == api_request(
            token@,
            Method::Post,
            "graphql"@,
            Encoding::Query(Query::BranchProtections),
            protections_variables(org@, repo@, cursor.deep_view()),
        ),
{
    let ghost given = cursor.deep_view();
    let mut variables: Vec<(String, Param)> = Vec::new();
    variables.push((String::from_str("org"), Param::Text(String::from_str(org))));
    variables.push((String::from_str("repo"), Param::Text(String::from_str(repo))));
    let cursor = match cursor {
        Some(c) => Param::Text(c),
        None => Param::Missing,
    };
    variables.push((String::from_str("cursor"), cursor));
    assert(variables.deep_view() =~= protections_variables(org@, repo@, given));
    api_call(token, Method::Post, "graphql", Encoding::Query(Query::BranchProtections), variables)
}

impl GitHub {
    /// The queries for the names of the users with the given ids. Their
    /// responses are added up with `add_usernames`.
    pub fn usernames(&self, ids: &Vec<u64>) -> (r: Vec<Request>)
        ensures
            r.len() == chunk_count(ids.len() as nat),
            forall|k: int|
                0 <= k < r.len() ==> (#[trigger] r[k]).deep_view() == api_request(
                    self.token@,
                    Method::Post,
                    "graphql"@,
                    Encoding::Query(Query::Usernames),
                    usernames_variables(chunk(ids@, k)),
                ),
    {
        usernames_queries(self.token.as_str(), ids)
    }

    /// The walk over the owners of an organisation. Its pages are lists of
    /// ids, which `add_ids` adds up.
    pub fn org_owners(&self, org: &str) -> (walk: PageWalk<u64>)
        ensures
            walk@ == walk_at::<u64>("orgs/"@ + org@ + "/members?role=admin"@),
    {
        let mut url = String::from_str("orgs/");
        url.append(org);
        url.append("/members?role=admin");
        PageWalk::start(url)
    }

    /// The walk over the members of a team, and nothing for a team that a dry
    /// run made up: such a team has no members to ask for.
    pub fn team_memberships(&self, team: &Team) -> (walk: Option<CursorWalk<TeamMember>>)
        ensures
            walk is Some <==> team.id is Some,
            walk is Some ==> walk->Some_0@ == (crate::graphql::CursorWalkView::<TeamMember> {
                page_info: crate::graphql::GraphPageInfoView {
                    end_cursor: None,
                    has_next_page: true,
                },
                requests: 0,
                items: Seq::empty(),
            }),
    {
        match team.id {
            Some(_) => Some(CursorWalk::start()),
            None => None,
        }
    }
}

} // verus!
