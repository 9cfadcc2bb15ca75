//! The requests that change GitHub, the dry-run decision in front of each, and
//! the types that the API speaks in.

use crate::http::{
    absolute, absolute_url, concat, Authorization, AuthorizationView, Encoding, Method, Param,
    ParamView, Query, Request, RequestView,
};
use crate::model::{TeamPrivacy, TeamRole};
use crate::text::{decimal, decimal_string};
use vstd::prelude::*;

verus! {

/// The address under which relative addresses of the API are found.
pub open spec fn api_base() -> Seq<char> {
    "https://api.github.com/"@
}

/// The character that stands for a number below 64 in the standard base64
/// alphabet.
pub open spec fn base64_char(n: nat) -> char {
    if n < 26 {
        ('A' as u8 + n) as char
    } else if n < 52 {
        ('a' as u8 + (n - 26)) as char
    } else if n < 62 {
        ('0' as u8 + (n - 52)) as char
    } else if n == 62 {
        '+'
    } else {
        '/'
    }
}

/// The standard base64 encoding of bytes, with padding: four characters for
/// every three bytes, and `=` in place of the characters that a last group of
/// one or two bytes leaves open.
pub open spec fn base64(bytes: Seq<u8>) -> Seq<char>
    decreases bytes.len(),
{
    if bytes.len() == 0 {
        Seq::empty()
    } else if bytes.len() == 1 {
        seq![
            base64_char((bytes[0] / 4) as nat),
            base64_char(((bytes[0] % 4) * 16) as nat),
            '=',
            '=',
        ]
    } else if bytes.len() == 2 {
        seq![
            base64_char((bytes[0] / 4) as nat),
            base64_char(((bytes[0] % 4) * 16 + bytes[1] / 16) as nat),
            base64_char(((bytes[1] % 16) * 4) as nat),
            '=',
        ]
    } else {
        seq![
            base64_char((bytes[0] / 4) as nat),
            base64_char(((bytes[0] % 4) * 16 + bytes[1] / 16) as nat),
            base64_char(((bytes[1] % 16) * 4 + bytes[2] / 64) as nat),
            base64_char((bytes[2] % 64) as nat),
        ] + base64(bytes.skip(3))
    }
}

/// The standard base64 encoding, with padding, of the UTF-8 form of a text.
pub open spec fn base64_of_text(text: Seq<char>) -> Seq<char> {
    base64(vstd::utf8::encode_utf8(text))
}

/// Encodes the bytes of `text` with `base64::encode`, which uses the standard
/// alphabet and pads with `=`.
#[verifier::external_body]
fn encode_base64(text: &str) -> (r: String)
    ensures
        r@ == base64_of_text(text@),
{
    base64::encode(text)
}

/// The node id of the user with the database id `id`.
pub open spec fn user_node(id: u64) -> Seq<char> {
    base64_of_text("04:User"@ + decimal(id as nat))
}

/// The node id of the team with the database id `id`.
pub open spec fn team_node(id: u64) -> Seq<char> {
    base64_of_text("04:Team"@ + decimal(id as nat))
}

/// The text that a node id encodes: the kind's mark, then the database id in
/// decimal.
pub fn node_text(mark: &str, id: u64) -> (r: String)
    ensures
        r@ == mark@ + decimal(id as nat),
{
    let digits = decimal_string(id);
    concat(mark, digits.as_str())
}

/// The node id of the user with the database id `id`.
pub fn user_node_id(id: u64) -> (r: String)
    ensures
        r@ == user_node(id),
{
    let text = node_text("04:User", id);
    encode_base64(text.as_str())
}

/// The node id of the team with the database id `id`.
pub fn team_node_id(id: u64) -> (r: String)
    ensures
        r@ == team_node(id),
{
    let text = node_text("04:Team", id);
    encode_base64(text.as_str())
}

/// The name of a role as the API writes it.
pub open spec fn role_name(role: TeamRole) -> Seq<char> {
    match role {
        TeamRole::Member => "member"@,
        TeamRole::Maintainer => "maintainer"@,
    }
}

/// The name of a privacy setting as the API writes it.
pub open spec fn privacy_name(privacy: TeamPrivacy) -> Seq<char> {
    match privacy {
        TeamPrivacy::Closed => "closed"@,
        TeamPrivacy::Secret => "secret"@,
    }
}

impl TeamRole {
    /// The name of the role as the API writes it.
    pub fn to_string(&self) -> (r: String)
        ensures
            r@ == role_name(*self),
    {
        match self {
            TeamRole::Member => String::from_str("member"),
            TeamRole::Maintainer => String::from_str("maintainer"),
        }
    }
}

impl TeamPrivacy {
    /// The name of the setting as the API writes it.
    pub fn to_string(&self) -> (r: String)
        ensures
            r@ == privacy_name(*self),
    {
        match self {
            TeamPrivacy::Closed => String::from_str("closed"),
            TeamPrivacy::Secret => String::from_str("secret"),
        }
    }
}

/// A team as the API describes it. A team without an id is one that a dry run
/// made up: it does not exist on GitHub, and no request is made about it.
#[derive(Debug, PartialEq, Eq)]
pub struct Team {
    pub id: Option<u64>,
    pub name: String,
    pub description: String,
    pub privacy: TeamPrivacy,
    pub slug: String,
}

pub struct TeamView {
    pub id: Option<u64>,
    pub name: Seq<char>,
    pub description: Seq<char>,
    pub privacy: TeamPrivacy,
    pub slug: Seq<char>,
}

impl DeepView for Team {
    type V = TeamView;

    open spec fn deep_view(&self) -> TeamView {
        TeamView {
            id: self.id,
            name: self.name@,
            description: self.description@,
            privacy: self.privacy,
            slug: self.slug@,
        }
    }
}

/// A member of a team.
#[derive(Debug, PartialEq, Eq)]
pub struct TeamMember {
    pub id: u64,
    pub username: String,
    pub role: TeamRole,
}

/// The client's side of the API: the credential, and whether changes are only
/// to be simulated.
#[derive(Debug, PartialEq, Eq)]
pub struct GitHub {
    pub token: String,
    pub dry_run: bool,
}

/// What creating a team comes to.
#[derive(Debug, PartialEq, Eq)]
pub enum Creation {
    /// Nothing is sent; the team stands for the one that would be made.
    Simulated(Team),
    /// The request to send; the response describes the team.
    Send(Request),
}

/// The body that describes a team.
pub open spec fn team_body(name: Seq<char>, description: Seq<char>, privacy: TeamPrivacy) -> Seq<
    (Seq<char>, ParamView),
> {
    seq![
        ("name"@, ParamView::Text(name)),
        ("description"@, ParamView::Text(description)),
        ("privacy"@, ParamView::Text(privacy_name(privacy))),
    ]
}

/// A request of the API: the address under the API's base unless it is a full
/// one, and the token as the credential.
pub open spec fn api_request(
    token: Seq<char>,
    method: Method,
    url: Seq<char>,
    encoding: Encoding,
    body: Seq<(Seq<char>, ParamView)>,
) -> RequestView {
    RequestView {
        method,
        url: absolute(api_base(), url),
        authorization: AuthorizationView::Header("token "@ + token),
        encoding,
        body,
    }
}

/// Builds a request of the API that carries `token`.
pub fn api_call(token: &str, method: Method, url: &str, encoding: Encoding, body: Vec<(String, Param)>) -> (r:
    Request)
    ensures
        r.deep_view() == api_request(token@, method, url@, encoding, body.deep_view()),
{
    Request {
        method,
        url: absolute_url("https://api.github.com/", url),
        authorization: Authorization::Header(concat("token ", token)),
        encoding,
        body,
    }
}

fn team_params(name: &str, description: &str, privacy: TeamPrivacy) -> (body: Vec<(String, Param)>)
    ensures
        body.deep_view() == team_body(name@, description@, privacy),
{
    let mut body: Vec<(String, Param)> = Vec::new();
    body.push((String::from_str("name"), Param::Text(String::from_str(name))));
    body.push((String::from_str("description"), Param::Text(String::from_str(description))));
    body.push((String::from_str("privacy"), Param::Text(privacy.to_string())));
    assert(body.deep_view() =~= team_body(name@, description@, privacy));
    body
}

impl GitHub {
    /// A client with its credential.
    pub fn new(token: String, dry_run: bool) -> (github: Self)
        ensures
            github.token == token,
            github.dry_run == dry_run,
    {
        GitHub { token, dry_run }
    }

    /// A request without a body.
    pub fn req(&self, method: Method, url: &str) -> (r: Request)
        ensures
            r.deep_view() == api_request(self.token@, method, url@, Encoding::Empty, Seq::empty()),
    {
        let body: Vec<(String, Param)> = Vec::new();
        assert(body.deep_view() =~= Seq::<(Seq<char>, ParamView)>::empty());
        self.request(method, url, Encoding::Empty, body)
    }

    /// A request with a body.
    pub fn request(&self, method: Method, url: &str, encoding: Encoding, body: Vec<(String, Param)>) -> (r:
        Request)
        ensures
            r.deep_view() == api_request(self.token@, method, url@, encoding, body.deep_view()),
    {
        api_call(self.token.as_str(), method, url, encoding, body)
    }

    /// The request that runs a GraphQL query with its variables.
    pub fn graphql(&self, query: Query, variables: Vec<(String, Param)>) -> (r: Request)
        ensures
            r.deep_view() == api_request(
                self.token@,
                Method::Post,
                "graphql"@,
                Encoding::Query(query),
                variables.deep_view(),
            ),
    {
        self.request(Method::Post, "graphql", Encoding::Query(query), variables)
    }

    /// The request that looks a team up. Its response is read as a lookup.
    pub fn team(&self, org: &str, team: &str) -> (r: Request)
        ensures
            r.deep_view() == api_request(
                self.token@,
                Method::Get,
                "orgs/"@ + org@ + "/teams/"@ + team@,
                Encoding::Empty,
                Seq::empty(),
            ),
    {
        let mut url = String::from_str("orgs/");
        url.append(org);
        url.append("/teams/");
        url.append(team);
        self.req(Method::Get, url.as_str())
    }

    /// Creates a team. A dry run sends nothing and gives a team without an id
    /// in place of the one that would be made.
    pub fn create_team(&self, org: &str, name: &str, description: &str, privacy: TeamPrivacy) -> (r:
        Creation)
        ensures
            match r {
                Creation::Simulated(team) => self.dry_run && team.deep_view() == (TeamView {
                    id: None,
                    name: name@,
                    description: description@,
                    privacy,
                    slug: name@,
                }),
                Creation::Send(request) => !self.dry_run && request.deep_view() == api_request(
                    self.token@,
                    Method::Post,
                    "orgs/"@ + org@ + "/teams"@,
                    Encoding::Json,
                    team_body(name@, description@, privacy),
                ),
            },
    {
        if self.dry_run {
            Creation::Simulated(
                Team {
                    id: None,
                    name: String::from_str(name),
                    description: String::from_str(description),
                    privacy,
                    slug: String::from_str(name),
                },
            )
        } else {
            let mut url = String::from_str("orgs/");
            url.append(org);
            url.append("/teams");
            Creation::Send(
                self.request(
                    Method::Post,
                    url.as_str(),
                    Encoding::Json,
                    team_params(name, description, privacy),
                ),
            )
        }
    }

    /// Sets the role of a user in a team. Nothing is sent in a dry run, nor
    /// about a team that a dry run made up.
    pub fn set_membership(&self, team: &Team, username: &str, role: TeamRole) -> (r: Option<Request>)
        ensures
            r is Some <==> !self.dry_run && team.id is Some,
            r is Some ==> r->Some_0.deep_view() == api_request(
                self.token@,
                Method::Put,
                membership_path(team.id->Some_0, username@),
                Encoding::Json,
                seq![("role"@, ParamView::Text(role_name(role)))],
            ),
    {
        match team.id {
            Some(id) if !self.dry_run => {
                let url = membership_url(id, username);
                let mut body: Vec<(String, Param)> = Vec::new();
                body.push((String::from_str("role"), Param::Text(role.to_string())));
                assert(body.deep_view() =~= seq![("role"@, ParamView::Text(role_name(role)))]);
                Some(self.request(Method::Put, url.as_str(), Encoding::Json, body))
            },
            _ => None,
        }
    }

    /// Removes a user from a team. Nothing is sent in a dry run, nor about a
    /// team that a dry run made up.
    pub fn remove_membership(&self, team: &Team, username: &str) -> (r: Option<Request>)
        ensures
            r is Some <==> !self.dry_run && team.id is Some,
            r is Some ==> r->Some_0.deep_view() == api_request(
                self.token@,
                Method::Delete,
                membership_path(team.id->Some_0, username@),
                Encoding::Empty,
                Seq::empty(),
            ),
    {
        match team.id {
            Some(id) if !self.dry_run => {
                let url = membership_url(id, username);
                Some(self.req(Method::Delete, url.as_str()))
            },
            _ => None,
        }
    }
}

/// The address of a user's membership in a team.
pub open spec fn membership_path(team: u64, username: Seq<char>) -> Seq<char> {
    "teams/"@ + decimal(team as nat) + "/memberships/"@ + username
}

fn membership_url(team: u64, username: &str) -> (r: String)
    ensures
        r@ == membership_path(team, username@),
{
    let mut url = node_text("teams/", team);
    url.append("/memberships/");
    url.append(username);
    url
}

} // verus!
