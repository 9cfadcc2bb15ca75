//! The requests to Discord, what their responses mean, and the types that
//! the API speaks in.

use crate::http::{
    absolute, absolute_url, concat, Authorization, AuthorizationView, Encoding, Method, Param,
    ParamView, Request, RequestView,
};
use crate::diff::{field_named, find_field};
use crate::model::{Action, ActionView, Field, FieldName, FieldView, Identity, Kind, Value, ValueView};
use crate::discord::{DiscordError, RoleUpdate, UserUpdate};
use crate::seqs::{first_where, lemma_first_where_is, lemma_first_where_none, reversed};
use crate::text::{decimal, decimal_string, parse_unsigned, unsigned_number};
use vstd::prelude::*;

verus! {

/// The account behind a guild member.
#[derive(Debug, PartialEq, Eq)]
pub struct DiscordUser {
    pub id: String,
}

/// A member of a guild with the ids of the roles held.
#[derive(Debug, PartialEq, Eq)]
pub struct GuildMember {
    pub user: DiscordUser,
    pub roles: Vec<String>,
}

pub struct GuildMemberView {
    pub user_id: Seq<char>,
    pub roles: Seq<Seq<char>>,
}

impl DeepView for GuildMember {
    type V = GuildMemberView;

    open spec fn deep_view(&self) -> GuildMemberView {
        GuildMemberView { user_id: self.user.id@, roles: self.roles.deep_view() }
    }
}

/// A role of a guild.
#[derive(Debug, PartialEq, Eq)]
pub struct Role {
    pub id: String,
    pub name: String,
    pub color: u64,
    pub position: u64,
}

pub struct RoleView {
    pub id: Seq<char>,
    pub name: Seq<char>,
    pub color: u64,
    pub position: u64,
}

impl DeepView for Role {
    type V = RoleView;

    open spec fn deep_view(&self) -> RoleView {
        RoleView { id: self.id@, name: self.name@, color: self.color, position: self.position }
    }
}

/// A guild as the listing of the bot's guilds shows it.
#[derive(Debug, PartialEq, Eq)]
pub struct PartialGuild {
    pub name: String,
    pub id: String,
}

/// A guild with its roles.
#[derive(Debug, PartialEq, Eq)]
pub struct Guild {
    pub id: String,
    pub name: String,
    pub roles: Vec<Role>,
}


/// The address under which relative addresses of the API are found.
pub open spec fn discord_base() -> Seq<char> {
    "https://discord.com/api"@
}

/// A request of the API: the address under the API's base unless it is a full
/// one, and the bot's token as the credential.
pub open spec fn discord_request(
    token: Seq<char>,
    method: Method,
    url: Seq<char>,
    encoding: Encoding,
    body: Seq<(Seq<char>, ParamView)>,
) -> RequestView {
    RequestView {
        method,
        url: absolute(discord_base(), url),
        authorization: AuthorizationView::Header("Bot "@ + token),
        encoding,
        body,
    }
}

/// Holds of the guilds called `name`.
pub open spec fn guild_named(name: Seq<char>) -> spec_fn(PartialGuildView) -> bool {
    |g: PartialGuildView| g.name == name
}

pub struct PartialGuildView {
    pub name: Seq<char>,
    pub id: Seq<char>,
}

impl DeepView for PartialGuild {
    type V = PartialGuildView;

    open spec fn deep_view(&self) -> PartialGuildView {
        PartialGuildView { name: self.name@, id: self.id@ }
    }
}

/// The address of a member of a guild.
pub open spec fn member_path(guild_id: Seq<char>, member: u64) -> Seq<char> {
    "/v8/guilds/"@ + guild_id + "/members/"@ + decimal(member as nat)
}

/// The client's side of the API: the bot's token.
#[derive(Debug, PartialEq, Eq)]
pub struct Discord {
    pub token: String,
}

impl Discord {
    /// A client with the bot's token.
    pub fn new(token: String) -> (discord: Self)
        ensures
            discord.token == token,
    {
        Discord { token }
    }

    /// A request without a body.
    pub fn req(&self, method: Method, url: &str) -> (r: Request)
        ensures
            r.deep_view() == discord_request(
                self.token@,
                method,
                url@,
                Encoding::Empty,
                Seq::empty(),
            ),
    {
        let body: Vec<(String, Param)> = Vec::new();
        assert(body.deep_view() =~= Seq::<(Seq<char>, ParamView)>::empty());
        self.request(method, url, Encoding::Empty, body)
    }

    /// A request with a body.
    pub fn request(&self, method: Method, url: &str, encoding: Encoding, body: Vec<(String, Param)>) -> (r:
        Request)
        ensures
            r.deep_view() == discord_request(self.token@, method, url@, encoding, body.deep_view()),
    {
        Request {
            method,
            url: absolute_url("https://discord.com/api", url),
            authorization: Authorization::Header(concat("Bot ", self.token.as_str())),
            encoding,
            body,
        }
    }

    /// The request that lists the bot's guilds.
    pub fn guilds(&self) -> (r: Request)
        ensures
            r.deep_view() == discord_request(
                self.token@,
                Method::Get,
                "/v8/users/@me/guilds"@,
                Encoding::Empty,
                Seq::empty(),
            ),
    {
        self.req(Method::Get, "/v8/users/@me/guilds")
    }

    /// Picks the guild called `name` from the bot's guilds and gives the
    /// request that reads it. No guild of that name is an error.
    pub fn get_guild(&self, guilds: &Vec<PartialGuild>, name: &String) -> (r: Option<Request>)
        ensures
            match first_where(guilds.deep_view(), guild_named(name@)) {
                Some(k) => r is Some && r->Some_0.deep_view() == discord_request(
                    self.token@,
                    Method::Get,
                    "/v8/guilds/"@ + guilds[k].id@,
                    Encoding::Empty,
                    Seq::empty(),
                ),
                None => r is None,
            },
    {
        let ghost wanted = guild_named(name@);
        let ghost view = guilds.deep_view();
        let mut i: usize = 0;
        while i < guilds.len()
            invariant
                i <= guilds.len(),
                view == guilds.deep_view(),
                wanted == guild_named(name@),
                forall|j: int| 0 <= j < i ==> !wanted(#[trigger] view[j]),
            decreases guilds.len() - i,
        {
            if guilds[i].name == *name {
                proof {
                    assert(wanted(view[i as int]));
                    lemma_first_where_is(view, wanted, i as int);
                }
                let url = concat("/v8/guilds/", guilds[i].id.as_str());
                return Some(self.req(Method::Get, url.as_str()));
            }
            assert(!wanted(view[i as int]));
            i += 1;
        }
        proof {
            lemma_first_where_none(view, wanted);
        }
        None
    }

    /// The request that reads a member of a guild. Its response goes through
    /// the retry policy of rate-limited endpoints.
    pub fn get_member(&self, member_id: u64, guild_id: &str) -> (r: Request)
        ensures
            r.deep_view() == discord_request(
                self.token@,
                Method::Get,
                member_path(guild_id@, member_id),
                Encoding::Empty,
                Seq::empty(),
            ),
    {
        let url = member_url(guild_id, member_id);
        self.req(Method::Get, url.as_str())
    }

    /// The request that reads the roles of a guild.
    pub fn get_roles(&self, guild_id: &str) -> (r: Request)
        ensures
            r.deep_view() == discord_request(
                self.token@,
                Method::Get,
                "/v8/guilds/"@ + guild_id@ + "/roles"@,
                Encoding::Empty,
                Seq::empty(),
            ),
    {
        let mut url = String::from_str("/v8/guilds/");
        url.append(guild_id);
        url.append("/roles");
        self.req(Method::Get, url.as_str())
    }

    /// The request for one page of the members of a guild: those after the
    /// member `after`, or the first ones.
    pub fn list_members(&self, guild_id: &str, after: Option<&str>) -> (r: Request)
        ensures
            r.deep_view() == discord_request(
                self.token@,
                Method::Get,
                members_path(guild_id@, after.deep_view()),
                Encoding::Empty,
                Seq::empty(),
            ),
    {
        let mut url = String::from_str("/v8/guilds/");
        url.append(guild_id);
        url.append("/members?limit=1000");
        match after {
            Some(id) => {
                url.append("&after=");
                url.append(id);
            },
            None => {},
        }
        assert(url@ =~= members_path(guild_id@, after.deep_view()));
        self.req(Method::Get, url.as_str())
    }

    /// The request that creates a role with its name and color.
    pub fn create_guild_role(&self, guild_id: &str, name: &str, color: u64) -> (r: Request)
        ensures
            r.deep_view() == role_creation(self.token@, guild_id@, name@, color),
    {
        let mut url = String::from_str("/v8/guilds/");
        url.append(guild_id);
        url.append("/roles");
        let mut body: Vec<(String, Param)> = Vec::new();
        body.push((String::from_str("name"), Param::Text(String::from_str(name))));
        body.push((String::from_str("color"), Param::Number(color)));
        assert(body.deep_view() =~= seq![
            ("name"@, ParamView::Text(name@)),
            ("color"@, ParamView::Number(color)),
        ]);
        self.request(Method::Post, url.as_str(), Encoding::Json, body)
    }

    /// The request that gives a role to a member of a guild or takes it away.
    /// It names this one role; the other roles of the member are not written.
    pub fn update_user_roles(&self, guild_id: &str, user_id: u64, update: UserUpdate) -> (r: Request)
        ensures
            r.deep_view() == membership_change(self.token@, guild_id@, user_id, update),
    {
        match update {
            UserUpdate::AddRole(role) => {
                let url = member_role_url(guild_id, user_id, role);
                self.req(Method::Put, url.as_str())
            },
            UserUpdate::RemoveRole(role) => {
                let url = member_role_url(guild_id, user_id, role);
                self.req(Method::Delete, url.as_str())
            },
        }
    }

    /// The request that makes one change to a role of a guild. It writes the
    /// field that changes and no other.
    pub fn update_guild_role(&self, guild_id: &str, role_id: u64, update: RoleUpdate) -> (r: Request)
        ensures
            r.deep_view() == role_change(self.token@, guild_id@, role_id, update),
    {
        match update {
            RoleUpdate::ChangeColor(color) => {
                let mut url = String::from_str("/v8/guilds/");
                url.append(guild_id);
                url.append("/roles/");
                let digits = decimal_string(role_id);
                url.append(digits.as_str());
                let mut body: Vec<(String, Param)> = Vec::new();
                body.push((String::from_str("color"), Param::Number(color)));
                assert(body.deep_view() =~= seq![("color"@, ParamView::Number(color))]);
                self.request(Method::Patch, url.as_str(), Encoding::Json, body)
            },
            RoleUpdate::ChangePosition(position) => {
                let mut url = String::from_str("/v8/guilds/");
                url.append(guild_id);
                url.append("/roles");
                let mut body: Vec<(String, Param)> = Vec::new();
                body.push((String::from_str("id"), Param::Text(decimal_string(role_id))));
                body.push((String::from_str("position"), Param::Number(position)));
                assert(body.deep_view() =~= seq![
                    ("id"@, ParamView::Text(decimal(role_id as nat))),
                    ("position"@, ParamView::Number(position)),
                ]);
                self.request(Method::Patch, url.as_str(), Encoding::JsonList, body)
            },
        }
    }
}

/// The address of a page of the members of a guild.
pub open spec fn members_path(guild_id: Seq<char>, after: Option<Seq<char>>) -> Seq<char> {
    "/v8/guilds/"@ + guild_id + "/members?limit=1000"@ + (match after {
        Some(id) => "&after="@ + id,
        None => Seq::empty(),
    })
}

/// The request that creates a role with its name and color.
pub open spec fn role_creation(token: Seq<char>, guild_id: Seq<char>, name: Seq<char>, color: u64) -> RequestView {
    discord_request(
        token,
        Method::Post,
        "/v8/guilds/"@ + guild_id + "/roles"@,
        Encoding::Json,
        seq![("name"@, ParamView::Text(name)), ("color"@, ParamView::Number(color))],
    )
}

/// The request that gives one role to a member or takes it away.
pub open spec fn membership_change(token: Seq<char>, guild_id: Seq<char>, user_id: u64, update: UserUpdate) -> RequestView {
    match update {
        UserUpdate::AddRole(role) => discord_request(
            token,
            Method::Put,
            member_role_path(guild_id, user_id, role),
            Encoding::Empty,
            Seq::empty(),
        ),
        UserUpdate::RemoveRole(role) => discord_request(
            token,
            Method::Delete,
            member_role_path(guild_id, user_id, role),
            Encoding::Empty,
            Seq::empty(),
        ),
    }
}

/// The request that makes one change to a role: a change of color sends the
/// color alone; a change of position sends the role's id and position as the
/// one entry of a list.
pub open spec fn role_change(token: Seq<char>, guild_id: Seq<char>, role_id: u64, update: RoleUpdate) -> RequestView {
    match update {
        RoleUpdate::ChangeColor(color) => discord_request(
            token,
            Method::Patch,
            "/v8/guilds/"@ + guild_id + "/roles/"@ + decimal(role_id as nat),
            Encoding::Json,
            seq![("color"@, ParamView::Number(color))],
        ),
        RoleUpdate::ChangePosition(position) => discord_request(
            token,
            Method::Patch,
            "/v8/guilds/"@ + guild_id + "/roles"@,
            Encoding::JsonList,
            seq![
                ("id"@, ParamView::Text(decimal(role_id as nat))),
                ("position"@, ParamView::Number(position)),
            ],
        ),
    }
}

/// The number of a field among the fields of a creation; zero where the field
/// is missing or holds no number.
pub open spec fn number_field(fields: Seq<FieldView>, name: FieldName) -> u64 {
    match first_where(fields, field_named(name)) {
        Some(k) => match fields[k].value {
            ValueView::Number(n) => n,
            _ => 0,
        },
        None => 0,
    }
}

/// The address of a role that a member of a guild holds.
pub open spec fn member_role_path(guild_id: Seq<char>, member: u64, role: u64) -> Seq<char> {
    member_path(guild_id, member) + "/roles/"@ + decimal(role as nat)
}

/// The request that carries out an action on a guild, if there is one. A role
/// is created with its name and color; an edit of the color or of the position
/// is one change to the role; a relation gives a role to a member or takes it
/// away. Nothing is sent about a role that has no remote id, nor for an action
/// on another kind or another field.
pub open spec fn guild_write(token: Seq<char>, guild_id: Seq<char>, action: ActionView) -> Option<
    RequestView,
> {
    if action.target().kind != Kind::Role {
        None
    } else {
        match action {
            ActionView::CreateEntity { target, fields } => Some(
                role_creation(token, guild_id, target.name, number_field(fields, FieldName::Color)),
            ),
            ActionView::EditField { target, field, new, .. } => match (target.identity, field, new) {
                (Identity::Committed(id), FieldName::Color, ValueView::Number(color)) => Some(
                    role_change(token, guild_id, id, RoleUpdate::ChangeColor(color)),
                ),
                (Identity::Committed(id), FieldName::Position, ValueView::Number(position)) => Some(
                    role_change(token, guild_id, id, RoleUpdate::ChangePosition(position)),
                ),
                _ => None,
            },
            ActionView::AddRelation { target, related, .. } => match target.identity {
                Identity::Committed(id) => Some(
                    membership_change(token, guild_id, related, UserUpdate::AddRole(id)),
                ),
                Identity::Pending(_) => None,
            },
            ActionView::RemoveRelation { target, related } => match target.identity {
                Identity::Committed(id) => Some(
                    membership_change(token, guild_id, related, UserUpdate::RemoveRole(id)),
                ),
                Identity::Pending(_) => None,
            },
        }
    }
}

fn field_number(fields: &Vec<Field>, name: FieldName) -> (r: u64)
    ensures
        r == number_field(fields.deep_view(), name),
{
    match find_field(fields, name) {
        Some(k) => {
            assert(fields.deep_view()[k as int] == fields[k as int].deep_view());
            match &fields[k].value {
                Value::Number(n) => *n,
                _ => 0,
            }
        },
        None => 0,
    }
}

fn member_role_url(guild_id: &str, member: u64, role: u64) -> (r: String)
    ensures
        r@ == member_role_path(guild_id@, member, role),
{
    let mut url = member_url(guild_id, member);
    url.append("/roles/");
    let id = decimal_string(role);
    url.append(id.as_str());
    url
}

impl Discord {
    /// The request that carries out an action on a guild.
    pub fn write(&self, guild_id: &str, action: &Action) -> (r: Option<Request>)
        ensures
            r.deep_view() == guild_write(self.token@, guild_id@, action.deep_view()),
    {
        let kind = match action {
            Action::CreateEntity { target, .. } => target.kind,
            Action::EditField { target, .. } => target.kind,
            Action::AddRelation { target, .. } => target.kind,
            Action::RemoveRelation { target, .. } => target.kind,
        };
        match kind {
            Kind::Role => {},
            _ => {
                return None;
            },
        }
        match action {
            Action::CreateEntity { target, fields } => Some(
                self.create_guild_role(
                    guild_id,
                    target.name.as_str(),
                    field_number(fields, FieldName::Color),
                ),
            ),
            Action::EditField { target, field, new, .. } => {
                let id = match target.identity {
                    Identity::Committed(id) => id,
                    Identity::Pending(_) => {
                        return None;
                    },
                };
                let number = match new {
                    Value::Number(n) => *n,
                    _ => {
                        return None;
                    },
                };
                match field {
                    FieldName::Color => Some(
                        self.update_guild_role(guild_id, id, RoleUpdate::ChangeColor(number)),
                    ),
                    FieldName::Position => Some(
                        self.update_guild_role(guild_id, id, RoleUpdate::ChangePosition(number)),
                    ),
                    _ => None,
                }
            },
            Action::AddRelation { target, related, .. } => match target.identity {
                Identity::Committed(id) => Some(
                    self.update_user_roles(guild_id, *related, UserUpdate::AddRole(id)),
                ),
                Identity::Pending(_) => None,
            },
            Action::RemoveRelation { target, related } => match target.identity {
                Identity::Committed(id) => Some(
                    self.update_user_roles(guild_id, *related, UserUpdate::RemoveRole(id)),
                ),
                Identity::Pending(_) => None,
            },
        }
    }
}

/// How many members a page of the listing holds at most. A page with fewer
/// members is the last.
pub const MEMBERS_PER_PAGE: usize = 1000;

/// A walk over the members of a guild. It holds the member after whom the next
/// page begins and the members that the pages gave so far, each with the
/// number that its id reads as.
#[derive(Debug, PartialEq, Eq)]
pub struct MemberWalk {
    /// The id of the last member of the last page, if a page was taken.
    pub after: Option<String>,
    /// Whether the last page was taken.
    pub finished: bool,
    /// How many pages were asked for and received.
    pub requests: usize,
    pub users: Vec<(u64, GuildMember)>,
}

pub struct MemberWalkView {
    pub after: Option<Seq<char>>,
    pub finished: bool,
    pub requests: nat,
    pub users: Seq<(u64, GuildMemberView)>,
}

impl DeepView for MemberWalk {
    type V = MemberWalkView;

    open spec fn deep_view(&self) -> MemberWalkView {
        MemberWalkView {
            after: self.after.deep_view(),
            finished: self.finished,
            requests: self.requests as nat,
            users: self.users.deep_view(),
        }
    }
}

/// Whether the ids of all members read as numbers.
pub open spec fn all_numbered(members: Seq<GuildMemberView>) -> bool {
    forall|i: int| 0 <= i < members.len() ==> unsigned_number((#[trigger] members[i]).user_id, 10)
        is Some
}

/// The members of a page, each with the number that its id reads as.
pub open spec fn numbered(members: Seq<GuildMemberView>) -> Seq<(u64, GuildMemberView)> {
    Seq::new(
        members.len(),
        |i: int| (unsigned_number(members[i].user_id, 10).unwrap_or(0), members[i]),
    )
}

/// The walk before its first page.
pub open spec fn member_walk_start() -> MemberWalkView {
    MemberWalkView { after: None, finished: false, requests: 0, users: Seq::empty() }
}

/// The walk after one more page: its members are added, the next page begins
/// after its last member, and a page that is not full is the last.
pub open spec fn member_step(walk: MemberWalkView, page: Seq<GuildMemberView>) -> MemberWalkView {
    MemberWalkView {
        after: if page.len() > 0 {
            Some(page[page.len() - 1].user_id)
        } else {
            walk.after
        },
        finished: page.len() < MEMBERS_PER_PAGE,
        requests: walk.requests + 1,
        users: walk.users + numbered(page),
    }
}

/// The walk over the pages that a server hands out one after the other, from
/// the page at `from` on: it goes on until a page is not full.
pub open spec fn member_walk_from(walk: MemberWalkView, pages: Seq<Seq<GuildMemberView>>, from: nat) -> MemberWalkView
    decreases pages.len() - from,
{
    if walk.finished || from >= pages.len() {
        walk
    } else {
        member_walk_from(member_step(walk, pages[from as int]), pages, from + 1)
    }
}

/// The members of the first `n` pages, page after page.
pub open spec fn members_of_pages(pages: Seq<Seq<GuildMemberView>>, n: nat) -> Seq<
    (u64, GuildMemberView),
>
    decreases n,
{
    if n == 0 {
        Seq::empty()
    } else {
        members_of_pages(pages, (n - 1) as nat) + numbered(pages[n - 1])
    }
}

impl MemberWalk {
    /// A walk before its first page.
    pub fn start() -> (walk: Self)
        ensures
            walk.deep_view() == member_walk_start(),
    {
        let walk = MemberWalk { after: None, finished: false, requests: 0, users: Vec::new() };
        assert(walk.users.deep_view() =~= Seq::<(u64, GuildMemberView)>::empty());
        walk
    }

    /// Takes the page that was received for the request after `after`. A
    /// member whose id is no number is an error, and the walk is left as it
    /// was.
    pub fn page(&mut self, members: Vec<GuildMember>) -> (r: Result<(), DiscordError>)
        requires
            old(self).requests < usize::MAX,
        ensures
            match r {
                Ok(_) => all_numbered(members.deep_view()) && final(self).deep_view()
                    == member_step(old(self).deep_view(), members.deep_view()),
                Err(e) => e == DiscordError::InvalidUserId && !all_numbered(members.deep_view())
                    && *final(self) == *old(self),
            },
    {
        let ghost page = members.deep_view();
        let count = members.len();
        let last = if count > 0 {
            assert(page[count - 1] == members[count - 1].deep_view());
            Some(members[count - 1].user.id.clone())
        } else {
            None
        };
        let mut ids: Vec<u64> = Vec::new();
        let mut i: usize = 0;
        while i < count
            invariant
                i <= count,
                count == members.len(),
                page == members.deep_view(),
                ids.len() == i,
                forall|j: int|
                    0 <= j < i ==> unsigned_number((#[trigger] page[j]).user_id, 10) == Some(
                        ids@[j],
                    ),
            decreases count - i,
        {
            assert(page[i as int] == members[i as int].deep_view());
            let id = &members[i].user.id;
            assert(id@.subrange(0, id@.len() as int) =~= id@);
            match parse_unsigned(id.as_str(), 0, 10) {
                Some(number) => {
                    ids.push(number);
                },
                None => {
                    return Err(DiscordError::InvalidUserId);
                },
            }
            i += 1;
        }
        let ghost before = self.users.deep_view();
        let mut rest = reversed(members);
        let mut k: usize = 0;
        while k < count
            invariant
                k <= count,
                count == page.len(),
                ids.len() == count,
                rest.len() == count - k,
                forall|j: int|
                    0 <= j < rest.len() ==> (#[trigger] rest@[j]).deep_view() == page[count - 1 - j],
                forall|j: int|
                    0 <= j < count ==> unsigned_number((#[trigger] page[j]).user_id, 10) == Some(
                        ids@[j],
                    ),
                self.users.deep_view() == before + numbered(page).take(k as int),
                self.after == old(self).after,
                self.finished == old(self).finished,
                self.requests == old(self).requests,
            decreases count - k,
        {
            let ghost so_far = self.users.deep_view();
            let member = rest.pop().unwrap();
            assert(member.deep_view() == page[k as int]);
            self.users.push((ids[k], member));
            assert(self.users.deep_view() =~= so_far.push(numbered(page)[k as int]));
            assert(self.users.deep_view() =~= before + numbered(page).take(k + 1));
            k += 1;
        }
        assert(numbered(page).take(count as int) =~= numbered(page));
        match last {
            Some(id) => {
                self.after = Some(id);
            },
            None => {},
        }
        self.finished = count < MEMBERS_PER_PAGE;
        self.requests = self.requests + 1;
        Ok(())
    }
}

/// Completeness of the member listing. A walk over `n` pages, of which each
/// but the last is full, asks for exactly `n` pages and gives the members of
/// all of them, each once and in the order of the pages.
pub proof fn lemma_member_walk_complete(pages: Seq<Seq<GuildMemberView>>)
    requires
        pages.len() > 0,
        forall|i: int| 0 <= i < pages.len() - 1 ==> (#[trigger] pages[i]).len() >= MEMBERS_PER_PAGE,
        pages[pages.len() - 1].len() < MEMBERS_PER_PAGE,
    ensures
        member_walk_from(member_walk_start(), pages, 0).finished,
        member_walk_from(member_walk_start(), pages, 0).requests == pages.len(),
        member_walk_from(member_walk_start(), pages, 0).users == members_of_pages(
            pages,
            pages.len(),
        ),
{
    lemma_member_walk(member_walk_start(), pages, 0);
}

proof fn lemma_member_walk(walk: MemberWalkView, pages: Seq<Seq<GuildMemberView>>, from: nat)
    requires
        from < pages.len(),
        !walk.finished,
        walk.requests == from,
        walk.users == members_of_pages(pages, from),
        forall|i: int| 0 <= i < pages.len() - 1 ==> (#[trigger] pages[i]).len() >= MEMBERS_PER_PAGE,
        pages[pages.len() - 1].len() < MEMBERS_PER_PAGE,
    ensures
        member_walk_from(walk, pages, from).finished,
        member_walk_from(walk, pages, from).requests == pages.len(),
        member_walk_from(walk, pages, from).users == members_of_pages(pages, pages.len()),
    decreases pages.len() - from,
{
    let after = member_step(walk, pages[from as int]);
    if from + 1 < pages.len() {
        assert(pages[from as int].len() >= MEMBERS_PER_PAGE);
        lemma_member_walk(after, pages, from + 1);
    } else {
        assert(member_walk_from(after, pages, from + 1) == after);
    }
}

fn member_url(guild_id: &str, member: u64) -> (r: String)
    ensures
        r@ == member_path(guild_id@, member),
{
    let mut url = String::from_str("/v8/guilds/");
    url.append(guild_id);
    url.append("/members/");
    let id = decimal_string(member);
    url.append(id.as_str());
    url
}

} // verus!
