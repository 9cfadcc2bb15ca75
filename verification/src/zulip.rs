//! The requests to Zulip and what their responses mean.

use crate::http::{
    concat, is_success, Authorization, AuthorizationView, Encoding, Method, Param, ParamView,
    Request, RequestView,
};
use crate::seqs::{first_where, lemma_first_where_is, lemma_first_where_none};
use crate::text::{contains, decimal, decimal_string, occurs_in};
use vstd::prelude::*;

verus! {

/// The address under which the API is found.
pub open spec fn zulip_base() -> Seq<char> {
    "https://rust-lang.zulipchat.com/api/v1"@
}

/// The first `n` numbers in decimal, with commas between them.
pub open spec fn joined_upto(items: Seq<u64>, n: nat) -> Seq<char>
    decreases n,
{
    if n == 0 {
        Seq::empty()
    } else if n == 1 {
        decimal(items[0] as nat)
    } else {
        joined_upto(items, (n - 1) as nat) + ","@ + decimal(items[n - 1] as nat)
    }
}

/// A list of numbers as a JSON array: the numbers in decimal between square
/// brackets, with commas between them and no spaces.
pub open spec fn array_text(items: Seq<u64>) -> Seq<char> {
    "["@ + joined_upto(items, items.len()) + "]"@
}

/// Writes a list of numbers as a JSON array.
pub fn serialize_as_array(items: &Vec<u64>) -> (r: String)
    ensures
        r@ == array_text(items@),
{
    let mut out = String::from_str("[");
    let mut i: usize = 0;
    while i < items.len()
        invariant
            i <= items.len(),
            out@ == "["@ + joined_upto(items@, i as nat),
        decreases items.len() - i,
    {
        if i > 0 {
            out.append(",");
        }
        let digits = decimal_string(items[i]);
        out.append(digits.as_str());
        assert(out@ =~= "["@ + joined_upto(items@, (i + 1) as nat));
        i += 1;
    }
    out.append("]");
    out
}

/// Access to the Zulip API: the bot's name and token, and whether changes are
/// only to be simulated.
#[derive(Debug, PartialEq, Eq)]
pub struct ZulipApi {
    pub username: String,
    pub token: String,
    pub dry_run: bool,
}

/// Why a request to Zulip failed.
#[derive(Clone, Copy, Debug, PartialEq, Eq, Structural)]
pub enum ZulipError {
    /// The request was refused, and not because the group exists already.
    BadRequest,
    /// The response has this status, which is not one of success.
    Status(u16),
}

/// A request to the API.
pub open spec fn zulip_request(
    username: Seq<char>,
    token: Seq<char>,
    method: Method,
    path: Seq<char>,
    form: Option<Seq<(Seq<char>, ParamView)>>,
) -> RequestView {
    RequestView {
        method,
        url: zulip_base() + path,
        authorization: AuthorizationView::Basic { username, password: token },
        encoding: if form is Some {
            Encoding::Form
        } else {
            Encoding::Empty
        },
        body: match form {
            Some(fields) => fields,
            None => Seq::empty(),
        },
    }
}

/// The form that creates a user group.
pub open spec fn creation_form(name: Seq<char>, description: Seq<char>, members: Seq<u64>) -> Seq<
    (Seq<char>, ParamView),
> {
    seq![
        ("name"@, ParamView::Text(name)),
        ("description"@, ParamView::Text(description)),
        ("members"@, ParamView::Text(array_text(members))),
    ]
}

/// The form that changes the members of a user group.
pub open spec fn members_form(add: Seq<u64>, remove: Seq<u64>) -> Seq<(Seq<char>, ParamView)> {
    seq![
        ("add"@, ParamView::Text(array_text(add))),
        ("delete"@, ParamView::Text(array_text(remove))),
    ]
}

/// The form that posts a message to a topic of a stream.
pub open spec fn message_form(stream: Seq<char>, topic: Seq<char>, content: Seq<char>) -> Seq<
    (Seq<char>, ParamView),
> {
    seq![
        ("type"@, ParamView::Text("stream"@)),
        ("to"@, ParamView::Text(stream)),
        ("topic"@, ParamView::Text(topic)),
        ("content"@, ParamView::Text(content)),
    ]
}

/// What the response to the creation of a user group means. A refusal with
/// status 400 whose message says that the group already exists is a success:
/// creating a group that exists changes nothing. Any other refusal is an error,
/// as is a message that cannot be read.
pub open spec fn creation_outcome(status: u16, message: Option<Seq<char>>) -> Result<(), ZulipError> {
    if status == 400 {
        match message {
            Some(text) => if occurs_in("already exists"@, text) {
                Ok(())
            } else {
                Err(ZulipError::BadRequest)
            },
            None => Err(ZulipError::BadRequest),
        }
    } else if is_success(status) {
        Ok(())
    } else {
        Err(ZulipError::Status(status))
    }
}

/// What the response to a change of a group's members means. A refusal with
/// status 400 is noted and passed over; any other status that is not one of
/// success is an error.
pub open spec fn update_outcome(status: u16) -> Result<(), ZulipError> {
    if status == 400 || is_success(status) {
        Ok(())
    } else {
        Err(ZulipError::Status(status))
    }
}

impl ZulipApi {
    /// Access with the bot's name and token.
    pub fn new(username: String, token: String, dry_run: bool) -> (api: Self)
        ensures
            api.username == username,
            api.token == token,
            api.dry_run == dry_run,
    {
        ZulipApi { username, token, dry_run }
    }

    /// A request to the API, with a form where one is given.
    pub fn req(&self, method: Method, path: &str, form: Option<Vec<(String, Param)>>) -> (r: Request)
        ensures
            r.deep_view() == zulip_request(
                self.username@,
                self.token@,
                method,
                path@,
                form.deep_view(),
            ),
    {
        let authorization = Authorization::Basic {
            username: self.username.clone(),
            password: self.token.clone(),
        };
        let url = concat("https://rust-lang.zulipchat.com/api/v1", path);
        match form {
            Some(fields) => Request {
                method,
                url,
                authorization,
                encoding: Encoding::Form,
                body: fields,
            },
            None => {
                let body: Vec<(String, Param)> = Vec::new();
                assert(body.deep_view() =~= Seq::<(Seq<char>, ParamView)>::empty());
                Request { method, url, authorization, encoding: Encoding::Empty, body }
            },
        }
    }

    /// The request that creates a user group with its members. Nothing is
    /// sent in a dry run.
    pub fn create_user_group(&self, user_group_name: &str, description: &str, member_ids: &Vec<u64>) -> (r:
        Option<Request>)
        ensures
            r is Some <==> !self.dry_run,
            r is Some ==> r->Some_0.deep_view() == zulip_request(
                self.username@,
                self.token@,
                Method::Post,
                "/user_groups/create"@,
                Some(creation_form(user_group_name@, description@, member_ids@)),
            ),
    {
        if self.dry_run {
            return None;
        }
        let mut form: Vec<(String, Param)> = Vec::new();
        form.push((String::from_str("name"), Param::Text(String::from_str(user_group_name))));
        form.push((String::from_str("description"), Param::Text(String::from_str(description))));
        form.push((String::from_str("members"), Param::Text(serialize_as_array(member_ids))));
        assert(form.deep_view() =~= creation_form(user_group_name@, description@, member_ids@));
        Some(self.req(Method::Post, "/user_groups/create", Some(form)))
    }

    /// Reads the response to the creation of a user group: its status and,
    /// where the body has one, its message.
    pub fn user_group_created(status: u16, message: Option<&str>) -> (r: Result<(), ZulipError>)
        ensures
            r == creation_outcome(status, message.deep_view()),
    {
        if status == 400 {
            match message {
                Some(text) => {
                    if contains(text, "already exists") {
                        Ok(())
                    } else {
                        Err(ZulipError::BadRequest)
                    }
                },
                None => Err(ZulipError::BadRequest),
            }
        } else if 200 <= status && status < 300 {
            Ok(())
        } else {
            Err(ZulipError::Status(status))
        }
    }

    /// The request that posts a message to a topic of a stream.
    pub fn post_message(&self, stream: &str, topic: &str, content: &str) -> (r: Request)
        ensures
            r.deep_view() == zulip_request(
                self.username@,
                self.token@,
                Method::Post,
                "/messages"@,
                Some(message_form(stream@, topic@, content@)),
            ),
    {
        let mut form: Vec<(String, Param)> = Vec::new();
        form.push((String::from_str("type"), Param::Text(String::from_str("stream"))));
        form.push((String::from_str("to"), Param::Text(String::from_str(stream))));
        form.push((String::from_str("topic"), Param::Text(String::from_str(topic))));
        form.push((String::from_str("content"), Param::Text(String::from_str(content))));
        assert(form.deep_view() =~= message_form(stream@, topic@, content@));
        self.req(Method::Post, "/messages", Some(form))
    }

    /// The request for all user groups.
    pub fn get_user_groups(&self) -> (r: Request)
        ensures
            r.deep_view() == zulip_request(
                self.username@,
                self.token@,
                Method::Get,
                "/user_groups"@,
                None,
            ),
    {
        self.req(Method::Get, "/user_groups", None)
    }

    /// The request for all users.
    pub fn get_users(&self) -> (r: Request)
        ensures
            r.deep_view() == zulip_request(self.username@, self.token@, Method::Get, "/users"@, None),
    {
        self.req(Method::Get, "/users", None)
    }

    /// The request that adds members to a user group and removes others.
    /// Nothing is sent where there is nobody to add or remove, nor in a dry
    /// run.
    pub fn update_user_group_members(&self, user_group_id: u64, add_ids: &Vec<u64>, remove_ids: &Vec<u64>) -> (r:
        Option<Request>)
        ensures
            r is Some <==> !self.dry_run && (add_ids.len() > 0 || remove_ids.len() > 0),
            r is Some ==> r->Some_0.deep_view() == zulip_request(
                self.username@,
                self.token@,
                Method::Post,
                "/user_groups/"@ + decimal(user_group_id as nat) + "/members"@,
                Some(members_form(add_ids@, remove_ids@)),
            ),
    {
        if add_ids.len() == 0 && remove_ids.len() == 0 {
            return None;
        }
        if self.dry_run {
            return None;
        }
        let mut form: Vec<(String, Param)> = Vec::new();
        form.push((String::from_str("add"), Param::Text(serialize_as_array(add_ids))));
        form.push((String::from_str("delete"), Param::Text(serialize_as_array(remove_ids))));
        assert(form.deep_view() =~= members_form(add_ids@, remove_ids@));
        let mut path = String::from_str("/user_groups/");
        let id = decimal_string(user_group_id);
        path.append(id.as_str());
        path.append("/members");
        Some(self.req(Method::Post, path.as_str(), Some(form)))
    }

    /// Reads the status of the response to a change of a group's members.
    pub fn user_group_members_updated(status: u16) -> (r: Result<(), ZulipError>)
        ensures
            r == update_outcome(status),
    {
        if status == 400 || (200 <= status && status < 300) {
            Ok(())
        } else {
            Err(ZulipError::Status(status))
        }
    }
}

/// A user of the Zulip instance. Users may hide their emails.
#[derive(Debug, PartialEq, Eq)]
pub struct ZulipUser {
    pub email: Option<String>,
    pub user_id: u64,
}

pub struct ZulipUserView {
    pub email: Option<Seq<char>>,
    pub user_id: u64,
}

impl DeepView for ZulipUser {
    type V = ZulipUserView;

    open spec fn deep_view(&self) -> ZulipUserView {
        ZulipUserView { email: self.email.deep_view(), user_id: self.user_id }
    }
}

/// A user group of the Zulip instance.
#[derive(Debug, PartialEq, Eq)]
pub struct ZulipUserGroup {
    pub id: u64,
    pub name: String,
    pub members: Vec<u64>,
}

pub struct ZulipUserGroupView {
    pub id: u64,
    pub name: Seq<char>,
    pub members: Seq<u64>,
}

impl DeepView for ZulipUserGroup {
    type V = ZulipUserGroupView;

    open spec fn deep_view(&self) -> ZulipUserGroupView {
        ZulipUserGroupView { id: self.id, name: self.name@, members: self.members@ }
    }
}

/// A user group as it is desired.
#[derive(Debug, PartialEq, Eq)]
pub struct GroupDefinition {
    pub name: String,
    pub members: Vec<u64>,
}

pub struct GroupDefinitionView {
    pub name: Seq<char>,
    pub members: Seq<u64>,
}

impl DeepView for GroupDefinition {
    type V = GroupDefinitionView;

    open spec fn deep_view(&self) -> GroupDefinitionView {
        GroupDefinitionView { name: self.name@, members: self.members@ }
    }
}

/// What is to change about one user group.
#[derive(Debug, PartialEq, Eq)]
pub enum GroupChange {
    /// The group does not exist: it is created with its members.
    Create { name: String, members: Vec<u64> },
    /// The group exists: these members are added, and those removed.
    Update { id: u64, add: Vec<u64>, remove: Vec<u64> },
}

pub enum GroupChangeView {
    Create { name: Seq<char>, members: Seq<u64> },
    Update { id: u64, add: Seq<u64>, remove: Seq<u64> },
}

impl DeepView for GroupChange {
    type V = GroupChangeView;

    open spec fn deep_view(&self) -> GroupChangeView {
        match self {
            GroupChange::Create { name, members } => GroupChangeView::Create {
                name: name@,
                members: members@,
            },
            GroupChange::Update { id, add, remove } => GroupChangeView::Update {
                id: *id,
                add: add@,
                remove: remove@,
            },
        }
    }
}

/// Holds of the users with the email `email`.
pub open spec fn has_email(email: Seq<char>) -> spec_fn(ZulipUserView) -> bool {
    |user: ZulipUserView| user.email == Some(email)
}

/// Holds of the groups called `name`.
pub open spec fn group_named(name: Seq<char>) -> spec_fn(ZulipUserGroupView) -> bool {
    |group: ZulipUserGroupView| group.name == name
}

/// Those of the first `n` of `ids` that `others` does not hold, in order.
pub open spec fn missing_upto(ids: Seq<u64>, n: nat, others: Seq<u64>) -> Seq<u64>
    decreases n,
{
    if n == 0 {
        Seq::empty()
    } else if others.contains(ids[n - 1]) {
        missing_upto(ids, (n - 1) as nat, others)
    } else {
        missing_upto(ids, (n - 1) as nat, others).push(ids[n - 1])
    }
}

/// Those of `ids` that `others` does not hold, in order.
pub open spec fn missing_from(ids: Seq<u64>, others: Seq<u64>) -> Seq<u64> {
    missing_upto(ids, ids.len(), others)
}

/// What is to change about one desired group: it is created where no group
/// of its name exists; else the desired members that the group lacks are
/// added, and the members that are not desired are removed.
pub open spec fn group_change(desired: GroupDefinitionView, live: Seq<ZulipUserGroupView>) -> GroupChangeView {
    match first_where(live, group_named(desired.name)) {
        None => GroupChangeView::Create { name: desired.name, members: desired.members },
        Some(k) => GroupChangeView::Update {
            id: live[k].id,
            add: missing_from(desired.members, live[k].members),
            remove: missing_from(live[k].members, desired.members),
        },
    }
}

/// The id of the first user with the given email.
pub fn user_with_email(users: &Vec<ZulipUser>, email: &String) -> (r: Option<u64>)
    ensures
        r == (match first_where(users.deep_view(), has_email(email@)) {
            Some(k) => Some(users[k].user_id),
            None => None::<u64>,
        }),
{
    let ghost wanted = has_email(email@);
    let ghost view = users.deep_view();
    let mut i: usize = 0;
    while i < users.len()
        invariant
            i <= users.len(),
            view == users.deep_view(),
            wanted == has_email(email@),
            forall|j: int| 0 <= j < i ==> !wanted(#[trigger] view[j]),
        decreases users.len() - i,
    {
        assert(view[i as int] == users[i as int].deep_view());
        let found = match &users[i].email {
            Some(known) => *known == *email,
            None => false,
        };
        if found {
            proof {
                assert(wanted(view[i as int]));
                lemma_first_where_is(view, wanted, i as int);
            }
            return Some(users[i].user_id);
        }
        assert(!wanted(view[i as int]));
        i += 1;
    }
    proof {
        lemma_first_where_none(view, wanted);
    }
    None
}

/// Those of `ids` that `others` does not hold, in order.
pub fn missing(ids: &Vec<u64>, others: &Vec<u64>) -> (r: Vec<u64>)
    ensures
        r@ == missing_from(ids@, others@),
{
    let mut out: Vec<u64> = Vec::new();
    let mut i: usize = 0;
    while i < ids.len()
        invariant
            i <= ids.len(),
            out@ == missing_upto(ids@, i as nat, others@),
        decreases ids.len() - i,
    {
        if !crate::seqs::contains_id(others, ids[i]) {
            out.push(ids[i]);
        }
        i += 1;
    }
    out
}

/// What is to change about the user groups: one change for each desired
/// group, in the order of the desired groups. Groups that are not desired are
/// left alone.
pub fn group_changes(desired: &Vec<GroupDefinition>, live: &Vec<ZulipUserGroup>) -> (r: Vec<
    GroupChange,
>)
    ensures
        r.len() == desired.len(),
        forall|i: int|
            0 <= i < r.len() ==> (#[trigger] r[i]).deep_view() == group_change(
                desired[i].deep_view(),
                live.deep_view(),
            ),
{
    let ghost groups = live.deep_view();
    let mut out: Vec<GroupChange> = Vec::new();
    let mut i: usize = 0;
    while i < desired.len()
        invariant
            i <= desired.len(),
            groups == live.deep_view(),
            out.len() == i,
            forall|j: int|
                0 <= j < i ==> (#[trigger] out[j]).deep_view() == group_change(
                    desired[j].deep_view(),
                    groups,
                ),
        decreases desired.len() - i,
    {
        let wanted_group = &desired[i];
        let ghost wanted = group_named(wanted_group.name@);
        let mut found: Option<usize> = None;
        let mut k: usize = 0;
        while k < live.len() && found.is_none()
            invariant
                k <= live.len(),
                groups == live.deep_view(),
                wanted == group_named(wanted_group.name@),
                match found {
                    Some(at) => at < live.len() && first_where(groups, wanted) == Some(at as int),
                    None => forall|j: int| 0 <= j < k ==> !wanted(#[trigger] groups[j]),
                },
            decreases live.len() - k,
        {
            assert(groups[k as int] == live[k as int].deep_view());
            if live[k].name == wanted_group.name {
                proof {
                    assert(wanted(groups[k as int]));
                    lemma_first_where_is(groups, wanted, k as int);
                }
                found = Some(k);
            } else {
                assert(!wanted(groups[k as int]));
            }
            k += 1;
        }
        let change = match found {
            Some(at) => {
                assert(groups[at as int] == live[at as int].deep_view());
                GroupChange::Update {
                    id: live[at].id,
                    add: missing(&wanted_group.members, &live[at].members),
                    remove: missing(&live[at].members, &wanted_group.members),
                }
            },
            None => {
                proof {
                    lemma_first_where_none(groups, wanted);
                }
                GroupChange::Create {
                    name: wanted_group.name.clone(),
                    members: crate::seqs::clone_ids(&wanted_group.members),
                }
            },
        };
        out.push(change);
        i += 1;
    }
    out
}

} // verus!
