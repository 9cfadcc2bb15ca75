//! The write that carries out an action on GitHub.

use crate::diff::{field_named, find_field};
use crate::github::api::{
    api_request, membership_path, role_name, team_body, Creation, GitHub, Team,
};
use crate::http::{Encoding, Method, Param, ParamView, Request, RequestView};
use crate::model::{
    Action, ActionView, Field, FieldName, FieldView, Identity, Kind, TeamPrivacy, Value, ValueView,
};
use crate::render::{field_word, value_text};
use crate::seqs::first_where;
use crate::text::{decimal, decimal_string};
use vstd::prelude::*;
use vstd::string::*;

verus! {

/// What carrying out an action on GitHub comes to.
#[derive(Debug, PartialEq, Eq)]
pub enum Write {
    /// The request to send.
    Send(Request),
    /// Nothing is sent: this is a dry run, or the action is about a team that
    /// a dry run made up.
    Simulated,
    /// The action is not one that this platform knows how to carry out.
    Unsupported,
}

/// The position of the first `/` of a text.
pub open spec fn slash_at(text: Seq<char>) -> Option<int> {
    first_where(text, |c: char| c == '/')
}

/// The text of a field among the fields of a creation; empty where the field
/// is missing or holds no text.
pub open spec fn text_field(fields: Seq<FieldView>, name: FieldName) -> Seq<char> {
    match first_where(fields, field_named(name)) {
        Some(k) => match fields[k].value {
            ValueView::Text(t) => t,
            _ => Seq::empty(),
        },
        None => Seq::empty(),
    }
}

/// The privacy that the fields of a creation ask for: secret where they say
/// so, else closed.
pub open spec fn privacy_field(fields: Seq<FieldView>) -> TeamPrivacy {
    if text_field(fields, FieldName::Privacy) == "secret"@ {
        TeamPrivacy::Secret
    } else {
        TeamPrivacy::Closed
    }
}

/// The request that carries out an action outside of a dry run, if there is
/// one. A team is created in its organisation with its description and
/// privacy; an edit sends the edited field and no other; a relation is set or
/// removed for the user called `username`. Nothing is sent about a team that
/// has no remote id, and actions on other kinds are not carried out here.
pub open spec fn write_request(token: Seq<char>, action: ActionView, username: Seq<char>) -> Option<
    RequestView,
> {
    if action.target().kind != Kind::Team {
        None
    } else {
        match action {
            ActionView::CreateEntity { target, fields } => match slash_at(target.name) {
                Some(k) => Some(
                    api_request(
                        token,
                        Method::Post,
                        "orgs/"@ + target.name.subrange(0, k) + "/teams"@,
                        Encoding::Json,
                        team_body(
                            target.name.subrange(k + 1, target.name.len() as int),
                            text_field(fields, FieldName::Description),
                            privacy_field(fields),
                        ),
                    ),
                ),
                None => None,
            },
            ActionView::EditField { target, field, new, .. } => match target.identity {
                Identity::Committed(id) => Some(team_edit(token, id, field, new)),
                Identity::Pending(_) => None,
            },
            ActionView::AddRelation { target, role, .. } => match target.identity {
                Identity::Committed(id) => Some(
                    api_request(
                        token,
                        Method::Put,
                        membership_path(id, username),
                        Encoding::Json,
                        seq![("role"@, ParamView::Text(role_name(role)))],
                    ),
                ),
                Identity::Pending(_) => None,
            },
            ActionView::RemoveRelation { target, .. } => match target.identity {
                Identity::Committed(id) => Some(
                    api_request(
                        token,
                        Method::Delete,
                        membership_path(id, username),
                        Encoding::Empty,
                        Seq::empty(),
                    ),
                ),
                Identity::Pending(_) => None,
            },
        }
    }
}

/// Whether an action is one that can be carried out on GitHub: it is about a
/// team, and a creation names the organisation before a `/`.
pub open spec fn supported(action: ActionView) -> bool {
    action.target().kind == Kind::Team && (action is CreateEntity ==> slash_at(
        action.target().name,
    ) is Some)
}

/// The position of the first `/` of a text.
pub fn find_slash(text: &str) -> (r: Option<usize>)
    ensures
        match r {
            Some(k) => k < text@.len() && slash_at(text@) == Some(k as int),
            None => slash_at(text@) is None,
        },
{
    let ghost wanted = |c: char| c == '/';
    let n = text.unicode_len();
    let mut i: usize = 0;
    while i < n
        invariant
            i <= n,
            n == text@.len(),
            wanted == (|c: char| c == '/'),
            forall|j: int| 0 <= j < i ==> !wanted(#[trigger] text@[j]),
        decreases n - i,
    {
        if text.get_char(i) == '/' {
            proof {
                assert(wanted(text@[i as int]));
                crate::seqs::lemma_first_where_is(text@, wanted, i as int);
            }
            return Some(i);
        }
        assert(!wanted(text@[i as int]));
        i += 1;
    }
    proof {
        crate::seqs::lemma_first_where_none(text@, wanted);
    }
    None
}

fn field_text(fields: &Vec<Field>, name: FieldName) -> (r: String)
    ensures
        r@ == text_field(fields.deep_view(), name),
{
    match find_field(fields, name) {
        Some(k) => {
            assert(fields.deep_view()[k as int] == fields[k as int].deep_view());
            match &fields[k].value {
                Value::Text(t) => t.clone(),
                _ => String::new(),
            }
        },
        None => String::new(),
    }
}

fn value_string(value: &Value) -> (r: String)
    ensures
        r@ == value_text(value.deep_view()),
{
    match value {
        Value::Number(n) => decimal_string(*n),
        Value::Flag(b) => if *b {
            String::from_str("true")
        } else {
            String::from_str("false")
        },
        Value::Text(t) => t.clone(),
    }
}

/// The request that edits one field of the team with the id `id`: it writes
/// this field and no other.
pub open spec fn team_edit(token: Seq<char>, id: u64, field: FieldName, value: ValueView) -> RequestView {
    api_request(
        token,
        Method::Patch,
        "teams/"@ + decimal(id as nat),
        Encoding::Json,
        seq![(field_word(field), ParamView::Text(value_text(value)))],
    )
}

impl GitHub {
    /// Edits one field of a team. The request names this field alone, so that
    /// what the team holds otherwise stays as it is. Nothing is sent in a dry
    /// run, nor about a team that a dry run made up.
    pub fn edit_team(&self, team: &Team, field: FieldName, value: &Value) -> (r: Option<Request>)
        ensures
            r is Some <==> !self.dry_run && team.id is Some,
            r is Some ==> r->Some_0.deep_view() == team_edit(
                self.token@,
                team.id->Some_0,
                field,
                value.deep_view(),
            ),
    {
        match team.id {
            Some(id) if !self.dry_run => {
                let mut url = String::from_str("teams/");
                let digits = decimal_string(id);
                url.append(digits.as_str());
                let mut body: Vec<(String, Param)> = Vec::new();
                body.push((String::from_str(field.word()), Param::Text(value_string(value))));
                assert(body.deep_view() =~= seq![
                    (field_word(field), ParamView::Text(value_text(value.deep_view()))),
                ]);
                Some(self.request(Method::Patch, url.as_str(), Encoding::Json, body))
            },
            _ => None,
        }
    }

    /// The write that carries out an action. `username` is the name of the
    /// user that a relation is about; it is not read for other actions.
    pub fn write(&self, action: &Action, username: &str) -> (r: Write)
        ensures
            match r {
                Write::Send(request) => supported(action.deep_view()) && !self.dry_run
                    && write_request(self.token@, action.deep_view(), username@) == Some(
                    request.deep_view(),
                ),
                Write::Simulated => supported(action.deep_view()) && (self.dry_run
                    || write_request(self.token@, action.deep_view(), username@) is None),
                Write::Unsupported => !supported(action.deep_view()),
            },
    {
        let kind = match action {
            Action::CreateEntity { target, .. } => target.kind,
            Action::EditField { target, .. } => target.kind,
            Action::AddRelation { target, .. } => target.kind,
            Action::RemoveRelation { target, .. } => target.kind,
        };
        match kind {
            Kind::Team => {},
            _ => {
                return Write::Unsupported;
            },
        }
        match action {
            Action::CreateEntity { target, fields } => {
                let name = target.name.as_str();
                match find_slash(name) {
                    None => Write::Unsupported,
                    Some(k) => {
                        let n = name.unicode_len();
                        let org = name.substring_char(0, k);
                        let team = name.substring_char(k + 1, n);
                        let description = field_text(fields, FieldName::Description);
                        let privacy_text = field_text(fields, FieldName::Privacy);
                        let privacy = if crate::text::same(privacy_text.as_str(), "secret") {
                            TeamPrivacy::Secret
                        } else {
                            TeamPrivacy::Closed
                        };
                        match self.create_team(org, team, description.as_str(), privacy) {
                            Creation::Send(request) => Write::Send(request),
                            Creation::Simulated(_) => Write::Simulated,
                        }
                    },
                }
            },
            Action::EditField { target, field, new, .. } => {
                let team = team_of(target.identity);
                match self.edit_team(&team, *field, new) {
                    Some(request) => Write::Send(request),
                    None => Write::Simulated,
                }
            },
            Action::AddRelation { target, role, .. } => {
                let team = team_of(target.identity);
                match self.set_membership(&team, username, *role) {
                    Some(request) => Write::Send(request),
                    None => Write::Simulated,
                }
            },
            Action::RemoveRelation { target, .. } => {
                let team = team_of(target.identity);
                match self.remove_membership(&team, username) {
                    Some(request) => Write::Send(request),
                    None => Write::Simulated,
                }
            },
        }
    }
}

/// A team that stands for the target of an action: only its id is read.
fn team_of(identity: Identity) -> (team: Team)
    ensures
        team.id == (match identity {
            Identity::Committed(id) => Some(id),
            Identity::Pending(_) => None::<u64>,
        }),
{
    Team {
        id: match identity {
            Identity::Committed(id) => Some(id),
            Identity::Pending(_) => None,
        },
        name: String::new(),
        description: String::new(),
        privacy: TeamPrivacy::Closed,
        slug: String::new(),
    }
}

} // verus!
