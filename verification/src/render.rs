//! The text of a diff as people read it: one line for each action.

use crate::github::api::role_name;
use crate::model::{
    Action, ActionView, Diff, Field, FieldName, FieldView, Kind, Target, TargetView, Value,
    ValueView,
};
use crate::text::{decimal, decimal_string};
use vstd::prelude::*;

verus! {

/// The word for a kind.
pub open spec fn kind_word(kind: Kind) -> Seq<char> {
    match kind {
        Kind::Organization => "organization"@,
        Kind::Team => "team"@,
        Kind::Membership => "membership"@,
        Kind::Repository => "repository"@,
        Kind::RepoPermission => "permission"@,
        Kind::BranchProtectionRule => "branch protection"@,
        Kind::AppInstallation => "app installation"@,
        Kind::Role => "role"@,
    }
}

/// The word for a field.
pub open spec fn field_word(field: FieldName) -> Seq<char> {
    match field {
        FieldName::Description => "description"@,
        FieldName::Privacy => "privacy"@,
        FieldName::Color => "color"@,
        FieldName::Position => "position"@,
        FieldName::Permission => "permission"@,
        FieldName::Pattern => "pattern"@,
        FieldName::AdminEnforced => "admin enforced"@,
        FieldName::RequiredApprovals => "required approvals"@,
    }
}

/// A value as text: a number in decimal, a flag as `true` or `false`, a text
/// as it is.
pub open spec fn value_text(value: ValueView) -> Seq<char> {
    match value {
        ValueView::Number(n) => decimal(n as nat),
        ValueView::Flag(b) => if b {
            "true"@
        } else {
            "false"@
        },
        ValueView::Text(t) => t,
    }
}

/// A former value as text; `nothing` where there was none.
pub open spec fn former_text(value: Option<ValueView>) -> Seq<char> {
    match value {
        Some(v) => value_text(v),
        None => "nothing"@,
    }
}

/// A target as text: its kind and its name.
pub open spec fn target_text(target: TargetView) -> Seq<char> {
    kind_word(target.kind) + " "@ + target.name
}

/// The first `n` fields as text, each as ` name=value`.
pub open spec fn fields_text_upto(fields: Seq<FieldView>, n: nat) -> Seq<char>
    decreases n,
{
    if n == 0 {
        Seq::empty()
    } else {
        fields_text_upto(fields, (n - 1) as nat) + " "@ + field_word(fields[n - 1].name) + "="@
            + value_text(fields[n - 1].value)
    }
}

/// The line that tells of an action.
pub open spec fn action_line(action: ActionView) -> Seq<char> {
    match action {
        ActionView::CreateEntity { target, fields } => "create "@ + target_text(target)
            + fields_text_upto(fields, fields.len()) + "\n"@,
        ActionView::EditField { target, field, old, new } => "edit "@ + target_text(target)
            + ": "@ + field_word(field) + " "@ + former_text(old) + " -> "@ + value_text(new)
            + "\n"@,
        ActionView::AddRelation { target, related, role } => "add "@ + decimal(related as nat)
            + " to "@ + target_text(target) + " as "@ + role_name(role) + "\n"@,
        ActionView::RemoveRelation { target, related } => "remove "@ + decimal(related as nat)
            + " from "@ + target_text(target) + "\n"@,
    }
}

/// The lines of the first `n` actions.
pub open spec fn lines_upto(actions: Seq<ActionView>, n: nat) -> Seq<char>
    decreases n,
{
    if n == 0 {
        Seq::empty()
    } else {
        lines_upto(actions, (n - 1) as nat) + action_line(actions[n - 1])
    }
}

/// The text of a diff: the lines of its actions, in order.
pub open spec fn diff_text(actions: Seq<ActionView>) -> Seq<char> {
    lines_upto(actions, actions.len())
}

impl Kind {
    /// The word for the kind.
    pub fn word(&self) -> (w: &'static str)
        ensures
            w@ == kind_word(*self),
    {
        match self {
            Kind::Organization => "organization",
            Kind::Team => "team",
            Kind::Membership => "membership",
            Kind::Repository => "repository",
            Kind::RepoPermission => "permission",
            Kind::BranchProtectionRule => "branch protection",
            Kind::AppInstallation => "app installation",
            Kind::Role => "role",
        }
    }
}

impl FieldName {
    /// The word for the field.
    pub fn word(&self) -> (w: &'static str)
        ensures
            w@ == field_word(*self),
    {
        match self {
            FieldName::Description => "description",
            FieldName::Privacy => "privacy",
            FieldName::Color => "color",
            FieldName::Position => "position",
            FieldName::Permission => "permission",
            FieldName::Pattern => "pattern",
            FieldName::AdminEnforced => "admin enforced",
            FieldName::RequiredApprovals => "required approvals",
        }
    }
}

fn write_value(out: &mut String, value: &Value)
    ensures
        final(out)@ == old(out)@ + value_text(value.deep_view()),
{
    match value {
        Value::Number(n) => {
            let digits = decimal_string(*n);
            out.append(digits.as_str());
        },
        Value::Flag(b) => {
            if *b {
                out.append("true");
            } else {
                out.append("false");
            }
        },
        Value::Text(t) => {
            out.append(t.as_str());
        },
    }
}

fn write_target(out: &mut String, target: &Target)
    ensures
        final(out)@ == old(out)@ + target_text(target.deep_view()),
{
    out.append(target.kind.word());
    out.append(" ");
    out.append(target.name.as_str());
    assert(out@ =~= old(out)@ + target_text(target.deep_view()));
}

fn write_fields(out: &mut String, fields: &Vec<Field>)
    ensures
        final(out)@ == old(out)@ + fields_text_upto(fields.deep_view(), fields.len() as nat),
{
    let ghost view = fields.deep_view();
    assert(out@ =~= old(out)@ + fields_text_upto(view, 0));
    let mut i: usize = 0;
    while i < fields.len()
        invariant
            i <= fields.len(),
            view == fields.deep_view(),
            out@ == old(out)@ + fields_text_upto(view, i as nat),
        decreases fields.len() - i,
    {
        assert(view[i as int] == fields[i as int].deep_view());
        out.append(" ");
        out.append(fields[i].name.word());
        out.append("=");
        write_value(out, &fields[i].value);
        assert(out@ =~= old(out)@ + fields_text_upto(view, (i + 1) as nat));
        i += 1;
    }
}

fn write_action(out: &mut String, action: &Action)
    ensures
        final(out)@ == old(out)@ + action_line(action.deep_view()),
{
    match action {
        Action::CreateEntity { target, fields } => {
            out.append("create ");
            write_target(out, target);
            write_fields(out, fields);
            out.append("\n");
        },
        Action::EditField { target, field, old, new } => {
            out.append("edit ");
            write_target(out, target);
            out.append(": ");
            out.append(field.word());
            out.append(" ");
            match old {
                Some(v) => {
                    write_value(out, v);
                },
                None => {
                    out.append("nothing");
                },
            }
            out.append(" -> ");
            write_value(out, new);
            out.append("\n");
        },
        Action::AddRelation { target, related, role } => {
            out.append("add ");
            let digits = decimal_string(*related);
            out.append(digits.as_str());
            out.append(" to ");
            write_target(out, target);
            out.append(" as ");
            let name = role.to_string();
            out.append(name.as_str());
            out.append("\n");
        },
        Action::RemoveRelation { target, related } => {
            out.append("remove ");
            let digits = decimal_string(*related);
            out.append(digits.as_str());
            out.append(" from ");
            write_target(out, target);
            out.append("\n");
        },
    }
    assert(out@ =~= old(out)@ + action_line(action.deep_view()));
}

impl Diff {
    /// Appends the text of the diff.
    pub fn write(&self, out: &mut String)
        ensures
            final(out)@ == old(out)@ + diff_text(self.deep_view()),
    {
        let ghost view = self.actions.deep_view();
        assert(out@ =~= old(out)@ + lines_upto(view, 0));
        let mut i: usize = 0;
        while i < self.actions.len()
            invariant
                i <= self.actions.len(),
                view == self.actions.deep_view(),
                out@ == old(out)@ + lines_upto(view, i as nat),
            decreases self.actions.len() - i,
        {
            assert(view[i as int] == self.actions[i as int].deep_view());
            write_action(out, &self.actions[i]);
            assert(out@ =~= old(out)@ + lines_upto(view, (i + 1) as nat));
            i += 1;
        }
    }

    /// The text of the diff.
    pub fn to_string(&self) -> (text: String)
        ensures
            text@ == diff_text(self.deep_view()),
    {
        let mut out = String::new();
        self.write(&mut out);
        assert(out@ =~= diff_text(self.deep_view()));
        out
    }
}

} // verus!
