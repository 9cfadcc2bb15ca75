//! The canonical text of a diff: what its hash is computed over. It is the
//! JSON text of the diff, with the members of every object in the order in
//! which they are declared and no space anywhere. It depends on the actions
//! and their order alone; nothing of the time or the machine goes into it.

use crate::model::{
    Action, ActionView, Diff, Field, FieldName, FieldView, Identity, Kind, Target, TargetView,
    TeamRole, Value, ValueView,
};
use crate::text::{decimal, decimal_string, hex_digit, hex_digit_str};
use vstd::prelude::*;
use vstd::string::*;

verus! {

/// A character as it stands inside a JSON string: the quote and the backslash
/// behind a backslash, a control character by its short name or else by its
/// number in four hexadecimal digits, and every other character as it is.
pub open spec fn json_char(c: char) -> Seq<char> {
    if c == '"' {
        "\\\""@
    } else if c == '\\' {
        "\\\\"@
    } else if c == '\u{8}' {
        "\\b"@
    } else if c == '\u{c}' {
        "\\f"@
    } else if c == '\n' {
        "\\n"@
    } else if c == '\r' {
        "\\r"@
    } else if c == '\t' {
        "\\t"@
    } else if ' ' > c {
        "\\u00"@ + seq![hex_digit((c as u8 / 16) as nat), hex_digit((c as u8 % 16) as nat)]
    } else {
        seq![c]
    }
}

/// The first `n` characters of a text as they stand inside a JSON string.
pub open spec fn json_chars_upto(text: Seq<char>, n: nat) -> Seq<char>
    decreases n,
{
    if n == 0 {
        Seq::empty()
    } else {
        json_chars_upto(text, (n - 1) as nat) + json_char(text[n - 1])
    }
}

/// A text as a JSON string.
pub open spec fn json_text(text: Seq<char>) -> Seq<char> {
    "\""@ + json_chars_upto(text, text.len()) + "\""@
}

/// The name of a kind.
pub open spec fn kind_name(kind: Kind) -> Seq<char> {
    match kind {
        Kind::Organization => "\"Organization\""@,
        Kind::Team => "\"Team\""@,
        Kind::Membership => "\"Membership\""@,
        Kind::Repository => "\"Repository\""@,
        Kind::RepoPermission => "\"RepoPermission\""@,
        Kind::BranchProtectionRule => "\"BranchProtectionRule\""@,
        Kind::AppInstallation => "\"AppInstallation\""@,
        Kind::Role => "\"Role\""@,
    }
}

/// The name of a field.
pub open spec fn field_name(field: FieldName) -> Seq<char> {
    match field {
        FieldName::Description => "\"Description\""@,
        FieldName::Privacy => "\"Privacy\""@,
        FieldName::Color => "\"Color\""@,
        FieldName::Position => "\"Position\""@,
        FieldName::Permission => "\"Permission\""@,
        FieldName::Pattern => "\"Pattern\""@,
        FieldName::AdminEnforced => "\"AdminEnforced\""@,
        FieldName::RequiredApprovals => "\"RequiredApprovals\""@,
    }
}

/// The name of a role.
pub open spec fn role_json(role: TeamRole) -> Seq<char> {
    match role {
        TeamRole::Member => "\"Member\""@,
        TeamRole::Maintainer => "\"Maintainer\""@,
    }
}

/// An identity: which of the two it is, with its number.
pub open spec fn identity_json(identity: Identity) -> Seq<char> {
    match identity {
        Identity::Committed(id) => "{\"Committed\":"@ + decimal(id as nat) + "}"@,
        Identity::Pending(key) => "{\"Pending\":"@ + decimal(key as nat) + "}"@,
    }
}

/// A value: which of the three it is, with what it holds.
pub open spec fn value_json(value: ValueView) -> Seq<char> {
    match value {
        ValueView::Number(n) => "{\"Number\":"@ + decimal(n as nat) + "}"@,
        ValueView::Flag(b) => if b {
            "{\"Flag\":true}"@
        } else {
            "{\"Flag\":false}"@
        },
        ValueView::Text(t) => "{\"Text\":"@ + json_text(t) + "}"@,
    }
}

/// A value that may be missing: `null` where it is.
pub open spec fn optional_value_json(value: Option<ValueView>) -> Seq<char> {
    match value {
        None => "null"@,
        Some(v) => value_json(v),
    }
}

/// A field: its name, then its value.
pub open spec fn field_json(field: FieldView) -> Seq<char> {
    "{\"name\":"@ + field_name(field.name) + ",\"value\":"@ + value_json(field.value) + "}"@
}

/// The first `n` fields with commas between them.
pub open spec fn fields_json_upto(fields: Seq<FieldView>, n: nat) -> Seq<char>
    decreases n,
{
    if n == 0 {
        Seq::empty()
    } else if n == 1 {
        field_json(fields[0])
    } else {
        fields_json_upto(fields, (n - 1) as nat) + ","@ + field_json(fields[n - 1])
    }
}

/// A list of fields.
pub open spec fn fields_json(fields: Seq<FieldView>) -> Seq<char> {
    "["@ + fields_json_upto(fields, fields.len()) + "]"@
}

/// A target: its kind, its name, its identity.
pub open spec fn target_json(target: TargetView) -> Seq<char> {
    "{\"kind\":"@ + kind_name(target.kind) + ",\"name\":"@ + json_text(target.name)
        + ",\"identity\":"@ + identity_json(target.identity) + "}"@
}

/// An action: which of the four it is, with its parts in the order in which
/// they are declared.
pub open spec fn action_json(action: ActionView) -> Seq<char> {
    match action {
        ActionView::CreateEntity { target, fields } => "{\"CreateEntity\":{\"target\":"@
            + target_json(target) + ",\"fields\":"@ + fields_json(fields) + "}}"@,
        ActionView::EditField { target, field, old, new } => "{\"EditField\":{\"target\":"@
            + target_json(target) + ",\"field\":"@ + field_name(field) + ",\"old\":"@
            + optional_value_json(old) + ",\"new\":"@ + value_json(new) + "}}"@,
        ActionView::AddRelation { target, related, role } => "{\"AddRelation\":{\"target\":"@
            + target_json(target) + ",\"related\":"@ + decimal(related as nat) + ",\"role\":"@
            + role_json(role) + "}}"@,
        ActionView::RemoveRelation { target, related } => "{\"RemoveRelation\":{\"target\":"@
            + target_json(target) + ",\"related\":"@ + decimal(related as nat) + "}}"@,
    }
}

/// The first `n` actions with commas between them.
pub open spec fn actions_json_upto(actions: Seq<ActionView>, n: nat) -> Seq<char>
    decreases n,
{
    if n == 0 {
        Seq::empty()
    } else if n == 1 {
        action_json(actions[0])
    } else {
        actions_json_upto(actions, (n - 1) as nat) + ","@ + action_json(actions[n - 1])
    }
}

/// The canonical text of a diff: the object that holds the list of its
/// actions, in order.
pub open spec fn diff_json(actions: Seq<ActionView>) -> Seq<char> {
    "{\"actions\":["@ + actions_json_upto(actions, actions.len()) + "]}"@
}

/// Appends a text as a JSON string.
pub fn write_json_text(out: &mut String, text: &str)
    ensures
        final(out)@ == old(out)@ + json_text(text@),
{
    out.append("\"");
    let ghost head = out@;
    let n = text.unicode_len();
    assert(out@ =~= head + json_chars_upto(text@, 0));
    let mut i: usize = 0;
    while i < n
        invariant
            i <= n,
            n == text@.len(),
            out@ == head + json_chars_upto(text@, i as nat),
        decreases n - i,
    {
        let c = text.get_char(i);
        if c == '"' {
            out.append("\\\"");
        } else if c == '\\' {
            out.append("\\\\");
        } else if c == '\u{8}' {
            out.append("\\b");
        } else if c == '\u{c}' {
            out.append("\\f");
        } else if c == '\n' {
            out.append("\\n");
        } else if c == '\r' {
            out.append("\\r");
        } else if c == '\t' {
            out.append("\\t");
        } else if ' ' > c {
            let code = c as u8;
            let ghost before = out@;
            out.append("\\u00");
            out.append(hex_digit_str(code / 16));
            out.append(hex_digit_str(code % 16));
            assert(out@ =~= before + json_char(c));
        } else {
            let ghost before = out@;
            out.append(text.substring_char(i, i + 1));
            assert(out@ =~= before + seq![c]);
        }
        assert(out@ =~= head + json_chars_upto(text@, (i + 1) as nat));
        i += 1;
    }
    out.append("\"");
    assert(out@ =~= old(out)@ + json_text(text@));
}

impl Kind {
    /// The name of the kind in canonical text.
    pub fn name(&self) -> (s: &'static str)
        ensures
            s@ == kind_name(*self),
    {
        match self {
            Kind::Organization => "\"Organization\"",
            Kind::Team => "\"Team\"",
            Kind::Membership => "\"Membership\"",
            Kind::Repository => "\"Repository\"",
            Kind::RepoPermission => "\"RepoPermission\"",
            Kind::BranchProtectionRule => "\"BranchProtectionRule\"",
            Kind::AppInstallation => "\"AppInstallation\"",
            Kind::Role => "\"Role\"",
        }
    }
}

impl FieldName {
    /// The name of the field in canonical text.
    pub fn name(&self) -> (s: &'static str)
        ensures
            s@ == field_name(*self),
    {
        match self {
            FieldName::Description => "\"Description\"",
            FieldName::Privacy => "\"Privacy\"",
            FieldName::Color => "\"Color\"",
            FieldName::Position => "\"Position\"",
            FieldName::Permission => "\"Permission\"",
            FieldName::Pattern => "\"Pattern\"",
            FieldName::AdminEnforced => "\"AdminEnforced\"",
            FieldName::RequiredApprovals => "\"RequiredApprovals\"",
        }
    }
}

impl TeamRole {
    /// The name of the role in canonical text.
    pub fn name(&self) -> (s: &'static str)
        ensures
            s@ == role_json(*self),
    {
        match self {
            TeamRole::Member => "\"Member\"",
            TeamRole::Maintainer => "\"Maintainer\"",
        }
    }
}

fn write_number(out: &mut String, n: u64)
    ensures
        final(out)@ == old(out)@ + decimal(n as nat),
{
    let digits = decimal_string(n);
    out.append(digits.as_str());
}

fn write_identity(out: &mut String, identity: Identity)
    ensures
        final(out)@ == old(out)@ + identity_json(identity),
{
    match identity {
        Identity::Committed(id) => {
            out.append("{\"Committed\":");
            write_number(out, id);
        },
        Identity::Pending(key) => {
            out.append("{\"Pending\":");
            write_number(out, key);
        },
    }
    out.append("}");
    assert(out@ =~= old(out)@ + identity_json(identity));
}

fn write_value(out: &mut String, value: &Value)
    ensures
        final(out)@ == old(out)@ + value_json(value.deep_view()),
{
    match value {
        Value::Number(n) => {
            out.append("{\"Number\":");
            write_number(out, *n);
            out.append("}");
        },
        Value::Flag(b) => {
            if *b {
                out.append("{\"Flag\":true}");
            } else {
                out.append("{\"Flag\":false}");
            }
        },
        Value::Text(t) => {
            out.append("{\"Text\":");
            write_json_text(out, t.as_str());
            out.append("}");
        },
    }
    assert(out@ =~= old(out)@ + value_json(value.deep_view()));
}

/// Appending a part to a text that ends in other parts appends it to those.
proof fn lemma_appended(base: Seq<char>, parts: Seq<char>, part: Seq<char>)
    ensures
        (base + parts) + part == base + (parts + part),
{
    assert((base + parts) + part =~= base + (parts + part));
}

fn write_field(out: &mut String, field: &Field)
    ensures
        final(out)@ == old(out)@ + field_json(field.deep_view()),
{
    let ghost base = out@;
    out.append("{\"name\":");
    let ghost parts = "{\"name\":"@;
    out.append(field.name.name());
    proof {
        lemma_appended(base, parts, field_name(field.name));
        parts = parts + field_name(field.name);
    }
    out.append(",\"value\":");
    proof {
        lemma_appended(base, parts, ",\"value\":"@);
        parts = parts + ",\"value\":"@;
    }
    write_value(out, &field.value);
    proof {
        lemma_appended(base, parts, value_json(field.value.deep_view()));
        parts = parts + value_json(field.value.deep_view());
    }
    out.append("}");
    proof {
        lemma_appended(base, parts, "}"@);
    }
}

fn write_fields(out: &mut String, fields: &Vec<Field>)
    ensures
        final(out)@ == old(out)@ + fields_json(fields.deep_view()),
{
    let ghost view = fields.deep_view();
    out.append("[");
    let ghost head = out@;
    assert(out@ =~= head + fields_json_upto(view, 0));
    let mut i: usize = 0;
    while i < fields.len()
        invariant
            i <= fields.len(),
            view == fields.deep_view(),
            out@ == head + fields_json_upto(view, i as nat),
        decreases fields.len() - i,
    {
        assert(view[i as int] == fields[i as int].deep_view());
        if i > 0 {
            out.append(",");
        }
        write_field(out, &fields[i]);
        assert(out@ =~= head + fields_json_upto(view, (i + 1) as nat));
        i += 1;
    }
    out.append("]");
    assert(out@ =~= old(out)@ + fields_json(view));
}

fn write_target(out: &mut String, target: &Target)
    ensures
        final(out)@ == old(out)@ + target_json(target.deep_view()),
{
    let ghost base = out@;
    out.append("{\"kind\":");
    let ghost parts = "{\"kind\":"@;
    out.append(target.kind.name());
    proof {
        lemma_appended(base, parts, kind_name(target.kind));
        parts = parts + kind_name(target.kind);
    }
    out.append(",\"name\":");
    proof {
        lemma_appended(base, parts, ",\"name\":"@);
        parts = parts + ",\"name\":"@;
    }
    write_json_text(out, target.name.as_str());
    proof {
        lemma_appended(base, parts, json_text(target.name@));
        parts = parts + json_text(target.name@);
    }
    out.append(",\"identity\":");
    proof {
        lemma_appended(base, parts, ",\"identity\":"@);
        parts = parts + ",\"identity\":"@;
    }
    write_identity(out, target.identity);
    proof {
        lemma_appended(base, parts, identity_json(target.identity));
        parts = parts + identity_json(target.identity);
    }
    out.append("}");
    proof {
        lemma_appended(base, parts, "}"@);
    }
}

fn write_creation(out: &mut String, target: &Target, fields: &Vec<Field>)
    ensures
        final(out)@ == old(out)@ + action_json(
            ActionView::CreateEntity { target: target.deep_view(), fields: fields.deep_view() },
        ),
{
    let ghost base = out@;
    out.append("{\"CreateEntity\":{\"target\":");
    let ghost parts = "{\"CreateEntity\":{\"target\":"@;
    write_target(out, target);
    proof {
        lemma_appended(base, parts, target_json(target.deep_view()));
        parts = parts + target_json(target.deep_view());
    }
    out.append(",\"fields\":");
    proof {
        lemma_appended(base, parts, ",\"fields\":"@);
        parts = parts + ",\"fields\":"@;
    }
    write_fields(out, fields);
    proof {
        lemma_appended(base, parts, fields_json(fields.deep_view()));
        parts = parts + fields_json(fields.deep_view());
    }
    out.append("}}");
    proof {
        lemma_appended(base, parts, "}}"@);
    }
}

fn write_old(out: &mut String, before: &Option<Value>)
    ensures
        final(out)@ == old(out)@ + optional_value_json(before.deep_view()),
{
    match before {
        Some(v) => {
            write_value(out, v);
        },
        None => {
            out.append("null");
        },
    }
}

fn write_change(out: &mut String, field: FieldName, before: &Option<Value>)
    ensures
        final(out)@ == old(out)@ + (",\"field\":"@ + field_name(field) + ",\"old\":"@
            + optional_value_json(before.deep_view())),
{
    let ghost base = out@;
    out.append(",\"field\":");
    let ghost parts = ",\"field\":"@;
    out.append(field.name());
    proof {
        lemma_appended(base, parts, field_name(field));
        parts = parts + field_name(field);
    }
    out.append(",\"old\":");
    proof {
        lemma_appended(base, parts, ",\"old\":"@);
        parts = parts + ",\"old\":"@;
    }
    write_old(out, before);
    proof {
        lemma_appended(base, parts, optional_value_json(before.deep_view()));
    }
}

fn write_edit(
    out: &mut String,
    target: &Target,
    field: FieldName,
    before: &Option<Value>,
    after: &Value,
)
    ensures
        final(out)@ == old(out)@ + action_json(
            ActionView::EditField {
                target: target.deep_view(),
                field,
                old: before.deep_view(),
                new: after.deep_view(),
            },
        ),
{
    let ghost base = out@;
    let ghost change = ",\"field\":"@ + field_name(field) + ",\"old\":"@ + optional_value_json(
        before.deep_view(),
    );
    out.append("{\"EditField\":{\"target\":");
    let ghost parts = "{\"EditField\":{\"target\":"@;
    write_target(out, target);
    proof {
        lemma_appended(base, parts, target_json(target.deep_view()));
        parts = parts + target_json(target.deep_view());
    }
    write_change(out, field, before);
    proof {
        lemma_appended(base, parts, change);
        lemma_appended(parts, ",\"field\":"@ + field_name(field) + ",\"old\":"@, optional_value_json(before.deep_view()));
        lemma_appended(parts, ",\"field\":"@ + field_name(field), ",\"old\":"@);
        lemma_appended(parts, ",\"field\":"@, field_name(field));
        parts = parts + ",\"field\":"@ + field_name(field) + ",\"old\":"@ + optional_value_json(
            before.deep_view(),
        );
    }
    out.append(",\"new\":");
    proof {
        lemma_appended(base, parts, ",\"new\":"@);
        parts = parts + ",\"new\":"@;
    }
    write_value(out, after);
    proof {
        lemma_appended(base, parts, value_json(after.deep_view()));
        parts = parts + value_json(after.deep_view());
    }
    out.append("}}");
    proof {
        lemma_appended(base, parts, "}}"@);
    }
}

fn write_addition(out: &mut String, target: &Target, related: u64, role: TeamRole)
    ensures
        final(out)@ == old(out)@ + action_json(
            ActionView::AddRelation { target: target.deep_view(), related, role },
        ),
{
    let ghost base = out@;
    out.append("{\"AddRelation\":{\"target\":");
    let ghost parts = "{\"AddRelation\":{\"target\":"@;
    write_target(out, target);
    proof {
        lemma_appended(base, parts, target_json(target.deep_view()));
        parts = parts + target_json(target.deep_view());
    }
    out.append(",\"related\":");
    proof {
        lemma_appended(base, parts, ",\"related\":"@);
        parts = parts + ",\"related\":"@;
    }
    write_number(out, related);
    proof {
        lemma_appended(base, parts, decimal(related as nat));
        parts = parts + decimal(related as nat);
    }
    out.append(",\"role\":");
    proof {
        lemma_appended(base, parts, ",\"role\":"@);
        parts = parts + ",\"role\":"@;
    }
    out.append(role.name());
    proof {
        lemma_appended(base, parts, role_json(role));
        parts = parts + role_json(role);
    }
    out.append("}}");
    proof {
        lemma_appended(base, parts, "}}"@);
    }
}

fn write_removal(out: &mut String, target: &Target, related: u64)
    ensures
        final(out)@ == old(out)@ + action_json(
            ActionView::RemoveRelation { target: target.deep_view(), related },
        ),
{
    let ghost base = out@;
    out.append("{\"RemoveRelation\":{\"target\":");
    let ghost parts = "{\"RemoveRelation\":{\"target\":"@;
    write_target(out, target);
    proof {
        lemma_appended(base, parts, target_json(target.deep_view()));
        parts = parts + target_json(target.deep_view());
    }
    out.append(",\"related\":");
    proof {
        lemma_appended(base, parts, ",\"related\":"@);
        parts = parts + ",\"related\":"@;
    }
    write_number(out, related);
    proof {
        lemma_appended(base, parts, decimal(related as nat));
        parts = parts + decimal(related as nat);
    }
    out.append("}}");
    proof {
        lemma_appended(base, parts, "}}"@);
    }
}

fn write_action(out: &mut String, action: &Action)
    ensures
        final(out)@ == old(out)@ + action_json(action.deep_view()),
{
    match action {
        Action::CreateEntity { target, fields } => {
            write_creation(out, target, fields);
        },
        Action::EditField { target, field, old, new } => {
            write_edit(out, target, *field, old, new);
        },
        Action::AddRelation { target, related, role } => {
            write_addition(out, target, *related, *role);
        },
        Action::RemoveRelation { target, related } => {
            write_removal(out, target, *related);
        },
    }
}

impl Diff {
    /// Appends the canonical text of the diff.
    pub fn write_canonical(&self, out: &mut String)
        ensures
            final(out)@ == old(out)@ + diff_json(self.deep_view()),
    {
        let ghost view = self.actions.deep_view();
        out.append("{\"actions\":[");
        let ghost head = out@;
        assert(out@ =~= head + actions_json_upto(view, 0));
        let mut i: usize = 0;
        while i < self.actions.len()
            invariant
                i <= self.actions.len(),
                view == self.actions.deep_view(),
                out@ == head + actions_json_upto(view, i as nat),
            decreases self.actions.len() - i,
        {
            assert(view[i as int] == self.actions[i as int].deep_view());
            if i > 0 {
                out.append(",");
            }
            write_action(out, &self.actions[i]);
            assert(out@ =~= head + actions_json_upto(view, (i + 1) as nat));
            i += 1;
        }
        out.append("]}");
        assert(out@ =~= old(out)@ + diff_json(view));
    }

    /// The canonical text of the diff.
    pub fn canonical_text(&self) -> (text: String)
        ensures
            text@ == diff_json(self.deep_view()),
    {
        let mut out = String::new();
        self.write_canonical(&mut out);
        assert(out@ =~= diff_json(self.deep_view()));
        out
    }

    /// The canonical bytes of the diff: its canonical text in UTF-8.
    pub fn canonical_bytes(&self) -> (bytes: Vec<u8>)
        ensures
            bytes@ == vstd::utf8::encode_utf8(diff_json(self.deep_view())),
    {
        let text = self.canonical_text();
        text.as_str().as_bytes_vec()
    }
}

} // verus!
