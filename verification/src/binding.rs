//! What binds a hash to a diff: the canonical text tells every diff apart. Two
//! diffs with the same canonical text are the same diff, so that a change of
//! an action, or of the order of the actions, changes what is hashed.

use crate::apply::{Platform, ServiceDiffView};
use crate::canonical::{
    action_json, actions_json_upto, diff_json, field_json, field_name, fields_json,
    fields_json_upto, identity_json, json_char, json_chars_upto, json_text, kind_name,
    optional_value_json, role_json, target_json, value_json,
};
use crate::confirmation::{service_json, services_bytes, services_json, services_json_upto};
use crate::model::{
    ActionView, FieldName, FieldView, Identity, Kind, TargetView, TeamRole, ValueView,
};
use crate::text::{decimal, digit_char, hex_digit};
use vstd::prelude::*;

verus! {

/// Splits two equal texts that begin with parts of the same length.
proof fn lemma_split(a1: Seq<char>, r1: Seq<char>, a2: Seq<char>, r2: Seq<char>)
    requires
        a1 + r1 == a2 + r2,
        a1.len() == a2.len(),
    ensures
        a1 == a2,
        r1 == r2,
{
    assert(a1 =~= (a1 + r1).subrange(0, a1.len() as int));
    assert(a2 =~= (a2 + r2).subrange(0, a2.len() as int));
    assert(r1 =~= (a1 + r1).subrange(a1.len() as int, (a1 + r1).len() as int));
    assert(r2 =~= (a2 + r2).subrange(a2.len() as int, (a2 + r2).len() as int));
}

/// Joining is associative.
proof fn lemma_joined(x: Seq<char>, y: Seq<char>, rest: Seq<char>)
    ensures
        (x + y) + rest == x + (y + rest),
{
    assert((x + y) + rest =~= x + (y + rest));
}

proof fn lemma_parts3(s1: Seq<char>, s2: Seq<char>, s3: Seq<char>, r: Seq<char>)
    ensures
        s1 + s2 + s3 + r == s1 + (s2 + (s3 + r)),
{
    assert(s1 + s2 + s3 + r =~= s1 + (s2 + (s3 + r)));
}

proof fn lemma_parts5(
    s1: Seq<char>,
    s2: Seq<char>,
    s3: Seq<char>,
    s4: Seq<char>,
    s5: Seq<char>,
    r: Seq<char>,
)
    ensures
        s1 + s2 + s3 + s4 + s5 + r == s1 + (s2 + (s3 + (s4 + (s5 + r)))),
{
    assert(s1 + s2 + s3 + s4 + s5 + r =~= s1 + (s2 + (s3 + (s4 + (s5 + r)))));
}

proof fn lemma_parts7(
    s1: Seq<char>,
    s2: Seq<char>,
    s3: Seq<char>,
    s4: Seq<char>,
    s5: Seq<char>,
    s6: Seq<char>,
    s7: Seq<char>,
    r: Seq<char>,
)
    ensures
        s1 + s2 + s3 + s4 + s5 + s6 + s7 + r == s1 + (s2 + (s3 + (s4 + (s5 + (s6 + (s7
            + r)))))),
{
    lemma_parts5(s1, s2, s3, s4, s5, s6 + (s7 + r));
    assert(s1 + s2 + s3 + s4 + s5 + s6 + s7 + r =~= s1 + s2 + s3 + s4 + s5 + (s6 + (s7 + r)));
}

proof fn lemma_parts9(
    s1: Seq<char>,
    s2: Seq<char>,
    s3: Seq<char>,
    s4: Seq<char>,
    s5: Seq<char>,
    s6: Seq<char>,
    s7: Seq<char>,
    s8: Seq<char>,
    s9: Seq<char>,
    r: Seq<char>,
)
    ensures
        s1 + s2 + s3 + s4 + s5 + s6 + s7 + s8 + s9 + r == s1 + (s2 + (s3 + (s4 + (s5 + (s6 + (s7
            + (s8 + (s9 + r)))))))),
{
    lemma_parts7(s1, s2, s3, s4, s5, s6, s7, s8 + (s9 + r));
    assert(s1 + s2 + s3 + s4 + s5 + s6 + s7 + s8 + s9 + r =~= s1 + s2 + s3 + s4 + s5 + s6 + s7
        + (s8 + (s9 + r)));
}

/// Whether a character is a decimal digit.
pub open spec fn is_digit(c: char) -> bool {
    '0' <= c <= '9'
}

proof fn lemma_decimal_digits(n: nat)
    ensures
        decimal(n).len() >= 1,
        n >= 10 ==> decimal(n).len() >= 2,
        forall|i: int| 0 <= i < decimal(n).len() ==> is_digit(#[trigger] decimal(n)[i]),
    decreases n,
{
    if n >= 10 {
        lemma_decimal_digits(n / 10);
    }
}

proof fn lemma_digit_unique(a: nat, b: nat)
    requires
        a < 10,
        b < 10,
        digit_char(a) == digit_char(b),
    ensures
        a == b,
{
}

/// Two numbers with the same decimal text are the same number.
pub proof fn lemma_decimal_unique(a: nat, b: nat)
    requires
        decimal(a) == decimal(b),
    ensures
        a == b,
    decreases a,
{
    lemma_decimal_digits(a);
    lemma_decimal_digits(b);
    if a < 10 {
        assert(decimal(a).len() == 1);
        assert(b < 10);
        assert(decimal(a)[0] == digit_char(a));
        assert(decimal(b)[0] == digit_char(b));
        lemma_digit_unique(a, b);
    } else {
        assert(decimal(a).len() >= 2);
        if b < 10 {
            assert(decimal(b).len() == 1);
            assert(false);
        }
        let da = decimal(a / 10);
        let db = decimal(b / 10);
        assert(decimal(a) == da.push(digit_char(a % 10)));
        assert(decimal(b) == db.push(digit_char(b % 10)));
        assert(decimal(a).drop_last() =~= da);
        assert(decimal(b).drop_last() =~= db);
        assert(decimal(a).last() == digit_char(a % 10));
        assert(decimal(b).last() == digit_char(b % 10));
        lemma_digit_unique(a % 10, b % 10);
        lemma_decimal_unique(a / 10, b / 10);
        assert(a == 10 * (a / 10) + a % 10);
        assert(b == 10 * (b / 10) + b % 10);
    }
}

/// A number in decimal is told apart from what follows it, as long as no digit
/// follows it.
proof fn lemma_number(a: nat, r1: Seq<char>, b: nat, r2: Seq<char>)
    requires
        decimal(a) + r1 == decimal(b) + r2,
        r1.len() > 0 && !is_digit(r1[0]),
        r2.len() > 0 && !is_digit(r2[0]),
    ensures
        a == b,
        r1 == r2,
{
    lemma_decimal_digits(a);
    lemma_decimal_digits(b);
    let s = decimal(a) + r1;
    let t = decimal(b) + r2;
    let la = decimal(a).len() as int;
    let lb = decimal(b).len() as int;
    if la < lb {
        assert(s[la] == r1[0]);
        assert(t[la] == decimal(b)[la]);
        assert(false);
    }
    if lb < la {
        assert(t[lb] == r2[0]);
        assert(s[lb] == decimal(a)[lb]);
        assert(false);
    }
    lemma_split(decimal(a), r1, decimal(b), r2);
    lemma_decimal_unique(a, b);
}

/// The characters of a text from `i` on as they stand inside a JSON string.
pub open spec fn json_chars_from(text: Seq<char>, i: nat) -> Seq<char>
    decreases text.len() - i,
{
    if i >= text.len() {
        Seq::empty()
    } else {
        json_char(text[i as int]) + json_chars_from(text, i + 1)
    }
}

proof fn lemma_chars_front(text: Seq<char>, n: nat)
    requires
        n <= text.len(),
    ensures
        json_chars_upto(text, n) + json_chars_from(text, n) == json_chars_from(text, 0),
    decreases n,
{
    if n == 0 {
        assert(json_chars_upto(text, 0) + json_chars_from(text, 0) =~= json_chars_from(text, 0));
    } else {
        lemma_chars_front(text, (n - 1) as nat);
        lemma_joined(
            json_chars_upto(text, (n - 1) as nat),
            json_char(text[n - 1]),
            json_chars_from(text, n),
        );
    }
}

/// What a character inside a JSON string begins with: never with a quote, and
/// with a backslash exactly where it is written behind one.
proof fn lemma_json_char(c: char)
    ensures
        json_char(c).len() >= 1,
        json_char(c)[0] != '"',
        json_char(c)[0] != '\\' ==> json_char(c) == seq![c],
        json_char(c)[0] == '\\' ==> json_char(c).len() >= 2,
{
    reveal_strlit("\\\"");
    reveal_strlit("\\\\");
    reveal_strlit("\\b");
    reveal_strlit("\\f");
    reveal_strlit("\\n");
    reveal_strlit("\\r");
    reveal_strlit("\\t");
    reveal_strlit("\\u00");
}

proof fn lemma_hex_digit_unique(a: nat, b: nat)
    requires
        a < 16,
        b < 16,
        hex_digit(a) == hex_digit(b),
    ensures
        a == b,
{
}

/// Two characters that are written alike inside a JSON string are the same.
proof fn lemma_json_char_unique(c: char, r1: Seq<char>, d: char, r2: Seq<char>)
    requires
        json_char(c) + r1 == json_char(d) + r2,
    ensures
        c == d,
        r1 == r2,
{
    reveal_strlit("\\\"");
    reveal_strlit("\\\\");
    reveal_strlit("\\b");
    reveal_strlit("\\f");
    reveal_strlit("\\n");
    reveal_strlit("\\r");
    reveal_strlit("\\t");
    reveal_strlit("\\u00");
    let s = json_char(c) + r1;
    let t = json_char(d) + r2;
    lemma_json_char(c);
    lemma_json_char(d);
    assert(s[0] == json_char(c)[0]);
    assert(t[0] == json_char(d)[0]);
    if json_char(c)[0] == '\\' {
        assert(s[1] == json_char(c)[1]);
        assert(t[1] == json_char(d)[1]);
        if json_char(c)[1] == 'u' {
            assert(json_char(c).len() == 6 && json_char(d).len() == 6);
            assert(s[4] == json_char(c)[4] && t[4] == json_char(d)[4]);
            assert(s[5] == json_char(c)[5] && t[5] == json_char(d)[5]);
            lemma_hex_digit_unique((c as u8 / 16) as nat, (d as u8 / 16) as nat);
            lemma_hex_digit_unique((c as u8 % 16) as nat, (d as u8 % 16) as nat);
            assert(c as u8 == d as u8);
        }
        assert(c == d);
    } else {
        assert(c == d);
    }
    lemma_split(json_char(c), r1, json_char(d), r2);
}

proof fn lemma_chars_from(a: Seq<char>, i: nat, r1: Seq<char>, b: Seq<char>, j: nat, r2: Seq<char>)
    requires
        i <= a.len(),
        j <= b.len(),
        json_chars_from(a, i) + ("\""@ + r1) == json_chars_from(b, j) + ("\""@ + r2),
    ensures
        a.skip(i as int) == b.skip(j as int),
        r1 == r2,
    decreases a.len() - i,
{
    reveal_strlit("\"");
    let s = json_chars_from(a, i) + ("\""@ + r1);
    let t = json_chars_from(b, j) + ("\""@ + r2);
    if i == a.len() {
        assert(s[0] == '"');
        if j < b.len() {
            lemma_json_char(b[j as int]);
            assert(t[0] == json_char(b[j as int])[0]);
            assert(false);
        }
        assert(json_chars_from(a, i) =~= Seq::<char>::empty());
        assert(json_chars_from(b, j) =~= Seq::<char>::empty());
        lemma_split(json_chars_from(a, i), "\""@ + r1, json_chars_from(b, j), "\""@ + r2);
        lemma_split("\""@, r1, "\""@, r2);
        assert(a.skip(i as int) =~= b.skip(j as int));
    } else {
        lemma_json_char(a[i as int]);
        assert(s[0] == json_char(a[i as int])[0]);
        if j == b.len() {
            assert(t[0] == '"');
            assert(false);
        }
        lemma_joined(json_char(a[i as int]), json_chars_from(a, i + 1), "\""@ + r1);
        lemma_joined(json_char(b[j as int]), json_chars_from(b, j + 1), "\""@ + r2);
        lemma_json_char_unique(
            a[i as int],
            json_chars_from(a, i + 1) + ("\""@ + r1),
            b[j as int],
            json_chars_from(b, j + 1) + ("\""@ + r2),
        );
        lemma_chars_from(a, i + 1, r1, b, j + 1, r2);
        assert(a.skip((i + 1) as int) == a.skip(i as int + 1));
        assert(b.skip((j + 1) as int) == b.skip(j as int + 1));
        assert(a.skip(i as int) =~= seq![a[i as int]] + a.skip(i as int + 1));
        assert(b.skip(j as int) =~= seq![b[j as int]] + b.skip(j as int + 1));
    }
}

/// A JSON string is told apart from what follows it.
proof fn lemma_text(a: Seq<char>, r1: Seq<char>, b: Seq<char>, r2: Seq<char>)
    requires
        json_text(a) + r1 == json_text(b) + r2,
    ensures
        a == b,
        r1 == r2,
{
    lemma_chars_front(a, a.len());
    lemma_chars_front(b, b.len());
    assert(json_chars_from(a, a.len()) =~= Seq::<char>::empty());
    assert(json_chars_from(b, b.len()) =~= Seq::<char>::empty());
    assert(json_chars_upto(a, a.len()) =~= json_chars_from(a, 0));
    assert(json_chars_upto(b, b.len()) =~= json_chars_from(b, 0));
    let ea = json_chars_from(a, 0);
    let eb = json_chars_from(b, 0);
    assert(json_text(a) + r1 =~= "\""@ + (ea + ("\""@ + r1)));
    assert(json_text(b) + r2 =~= "\""@ + (eb + ("\""@ + r2)));
    lemma_split("\""@, ea + ("\""@ + r1), "\""@, eb + ("\""@ + r2));
    lemma_chars_from(a, 0, r1, b, 0, r2);
    assert(a.skip(0) =~= a);
    assert(b.skip(0) =~= b);
}

/// The names of the kinds are told apart.
proof fn lemma_kind(a: Kind, r1: Seq<char>, b: Kind, r2: Seq<char>)
    requires
        kind_name(a) + r1 == kind_name(b) + r2,
    ensures
        a == b,
        r1 == r2,
{
    reveal_strlit("\"Organization\"");
    reveal_strlit("\"Team\"");
    reveal_strlit("\"Membership\"");
    reveal_strlit("\"Repository\"");
    reveal_strlit("\"RepoPermission\"");
    reveal_strlit("\"BranchProtectionRule\"");
    reveal_strlit("\"AppInstallation\"");
    reveal_strlit("\"Role\"");
    let s = kind_name(a) + r1;
    let t = kind_name(b) + r2;
    assert(s[1] == kind_name(a)[1] && t[1] == kind_name(b)[1]);
    assert(s[2] == kind_name(a)[2] && t[2] == kind_name(b)[2]);
    assert(s[5] == kind_name(a)[5] && t[5] == kind_name(b)[5]);
    assert(a == b);
    lemma_split(kind_name(a), r1, kind_name(b), r2);
}

/// The names of the fields are told apart.
proof fn lemma_field_name(a: FieldName, r1: Seq<char>, b: FieldName, r2: Seq<char>)
    requires
        field_name(a) + r1 == field_name(b) + r2,
    ensures
        a == b,
        r1 == r2,
{
    reveal_strlit("\"Description\"");
    reveal_strlit("\"Privacy\"");
    reveal_strlit("\"Color\"");
    reveal_strlit("\"Position\"");
    reveal_strlit("\"Permission\"");
    reveal_strlit("\"Pattern\"");
    reveal_strlit("\"AdminEnforced\"");
    reveal_strlit("\"RequiredApprovals\"");
    let s = field_name(a) + r1;
    let t = field_name(b) + r2;
    assert(s[1] == field_name(a)[1] && t[1] == field_name(b)[1]);
    assert(s[2] == field_name(a)[2] && t[2] == field_name(b)[2]);
    assert(a == b);
    lemma_split(field_name(a), r1, field_name(b), r2);
}

/// The names of the roles are told apart.
proof fn lemma_role(a: TeamRole, r1: Seq<char>, b: TeamRole, r2: Seq<char>)
    requires
        role_json(a) + r1 == role_json(b) + r2,
    ensures
        a == b,
        r1 == r2,
{
    reveal_strlit("\"Member\"");
    reveal_strlit("\"Maintainer\"");
    let s = role_json(a) + r1;
    let t = role_json(b) + r2;
    assert(s[2] == role_json(a)[2] && t[2] == role_json(b)[2]);
    assert(a == b);
    lemma_split(role_json(a), r1, role_json(b), r2);
}

/// A number between a mark and a closing brace is told apart from what
/// follows.
proof fn lemma_number_closed(a: u64, r1: Seq<char>, b: u64, r2: Seq<char>)
    requires
        decimal(a as nat) + ("}"@ + r1) == decimal(b as nat) + ("}"@ + r2),
    ensures
        a == b,
        r1 == r2,
{
    reveal_strlit("}");
    assert(("}"@ + r1)[0] == '}');
    assert(("}"@ + r2)[0] == '}');
    lemma_number(a as nat, "}"@ + r1, b as nat, "}"@ + r2);
    lemma_split("}"@, r1, "}"@, r2);
}

spec fn identity_mark(identity: Identity) -> Seq<char> {
    match identity {
        Identity::Committed(_) => "{\"Committed\":"@,
        Identity::Pending(_) => "{\"Pending\":"@,
    }
}

spec fn identity_number(identity: Identity) -> u64 {
    match identity {
        Identity::Committed(id) => id,
        Identity::Pending(key) => key,
    }
}

/// An identity is told apart from what follows it.
proof fn lemma_identity(a: Identity, r1: Seq<char>, b: Identity, r2: Seq<char>)
    requires
        identity_json(a) + r1 == identity_json(b) + r2,
    ensures
        a == b,
        r1 == r2,
{
    reveal_strlit("{\"Committed\":");
    reveal_strlit("{\"Pending\":");
    let ta = decimal(identity_number(a) as nat) + ("}"@ + r1);
    let tb = decimal(identity_number(b) as nat) + ("}"@ + r2);
    assert(identity_json(a) + r1 =~= identity_mark(a) + ta);
    assert(identity_json(b) + r2 =~= identity_mark(b) + tb);
    let s = identity_mark(a) + ta;
    let t = identity_mark(b) + tb;
    assert(s[2] == identity_mark(a)[2] && t[2] == identity_mark(b)[2]);
    assert(identity_mark(a) == identity_mark(b));
    lemma_split(identity_mark(a), ta, identity_mark(b), tb);
    lemma_number_closed(identity_number(a), r1, identity_number(b), r2);
}

spec fn value_mark(value: ValueView) -> Seq<char> {
    match value {
        ValueView::Number(_) => "{\"Number\":"@,
        ValueView::Flag(b) => if b {
            "{\"Flag\":true}"@
        } else {
            "{\"Flag\":false}"@
        },
        ValueView::Text(_) => "{\"Text\":"@,
    }
}

spec fn value_tail(value: ValueView, rest: Seq<char>) -> Seq<char> {
    match value {
        ValueView::Number(n) => decimal(n as nat) + ("}"@ + rest),
        ValueView::Flag(_) => rest,
        ValueView::Text(t) => json_text(t) + ("}"@ + rest),
    }
}

/// A value is told apart from what follows it.
proof fn lemma_value(a: ValueView, r1: Seq<char>, b: ValueView, r2: Seq<char>)
    requires
        value_json(a) + r1 == value_json(b) + r2,
    ensures
        a == b,
        r1 == r2,
{
    reveal_strlit("{\"Number\":");
    reveal_strlit("{\"Flag\":true}");
    reveal_strlit("{\"Flag\":false}");
    reveal_strlit("{\"Text\":");
    let ta = value_tail(a, r1);
    let tb = value_tail(b, r2);
    assert(value_json(a) + r1 =~= value_mark(a) + ta);
    assert(value_json(b) + r2 =~= value_mark(b) + tb);
    let s = value_mark(a) + ta;
    let t = value_mark(b) + tb;
    assert(s[2] == value_mark(a)[2] && t[2] == value_mark(b)[2]);
    if a is Flag && b is Flag {
        assert(s[8] == value_mark(a)[8] && t[8] == value_mark(b)[8]);
    }
    assert(value_mark(a) == value_mark(b));
    lemma_split(value_mark(a), ta, value_mark(b), tb);
    match (a, b) {
        (ValueView::Number(x), ValueView::Number(y)) => {
            lemma_number_closed(x, r1, y, r2);
        },
        (ValueView::Text(x), ValueView::Text(y)) => {
            lemma_text(x, "}"@ + r1, y, "}"@ + r2);
            lemma_split("}"@, r1, "}"@, r2);
        },
        _ => {},
    }
}

/// A value that may be missing is told apart from what follows it.
proof fn lemma_optional_value(a: Option<ValueView>, r1: Seq<char>, b: Option<ValueView>, r2: Seq<char>)
    requires
        optional_value_json(a) + r1 == optional_value_json(b) + r2,
    ensures
        a == b,
        r1 == r2,
{
    reveal_strlit("null");
    reveal_strlit("{\"Number\":");
    reveal_strlit("{\"Flag\":true}");
    reveal_strlit("{\"Flag\":false}");
    reveal_strlit("{\"Text\":");
    let s = optional_value_json(a) + r1;
    let t = optional_value_json(b) + r2;
    if a is Some {
        assert(value_json(a->Some_0) + r1 =~= value_mark(a->Some_0) + value_tail(a->Some_0, r1));
        assert(s[0] == value_mark(a->Some_0)[0]);
    } else {
        assert(s[0] == "null"@[0]);
    }
    if b is Some {
        assert(value_json(b->Some_0) + r2 =~= value_mark(b->Some_0) + value_tail(b->Some_0, r2));
        assert(t[0] == value_mark(b->Some_0)[0]);
    } else {
        assert(t[0] == "null"@[0]);
    }
    match (a, b) {
        (Some(x), Some(y)) => {
            lemma_value(x, r1, y, r2);
        },
        (None, None) => {
            lemma_split("null"@, r1, "null"@, r2);
        },
        _ => {},
    }
}

/// A field is told apart from what follows it.
proof fn lemma_field(a: FieldView, r1: Seq<char>, b: FieldView, r2: Seq<char>)
    requires
        field_json(a) + r1 == field_json(b) + r2,
    ensures
        a == b,
        r1 == r2,
{
    let va = value_json(a.value) + ("}"@ + r1);
    let vb = value_json(b.value) + ("}"@ + r2);
    let na = field_name(a.name) + (",\"value\":"@ + va);
    let nb = field_name(b.name) + (",\"value\":"@ + vb);
    lemma_parts5("{\"name\":"@, field_name(a.name), ",\"value\":"@, value_json(a.value), "}"@, r1);
    lemma_parts5("{\"name\":"@, field_name(b.name), ",\"value\":"@, value_json(b.value), "}"@, r2);
    lemma_split("{\"name\":"@, na, "{\"name\":"@, nb);
    lemma_field_name(a.name, ",\"value\":"@ + va, b.name, ",\"value\":"@ + vb);
    lemma_split(",\"value\":"@, va, ",\"value\":"@, vb);
    lemma_value(a.value, "}"@ + r1, b.value, "}"@ + r2);
    lemma_split("}"@, r1, "}"@, r2);
}

/// A target is told apart from what follows it.
proof fn lemma_target(a: TargetView, r1: Seq<char>, b: TargetView, r2: Seq<char>)
    requires
        target_json(a) + r1 == target_json(b) + r2,
    ensures
        a == b,
        r1 == r2,
{
    let ia = identity_json(a.identity) + ("}"@ + r1);
    let ib = identity_json(b.identity) + ("}"@ + r2);
    let ta = json_text(a.name) + (",\"identity\":"@ + ia);
    let tb = json_text(b.name) + (",\"identity\":"@ + ib);
    let ka = kind_name(a.kind) + (",\"name\":"@ + ta);
    let kb = kind_name(b.kind) + (",\"name\":"@ + tb);
    lemma_parts7(
        "{\"kind\":"@,
        kind_name(a.kind),
        ",\"name\":"@,
        json_text(a.name),
        ",\"identity\":"@,
        identity_json(a.identity),
        "}"@,
        r1,
    );
    lemma_parts7(
        "{\"kind\":"@,
        kind_name(b.kind),
        ",\"name\":"@,
        json_text(b.name),
        ",\"identity\":"@,
        identity_json(b.identity),
        "}"@,
        r2,
    );
    lemma_split("{\"kind\":"@, ka, "{\"kind\":"@, kb);
    lemma_kind(a.kind, ",\"name\":"@ + ta, b.kind, ",\"name\":"@ + tb);
    lemma_split(",\"name\":"@, ta, ",\"name\":"@, tb);
    lemma_text(a.name, ",\"identity\":"@ + ia, b.name, ",\"identity\":"@ + ib);
    lemma_split(",\"identity\":"@, ia, ",\"identity\":"@, ib);
    lemma_identity(a.identity, "}"@ + r1, b.identity, "}"@ + r2);
    lemma_split("}"@, r1, "}"@, r2);
}

/// The first `n` texts with commas between them.
pub open spec fn joined_upto(parts: Seq<Seq<char>>, n: nat) -> Seq<char>
    decreases n,
{
    if n == 0 {
        Seq::empty()
    } else if n == 1 {
        parts[0]
    } else {
        joined_upto(parts, (n - 1) as nat) + ","@ + parts[n - 1]
    }
}

/// The texts from `i` on with commas between them.
pub open spec fn joined_from(parts: Seq<Seq<char>>, i: nat) -> Seq<char>
    decreases parts.len() - i,
{
    if i >= parts.len() {
        Seq::empty()
    } else if i + 1 == parts.len() {
        parts[i as int]
    } else {
        parts[i as int] + (","@ + joined_from(parts, i + 1))
    }
}

spec fn tail_from(parts: Seq<Seq<char>>, n: nat) -> Seq<char> {
    if n >= parts.len() {
        Seq::empty()
    } else {
        ","@ + joined_from(parts, n)
    }
}

proof fn lemma_joined_front(parts: Seq<Seq<char>>, n: nat)
    requires
        1 <= n <= parts.len(),
    ensures
        joined_upto(parts, n) + tail_from(parts, n) == joined_from(parts, 0),
    decreases n,
{
    if n == 1 {
        if parts.len() == 1 {
            assert(parts[0] + Seq::<char>::empty() =~= parts[0]);
        }
    } else {
        lemma_joined_front(parts, (n - 1) as nat);
        let m = (n - 1) as nat;
        assert(joined_from(parts, m) == parts[n - 1] + tail_from(parts, n)) by {
            if n == parts.len() {
                assert(parts[n - 1] + Seq::<char>::empty() =~= parts[n - 1]);
            }
        }
        lemma_parts3(joined_upto(parts, m), ","@, parts[n - 1], tail_from(parts, n));
    }
}

/// The texts of a list joined as they stand between its brackets.
proof fn lemma_joined_whole(parts: Seq<Seq<char>>)
    ensures
        joined_upto(parts, parts.len()) == joined_from(parts, 0),
{
    if parts.len() > 0 {
        lemma_joined_front(parts, parts.len());
        assert(joined_upto(parts, parts.len()) + Seq::<char>::empty() =~= joined_upto(
            parts,
            parts.len(),
        ));
    }
}

/// Whether the texts of two lists are told apart from what follows them.
pub open spec fn told_apart(pa: Seq<Seq<char>>, pb: Seq<Seq<char>>) -> bool {
    forall|i: int, j: int, r1: Seq<char>, r2: Seq<char>|
        #![trigger pa[i] + r1, pb[j] + r2]
        0 <= i < pa.len() && 0 <= j < pb.len() && pa[i] + r1 == pb[j] + r2 ==> pa[i] == pb[j]
            && r1 == r2
}

/// Whether every text of a list begins with an opening brace.
pub open spec fn braced(parts: Seq<Seq<char>>) -> bool {
    forall|i: int| 0 <= i < parts.len() ==> (#[trigger] parts[i]).len() > 0 && parts[i][0] == '{'
}

proof fn lemma_list_from(
    pa: Seq<Seq<char>>,
    i: nat,
    r1: Seq<char>,
    pb: Seq<Seq<char>>,
    j: nat,
    r2: Seq<char>,
)
    requires
        told_apart(pa, pb),
        braced(pa),
        braced(pb),
        i <= pa.len(),
        j <= pb.len(),
        joined_from(pa, i) + ("]"@ + r1) == joined_from(pb, j) + ("]"@ + r2),
    ensures
        pa.skip(i as int) == pb.skip(j as int),
        r1 == r2,
    decreases pa.len() - i,
{
    reveal_strlit("]");
    reveal_strlit(",");
    let s = joined_from(pa, i) + ("]"@ + r1);
    let t = joined_from(pb, j) + ("]"@ + r2);
    if i == pa.len() {
        assert(joined_from(pa, i) =~= Seq::<char>::empty());
        assert(s[0] == ']');
        if j < pb.len() {
            assert(pb[j as int][0] == '{');
            assert(t[0] == pb[j as int][0]);
            assert(false);
        }
        assert(joined_from(pb, j) =~= Seq::<char>::empty());
        lemma_split(joined_from(pa, i), "]"@ + r1, joined_from(pb, j), "]"@ + r2);
        lemma_split("]"@, r1, "]"@, r2);
        assert(pa.skip(i as int) =~= pb.skip(j as int));
    } else {
        assert(pa[i as int][0] == '{');
        assert(s[0] == pa[i as int][0]);
        if j == pb.len() {
            assert(joined_from(pb, j) =~= Seq::<char>::empty());
            assert(t[0] == ']');
            assert(false);
        }
        let xa = if i + 1 == pa.len() {
            "]"@ + r1
        } else {
            ","@ + (joined_from(pa, i + 1) + ("]"@ + r1))
        };
        let xb = if j + 1 == pb.len() {
            "]"@ + r2
        } else {
            ","@ + (joined_from(pb, j + 1) + ("]"@ + r2))
        };
        assert(s == pa[i as int] + xa) by {
            if i + 1 != pa.len() {
                lemma_parts3(pa[i as int], ","@, joined_from(pa, i + 1), "]"@ + r1);
                lemma_joined(","@, joined_from(pa, i + 1), "]"@ + r1);
                assert(pa[i as int] + (","@ + joined_from(pa, i + 1)) + ("]"@ + r1)
                    =~= pa[i as int] + ","@ + joined_from(pa, i + 1) + ("]"@ + r1));
            }
        }
        assert(t == pb[j as int] + xb) by {
            if j + 1 != pb.len() {
                lemma_parts3(pb[j as int], ","@, joined_from(pb, j + 1), "]"@ + r2);
                lemma_joined(","@, joined_from(pb, j + 1), "]"@ + r2);
                assert(pb[j as int] + (","@ + joined_from(pb, j + 1)) + ("]"@ + r2)
                    =~= pb[j as int] + ","@ + joined_from(pb, j + 1) + ("]"@ + r2));
            }
        }
        assert(pa[i as int] == pb[j as int] && xa == xb);
        assert(xa[0] == xb[0]);
        if i + 1 == pa.len() {
            assert(xa[0] == ']');
            assert(j + 1 == pb.len());
            lemma_split("]"@, r1, "]"@, r2);
            assert(pa.skip(i as int) =~= pb.skip(j as int));
        } else {
            assert(xa[0] == ',');
            assert(j + 1 != pb.len());
            lemma_split(
                ","@,
                joined_from(pa, i + 1) + ("]"@ + r1),
                ","@,
                joined_from(pb, j + 1) + ("]"@ + r2),
            );
            lemma_list_from(pa, i + 1, r1, pb, j + 1, r2);
            assert(pa.skip((i + 1) as int) == pa.skip(i as int + 1));
            assert(pb.skip((j + 1) as int) == pb.skip(j as int + 1));
            assert(pa.skip(i as int) =~= seq![pa[i as int]] + pa.skip(i as int + 1));
            assert(pb.skip(j as int) =~= seq![pb[j as int]] + pb.skip(j as int + 1));
        }
    }
}

/// Two lists of texts that are written alike between brackets are the same
/// list.
proof fn lemma_list(pa: Seq<Seq<char>>, r1: Seq<char>, pb: Seq<Seq<char>>, r2: Seq<char>)
    requires
        told_apart(pa, pb),
        braced(pa),
        braced(pb),
        joined_upto(pa, pa.len()) + ("]"@ + r1) == joined_upto(pb, pb.len()) + ("]"@ + r2),
    ensures
        pa == pb,
        r1 == r2,
{
    lemma_joined_whole(pa);
    lemma_joined_whole(pb);
    lemma_list_from(pa, 0, r1, pb, 0, r2);
    assert(pa.skip(0) =~= pa);
    assert(pb.skip(0) =~= pb);
}

spec fn field_parts(fields: Seq<FieldView>) -> Seq<Seq<char>> {
    Seq::new(fields.len(), |i: int| field_json(fields[i]))
}

proof fn lemma_field_parts(fields: Seq<FieldView>, n: nat)
    requires
        n <= fields.len(),
    ensures
        fields_json_upto(fields, n) == joined_upto(field_parts(fields), n),
    decreases n,
{
    if n > 1 {
        lemma_field_parts(fields, (n - 1) as nat);
    }
}

/// A list of fields is told apart from what follows it.
proof fn lemma_fields(a: Seq<FieldView>, r1: Seq<char>, b: Seq<FieldView>, r2: Seq<char>)
    requires
        fields_json(a) + r1 == fields_json(b) + r2,
    ensures
        a == b,
        r1 == r2,
{
    reveal_strlit("{\"name\":");
    let pa = field_parts(a);
    let pb = field_parts(b);
    lemma_field_parts(a, a.len());
    lemma_field_parts(b, b.len());
    lemma_parts3("["@, joined_upto(pa, pa.len()), "]"@, r1);
    lemma_parts3("["@, joined_upto(pb, pb.len()), "]"@, r2);
    lemma_split(
        "["@,
        joined_upto(pa, pa.len()) + ("]"@ + r1),
        "["@,
        joined_upto(pb, pb.len()) + ("]"@ + r2),
    );
    assert forall|i: int, j: int, x: Seq<char>, y: Seq<char>|
        #![trigger pa[i] + x, pb[j] + y]
        0 <= i < pa.len() && 0 <= j < pb.len() && pa[i] + x == pb[j] + y implies pa[i] == pb[j]
        && x == y by {
        lemma_field(a[i], x, b[j], y);
    }
    assert forall|i: int| 0 <= i < pa.len() implies (#[trigger] pa[i]).len() > 0 && pa[i][0]
        == '{' by {
        lemma_field_braced(a[i]);
    }
    assert forall|i: int| 0 <= i < pb.len() implies (#[trigger] pb[i]).len() > 0 && pb[i][0]
        == '{' by {
        lemma_field_braced(b[i]);
    }
    lemma_list(pa, r1, pb, r2);
    assert forall|i: int| 0 <= i < a.len() implies a[i] == b[i] by {
        assert(pa[i] == pb[i]);
        lemma_field(a[i], Seq::empty(), b[i], Seq::empty());
    }
    assert(a =~= b);
}

proof fn lemma_field_braced(field: FieldView)
    ensures
        field_json(field).len() > 0,
        field_json(field)[0] == '{',
{
    reveal_strlit("{\"name\":");
    lemma_parts5(
        "{\"name\":"@,
        field_name(field.name),
        ",\"value\":"@,
        value_json(field.value),
        "}"@,
        Seq::empty(),
    );
    assert(field_json(field) + Seq::<char>::empty() =~= field_json(field));
}

spec fn action_mark(action: ActionView) -> Seq<char> {
    match action {
        ActionView::CreateEntity { .. } => "{\"CreateEntity\":{\"target\":"@,
        ActionView::EditField { .. } => "{\"EditField\":{\"target\":"@,
        ActionView::AddRelation { .. } => "{\"AddRelation\":{\"target\":"@,
        ActionView::RemoveRelation { .. } => "{\"RemoveRelation\":{\"target\":"@,
    }
}

/// What follows the target in the text of an action, with what follows the
/// action.
spec fn action_rest(action: ActionView, rest: Seq<char>) -> Seq<char> {
    match action {
        ActionView::CreateEntity { fields, .. } => ",\"fields\":"@ + (fields_json(fields) + ("}}"@
            + rest)),
        ActionView::EditField { field, old, new, .. } => ",\"field\":"@ + (field_name(field) + (
        ",\"old\":"@ + (optional_value_json(old) + (",\"new\":"@ + (value_json(new) + ("}}"@
            + rest)))))),
        ActionView::AddRelation { related, role, .. } => ",\"related\":"@ + (decimal(
            related as nat,
        ) + (",\"role\":"@ + (role_json(role) + ("}}"@ + rest)))),
        ActionView::RemoveRelation { related, .. } => ",\"related\":"@ + (decimal(related as nat)
            + ("}}"@ + rest)),
    }
}

proof fn lemma_action_parts(action: ActionView, rest: Seq<char>)
    ensures
        action_json(action) + rest == action_mark(action) + (target_json(action.target())
            + action_rest(action, rest)),
{
    match action {
        ActionView::CreateEntity { target, fields } => {
            lemma_parts5(
                "{\"CreateEntity\":{\"target\":"@,
                target_json(target),
                ",\"fields\":"@,
                fields_json(fields),
                "}}"@,
                rest,
            );
        },
        ActionView::EditField { target, field, old, new } => {
            lemma_parts9(
                "{\"EditField\":{\"target\":"@,
                target_json(target),
                ",\"field\":"@,
                field_name(field),
                ",\"old\":"@,
                optional_value_json(old),
                ",\"new\":"@,
                value_json(new),
                "}}"@,
                rest,
            );
        },
        ActionView::AddRelation { target, related, role } => {
            lemma_parts7(
                "{\"AddRelation\":{\"target\":"@,
                target_json(target),
                ",\"related\":"@,
                decimal(related as nat),
                ",\"role\":"@,
                role_json(role),
                "}}"@,
                rest,
            );
        },
        ActionView::RemoveRelation { target, related } => {
            lemma_parts5(
                "{\"RemoveRelation\":{\"target\":"@,
                target_json(target),
                ",\"related\":"@,
                decimal(related as nat),
                "}}"@,
                rest,
            );
        },
    }
}

proof fn lemma_edit_rest(
    na: FieldName,
    oa: Option<ValueView>,
    va: ValueView,
    r1: Seq<char>,
    nb: FieldName,
    ob: Option<ValueView>,
    vb: ValueView,
    r2: Seq<char>,
)
    requires
        ",\"field\":"@ + (field_name(na) + (",\"old\":"@ + (optional_value_json(oa) + (
        ",\"new\":"@ + (value_json(va) + ("}}"@ + r1)))))) == ",\"field\":"@ + (field_name(nb) + (
        ",\"old\":"@ + (optional_value_json(ob) + (",\"new\":"@ + (value_json(vb) + ("}}"@
            + r2)))))),
    ensures
        na == nb,
        oa == ob,
        va == vb,
        r1 == r2,
{
    let a5 = value_json(va) + ("}}"@ + r1);
    let b5 = value_json(vb) + ("}}"@ + r2);
    let a3 = optional_value_json(oa) + (",\"new\":"@ + a5);
    let b3 = optional_value_json(ob) + (",\"new\":"@ + b5);
    let a1 = field_name(na) + (",\"old\":"@ + a3);
    let b1 = field_name(nb) + (",\"old\":"@ + b3);
    lemma_split(",\"field\":"@, a1, ",\"field\":"@, b1);
    lemma_field_name(na, ",\"old\":"@ + a3, nb, ",\"old\":"@ + b3);
    lemma_split(",\"old\":"@, a3, ",\"old\":"@, b3);
    lemma_optional_value(oa, ",\"new\":"@ + a5, ob, ",\"new\":"@ + b5);
    lemma_split(",\"new\":"@, a5, ",\"new\":"@, b5);
    lemma_value(va, "}}"@ + r1, vb, "}}"@ + r2);
    lemma_split("}}"@, r1, "}}"@, r2);
}

proof fn lemma_add_rest(
    ia: u64,
    ra: TeamRole,
    r1: Seq<char>,
    ib: u64,
    rb: TeamRole,
    r2: Seq<char>,
)
    requires
        ",\"related\":"@ + (decimal(ia as nat) + (",\"role\":"@ + (role_json(ra) + ("}}"@ + r1))))
            == ",\"related\":"@ + (decimal(ib as nat) + (",\"role\":"@ + (role_json(rb) + ("}}"@
            + r2)))),
    ensures
        ia == ib,
        ra == rb,
        r1 == r2,
{
    reveal_strlit(",\"role\":");
    let a3 = role_json(ra) + ("}}"@ + r1);
    let b3 = role_json(rb) + ("}}"@ + r2);
    let a1 = decimal(ia as nat) + (",\"role\":"@ + a3);
    let b1 = decimal(ib as nat) + (",\"role\":"@ + b3);
    lemma_split(",\"related\":"@, a1, ",\"related\":"@, b1);
    assert((",\"role\":"@ + a3)[0] == ',');
    assert((",\"role\":"@ + b3)[0] == ',');
    lemma_number(ia as nat, ",\"role\":"@ + a3, ib as nat, ",\"role\":"@ + b3);
    lemma_split(",\"role\":"@, a3, ",\"role\":"@, b3);
    lemma_role(ra, "}}"@ + r1, rb, "}}"@ + r2);
    lemma_split("}}"@, r1, "}}"@, r2);
}

proof fn lemma_remove_rest(ia: u64, r1: Seq<char>, ib: u64, r2: Seq<char>)
    requires
        ",\"related\":"@ + (decimal(ia as nat) + ("}}"@ + r1)) == ",\"related\":"@ + (decimal(
            ib as nat,
        ) + ("}}"@ + r2)),
    ensures
        ia == ib,
        r1 == r2,
{
    reveal_strlit("}}");
    let a1 = decimal(ia as nat) + ("}}"@ + r1);
    let b1 = decimal(ib as nat) + ("}}"@ + r2);
    lemma_split(",\"related\":"@, a1, ",\"related\":"@, b1);
    assert(("}}"@ + r1)[0] == '}');
    assert(("}}"@ + r2)[0] == '}');
    lemma_number(ia as nat, "}}"@ + r1, ib as nat, "}}"@ + r2);
    lemma_split("}}"@, r1, "}}"@, r2);
}

proof fn lemma_create_rest(fa: Seq<FieldView>, r1: Seq<char>, fb: Seq<FieldView>, r2: Seq<char>)
    requires
        ",\"fields\":"@ + (fields_json(fa) + ("}}"@ + r1)) == ",\"fields\":"@ + (fields_json(fb)
            + ("}}"@ + r2)),
    ensures
        fa == fb,
        r1 == r2,
{
    lemma_split(
        ",\"fields\":"@,
        fields_json(fa) + ("}}"@ + r1),
        ",\"fields\":"@,
        fields_json(fb) + ("}}"@ + r2),
    );
    lemma_fields(fa, "}}"@ + r1, fb, "}}"@ + r2);
    lemma_split("}}"@, r1, "}}"@, r2);
}

/// Two actions of the same kind about the same target are the same where
/// what follows the target in their texts is the same.
proof fn lemma_action_rest(a: ActionView, r1: Seq<char>, b: ActionView, r2: Seq<char>)
    requires
        action_mark(a) == action_mark(b),
        a.target() == b.target(),
        action_rest(a, r1) == action_rest(b, r2),
    ensures
        a == b,
        r1 == r2,
{
    lemma_marks_differ(a, b);
    match (a, b) {
        (
            ActionView::CreateEntity { fields: fa, .. },
            ActionView::CreateEntity { fields: fb, .. },
        ) => {
            lemma_create_rest(fa, r1, fb, r2);
        },
        (
            ActionView::EditField { field: na, old: oa, new: va, .. },
            ActionView::EditField { field: nb, old: ob, new: vb, .. },
        ) => {
            lemma_edit_rest(na, oa, va, r1, nb, ob, vb, r2);
        },
        (
            ActionView::AddRelation { related: ia, role: ra, .. },
            ActionView::AddRelation { related: ib, role: rb, .. },
        ) => {
            lemma_add_rest(ia, ra, r1, ib, rb, r2);
        },
        (
            ActionView::RemoveRelation { related: ia, .. },
            ActionView::RemoveRelation { related: ib, .. },
        ) => {
            lemma_remove_rest(ia, r1, ib, r2);
        },
        _ => {},
    }
}

spec fn action_rank(action: ActionView) -> int {
    match action {
        ActionView::CreateEntity { .. } => 0,
        ActionView::EditField { .. } => 1,
        ActionView::AddRelation { .. } => 2,
        ActionView::RemoveRelation { .. } => 3,
    }
}

proof fn lemma_marks_differ(a: ActionView, b: ActionView)
    ensures
        action_mark(a).len() > 2,
        action_mark(a)[0] == '{',
        action_mark(a)[2] == action_mark(b)[2] ==> action_rank(a) == action_rank(b),
        action_rank(a) == action_rank(b) ==> action_mark(a) == action_mark(b),
{
    reveal_strlit("{\"CreateEntity\":{\"target\":");
    reveal_strlit("{\"EditField\":{\"target\":");
    reveal_strlit("{\"AddRelation\":{\"target\":");
    reveal_strlit("{\"RemoveRelation\":{\"target\":");
}

/// An action is told apart from what follows it.
proof fn lemma_action(a: ActionView, r1: Seq<char>, b: ActionView, r2: Seq<char>)
    requires
        action_json(a) + r1 == action_json(b) + r2,
    ensures
        a == b,
        r1 == r2,
{
    lemma_action_parts(a, r1);
    lemma_action_parts(b, r2);
    lemma_marks_differ(a, b);
    lemma_marks_differ(b, a);
    let ta = target_json(a.target()) + action_rest(a, r1);
    let tb = target_json(b.target()) + action_rest(b, r2);
    let s = action_mark(a) + ta;
    let t = action_mark(b) + tb;
    assert(s[2] == action_mark(a)[2] && t[2] == action_mark(b)[2]);
    lemma_split(action_mark(a), ta, action_mark(b), tb);
    lemma_target(a.target(), action_rest(a, r1), b.target(), action_rest(b, r2));
    lemma_action_rest(a, r1, b, r2);
}

proof fn lemma_action_braced(action: ActionView)
    ensures
        action_json(action).len() > 0,
        action_json(action)[0] == '{',
{
    lemma_action_parts(action, Seq::empty());
    lemma_marks_differ(action, action);
    let tail = target_json(action.target()) + action_rest(action, Seq::empty());
    assert((action_mark(action) + tail)[0] == action_mark(action)[0]);
    assert(action_json(action) + Seq::<char>::empty() =~= action_json(action));
}

spec fn action_parts(actions: Seq<ActionView>) -> Seq<Seq<char>> {
    Seq::new(actions.len(), |i: int| action_json(actions[i]))
}

proof fn lemma_action_list(actions: Seq<ActionView>, n: nat)
    requires
        n <= actions.len(),
    ensures
        actions_json_upto(actions, n) == joined_upto(action_parts(actions), n),
    decreases n,
{
    if n > 1 {
        lemma_action_list(actions, (n - 1) as nat);
    }
}

/// The canonical text of a diff is told apart from what follows it.
pub proof fn lemma_diff(a: Seq<ActionView>, r1: Seq<char>, b: Seq<ActionView>, r2: Seq<char>)
    requires
        diff_json(a) + r1 == diff_json(b) + r2,
    ensures
        a == b,
        r1 == r2,
{
    reveal_strlit("]}");
    reveal_strlit("]");
    reveal_strlit("}");
    let pa = action_parts(a);
    let pb = action_parts(b);
    lemma_action_list(a, a.len());
    lemma_action_list(b, b.len());
    assert("]}"@ =~= "]"@ + "}"@);
    let ua = joined_upto(pa, pa.len());
    let ub = joined_upto(pb, pb.len());
    lemma_parts3("{\"actions\":["@, ua, "]}"@, r1);
    lemma_parts3("{\"actions\":["@, ub, "]}"@, r2);
    lemma_joined("]"@, "}"@, r1);
    lemma_joined("]"@, "}"@, r2);
    lemma_split(
        "{\"actions\":["@,
        ua + ("]"@ + ("}"@ + r1)),
        "{\"actions\":["@,
        ub + ("]"@ + ("}"@ + r2)),
    );
    assert forall|i: int, j: int, x: Seq<char>, y: Seq<char>|
        #![trigger pa[i] + x, pb[j] + y]
        0 <= i < pa.len() && 0 <= j < pb.len() && pa[i] + x == pb[j] + y implies pa[i] == pb[j]
        && x == y by {
        lemma_action(a[i], x, b[j], y);
    }
    assert forall|i: int| 0 <= i < pa.len() implies (#[trigger] pa[i]).len() > 0 && pa[i][0]
        == '{' by {
        lemma_action_braced(a[i]);
    }
    assert forall|i: int| 0 <= i < pb.len() implies (#[trigger] pb[i]).len() > 0 && pb[i][0]
        == '{' by {
        lemma_action_braced(b[i]);
    }
    lemma_list(pa, "}"@ + r1, pb, "}"@ + r2);
    lemma_split("}"@, r1, "}"@, r2);
    assert forall|i: int| 0 <= i < a.len() implies a[i] == b[i] by {
        assert(pa[i] == pb[i]);
        lemma_action(a[i], Seq::empty(), b[i], Seq::empty());
    }
    assert(a =~= b);
}

/// The canonical text tells diffs apart: two lists of actions with the same
/// canonical text hold the same actions in the same order.
pub proof fn lemma_canonical_text_unique(first: Seq<ActionView>, second: Seq<ActionView>)
    requires
        diff_json(first) == diff_json(second),
    ensures
        first == second,
{
    lemma_diff(first, Seq::empty(), second, Seq::empty());
}

spec fn service_mark(platform: Platform) -> Seq<char> {
    match platform {
        Platform::GitHub => "{\"GitHub\":{\"diff\":"@,
        Platform::Discord => "{\"Discord\":{\"diff\":"@,
    }
}

/// One diff of a run is told apart from what follows it.
proof fn lemma_service(a: ServiceDiffView, r1: Seq<char>, b: ServiceDiffView, r2: Seq<char>)
    requires
        service_json(a) + r1 == service_json(b) + r2,
    ensures
        a == b,
        r1 == r2,
{
    reveal_strlit("{\"GitHub\":{\"diff\":");
    reveal_strlit("{\"Discord\":{\"diff\":");
    lemma_parts3(service_mark(a.platform), diff_json(a.actions), "}}"@, r1);
    lemma_parts3(service_mark(b.platform), diff_json(b.actions), "}}"@, r2);
    let ta = diff_json(a.actions) + ("}}"@ + r1);
    let tb = diff_json(b.actions) + ("}}"@ + r2);
    let s = service_mark(a.platform) + ta;
    let t = service_mark(b.platform) + tb;
    assert(s[2] == service_mark(a.platform)[2] && t[2] == service_mark(b.platform)[2]);
    assert(a.platform == b.platform);
    lemma_split(service_mark(a.platform), ta, service_mark(b.platform), tb);
    lemma_diff(a.actions, "}}"@ + r1, b.actions, "}}"@ + r2);
    lemma_split("}}"@, r1, "}}"@, r2);
}

proof fn lemma_service_braced(diff: ServiceDiffView)
    ensures
        service_json(diff).len() > 0,
        service_json(diff)[0] == '{',
{
    reveal_strlit("{\"GitHub\":{\"diff\":");
    reveal_strlit("{\"Discord\":{\"diff\":");
    lemma_parts3(service_mark(diff.platform), diff_json(diff.actions), "}}"@, Seq::empty());
    let tail = diff_json(diff.actions) + ("}}"@ + Seq::<char>::empty());
    assert((service_mark(diff.platform) + tail)[0] == service_mark(diff.platform)[0]);
    assert(service_json(diff) + Seq::<char>::empty() =~= service_json(diff));
}

spec fn service_parts(diffs: Seq<ServiceDiffView>) -> Seq<Seq<char>> {
    Seq::new(diffs.len(), |i: int| service_json(diffs[i]))
}

proof fn lemma_service_list(diffs: Seq<ServiceDiffView>, n: nat)
    requires
        n <= diffs.len(),
    ensures
        services_json_upto(diffs, n) == joined_upto(service_parts(diffs), n),
    decreases n,
{
    if n > 1 {
        lemma_service_list(diffs, (n - 1) as nat);
    }
}

/// The canonical text of a run tells its diffs apart: the same text comes from
/// the same platforms with the same actions in the same order. So a change of
/// an action, of the order of the actions or of the platforms changes the text
/// that is hashed.
pub proof fn lemma_run_text_unique(first: Seq<ServiceDiffView>, second: Seq<ServiceDiffView>)
    requires
        services_json(first) == services_json(second),
    ensures
        first == second,
{
    let none = Seq::<char>::empty();
    let pa = service_parts(first);
    let pb = service_parts(second);
    lemma_service_list(first, first.len());
    lemma_service_list(second, second.len());
    lemma_parts3("["@, joined_upto(pa, pa.len()), "]"@, none);
    lemma_parts3("["@, joined_upto(pb, pb.len()), "]"@, none);
    assert(services_json(first) + none =~= services_json(first));
    assert(services_json(second) + none =~= services_json(second));
    lemma_split(
        "["@,
        joined_upto(pa, pa.len()) + ("]"@ + none),
        "["@,
        joined_upto(pb, pb.len()) + ("]"@ + none),
    );
    assert forall|i: int, j: int, x: Seq<char>, y: Seq<char>|
        #![trigger pa[i] + x, pb[j] + y]
        0 <= i < pa.len() && 0 <= j < pb.len() && pa[i] + x == pb[j] + y implies pa[i] == pb[j]
        && x == y by {
        lemma_service(first[i], x, second[j], y);
    }
    assert forall|i: int| 0 <= i < pa.len() implies (#[trigger] pa[i]).len() > 0 && pa[i][0]
        == '{' by {
        lemma_service_braced(first[i]);
    }
    assert forall|i: int| 0 <= i < pb.len() implies (#[trigger] pb[i]).len() > 0 && pb[i][0]
        == '{' by {
        lemma_service_braced(second[i]);
    }
    lemma_list(pa, none, pb, none);
    assert forall|i: int| 0 <= i < first.len() implies first[i] == second[i] by {
        assert(pa[i] == pb[i]);
        lemma_service(first[i], none, second[i], none);
    }
    assert(first =~= second);
}

/// What is hashed tells the diffs of a run apart: two runs with the same
/// canonical bytes hold the same diffs. A hash can so stand for another run
/// only where the digest itself meets with a collision.
pub proof fn lemma_run_bytes_unique(first: Seq<ServiceDiffView>, second: Seq<ServiceDiffView>)
    requires
        services_bytes(first) == services_bytes(second),
    ensures
        first == second,
{
    vstd::utf8::encode_utf8_decode_utf8(services_json(first));
    vstd::utf8::encode_utf8_decode_utf8(services_json(second));
    lemma_run_text_unique(first, second);
}

} // verus!
