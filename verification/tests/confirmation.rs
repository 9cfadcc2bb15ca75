use sync_team::apply::ServiceDiff;
use sync_team::canonical::write_json_text;
use sync_team::confirmation::{
    canonical_bytes, canonical_text, hash_bytes, Confirmation, ConfirmationState, MissingApprover,
};
use sync_team::model::{
    Action, Diff, Field, FieldName, Identity, Kind, Target, TeamRole, Value,
};

fn lang() -> Target {
    Target { kind: Kind::Team, name: "lang".to_string(), identity: Identity::Committed(77) }
}

fn diffs() -> Vec<ServiceDiff> {
    vec![ServiceDiff::GitHub {
        diff: Diff {
            actions: vec![
                Action::AddRelation { target: lang(), related: 2, role: TeamRole::Member },
                Action::RemoveRelation { target: lang(), related: 4 },
            ],
        },
    }]
}

fn confirmation() -> Confirmation {
    Confirmation::new(
        diffs(),
        "infra".to_string(),
        "sync".to_string(),
        "https://confirm.example".to_string(),
    )
}

#[test]
fn the_hash_is_the_hex_sha256_digest() {
    assert_eq!(
        hash_bytes(&b"hello world".to_vec()),
        "b94d27b9934d3e08a52e52d7da7dabfac484efe37a5380ee9088f7ace2efcde9"
    );
    assert_eq!(
        hash_bytes(&Vec::new()),
        "e3b0c44298fc1c149afbf4c8996fb92427ae41e4649b934ca495991b7852b855"
    );
}

#[test]
fn the_hash_of_a_confirmation_is_that_of_the_canonical_bytes() {
    let c = confirmation();
    assert_eq!(c.hash, hash_bytes(&canonical_bytes(&diffs())));
    assert_eq!(c.hash.len(), 64);
    assert_eq!(c.hash, confirmation().hash);
}

#[test]
fn canonical_text_of_a_small_diff() {
    let one = vec![ServiceDiff::Discord {
        diff: Diff { actions: vec![Action::RemoveRelation { target: lang(), related: 4 }] },
    }];
    let expected = "[{\"Discord\":{\"diff\":{\"actions\":[{\"RemoveRelation\":{\"target\":\
                    {\"kind\":\"Team\",\"name\":\"lang\",\"identity\":{\"Committed\":77}},\
                    \"related\":4}}]}}}]";
    assert_eq!(canonical_text(&one), expected);
    assert_eq!(canonical_bytes(&one), expected.as_bytes().to_vec());
    assert!(serde_json::from_str::<serde_json::Value>(expected).is_ok());
}

#[test]
fn canonical_text_of_every_kind_of_action() {
    let role = Target { kind: Kind::Role, name: "a\"b\\c\n\u{1}é".to_string(), identity: Identity::Pending(3) };
    let diff = Diff {
        actions: vec![
            Action::CreateEntity {
                target: role.clone(),
                fields: vec![
                    Field { name: FieldName::Color, value: Value::Number(255) },
                    Field { name: FieldName::AdminEnforced, value: Value::Flag(true) },
                ],
            },
            Action::EditField {
                target: lang(),
                field: FieldName::Description,
                old: None,
                new: Value::Text("x".to_string()),
            },
            Action::EditField {
                target: lang(),
                field: FieldName::Privacy,
                old: Some(Value::Flag(false)),
                new: Value::Number(0),
            },
            Action::AddRelation { target: lang(), related: 2, role: TeamRole::Maintainer },
        ],
    };
    let lang_json = "{\"kind\":\"Team\",\"name\":\"lang\",\"identity\":{\"Committed\":77}}";
    let expected = format!(
        "{{\"actions\":[{{\"CreateEntity\":{{\"target\":{{\"kind\":\"Role\",\"name\":\"a\\\"b\\\\c\\n\\u0001é\",\
         \"identity\":{{\"Pending\":3}}}},\"fields\":[{{\"name\":\"Color\",\"value\":{{\"Number\":255}}}},\
         {{\"name\":\"AdminEnforced\",\"value\":{{\"Flag\":true}}}}]}}}},\
         {{\"EditField\":{{\"target\":{l},\"field\":\"Description\",\"old\":null,\"new\":{{\"Text\":\"x\"}}}}}},\
         {{\"EditField\":{{\"target\":{l},\"field\":\"Privacy\",\"old\":{{\"Flag\":false}},\"new\":{{\"Number\":0}}}}}},\
         {{\"AddRelation\":{{\"target\":{l},\"related\":2,\"role\":\"Maintainer\"}}}}]}}",
        l = lang_json
    );
    assert_eq!(diff.canonical_text(), expected);
    assert_eq!(diff.canonical_bytes(), expected.as_bytes().to_vec());
    let parsed: serde_json::Value = serde_json::from_str(&expected).unwrap();
    assert_eq!(
        parsed["actions"][0]["CreateEntity"]["target"]["name"],
        serde_json::Value::String("a\"b\\c\n\u{1}é".to_string())
    );
    assert_eq!(Diff { actions: vec![] }.canonical_text(), "{\"actions\":[]}");
}

#[test]
fn texts_are_written_as_serde_json_writes_them() {
    let mut all = String::new();
    for code in 0u32..0x90 {
        all.push(char::from_u32(code).unwrap());
    }
    for text in ["", "plain", "quote\"and\\slash", "tab\tline\nreturn\r", "\u{8}\u{c}\u{0}\u{1f}\u{7f}", "é漢🦀", all.as_str()] {
        let mut written = String::from("x");
        write_json_text(&mut written, text);
        let expected = serde_json::to_string(&serde_json::Value::String(text.to_string())).unwrap();
        assert_eq!(written, format!("x{}", expected), "{:?}", text);
    }
}

#[test]
fn the_hash_of_no_diffs_is_that_of_an_empty_list() {
    assert_eq!(canonical_text(&vec![]), "[]");
    assert_eq!(canonical_bytes(&vec![]), b"[]".to_vec());
    let c = Confirmation::new(vec![], "s".to_string(), "t".to_string(), "u".to_string());
    assert_eq!(c.hash, "4f53cda18c2baa0c0354bb5f9a3ecbe5ed12ab4d8e11ba873c2f11161202b945");
    assert_eq!(c.diffs, vec![]);
}

#[test]
fn a_change_of_content_or_order_changes_the_hash() {
    let base = confirmation().hash;
    let reordered = vec![ServiceDiff::GitHub {
        diff: Diff {
            actions: vec![
                Action::RemoveRelation { target: lang(), related: 4 },
                Action::AddRelation { target: lang(), related: 2, role: TeamRole::Member },
            ],
        },
    }];
    let changed = vec![ServiceDiff::GitHub {
        diff: Diff {
            actions: vec![
                Action::AddRelation { target: lang(), related: 3, role: TeamRole::Member },
                Action::RemoveRelation { target: lang(), related: 4 },
            ],
        },
    }];
    let other_platform = match diffs().pop().unwrap() {
        ServiceDiff::GitHub { diff } => vec![ServiceDiff::Discord { diff }],
        other => vec![other],
    };
    for other in [reordered, changed, other_platform, vec![]] {
        let hash = hash_bytes(&canonical_bytes(&other));
        assert_ne!(hash, base);
    }
}

#[test]
fn approval_of_the_same_hash_approves() {
    let c = confirmation();
    let hash = c.hash.clone();
    let verdict = c.run(Some(hash.clone()), Some("alice".to_string())).unwrap();
    assert_eq!(verdict.record.state, ConfirmationState::Approved);
    assert_eq!(verdict.record.diff_hash, hash);
    assert_eq!(verdict.record.approver, Some("alice".to_string()));
    assert_eq!(verdict.apply, Some(diffs()));
    assert_eq!(verdict.message, format!("Applied diff `{}`\nApproved by: `alice`", hash));
}

#[test]
fn approval_of_another_hash_is_stale() {
    let c = confirmation();
    let hash = c.hash.clone();
    let mut other = hash.clone();
    other.pop();
    other.push(if hash.ends_with('0') { '1' } else { '0' });
    let verdict = c.run(Some(other), Some("alice".to_string())).unwrap();
    assert_eq!(verdict.record.state, ConfirmationState::Stale);
    assert_eq!(verdict.apply, None);
    assert!(verdict
        .message
        .starts_with("\u{1F6A8} **The diff changed since the approval, please approve again!**\n\n"));
    assert!(verdict.message.contains(&format!("Hash: `{}`\n", hash)));
}

#[test]
fn no_approval_leaves_the_diff_proposed() {
    let c = confirmation();
    let hash = c.hash.clone();
    let verdict = c.run(None, None).unwrap();
    assert_eq!(verdict.record.state, ConfirmationState::Proposed);
    assert_eq!(verdict.record.approver, None);
    assert_eq!(verdict.apply, None);
    assert_eq!(
        verdict.message,
        format!(
            "\n**GitHub:**\n```text\nadd 2 to team lang as member\nremove 4 from team lang\n```\n\
             Hash: `{h}`\n[Approve](https://confirm.example/{h}) (requires authentication)\n",
            h = hash
        )
    );
}

#[test]
fn an_approval_without_an_approver_is_refused() {
    let c = confirmation();
    let hash = c.hash.clone();
    assert_eq!(c.run(Some(hash), None).unwrap_err(), MissingApprover);
    let again = confirmation();
    assert_eq!(again.run(Some("something else".to_string()), None).unwrap_err(), MissingApprover);
}

#[test]
fn the_approval_message_is_appended_to_the_buffer() {
    let c = confirmation();
    let mut buffer = String::from("head");
    c.send_approval_message(&mut buffer);
    assert!(buffer.starts_with("head\n**GitHub:**\n```text\n"));
    assert!(buffer.ends_with(") (requires authentication)\n"));
}

#[test]
fn a_diff_that_could_not_be_applied_is_not_told_of_as_applied() {
    let hash = confirmation().hash;
    let approved = confirmation().run(Some(hash.clone()), Some("alice".to_string())).unwrap();
    assert_eq!(approved.after_apply(true), None);
    let approved = confirmation().run(Some(hash.clone()), Some("alice".to_string())).unwrap();
    assert_eq!(
        approved.after_apply(false),
        Some(format!("Applied diff `{}`\nApproved by: `alice`", hash))
    );
    let proposed = confirmation().run(None, None).unwrap();
    let message = proposed.message.clone();
    assert_eq!(proposed.after_apply(true), Some(message));
    let stale = confirmation().run(Some("other".to_string()), Some("alice".to_string())).unwrap();
    assert!(stale.after_apply(false).is_some());
}

#[test]
fn a_name_that_looks_like_the_text_around_it_is_told_apart() {
    let plain = vec![ServiceDiff::GitHub {
        diff: Diff {
            actions: vec![
                Action::RemoveRelation { target: lang(), related: 4 },
                Action::RemoveRelation { target: lang(), related: 5 },
            ],
        },
    }];
    let crafted = vec![ServiceDiff::GitHub {
        diff: Diff {
            actions: vec![Action::RemoveRelation {
                target: Target {
                    kind: Kind::Team,
                    name: "lang\",\"identity\":{\"Committed\":77}},\"related\":4}}".to_string(),
                    identity: Identity::Committed(77),
                },
                related: 5,
            }],
        },
    }];
    let halves = |related: u64| ServiceDiff::GitHub {
        diff: Diff { actions: vec![Action::RemoveRelation { target: lang(), related }] },
    };
    let one_run = vec![halves(4), halves(5)];
    assert_ne!(canonical_text(&plain), canonical_text(&crafted));
    assert_ne!(canonical_text(&plain), canonical_text(&one_run));
    assert_ne!(canonical_bytes(&plain), canonical_bytes(&crafted));
    assert!(canonical_text(&crafted).contains("lang\\\",\\\"identity\\\""));
}
