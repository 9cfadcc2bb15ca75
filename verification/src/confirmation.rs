//! The confirmation checkpoint: it binds an approval to the very diff that is about
//! to be applied, by the hash of the diff's canonical bytes.

use crate::apply::{Platform, ServiceDiff, ServiceDiffView};
use crate::canonical::diff_json;
use crate::render::diff_text;
use crate::text::hex_digit;
use sha2::{Digest, Sha256};
use vstd::prelude::*;
use vstd::string::*;
use vstd::utf8::encode_utf8;

verus! {

/// The SHA-256 digest of a sequence of bytes, as the `sha2` crate computes it.
pub uninterp spec fn sha256(data: Seq<u8>) -> Seq<u8>;

/// Computes the digest with `sha2::Sha256::digest`. The contract claims that
/// the digest is a function of the data and has 32 bytes.
#[verifier::external_body]
fn sha256_digest(data: &Vec<u8>) -> (digest: Vec<u8>)
    ensures
        digest@ == sha256(data@),
        digest@.len() == 32,
{
    Sha256::digest(data).to_vec()
}

/// Bytes in hexadecimal: two lowercase digits for each byte, the higher half
/// first.
pub open spec fn hex_text(bytes: Seq<u8>) -> Seq<char> {
    Seq::new(
        2 * bytes.len(),
        |i: int|
            if i % 2 == 0 {
                hex_digit((bytes[i / 2] / 16) as nat)
            } else {
                hex_digit((bytes[i / 2] % 16) as nat)
            },
    )
}

/// Writes bytes in hexadecimal with `hex::encode`, which gives two lowercase
/// digits for each byte, the higher half first.
#[verifier::external_body]
fn hex_encode(bytes: &Vec<u8>) -> (text: String)
    ensures
        text@ == hex_text(bytes@),
{
    hex::encode(bytes)
}

/// One diff of a run: the name of its platform over the diff.
pub open spec fn service_json(diff: ServiceDiffView) -> Seq<char> {
    (match diff.platform {
        Platform::GitHub => "{\"GitHub\":{\"diff\":"@,
        Platform::Discord => "{\"Discord\":{\"diff\":"@,
    }) + diff_json(diff.actions) + "}}"@
}

/// The first `n` diffs of a run with commas between them.
pub open spec fn services_json_upto(diffs: Seq<ServiceDiffView>, n: nat) -> Seq<char>
    decreases n,
{
    if n == 0 {
        Seq::empty()
    } else if n == 1 {
        service_json(diffs[0])
    } else {
        services_json_upto(diffs, (n - 1) as nat) + ","@ + service_json(diffs[n - 1])
    }
}

/// The canonical text of the diffs of a run: the JSON list of the diffs, in
/// order. For no diffs it is `[]`.
pub open spec fn services_json(diffs: Seq<ServiceDiffView>) -> Seq<char> {
    "["@ + services_json_upto(diffs, diffs.len()) + "]"@
}

/// The canonical bytes of the diffs of a run: their canonical text in UTF-8.
pub open spec fn services_bytes(diffs: Seq<ServiceDiffView>) -> Seq<u8> {
    encode_utf8(services_json(diffs))
}

/// The hash of the diffs of a run: the SHA-256 digest of their canonical
/// bytes, in hexadecimal.
pub open spec fn diffs_hash(diffs: Seq<ServiceDiffView>) -> Seq<char> {
    hex_text(sha256(services_bytes(diffs)))
}

/// The hash of a sequence of bytes: its digest in hexadecimal.
pub fn hash_bytes(data: &Vec<u8>) -> (hash: String)
    ensures
        hash@ == hex_text(sha256(data@)),
        hash@.len() == 64,
{
    let digest = sha256_digest(data);
    hex_encode(&digest)
}

/// The canonical text of the diffs of a run.
pub fn canonical_text(diffs: &Vec<ServiceDiff>) -> (text: String)
    ensures
        text@ == services_json(diffs.deep_view()),
{
    let ghost view = diffs.deep_view();
    let mut out = String::from_str("[");
    let ghost head = out@;
    assert(out@ =~= head + services_json_upto(view, 0));
    let mut i: usize = 0;
    while i < diffs.len()
        invariant
            i <= diffs.len(),
            view == diffs.deep_view(),
            out@ == head + services_json_upto(view, i as nat),
        decreases diffs.len() - i,
    {
        assert(view[i as int] == diffs[i as int].deep_view());
        if i > 0 {
            out.append(",");
        }
        match &diffs[i] {
            ServiceDiff::GitHub { diff } => {
                out.append("{\"GitHub\":{\"diff\":");
                diff.write_canonical(&mut out);
            },
            ServiceDiff::Discord { diff } => {
                out.append("{\"Discord\":{\"diff\":");
                diff.write_canonical(&mut out);
            },
        }
        out.append("}}");
        assert(out@ =~= head + services_json_upto(view, (i + 1) as nat));
        i += 1;
    }
    out.append("]");
    assert(out@ =~= services_json(view));
    out
}

/// The canonical bytes of the diffs of a run.
pub fn canonical_bytes(diffs: &Vec<ServiceDiff>) -> (bytes: Vec<u8>)
    ensures
        bytes@ == services_bytes(diffs.deep_view()),
{
    let text = canonical_text(diffs);
    text.as_str().as_bytes_vec()
}

/// Where a diff stands with its approval.
#[derive(Clone, Copy, Debug, PartialEq, Eq, Structural)]
pub enum ConfirmationState {
    /// No approval was given. The diff is put up for approval.
    Proposed,
    /// The approval is for this very diff. It may be applied.
    Approved,
    /// The approval is for another diff: the plan changed since.
    Stale,
}

/// The record of one confirmation.
#[derive(Debug, PartialEq, Eq)]
pub struct ConfirmationRecord {
    pub diff_hash: String,
    pub state: ConfirmationState,
    pub approver: Option<String>,
}

/// An approval came without the name of the approver.
#[derive(Clone, Copy, Debug, PartialEq, Eq, Structural)]
pub struct MissingApprover;

/// What the confirmation came to.
#[derive(Debug, PartialEq, Eq)]
pub struct Verdict {
    pub record: ConfirmationRecord,
    /// The diffs to apply. They are handed out where the diff is approved and
    /// nowhere else.
    pub apply: Option<Vec<ServiceDiff>>,
    /// The message for the confirmation channel. For an approved diff it is to be
    /// sent once the diff was applied.
    pub message: String,
}

impl Verdict {
    /// The message to send once the diffs were applied, or were not to be
    /// applied. A diff that was approved and could not be applied is not told
    /// of as applied: then there is no message.
    pub fn after_apply(self, failed: bool) -> (m: Option<String>)
        ensures
            m is Some <==> !(self.record.state == ConfirmationState::Approved && failed),
            m is Some ==> m->Some_0@ == self.message@,
    {
        match self.record.state {
            ConfirmationState::Approved => if failed {
                None
            } else {
                Some(self.message)
            },
            _ => Some(self.message),
        }
    }
}

/// The state that a confirmation comes to: proposed without an approval, approved
/// where the approved hash is that of the diff, stale where it is another.
pub open spec fn approval_state(hash: Seq<char>, approved: Option<Seq<char>>) -> ConfirmationState {
    match approved {
        None => ConfirmationState::Proposed,
        Some(approved) => if approved == hash {
            ConfirmationState::Approved
        } else {
            ConfirmationState::Stale
        },
    }
}

/// The name of a platform in messages.
pub open spec fn platform_title(platform: Platform) -> Seq<char> {
    match platform {
        Platform::GitHub => "GitHub"@,
        Platform::Discord => "Discord"@,
    }
}

/// The part of the approval message that shows the first `n` diffs.
pub open spec fn shown_upto(diffs: Seq<ServiceDiffView>, n: nat) -> Seq<char>
    decreases n,
{
    if n == 0 {
        Seq::empty()
    } else {
        shown_upto(diffs, (n - 1) as nat) + "\n**"@ + platform_title(diffs[n - 1].platform)
            + ":**\n```text\n"@ + diff_text(diffs[n - 1].actions) + "```"@
    }
}

/// The approval message: the diffs, their hash, and the link that approves
/// this hash.
pub open spec fn approval_text(diffs: Seq<ServiceDiffView>, hash: Seq<char>, base_url: Seq<char>) -> Seq<
    char,
> {
    shown_upto(diffs, diffs.len()) + "\n"@ + "Hash: `"@ + hash + "`\n"@ + "[Approve]("@ + base_url
        + "/"@ + hash + ") (requires authentication)\n"@
}

/// The message that tells of an applied diff.
pub open spec fn applied_text(hash: Seq<char>, approver: Seq<char>) -> Seq<char> {
    "Applied diff `"@ + hash + "`\nApproved by: `"@ + approver + "`"@
}

/// The warning in front of the approval message of a stale diff.
pub open spec fn stale_warning() -> Seq<char> {
    "\u{1F6A8} **The diff changed since the approval, please approve again!**\n\n"@
}

/// The message that goes with a verdict.
pub open spec fn verdict_text(
    diffs: Seq<ServiceDiffView>,
    hash: Seq<char>,
    base_url: Seq<char>,
    approved: Option<Seq<char>>,
    approver: Seq<char>,
) -> Seq<char> {
    match approval_state(hash, approved) {
        ConfirmationState::Proposed => approval_text(diffs, hash, base_url),
        ConfirmationState::Approved => applied_text(hash, approver),
        ConfirmationState::Stale => stale_warning() + approval_text(diffs, hash, base_url),
    }
}

/// The diffs of a run with their hash, and where the approval is asked for.
#[derive(Debug, PartialEq, Eq)]
pub struct Confirmation {
    pub stream: String,
    pub topic: String,
    pub base_url: String,
    pub diffs: Vec<ServiceDiff>,
    pub hash: String,
}

impl Confirmation {
    /// Takes the diffs of a run and computes their hash.
    pub fn new(diffs: Vec<ServiceDiff>, stream: String, topic: String, base_url: String) -> (c: Self)
        ensures
            c.diffs == diffs,
            c.stream == stream,
            c.topic == topic,
            c.base_url == base_url,
            c.hash@ == diffs_hash(diffs.deep_view()),
            c.hash@.len() == 64,
            c.valid(),
    {
        let bytes = canonical_bytes(&diffs);
        let hash = hash_bytes(&bytes);
        Confirmation { stream, topic, base_url, diffs, hash }
    }

    /// Whether the hash is that of the diffs.
    pub open spec fn valid(&self) -> bool {
        self.hash@ == diffs_hash(self.diffs.deep_view())
    }

    /// Appends the approval message to `buffer`.
    pub fn send_approval_message(&self, buffer: &mut String)
        ensures
            final(buffer)@ == old(buffer)@ + approval_text(
                self.diffs.deep_view(),
                self.hash@,
                self.base_url@,
            ),
    {
        let ghost view = self.diffs.deep_view();
        assert(buffer@ =~= old(buffer)@ + shown_upto(view, 0));
        let mut i: usize = 0;
        while i < self.diffs.len()
            invariant
                i <= self.diffs.len(),
                view == self.diffs.deep_view(),
                buffer@ == old(buffer)@ + shown_upto(view, i as nat),
            decreases self.diffs.len() - i,
        {
            assert(view[i as int] == self.diffs[i as int].deep_view());
            match &self.diffs[i] {
                ServiceDiff::GitHub { diff } => {
                    buffer.append("\n**");
                    buffer.append("GitHub");
                    buffer.append(":**\n```text\n");
                    diff.write(buffer);
                    buffer.append("```");
                },
                ServiceDiff::Discord { diff } => {
                    buffer.append("\n**");
                    buffer.append("Discord");
                    buffer.append(":**\n```text\n");
                    diff.write(buffer);
                    buffer.append("```");
                },
            }
            assert(buffer@ =~= old(buffer)@ + shown_upto(view, (i + 1) as nat));
            i += 1;
        }
        buffer.append("\n");
        buffer.append("Hash: `");
        buffer.append(self.hash.as_str());
        buffer.append("`\n");
        buffer.append("[Approve](");
        buffer.append(self.base_url.as_str());
        buffer.append("/");
        buffer.append(self.hash.as_str());
        buffer.append(") (requires authentication)\n");
        assert(buffer@ =~= old(buffer)@ + approval_text(view, self.hash@, self.base_url@));
    }

    /// Decides on the hash that was approved, if one was, and the name
    /// of the approver. The hash of the diffs at hand is compared, not one
    /// that was noted when the approval was asked for.
    pub fn run(self, approved: Option<String>, approver: Option<String>) -> (r: Result<
        Verdict,
        MissingApprover,
    >)
        ensures
            r is Err <==> approved is Some && approver is None,
            r is Ok ==> {
                let verdict = r->Ok_0;
                &&& verdict.record.state == approval_state(self.hash@, approved.deep_view())
                &&& verdict.record.diff_hash@ == self.hash@
                &&& verdict.record.approver.deep_view() == (if approved is Some {
                    approver.deep_view()
                } else {
                    None
                })
                &&& verdict.apply is Some <==> verdict.record.state == ConfirmationState::Approved
                &&& verdict.apply is Some ==> verdict.apply->Some_0 == self.diffs
                &&& verdict.message@ == verdict_text(
                    self.diffs.deep_view(),
                    self.hash@,
                    self.base_url@,
                    approved.deep_view(),
                    if approver is Some {
                        approver->Some_0@
                    } else {
                        Seq::empty()
                    },
                )
            },
    {
        match approved {
            None => {
                let mut message = String::new();
                self.send_approval_message(&mut message);
                assert(message@ =~= approval_text(
                    self.diffs.deep_view(),
                    self.hash@,
                    self.base_url@,
                ));
                Ok(
                    Verdict {
                        record: ConfirmationRecord {
                            diff_hash: self.hash,
                            state: ConfirmationState::Proposed,
                            approver: None,
                        },
                        apply: None,
                        message,
                    },
                )
            },
            Some(expected) => {
                let approver = match approver {
                    None => {
                        return Err(MissingApprover);
                    },
                    Some(approver) => approver,
                };
                if self.hash == expected {
                    let mut message = String::from_str("Applied diff `");
                    message.append(expected.as_str());
                    message.append("`\nApproved by: `");
                    message.append(approver.as_str());
                    message.append("`");
                    Ok(
                        Verdict {
                            record: ConfirmationRecord {
                                diff_hash: self.hash,
                                state: ConfirmationState::Approved,
                                approver: Some(approver),
                            },
                            apply: Some(self.diffs),
                            message,
                        },
                    )
                } else {
                    let mut message = String::from_str(
                        "\u{1F6A8} **The diff changed since the approval, please approve again!**\n\n",
                    );
                    self.send_approval_message(&mut message);
                    Ok(
                        Verdict {
                            record: ConfirmationRecord {
                                diff_hash: self.hash,
                                state: ConfirmationState::Stale,
                                approver: Some(approver),
                            },
                            apply: None,
                            message,
                        },
                    )
                }
            },
        }
    }
}

/// Confirmation correctness. An approval of the diff's own hash approves the
/// diff; an approval of any other hash makes it stale; no approval leaves it
/// proposed. The diff may be applied in the first case alone.
pub proof fn lemma_confirmation_correct(hash: Seq<char>, other: Seq<char>)
    requires
        other != hash,
    ensures
        approval_state(hash, Some(hash)) == ConfirmationState::Approved,
        approval_state(hash, Some(other)) == ConfirmationState::Stale,
        approval_state(hash, None) == ConfirmationState::Proposed,
{
}

/// A confirmation that was made with `new` approves an approval of the hash
/// of its own diffs, and holds every other approval to be stale.
pub proof fn lemma_own_hash_approves(confirmation: Confirmation, approved: Seq<char>)
    requires
        confirmation.valid(),
    ensures
        approval_state(confirmation.hash@, Some(approved)) == (if approved == diffs_hash(
            confirmation.diffs.deep_view(),
        ) {
            ConfirmationState::Approved
        } else {
            ConfirmationState::Stale
        }),
{
}

/// Purity of the hash. Diffs with the same actions in the same order, for the
/// same platforms, have the same canonical bytes and the same hash.
pub proof fn lemma_hash_pure(first: Seq<ServiceDiffView>, second: Seq<ServiceDiffView>)
    requires
        first == second,
    ensures
        services_bytes(first) == services_bytes(second),
        diffs_hash(first) == diffs_hash(second),
{
}

} // verus!
