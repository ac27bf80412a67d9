//! `yuki-tool submit` / `yuki-tool solution`: the submission id in the
//! server's answer, and the request that registers a solution.

use vstd::prelude::*;

use crate::config::{parse_i64, parse_i64_spec};
use crate::models::SolutionRequest;
use crate::text::{is_blank, trim, trim_str};

verus! {

/// What a JSON document holds under a key, as far as an id goes.
pub enum Member {
    /// The document is no object, or has no such key.
    Absent,
    /// A number: its value when it is an `i64`.
    Number(Option<i64>),
    /// A string.
    Text(String),
    /// Anything else.
    Other,
}

/// The kind of a [`Member`].
#[derive(Debug, Clone, Copy, PartialEq, Eq, Structural)]
pub enum MemberKind {
    Absent,
    Number,
    Text,
    Other,
}

/// A member as plain values: its kind, the number, the text.
pub open spec fn member_view(m: Member) -> (MemberKind, Option<i64>, Seq<char>) {
    match m {
        Member::Absent => (MemberKind::Absent, None, seq![]),
        Member::Number(n) => (MemberKind::Number, n, seq![]),
        Member::Text(s) => (MemberKind::Text, None, s@),
        Member::Other => (MemberKind::Other, None, seq![]),
    }
}

pub open spec fn opt_member_view(m: Option<Member>) -> Option<(MemberKind, Option<i64>, Seq<char>)> {
    match m {
        Some(x) => Some(member_view(x)),
        None => None,
    }
}

/// What `serde_json` finds under `key` in the JSON text `text` (`None`: the
/// text is no JSON).
pub uninterp spec fn json_member_of(text: Seq<char>, key: Seq<char>) -> Option<(MemberKind, Option<i64>, Seq<char>)>;

/// Parses `text` with `serde_json::from_str` into a `serde_json::Value` and
/// reads `Value::get(key)`: a number as `Number::as_i64`, a string as its
/// text. Only named: it depends on the text and the key alone.
#[verifier::external_body]
fn json_member(text: &str, key: &str) -> (r: Option<Member>)
    ensures
        opt_member_view(r) == json_member_of(text@, key@),
{
    let value: serde_json::Value = match serde_json::from_str(text) {
        Ok(v) => v,
        Err(_) => return None,
    };
    Some(
        match value.get(key) {
            None => Member::Absent,
            Some(serde_json::Value::Number(n)) => Member::Number(n.as_i64()),
            Some(serde_json::Value::String(s)) => Member::Text(s.clone()),
            Some(_) => Member::Other,
        },
    )
}

/// What a member says of the id: `Some(answer)` when it decides (a number
/// decides, even one that is no `i64`; a string decides when it is an
/// integer), `None` when the next key is to be read.
pub open spec fn member_id_spec(m: (MemberKind, Option<i64>, Seq<char>)) -> Option<Option<i64>> {
    if m.0 == MemberKind::Number {
        Some(m.1)
    } else if m.0 == MemberKind::Text {
        match parse_i64_spec(m.2) {
            Some(id) => Some(Some(id)),
            None => None,
        }
    } else {
        None
    }
}

/// What a member of the answer says of the submission id (see
/// [`member_id_spec`]).
pub fn member_id(m: &Member) -> (r: Option<Option<i64>>)
    ensures
        r == member_id_spec(member_view(*m)),
{
    match m {
        Member::Number(n) => Some(*n),
        Member::Text(s) => match parse_i64(s.as_str()) {
            Some(id) => Some(Some(id)),
            None => None,
        },
        _ => None,
    }
}

/// The keys an answer may carry the id under, in the order they are tried.
pub open spec fn id_keys() -> Seq<Seq<char>> {
    seq!["SubmissionId"@, "submissionId"@, "Id"@, "id"@]
}

/// The id read from the JSON answer `text` under `keys`, tried in order.
pub open spec fn id_from_keys(text: Seq<char>, keys: Seq<Seq<char>>) -> Option<i64>
    decreases keys.len(),
{
    if keys.len() == 0 {
        None
    } else {
        match json_member_of(text, keys[0]) {
            None => None,
            Some(m) => match member_id_spec(m) {
                Some(answer) => answer,
                None => id_from_keys(text, keys.drop_first()),
            },
        }
    }
}

/// The submission id in the answer of the submit API, whose format is not
/// fixed: a bare integer, or a JSON object with the id (a number or a
/// string) under one of [`id_keys`].
pub open spec fn submission_id_spec(response: Seq<char>) -> Option<i64> {
    match parse_i64_spec(response) {
        Some(id) => Some(id),
        None => id_from_keys(response, id_keys()),
    }
}

/// The submission id in the answer of the submit API (see
/// [`submission_id_spec`]).
pub fn submission_id(response: &str) -> (r: Option<i64>)
    ensures
        r == submission_id_spec(response@),
{
    if let Some(id) = parse_i64(response) {
        return Some(id);
    }
    let keys: [&str; 4] = ["SubmissionId", "submissionId", "Id", "id"];
    let ghost ks = id_keys();
    proof {
        reveal_strlit("SubmissionId");
        reveal_strlit("submissionId");
        reveal_strlit("Id");
        reveal_strlit("id");
    }
    assert(ks.subrange(0, 4) == ks);
    let mut i: usize = 0;
    while i < 4
        invariant
            i <= 4,
            keys@.len() == 4,
            forall|k: int| 0 <= k < 4 ==> #[trigger] keys@[k]@ == ks[k],
            ks == id_keys(),
            parse_i64_spec(response@) is None,
            id_from_keys(response@, ks) == id_from_keys(response@, ks.subrange(i as int, 4)),
        decreases 4 - i,
    {
        let ghost rest = ks.subrange(i as int, 4);
        assert(rest.drop_first() == ks.subrange(i + 1, 4));
        assert(rest[0] == keys@[i as int]@);
        match json_member(response, keys[i]) {
            None => {
                return None;
            },
            Some(m) => {
                if let Some(answer) = member_id(&m) {
                    return answer;
                }
            },
        }
        i = i + 1;
    }
    None
}

/// The request that registers a submission as a solution, or removes it
/// (`delete`; then no summary is sent).
pub fn solution_request(summary: Option<String>, delete: bool) -> (r: SolutionRequest)
    ensures
        r.summary == (if delete { None } else { summary }),
        r.delete == (if delete { Some(true) } else { None::<bool> }),
{
    SolutionRequest { summary: if delete { None } else { summary }, delete: if delete { Some(true) } else { None } }
}

/// What is shown once a solution is registered or removed: the server's
/// message, or else what was done.
pub fn solution_message(message: &str, delete: bool) -> (r: String)
    ensures
        r@ == (if trim(message@).len() == 0 {
            if delete {
                "想定解の登録を消しました"@
            } else {
                "想定解に登録しました"@
            }
        } else {
            trim(message@)
        }),
{
    if is_blank(message) {
        if delete {
            "想定解の登録を消しました".to_string()
        } else {
            "想定解に登録しました".to_string()
        }
    } else {
        trim_str(message)
    }
}

} // verus!
