//! Canonical snapshots: the JSON text of an entity that is written to the
//! audit trail and signed.
//!
//! A snapshot is one JSON object on one line, without spaces. It holds every
//! persisted field under its persisted name, the identifier first and the
//! timestamp last. Integers are written in decimal, amounts with a point and
//! one or two fraction digits, texts as JSON strings.

use crate::db::{Account, AccountView, DbError, Operation, OperationView, State};
use crate::text::{amount_text, digit_char, int_text, push_amount_text, push_int_text};
use vstd::prelude::*;
use vstd::string::StringExecFns;

verus! {

/// The character that stands for the hexadecimal digit `d`, in lower case.
pub open spec fn hex_digit_char(d: int) -> char {
    if d < 10 {
        digit_char(d)
    } else if d == 10 {
        'a'
    } else if d == 11 {
        'b'
    } else if d == 12 {
        'c'
    } else if d == 13 {
        'd'
    } else if d == 14 {
        'e'
    } else {
        'f'
    }
}

/// What stands for one character inside a JSON string: two characters for
/// the quote, the backslash and the five control characters with a short
/// escape, `\u00` and two hexadecimal digits for the other characters below
/// the space, and the character itself for all others.
pub open spec fn json_escaped_char(c: char) -> Seq<char> {
    if c == '"' {
        seq!['\\', '"']
    } else if c == '\\' {
        seq!['\\', '\\']
    } else if c == '\u{8}' {
        seq!['\\', 'b']
    } else if c == '\u{c}' {
        seq!['\\', 'f']
    } else if c == '\n' {
        seq!['\\', 'n']
    } else if c == '\r' {
        seq!['\\', 'r']
    } else if c == '\t' {
        seq!['\\', 't']
    } else if (c as u32) < 0x20 {
        seq![
            '\\',
            'u',
            '0',
            '0',
            hex_digit_char((c as u32) as int / 16),
            hex_digit_char((c as u32) as int % 16),
        ]
    } else {
        seq![c]
    }
}

/// The characters of a text as they stand inside a JSON string.
pub open spec fn json_escaped(text: Seq<char>) -> Seq<char>
    decreases text.len(),
{
    if text.len() == 0 {
        Seq::empty()
    } else {
        json_escaped(text.drop_last()) + json_escaped_char(text.last())
    }
}

/// The JSON string literal of a text: the text between double quotes, with
/// quotes, backslashes and control characters escaped.
pub open spec fn json_string_text(text: Seq<char>) -> Seq<char> {
    seq!['"'] + json_escaped(text) + seq!['"']
}

/// Calls `serde_json::to_string` on a string slice. Trusted: the result is
/// the JSON string literal of the text as stated above, and there always is
/// one: the text is written into a byte vector, which cannot fail.
#[verifier::external_body]
fn json_quote(text: &str) -> (r: Option<String>)
    ensures
        r is Some,
        r matches Some(quoted) ==> quoted@ == json_string_text(text@),
{
    serde_json::to_string(text).ok()
}

/// A text without quotes, backslashes and characters below the space stands
/// in a JSON string as it is.
pub proof fn lemma_plain_text_is_quoted_as_it_is(text: Seq<char>)
    requires
        forall|i: int|
            0 <= i < text.len() ==> (#[trigger] text[i]) != '"' && text[i] != '\\' && (
            text[i] as u32) >= 0x20,
    ensures
        json_string_text(text) == seq!['"'] + text + seq!['"'],
        json_escaped(text) == text,
    decreases text.len(),
{
    if text.len() > 0 {
        let shorter = text.drop_last();
        assert forall|i: int| 0 <= i < shorter.len() implies (#[trigger] shorter[i]) != '"'
            && shorter[i] != '\\' && (shorter[i] as u32) >= 0x20 by {
            assert(shorter[i] == text[i]);
        }
        lemma_plain_text_is_quoted_as_it_is(shorter);
        let c = text.last();
        assert(c == text[text.len() - 1]);
        assert(json_escaped_char(c) =~= seq![c]);
        assert(json_escaped(text) =~= text);
    } else {
        assert(json_escaped(text) =~= text);
    }
}

/// The snapshot of an account, given the JSON strings of its texts.
pub open spec fn account_frame(
    id: i64,
    name_json: Seq<char>,
    type_json: Seq<char>,
    created_at: i64,
) -> Seq<char> {
    "{\"id\":"@ + int_text(id as int) + ",\"name\":"@ + name_json + ",\"type\":"@ + type_json
        + ",\"created_at\":"@ + int_text(created_at as int) + "}"@
}

/// The snapshot of an operation, given the JSON string of its description.
pub open spec fn operation_frame(
    id: i64,
    account_id: i64,
    amount: i64,
    description_json: Seq<char>,
    ts: i64,
) -> Seq<char> {
    "{\"id\":"@ + int_text(id as int) + ",\"account_id\":"@ + int_text(account_id as int)
        + ",\"amount\":"@ + amount_text(amount as int) + ",\"description\":"@ + description_json
        + ",\"ts\":"@ + int_text(ts as int) + "}"@
}

/// The canonical snapshot of an account.
pub open spec fn account_payload(a: AccountView) -> Seq<char> {
    account_frame(a.id, json_string_text(a.name), json_string_text(a.acc_type), a.created_at)
}

/// The canonical snapshot of an operation.
pub open spec fn operation_payload(o: OperationView) -> Seq<char> {
    operation_frame(o.id, o.account_id, o.amount, json_string_text(o.description), o.ts)
}

/// The canonical snapshot of a balance snapshot.
pub open spec fn state_payload(s: State) -> Seq<char> {
    "{\"id\":"@ + int_text(s.id as int) + ",\"account_id\":"@ + int_text(s.account_id as int)
        + ",\"balance\":"@ + amount_text(s.balance as int) + ",\"ts\":"@ + int_text(s.ts as int)
        + "}"@
}

/// Writes the snapshot of an account around the JSON strings of its name and
/// type.
pub fn account_payload_text(id: i64, name_json: &str, type_json: &str, created_at: i64) -> (r:
    String)
    ensures
        r@ == account_frame(id, name_json@, type_json@, created_at),
{
    let mut out = String::from_str("{\"id\":");
    push_int_text(&mut out, id as i128);
    out.append(",\"name\":");
    out.append(name_json);
    out.append(",\"type\":");
    out.append(type_json);
    out.append(",\"created_at\":");
    push_int_text(&mut out, created_at as i128);
    out.append("}");
    assert(out@ =~= account_frame(id, name_json@, type_json@, created_at));
    out
}

/// Writes the snapshot of an operation around the JSON string of its
/// description.
pub fn operation_payload_text(
    id: i64,
    account_id: i64,
    amount: i64,
    description_json: &str,
    ts: i64,
) -> (r: String)
    ensures
        r@ == operation_frame(id, account_id, amount, description_json@, ts),
{
    let mut out = String::from_str("{\"id\":");
    push_int_text(&mut out, id as i128);
    out.append(",\"account_id\":");
    push_int_text(&mut out, account_id as i128);
    out.append(",\"amount\":");
    push_amount_text(&mut out, amount);
    out.append(",\"description\":");
    out.append(description_json);
    out.append(",\"ts\":");
    push_int_text(&mut out, ts as i128);
    out.append("}");
    assert(out@ =~= operation_frame(id, account_id, amount, description_json@, ts));
    out
}

/// Writes the snapshot of a balance snapshot.
pub fn state_payload_text(state: &State) -> (r: String)
    ensures
        r@ == state_payload(*state),
{
    let mut out = String::from_str("{\"id\":");
    push_int_text(&mut out, state.id as i128);
    out.append(",\"account_id\":");
    push_int_text(&mut out, state.account_id as i128);
    out.append(",\"balance\":");
    push_amount_text(&mut out, state.balance);
    out.append(",\"ts\":");
    push_int_text(&mut out, state.ts as i128);
    out.append("}");
    assert(out@ =~= state_payload(*state));
    out
}

/// An entity of the ledger: what the audit trail takes snapshots of.
pub trait Entity {
    /// The tag under which the audit trail files the entity.
    spec fn kind(&self) -> Seq<char>;

    /// The canonical snapshot of the entity.
    spec fn payload(&self) -> Seq<char>;

    /// The tag under which the audit trail files the entity.
    fn entity_kind(&self) -> (r: &'static str)
        ensures
            r@ == self.kind(),
    ;

    /// Writes the canonical snapshot of the entity.
    fn to_payload(&self) -> (r: Result<String, DbError>)
        ensures
            r matches Ok(text) && text@ == self.payload(),
    ;
}

impl Entity for Account {
    open spec fn kind(&self) -> Seq<char> {
        "account"@
    }

    open spec fn payload(&self) -> Seq<char> {
        account_payload(self@)
    }

    fn entity_kind(&self) -> (r: &'static str) {
        "account"
    }

    fn to_payload(&self) -> (r: Result<String, DbError>) {
        let name_json = match json_quote(self.name.as_str()) {
            Some(quoted) => quoted,
            None => {
                return Err(DbError::SerializationError);
            },
        };
        let type_json = match json_quote(self.acc_type.as_str()) {
            Some(quoted) => quoted,
            None => {
                return Err(DbError::SerializationError);
            },
        };
        Ok(account_payload_text(self.id, name_json.as_str(), type_json.as_str(), self.created_at))
    }
}

impl Entity for Operation {
    open spec fn kind(&self) -> Seq<char> {
        "operation"@
    }

    open spec fn payload(&self) -> Seq<char> {
        operation_payload(self@)
    }

    fn entity_kind(&self) -> (r: &'static str) {
        "operation"
    }

    fn to_payload(&self) -> (r: Result<String, DbError>) {
        match json_quote(self.description.as_str()) {
            Some(quoted) => Ok(
                operation_payload_text(
                    self.id,
                    self.account_id,
                    self.amount,
                    quoted.as_str(),
                    self.ts,
                ),
            ),
            None => Err(DbError::SerializationError),
        }
    }
}

impl Entity for State {
    open spec fn kind(&self) -> Seq<char> {
        "state"@
    }

    open spec fn payload(&self) -> Seq<char> {
        state_payload(*self)
    }

    fn entity_kind(&self) -> (r: &'static str) {
        "state"
    }

    fn to_payload(&self) -> (r: Result<String, DbError>) {
        Ok(state_payload_text(self))
    }
}

/// Writes the canonical snapshot of an entity, as the audit trail holds it.
pub fn serialize_entity<T: Entity>(entity: &T) -> (r: Result<String, DbError>)
    ensures
        r matches Ok(text) && text@ == entity.payload(),
{
    entity.to_payload()
}

/// The three entity tags differ from each other.
pub proof fn lemma_entity_kinds_differ()
    ensures
        "account"@ != "operation"@,
        "account"@ != "state"@,
        "operation"@ != "state"@,
{
    reveal_strlit("account");
    reveal_strlit("operation");
    reveal_strlit("state");
    assert("account"@.len() == 7);
    assert("operation"@.len() == 9);
    assert("state"@.len() == 5);
}

} // verus!
