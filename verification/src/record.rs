//! The update record: its fields, their stored form, and the parsing of a
//! stored record back into an `Update`.
//!
//! A record is persisted as a list of `(field, value)` string pairs under a
//! key `spiralbot:updates:<unique-id>`; `user_id` and `time` are stored as
//! decimal strings, the message verbatim.

use vstd::prelude::*;
use vstd::string::StrSliceExecFns;
use vstd::string::StringExecFns;

use crate::codec::dec_digits;
use crate::codec::dec_val;
use crate::codec::is_dec_seq;
use crate::codec::lemma_dec_round_trip;
use crate::codec::parse_u64;
use crate::codec::u64_to_dec;

verus! {

/// A single user-authored, timestamped text entry.
#[derive(Debug, Clone)]
pub struct Update {
    pub user_id: u64,
    pub message: String,
    pub time: u64,
}

/// The mathematical content of an `Update`.
pub struct UpdateView {
    pub user_id: u64,
    pub message: Seq<char>,
    pub time: u64,
}

impl View for Update {
    type V = UpdateView;

    open spec fn view(&self) -> UpdateView {
        UpdateView { user_id: self.user_id, message: self.message@, time: self.time }
    }
}

impl Update {
    /// Builds an update with the given author and message. The time field
    /// is a placeholder: the store assigns the real write time itself.
    pub fn new(user_id: u64, message: String) -> (r: Self)
        ensures
            r.user_id == user_id,
            r.message@ == message@,
            r.time == 0,
    {
        Update { user_id, message, time: 0 }
    }
}

/// A failure of a store operation: a command against the backing store
/// failed mid-flight, or a stored record could not be read back as an
/// `Update`. The payload names the operation or the offending key or
/// field. Failures to reach the backing store at all arise only in the
/// connection layer around the store and carry that layer's own error.
#[derive(Debug, Clone, PartialEq, Eq)]
pub enum StoreError {
    Command(String),
    Deserialization(String),
}

/// Compares two strings by their character content.
pub fn str_eq(a: &str, b: &str) -> (r: bool)
    ensures
        r == (a@ == b@),
{
    let na = a.unicode_len();
    let nb = b.unicode_len();
    if na != nb {
        return false;
    }
    let mut i: usize = 0;
    while i < na
        invariant
            0 <= i <= na,
            na == a@.len(),
            na == b@.len(),
            forall|j: int| 0 <= j < i ==> a@[j] == b@[j],
        decreases na - i,
    {
        if a.get_char(i) != b.get_char(i) {
            return false;
        }
        i += 1;
    }
    proof {
        assert(a@ =~= b@);
    }
    true
}

/// The character view of a list of string pairs.
pub open spec fn fields_view(v: Seq<(String, String)>) -> Seq<(Seq<char>, Seq<char>)> {
    v.map(|i: int, p: (String, String)| (p.0@, p.1@))
}

/// The stored form of a record: three named fields, the numeric ones as
/// decimal strings.
pub open spec fn record_fields_model(user_id: u64, message: Seq<char>, time: u64) -> Seq<
    (Seq<char>, Seq<char>),
> {
    seq![
        ("user_id"@, dec_digits(user_id as nat)),
        ("message"@, message),
        ("time"@, dec_digits(time as nat)),
    ]
}

/// Builds the field/value pairs written for one record.
pub fn record_fields(user_id: u64, message: &str, time: u64) -> (r: Vec<(String, String)>)
    ensures
        fields_view(r@) == record_fields_model(user_id, message@, time),
{
    let mut v: Vec<(String, String)> = Vec::new();
    v.push(("user_id".to_owned(), u64_to_dec(user_id)));
    v.push(("message".to_owned(), message.to_owned()));
    v.push(("time".to_owned(), u64_to_dec(time)));
    proof {
        assert(fields_view(v@) =~~= record_fields_model(user_id, message@, time));
    }
    v
}

/// The value of the first field with the given name, if any.
pub open spec fn lookup_field(fields: Seq<(Seq<char>, Seq<char>)>, name: Seq<char>) -> Option<
    Seq<char>,
>
    decreases fields.len(),
{
    if fields.len() == 0 {
        None
    } else if fields[0].0 == name {
        Some(fields[0].1)
    } else {
        lookup_field(fields.skip(1), name)
    }
}

/// Finds the first field with the given name.
fn find_field<'a>(fields: &'a Vec<(String, String)>, name: &str) -> (r: Option<&'a String>)
    ensures
        match r {
            Some(v) => lookup_field(fields_view(fields@), name@) == Some(v@),
            None => lookup_field(fields_view(fields@), name@) is None,
        },
{
    let ghost fv = fields_view(fields@);
    proof {
        assert(fv.skip(0) =~= fv);
    }
    let mut i: usize = 0;
    while i < fields.len()
        invariant
            0 <= i <= fields.len(),
            fv == fields_view(fields@),
            fv.len() == fields.len(),
            lookup_field(fv, name@) == lookup_field(fv.skip(i as int), name@),
        decreases fields.len() - i,
    {
        proof {
            assert(fv.skip(i as int)[0] == fv[i as int]);
            assert(fv.skip(i as int).skip(1) =~= fv.skip(i + 1));
        }
        if str_eq(fields[i].0.as_str(), name) {
            return Some(&fields[i].1);
        }
        i += 1;
    }
    proof {
        assert(fv.skip(i as int) =~= Seq::<(Seq<char>, Seq<char>)>::empty());
    }
    None
}

/// Whether a stored field value is a decimal number that fits in 64 bits.
pub open spec fn is_u64_dec(s: Seq<char>) -> bool {
    is_dec_seq(s) && dec_val(s) <= u64::MAX
}

/// The update recovered from a stored field list, or nothing when a field
/// is missing or a numeric field does not parse.
pub open spec fn parse_record_spec(fields: Seq<(Seq<char>, Seq<char>)>) -> Option<UpdateView> {
    let uid = lookup_field(fields, "user_id"@);
    let msg = lookup_field(fields, "message"@);
    let t = lookup_field(fields, "time"@);
    if uid is Some && is_u64_dec(uid->0) && msg is Some && t is Some && is_u64_dec(t->0) {
        Some(
            UpdateView {
                user_id: dec_val(uid->0) as u64,
                message: msg->0,
                time: dec_val(t->0) as u64,
            },
        )
    } else {
        None
    }
}

/// The name of the first field that makes a record unreadable.
pub open spec fn parse_record_bad_field(fields: Seq<(Seq<char>, Seq<char>)>) -> Seq<char> {
    let uid = lookup_field(fields, "user_id"@);
    let msg = lookup_field(fields, "message"@);
    if !(uid is Some && is_u64_dec(uid->0)) {
        "user_id"@
    } else if msg is None {
        "message"@
    } else {
        "time"@
    }
}

/// Reconstructs an `Update` from the stored field/value pairs of one
/// record; fails exactly when a field is missing or a numeric field is not
/// a 64-bit decimal, naming the offending field.
pub fn parse_record(fields: &Vec<(String, String)>) -> (r: Result<Update, StoreError>)
    ensures
        r is Ok <==> parse_record_spec(fields_view(fields@)) is Some,
        r is Ok ==> r->Ok_0@ == parse_record_spec(fields_view(fields@))->0,
        r is Err ==> (r->Err_0 matches StoreError::Deserialization(f) && f@ == parse_record_bad_field(
            fields_view(fields@),
        )),
{
    let uid_s = match find_field(fields, "user_id") {
        Some(v) => v,
        None => {
            return Err(StoreError::Deserialization("user_id".to_owned()));
        },
    };
    let user_id = match parse_u64(uid_s.as_str()) {
        Some(n) => n,
        None => {
            return Err(StoreError::Deserialization("user_id".to_owned()));
        },
    };
    let msg_s = match find_field(fields, "message") {
        Some(v) => v,
        None => {
            return Err(StoreError::Deserialization("message".to_owned()));
        },
    };
    let t_s = match find_field(fields, "time") {
        Some(v) => v,
        None => {
            return Err(StoreError::Deserialization("time".to_owned()));
        },
    };
    let time = match parse_u64(t_s.as_str()) {
        Some(n) => n,
        None => {
            return Err(StoreError::Deserialization("time".to_owned()));
        },
    };
    Ok(Update { user_id, message: msg_s.clone(), time })
}

/// The namespace under which records are keyed.
pub fn updates_namespace() -> (r: &'static str)
    ensures
        r@ == "spiralbot:updates"@,
{
    "spiralbot:updates"
}

/// The name of the chronological index in the backing store.
pub fn sorted_updates_name() -> (r: &'static str)
    ensures
        r@ == "spiralbot:sorted_updates"@,
{
    "spiralbot:sorted_updates"
}

/// The prefix of every record key: the namespace and a separating colon.
pub open spec fn record_key_prefix() -> Seq<char> {
    "spiralbot:updates:"@
}

/// A record key: the namespace prefix followed by a 36-character unique id.
pub open spec fn is_record_key(s: Seq<char>) -> bool {
    s.len() == record_key_prefix().len() + 36 && s.take(record_key_prefix().len() as int)
        == record_key_prefix()
}

/// Relies on `uuid::Uuid::new_v4` and its hyphenated display form: a fresh
/// random 128-bit identifier rendered as 36 characters. The value is
/// random; nothing more is promised of it.
#[verifier::external_body]
fn fresh_uuid_string() -> (r: String)
    ensures
        r@.len() == 36,
{
    uuid::Uuid::new_v4().to_string()
}

/// Builds a fresh record key: the namespace, a colon, and a new unique id.
pub fn fresh_record_key() -> (r: String)
    ensures
        is_record_key(r@),
{
    let mut s: String = "spiralbot:updates:".to_owned();
    let id = fresh_uuid_string();
    s.append(id.as_str());
    proof {
        reveal_strlit("spiralbot:updates:");
        assert(s@.take(record_key_prefix().len() as int) =~= record_key_prefix());
    }
    s
}

/// Everything `append` writes for one update: the fresh record key, the
/// record's field/value pairs, and the write time, which is both the
/// `time` field and the score of the index entry (whose member is the key).
pub struct AppendPlan {
    pub key: String,
    pub fields: Vec<(String, String)>,
    pub time: u64,
}

/// Chooses a fresh id and reads the current wall-clock second, then lays
/// out the two writes of `append`: the record under its key, and the index
/// entry for the same key scored by the same time.
pub fn plan_append(user_id: u64, message: &str) -> (p: AppendPlan)
    ensures
        is_record_key(p.key@),
        fields_view(p.fields@) == record_fields_model(user_id, message@, p.time),
{
    let key = fresh_record_key();
    let time = crate::common::get_time();
    let fields = record_fields(user_id, message, time);
    AppendPlan { key, fields, time }
}

/// Writing a record and reading it back yields the same update: the stored
/// field form loses nothing.
pub proof fn lemma_record_round_trip(user_id: u64, message: Seq<char>, time: u64)
    ensures
        parse_record_spec(record_fields_model(user_id, message, time)) == Some(
            UpdateView { user_id, message, time },
        ),
{
    reveal_strlit("user_id");
    reveal_strlit("message");
    reveal_strlit("time");
    reveal_with_fuel(lookup_field, 4);
    let fields = record_fields_model(user_id, message, time);
    assert("user_id"@.len() == 7);
    assert("message"@.len() == 7);
    assert("time"@.len() == 4);
    assert("user_id"@[0] == 'u');
    assert("message"@[0] == 'm');
    assert("user_id"@ != "message"@);
    assert("user_id"@ != "time"@);
    assert("message"@ != "time"@);
    assert(fields.skip(1) =~= seq![("message"@, message), ("time"@, dec_digits(time as nat))]);
    assert(fields.skip(1).skip(1) =~= seq![("time"@, dec_digits(time as nat))]);
    assert(lookup_field(fields, "user_id"@) == Some(dec_digits(user_id as nat)));
    assert(lookup_field(fields, "message"@) == Some(message));
    assert(lookup_field(fields, "time"@) == Some(dec_digits(time as nat)));
    lemma_dec_round_trip(user_id as nat);
    lemma_dec_round_trip(time as nat);
}

} // verus!
