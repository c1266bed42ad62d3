//! Data records: a user, the sealed value, and the reference id of the
//! wrapped data key under which the value was sealed.

use random::Source;
use vstd::prelude::*;
use vstd::utf8::{decode_utf8, valid_utf8};

use crate::cipher::{sealed_value, CipherHandle};
use crate::error::EnvelopeError;

verus! {

/// One record as it is stored.
#[derive(Clone, Debug)]
pub struct DataRecord {
    /// Whose value this is.
    pub user_name: String,
    /// The sealed value.
    pub token: String,
    /// The reference id of the wrapped data key in the key store.
    pub data_key_id: i64,
}

/// One record as it is read back: joined with the wrapped data key that
/// its reference id points at.
#[derive(Clone, Debug)]
pub struct Row {
    /// Whose value this is.
    pub user_name: String,
    /// The sealed value.
    pub token: String,
    /// The wrapped data key under which the value was sealed.
    pub wrapped_key: Vec<u8>,
}

/// The size of a signed number.
pub open spec fn magnitude_of(raw: i32) -> int {
    if raw < 0 {
        -raw
    } else {
        raw as int
    }
}

/// The size of a signed number, as the unsigned value that is sealed.
pub fn magnitude(raw: i32) -> (v: u32)
    ensures
        v == magnitude_of(raw),
{
    if raw < 0 {
        (-(raw as i64)) as u32
    } else {
        raw as u32
    }
}

/// Seals a value for a user under a cipher, beside the reference id of the
/// wrapped data key that the cipher was made from.
pub fn seal_record(cipher: &CipherHandle, user_name: &str, value: u32, data_key_id: i64) -> (record:
    DataRecord)
    ensures
        record.user_name@ == user_name@,
        record.data_key_id == data_key_id,
        sealed_value(cipher@, record.token@) == Ok::<u32, EnvelopeError>(value),
{
    DataRecord { user_name: user_name.to_owned(), token: cipher.encrypt(value), data_key_id }
}

/// Whether a record is written for a user: only where the store counts no
/// record of that user yet.
pub fn should_store(existing_records: i64) -> (r: bool)
    ensures
        r == (existing_records == 0),
{
    existing_records == 0
}

/// `String::from_utf8`: the text of the bytes where they are valid UTF-8,
/// nothing where they are not.
#[verifier::external_body]
fn text_of_bytes(bytes: Vec<u8>) -> (r: Option<String>)
    ensures
        r is Some <==> valid_utf8(bytes@),
        r matches Some(text) ==> text@ == decode_utf8(bytes@),
{
    String::from_utf8(bytes).ok()
}

/// Makes a row of the columns that the join yields: the user name, the
/// stored bytes of the token, and the wrapped data key.  Bytes that are no
/// text are refused.
pub fn row_from_columns(user_name: String, sensitive_data: Vec<u8>, data_key: Vec<u8>) -> (r: Result<
    Row,
    EnvelopeError,
>)
    ensures
        match r {
            Ok(row) => {
                &&& valid_utf8(sensitive_data@)
                &&& row.user_name@ == user_name@
                &&& row.token@ == decode_utf8(sensitive_data@)
                &&& row.wrapped_key@ == data_key@
            },
            Err(e) => e == EnvelopeError::TokenNotText && !valid_utf8(sensitive_data@),
        },
{
    match text_of_bytes(sensitive_data) {
        Some(token) => Ok(Row { user_name, token, wrapped_key: data_key }),
        None => Err(EnvelopeError::TokenNotText),
    }
}

/// `random::Default`, the default source of numbers of the `random`
/// crate, taken as it is: nothing is known of what a value holds.
#[verifier::external_type_specification]
#[verifier::external_body]
pub struct ExDefaultSource(random::Default);

/// `random::default`: a handle on the source of the running thread.
#[verifier::external_body]
fn thread_source() -> (source: random::Default) {
    random::default()
}

/// `Default::seed`: the same source, started anew from the seed.  A seed
/// without a bit set is a panic in a debug build, which `requires` rules
/// out.
#[verifier::external_body]
fn reseeded(source: random::Default, first: u64, second: u64) -> (seeded: random::Default)
    requires
        first != 0 || second != 0,
{
    source.seed([first, second])
}

/// `Source::read` for `i32`: the next number of the source.  Any number
/// may come.
#[verifier::external_body]
fn next_number(source: &mut random::Default) -> (raw: i32) {
    source.read::<i32>()
}

/// The largest sample value: the size of the smallest `i32`.
pub const MAX_SAMPLE: u32 = 0x8000_0000;

/// A seeded source of sample values.  The numbers come from the source of
/// the running thread: two of these in one thread draw from one sequence,
/// and seeding one starts that sequence anew.
pub struct SampleSource {
    source: random::Default,
}

impl SampleSource {
    /// Starts the source of the thread anew from a seed.  A seed needs a
    /// bit set: two zeros give no source.
    pub fn seeded(first: u64, second: u64) -> (r: Option<SampleSource>)
        ensures
            r is Some <==> first != 0 || second != 0,
    {
        if first == 0 && second == 0 {
            None
        } else {
            Some(SampleSource { source: reseeded(thread_source(), first, second) })
        }
    }

    /// The next sample value: the size of the next number of the source.
    pub fn next_value(&mut self) -> (value: u32)
        ensures
            value <= MAX_SAMPLE,
    {
        magnitude(next_number(&mut self.source))
    }
}

/// Whether a record is a sample for a user: it bears the user's name and
/// the reference id, and its token holds a sample value under the key.
pub open spec fn is_sample(
    record: DataRecord,
    key: Seq<char>,
    user_name: Seq<char>,
    data_key_id: i64,
) -> bool {
    &&& record.user_name@ == user_name
    &&& record.data_key_id == data_key_id
    &&& exists|value: u32|
        value <= MAX_SAMPLE && #[trigger] sealed_value(key, record.token@) == Ok::<
            u32,
            EnvelopeError,
        >(value)
}

/// Seals one sample value for each user, in the order of the names: each
/// record holds the next value of the source under the cipher, beside the
/// reference id of the wrapped data key.
pub fn seal_samples(
    cipher: &CipherHandle,
    user_names: &Vec<String>,
    data_key_id: i64,
    source: &mut SampleSource,
) -> (records: Vec<DataRecord>)
    ensures
        records@.len() == user_names@.len(),
        forall|i: int|
            0 <= i < records@.len() ==> is_sample(
                #[trigger] records@[i],
                cipher@,
                user_names@[i]@,
                data_key_id,
            ),
{
    let mut records: Vec<DataRecord> = Vec::new();
    let mut i: usize = 0;
    while i < user_names.len()
        invariant
            i <= user_names.len(),
            records@.len() == i,
            forall|k: int|
                0 <= k < i ==> is_sample(
                    #[trigger] records@[k],
                    cipher@,
                    user_names@[k]@,
                    data_key_id,
                ),
        decreases user_names.len() - i,
    {
        let value: u32 = source.next_value();
        let record = seal_record(cipher, user_names[i].as_str(), value, data_key_id);
        records.push(record);
        i += 1;
    }
    records
}

} // verus!
