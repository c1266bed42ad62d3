//! The batch pipeline: which rows cost a call to the key service, and the
//! sum of the values that the rows hold.
//!
//! Rows are taken in the order in which the store yields them.  The caller
//! asks [`unwrap_schedule`] which rows need their data key unwrapped, has
//! the key service unwrap those, and hands the answers, in that order, to
//! [`sum_all_sensitive_values`].  What a batch comes to, given what the
//! cipher handed out for each row, is [`batch_result`]; [`sum_opened`]
//! computes it.

use vstd::prelude::*;
use vstd::slice::slice_to_vec;
use vstd::seq_lib::{
    seq_to_set_is_finite, to_multiset_build, to_multiset_contains, to_multiset_len,
    to_multiset_remove,
};

use crate::cache::{digest, material_usable, metro_hash64, CacheState, KeyCache};
use crate::cipher::{
    fernet_key_accepted, fernet_plaintext, key_text_of, read_opened, sealed_value,
    value_of_opened, CipherHandle, KEY_LEN,
};
use crate::error::EnvelopeError;
use crate::records::Row;

verus! {

/// What a batch came to: every value in row order, and their sum.
#[derive(Clone, Debug)]
pub struct Aggregate {
    /// The sum of the values.
    pub total: i64,
    /// The value of each row, in row order.
    pub values: Vec<u32>,
}

/// The wrapped keys of the rows, in row order.
pub open spec fn blobs_of(rows: Seq<Row>) -> Seq<Seq<u8>> {
    Seq::new(rows.len(), |i: int| rows[i].wrapped_key@)
}

/// Whether row `i` misses the cache: it is the first row, or the digest of
/// its wrapped key differs from that of the row before.
pub open spec fn misses_at(blobs: Seq<Seq<u8>>, i: int) -> bool
    recommends
        0 <= i < blobs.len(),
{
    i == 0 || metro_hash64(blobs[i]) != metro_hash64(blobs[i - 1])
}

/// The rows that miss the cache, in row order.
pub open spec fn miss_indices(blobs: Seq<Seq<u8>>) -> Seq<usize>
    decreases blobs.len(),
{
    if blobs.len() == 0 {
        Seq::empty()
    } else if misses_at(blobs, blobs.len() - 1) {
        miss_indices(blobs.drop_last()).push((blobs.len() - 1) as usize)
    } else {
        miss_indices(blobs.drop_last())
    }
}

/// The number of calls to the key service that a batch costs.
pub open spec fn unwrap_calls(blobs: Seq<Seq<u8>>) -> nat {
    miss_indices(blobs).len()
}

/// The arithmetic sum of the values.
pub open spec fn seq_sum(values: Seq<u32>) -> int
    decreases values.len(),
{
    if values.len() == 0 {
        0
    } else {
        seq_sum(values.drop_last()) + values.last()
    }
}

/// The cache after the first `n` rows went through it: empty before the
/// first row, else the slot of the latest miss.
pub open spec fn cache_after(blobs: Seq<Seq<u8>>, unwrapped: Seq<Seq<u8>>, n: int) -> CacheState
    recommends
        0 <= n <= blobs.len(),
{
    if n == 0 {
        CacheState::empty()
    } else {
        CacheState {
            digest: metro_hash64(blobs[n - 1]),
            key: Some(key_in_force(blobs, unwrapped, n - 1)),
        }
    }
}

/// The key text under which row `i` is opened: that of the material
/// unwrapped at the latest miss up to row `i`.
pub open spec fn key_in_force(blobs: Seq<Seq<u8>>, unwrapped: Seq<Seq<u8>>, i: int) -> Seq<char>
    recommends
        0 <= i < blobs.len(),
{
    key_text_of(unwrapped[unwrap_calls(blobs.take(i + 1)) - 1])
}

/// The value of row `i`, as far as the cipher defines one.
pub open spec fn row_value(rows: Seq<Row>, unwrapped: Seq<Seq<u8>>, i: int) -> Result<
    u32,
    EnvelopeError,
>
    recommends
        0 <= i < rows.len(),
{
    sealed_value(key_in_force(blobs_of(rows), unwrapped, i), rows[i].token@)
}

/// One more row adds one call exactly when it misses.
pub proof fn lemma_unwrap_calls_step(blobs: Seq<Seq<u8>>, n: int)
    requires
        0 <= n < blobs.len(),
    ensures
        miss_indices(blobs.take(n + 1)) == if misses_at(blobs, n) {
            miss_indices(blobs.take(n)).push(n as usize)
        } else {
            miss_indices(blobs.take(n))
        },
        unwrap_calls(blobs.take(n + 1)) == unwrap_calls(blobs.take(n)) + if misses_at(blobs, n) {
            1nat
        } else {
            0nat
        },
        unwrap_calls(blobs.take(n + 1)) >= 1,
    decreases n,
{
    let longer = blobs.take(n + 1);
    assert(longer.drop_last() =~= blobs.take(n));
    if n > 0 {
        lemma_unwrap_calls_step(blobs, n - 1);
    }
}

/// The rows for which the key service has to unwrap the data key, in row
/// order: the first row, and every row whose wrapped key has another digest
/// than that of the row before it.
pub fn unwrap_schedule(rows: &Vec<Row>) -> (schedule: Vec<usize>)
    ensures
        schedule@ == miss_indices(blobs_of(rows@)),
        schedule@.len() == unwrap_calls(blobs_of(rows@)),
{
    let ghost blobs = blobs_of(rows@);
    let mut schedule: Vec<usize> = Vec::new();
    let mut last: u64 = 0;
    let mut i: usize = 0;
    while i < rows.len()
        invariant
            i <= rows.len(),
            blobs == blobs_of(rows@),
            schedule@ == miss_indices(blobs.take(i as int)),
            i > 0 ==> last == metro_hash64(blobs[i - 1]),
        decreases rows.len() - i,
    {
        let d: u64 = digest(rows[i].wrapped_key.as_slice());
        proof {
            lemma_unwrap_calls_step(blobs, i as int);
        }
        if i == 0 || d != last {
            schedule.push(i);
        }
        last = d;
        i += 1;
    }
    assert(blobs.take(rows.len() as int) =~= blobs);
    schedule
}

/// The key materials as plain byte sequences, in order.
pub open spec fn materials_of(unwrapped: Seq<Vec<u8>>) -> Seq<Seq<u8>> {
    Seq::new(unwrapped.len(), |j: int| unwrapped[j]@)
}

/// Whether `values` are the values of the first rows of a batch, one for
/// one.
pub open spec fn values_of_rows(rows: Seq<Row>, unwrapped: Seq<Seq<u8>>, values: Seq<u32>) -> bool {
    &&& values.len() <= rows.len()
    &&& forall|k: int|
        0 <= k < values.len() ==> #[trigger] row_value(rows, unwrapped, k) == Ok::<
            u32,
            EnvelopeError,
        >(values[k])
}

/// A batch costs at most one call per row.
pub proof fn lemma_unwrap_calls_bound(blobs: Seq<Seq<u8>>)
    ensures
        unwrap_calls(blobs) <= blobs.len(),
    decreases blobs.len(),
{
    if blobs.len() > 0 {
        lemma_unwrap_calls_bound(blobs.drop_last());
    }
}

/// Adds one value to a running sum, in 64 bits.
pub fn accumulate(total: i64, value: u32) -> (r: Result<i64, EnvelopeError>)
    ensures
        r == (if total + value <= i64::MAX {
            Ok::<i64, EnvelopeError>((total + value) as i64)
        } else {
            Err::<i64, EnvelopeError>(EnvelopeError::SumOverflow)
        }),
{
    if total > i64::MAX - (value as i64) {
        Err(EnvelopeError::SumOverflow)
    } else {
        Ok(total + value as i64)
    }
}

/// What the cipher handed out for each row, as plain values.
pub open spec fn plaintexts_of(opened: Seq<Option<Vec<u8>>>) -> Seq<Option<Seq<u8>>> {
    Seq::new(
        opened.len(),
        |i: int|
            match opened[i] {
                Some(plain) => Some(plain@),
                None => None,
            },
    )
}

/// What the cipher handed out for row `i`; nothing for a row beyond the
/// end of the list.
pub open spec fn opened_at(opened: Seq<Option<Seq<u8>>>, i: int) -> Option<Seq<u8>> {
    if 0 <= i < opened.len() {
        opened[i]
    } else {
        None
    }
}

/// The error that key material gives when it makes no cipher.
pub open spec fn material_error(material: Seq<u8>) -> EnvelopeError {
    if material.len() < KEY_LEN {
        EnvelopeError::KeyMaterialTooShort
    } else {
        EnvelopeError::KeyRejected
    }
}

/// What row `i` comes to, the rows before it having come to `sum_before`.
/// A row that misses needs the next key material, and material that makes
/// a cipher; then the row is read from what the cipher handed out; then it
/// is added.  The first of these that fails is the row's error.
pub open spec fn row_result(
    blobs: Seq<Seq<u8>>,
    unwrapped: Seq<Seq<u8>>,
    opened: Seq<Option<Seq<u8>>>,
    i: int,
    sum_before: int,
) -> Result<u32, EnvelopeError> {
    let used = unwrap_calls(blobs.take(i)) as int;
    if misses_at(blobs, i) && used >= unwrapped.len() {
        Err(EnvelopeError::NoCipher)
    } else if misses_at(blobs, i) && !material_usable(unwrapped[used]) {
        Err(material_error(unwrapped[used]))
    } else {
        match value_of_opened(opened_at(opened, i)) {
            Ok(value) => if sum_before + value > i64::MAX {
                Err(EnvelopeError::SumOverflow)
            } else {
                Ok(value)
            },
            Err(e) => Err(e),
        }
    }
}

/// What the first `n` rows come to, taken in order: their values, or the
/// error of the first row that fails.
pub open spec fn batch_prefix(
    blobs: Seq<Seq<u8>>,
    unwrapped: Seq<Seq<u8>>,
    opened: Seq<Option<Seq<u8>>>,
    n: int,
) -> Result<Seq<u32>, EnvelopeError>
    decreases n,
{
    if n <= 0 {
        Ok(Seq::empty())
    } else {
        match batch_prefix(blobs, unwrapped, opened, n - 1) {
            Ok(values) => match row_result(blobs, unwrapped, opened, n - 1, seq_sum(values)) {
                Ok(value) => Ok(values.push(value)),
                Err(e) => Err(e),
            },
            Err(e) => Err(e),
        }
    }
}

/// What a batch comes to: the value of every row, or the error of the
/// first row that fails.
pub open spec fn batch_result(
    blobs: Seq<Seq<u8>>,
    unwrapped: Seq<Seq<u8>>,
    opened: Seq<Option<Seq<u8>>>,
) -> Result<Seq<u32>, EnvelopeError> {
    batch_prefix(blobs, unwrapped, opened, blobs.len() as int)
}

/// Whether `r` is the aggregate of the values, or the error, that a batch
/// comes to.
pub open spec fn is_outcome(
    r: Result<Aggregate, EnvelopeError>,
    expected: Result<Seq<u32>, EnvelopeError>,
) -> bool {
    match expected {
        Ok(values) => r matches Ok(sum) && sum.values@ == values && sum.total == seq_sum(values),
        Err(e) => r matches Err(f) && f == e,
    }
}

/// Whether `opened` is what the cipher may hand out for the first rows of
/// a batch: each plaintext in it is that of the row's token under the key
/// in force at the row.
pub open spec fn holds_plaintexts(
    rows: Seq<Row>,
    unwrapped: Seq<Seq<u8>>,
    opened: Seq<Option<Seq<u8>>>,
) -> bool {
    &&& opened.len() <= rows.len()
    &&& forall|k: int|
        0 <= k < opened.len() ==> ((#[trigger] opened[k]) matches Some(plain) ==> fernet_plaintext(
            key_in_force(blobs_of(rows), unwrapped, k),
            rows[k].token@,
        ) == Some(plain))
}

/// Once a row has failed, its error is the error of every longer prefix.
pub proof fn lemma_first_error_stands(
    blobs: Seq<Seq<u8>>,
    unwrapped: Seq<Seq<u8>>,
    opened: Seq<Option<Seq<u8>>>,
    n: int,
    m: int,
)
    requires
        0 <= n <= m,
        batch_prefix(blobs, unwrapped, opened, n) is Err,
    ensures
        batch_prefix(blobs, unwrapped, opened, m) == batch_prefix(blobs, unwrapped, opened, n),
    decreases m - n,
{
    if n < m {
        lemma_first_error_stands(blobs, unwrapped, opened, n, m - 1);
    }
}

/// Where the first `n` rows come to values, there is one value for each
/// row, read from what the cipher handed out for it; the key material of
/// every miss was there and made a cipher; and the sum fits 64 bits.
pub proof fn lemma_values_of_prefix(
    blobs: Seq<Seq<u8>>,
    unwrapped: Seq<Seq<u8>>,
    opened: Seq<Option<Seq<u8>>>,
    n: int,
)
    requires
        0 <= n <= blobs.len(),
        batch_prefix(blobs, unwrapped, opened, n) is Ok,
    ensures
        ({
            let values = batch_prefix(blobs, unwrapped, opened, n)->Ok_0;
            &&& values.len() == n
            &&& forall|k: int|
                0 <= k < n ==> value_of_opened(opened_at(opened, k)) == Ok::<u32, EnvelopeError>(
                    #[trigger] values[k],
                )
            &&& unwrap_calls(blobs.take(n)) <= unwrapped.len()
            &&& forall|j: int|
                0 <= j < unwrap_calls(blobs.take(n)) ==> material_usable(#[trigger] unwrapped[j])
            &&& seq_sum(values) <= i64::MAX
        }),
    decreases n,
{
    if n > 0 {
        lemma_values_of_prefix(blobs, unwrapped, opened, n - 1);
        lemma_unwrap_calls_step(blobs, n - 1);
        let before = batch_prefix(blobs, unwrapped, opened, n - 1)->Ok_0;
        let values = batch_prefix(blobs, unwrapped, opened, n)->Ok_0;
        assert(values.drop_last() =~= before);
    }
}

/// A sum of 32-bit values is at most their number times the largest of
/// them.
pub proof fn lemma_seq_sum_bound(values: Seq<u32>)
    ensures
        0 <= seq_sum(values) <= values.len() * 0xFFFF_FFFF,
    decreases values.len(),
{
    if values.len() > 0 {
        lemma_seq_sum_bound(values.drop_last());
    }
}

/// What stands behind the error of a batch.  Key material is at fault
/// only where the schedule reaches it; a refused row or a plaintext of
/// another length is one of the rows taken; and the sum leaves 64 bits
/// only beyond two thousand million rows.
pub proof fn lemma_error_of_a_batch(
    blobs: Seq<Seq<u8>>,
    unwrapped: Seq<Seq<u8>>,
    opened: Seq<Option<Seq<u8>>>,
    n: int,
)
    requires
        0 <= n <= blobs.len(),
        batch_prefix(blobs, unwrapped, opened, n) is Err,
    ensures
        match batch_prefix(blobs, unwrapped, opened, n)->Err_0 {
            EnvelopeError::NoCipher => unwrapped.len() < unwrap_calls(blobs.take(n)),
            EnvelopeError::KeyMaterialTooShort => exists|j: int|
                0 <= j < unwrap_calls(blobs.take(n)) && j < unwrapped.len() && (
                #[trigger] unwrapped[j]).len() < KEY_LEN,
            EnvelopeError::KeyRejected => exists|j: int|
                0 <= j < unwrap_calls(blobs.take(n)) && j < unwrapped.len() && (
                #[trigger] unwrapped[j]).len() >= KEY_LEN && !fernet_key_accepted(
                    key_text_of(unwrapped[j]),
                ),
            EnvelopeError::Decryption => exists|i: int|
                0 <= i < n && (#[trigger] opened_at(opened, i)) is None,
            EnvelopeError::PlaintextLength => exists|i: int|
                0 <= i < n && ((#[trigger] opened_at(opened, i)) matches Some(plain)
                    && plain.len() != 4),
            EnvelopeError::SumOverflow => n > 0x8000_0000,
            _ => false,
        },
    decreases n,
{
    let e = batch_prefix(blobs, unwrapped, opened, n)->Err_0;
    lemma_unwrap_calls_step(blobs, n - 1);
    let calls = unwrap_calls(blobs.take(n)) as int;
    let before = batch_prefix(blobs, unwrapped, opened, n - 1);
    if before is Err {
        lemma_error_of_a_batch(blobs, unwrapped, opened, n - 1);
    } else {
        let values = before->Ok_0;
        lemma_values_of_prefix(blobs, unwrapped, opened, n - 1);
        lemma_seq_sum_bound(values);
        let used = unwrap_calls(blobs.take(n - 1)) as int;
        if misses_at(blobs, n - 1) && used < unwrapped.len() && !material_usable(unwrapped[used]) {
            // The material at fault is that of this row's miss.
            assert(used < calls && e == material_error(unwrapped[used]));
        } else if e == EnvelopeError::Decryption || e == EnvelopeError::PlaintextLength {
            // The row at fault is this one.
            assert(value_of_opened(opened_at(opened, n - 1)) is Err);
        }
    }
}

/// Adds up a batch from what the cipher handed out for each row.
///
/// `unwrapped` holds the key material of the rows of [`unwrap_schedule`],
/// in that order, and `opened` what the cipher handed out for each row,
/// in row order; a row beyond the end of `opened` counts as refused.  The
/// rows are taken in order and the first failure ends the batch: a miss
/// without key material, key material that makes no cipher, a row that
/// the cipher refused, a plaintext that is not four bytes, a sum beyond
/// 64 bits.
pub fn sum_opened(rows: &Vec<Row>, unwrapped: &Vec<Vec<u8>>, opened: &Vec<Option<Vec<u8>>>) -> (r:
    Result<Aggregate, EnvelopeError>)
    ensures
        is_outcome(
            r,
            batch_result(blobs_of(rows@), materials_of(unwrapped@), plaintexts_of(opened@)),
        ),
{
    let ghost blobs = blobs_of(rows@);
    let ghost mats = materials_of(unwrapped@);
    let ghost plains = plaintexts_of(opened@);
    let mut total: i64 = 0;
    let mut values: Vec<u32> = Vec::new();
    let mut last: u64 = 0;
    let mut next: usize = 0;
    let mut i: usize = 0;
    while i < rows.len()
        invariant
            i <= rows.len(),
            next <= unwrapped.len(),
            blobs == blobs_of(rows@),
            mats == materials_of(unwrapped@),
            plains == plaintexts_of(opened@),
            next == unwrap_calls(blobs.take(i as int)),
            i > 0 ==> last == metro_hash64(blobs[i - 1]),
            batch_prefix(blobs, mats, plains, i as int) == Ok::<Seq<u32>, EnvelopeError>(values@),
            total == seq_sum(values@),
        decreases rows.len() - i,
    {
        let d: u64 = digest(rows[i].wrapped_key.as_slice());
        proof {
            lemma_unwrap_calls_step(blobs, i as int);
            if batch_prefix(blobs, mats, plains, i as int + 1) is Err {
                lemma_first_error_stands(blobs, mats, plains, i as int + 1, rows.len() as int);
            }
        }
        if i == 0 || d != last {
            if next >= unwrapped.len() {
                return Err(EnvelopeError::NoCipher);
            }
            match CipherHandle::from_key_material(unwrapped[next].as_slice()) {
                Ok(_) => {},
                Err(e) => {
                    return Err(e);
                },
            }
            next += 1;
        }
        last = d;
        let plain: Option<Vec<u8>> = if i < opened.len() {
            match &opened[i] {
                Some(bytes) => Some(slice_to_vec(bytes.as_slice())),
                None => None,
            }
        } else {
            None
        };
        let value: u32 = match read_opened(plain) {
            Ok(value) => value,
            Err(e) => {
                return Err(e);
            },
        };
        total = match accumulate(total, value) {
            Ok(sum) => sum,
            Err(e) => {
                return Err(e);
            },
        };
        assert(values@.push(value).drop_last() =~= values@);
        values.push(value);
        i += 1;
    }
    Ok(Aggregate { total, values })
}

/// Opens every row and adds up the values.
///
/// `unwrapped` holds what the key service unwrapped for the rows of
/// [`unwrap_schedule`], in that order.  Each row is opened under the cipher
/// of the latest miss; the cache decides what a miss is.  What the batch
/// comes to is what [`sum_opened`] makes of the plaintexts that the cipher
/// handed out: the rows are taken in order, and the first failure ends the
/// batch.  No cipher is asked once a miss finds no usable key material or
/// a row was refused.
pub fn sum_all_sensitive_values(rows: &Vec<Row>, unwrapped: &Vec<Vec<u8>>) -> (r: Result<
    Aggregate,
    EnvelopeError,
>)
    ensures
        exists|opened: Seq<Option<Seq<u8>>>|
            holds_plaintexts(rows@, materials_of(unwrapped@), opened) && #[trigger] is_outcome(
                r,
                batch_result(blobs_of(rows@), materials_of(unwrapped@), opened),
            ),
        rows@.len() == 0 ==> r is Ok,
        rows@.len() > 0 && unwrapped@.len() == 0 ==> r is Err && r->Err_0
            == EnvelopeError::NoCipher,
        rows@.len() > 0 && unwrapped@.len() > 0 && !material_usable(unwrapped@[0]@) ==> r is Err
            && r->Err_0 == material_error(unwrapped@[0]@),
        r matches Ok(sum) ==> {
            &&& sum.values@.len() == rows@.len()
            &&& values_of_rows(rows@, materials_of(unwrapped@), sum.values@)
            &&& sum.total == seq_sum(sum.values@)
            &&& unwrap_calls(blobs_of(rows@)) <= unwrapped@.len()
            &&& forall|j: int|
                0 <= j < unwrap_calls(blobs_of(rows@)) ==> material_usable(
                    #[trigger] materials_of(unwrapped@)[j],
                )
        },
{
    let ghost blobs = blobs_of(rows@);
    let ghost mats = materials_of(unwrapped@);
    let mut cache = KeyCache::new();
    let mut opened: Vec<Option<Vec<u8>>> = Vec::new();
    let mut next: usize = 0;
    let mut going: bool = true;
    let mut i: usize = 0;
    while going && i < rows.len()
        invariant
            i <= rows.len(),
            opened@.len() == i,
            next <= unwrapped.len(),
            blobs == blobs_of(rows@),
            mats == materials_of(unwrapped@),
            next == unwrap_calls(blobs.take(i as int)),
            going ==> cache@ == cache_after(blobs, mats, i as int),
            holds_plaintexts(rows@, mats, plaintexts_of(opened@)),
        decreases
                rows.len() - i + if going {
                    1int
                } else {
                    0int
                },
    {
        let row = &rows[i];
        proof {
            lemma_unwrap_calls_step(blobs, i as int);
        }
        let cached: bool = cache.resolve_cipher(row.wrapped_key.as_slice()).is_some();
        // The cache misses exactly on the rows of the schedule.
        assert(cached == !misses_at(blobs, i as int));
        let mut ready: bool = cached;
        if !cached && next < unwrapped.len() {
            if cache.install(row.wrapped_key.as_slice(), unwrapped[next].as_slice()).is_ok() {
                next += 1;
                ready = true;
            }
        }
        if ready {
            let plain = match cache.cipher() {
                Some(cipher) => cipher.open_token(row.token.as_str()),
                None => vstd::pervasive::unreached(),
            };
            going = plain.is_some();
            let ghost before = plaintexts_of(opened@);
            opened.push(plain);
            proof {
                let after = plaintexts_of(opened@);
                assert forall|k: int| 0 <= k < after.len() implies ((#[trigger] after[k]) matches Some(
                    bytes,
                ) ==> fernet_plaintext(key_in_force(blobs, mats, k), rows@[k].token@) == Some(
                    bytes,
                )) by {
                    if k < before.len() {
                        assert(after[k] == before[k]);
                    }
                }
            }
            i += 1;
        } else {
            going = false;
        }
    }
    let r = sum_opened(rows, unwrapped, &opened);
    proof {
        let plains = plaintexts_of(opened@);
        let n = rows@.len() as int;
        if rows@.len() > 0 {
            reveal_with_fuel(batch_prefix, 2);
            if batch_prefix(blobs, mats, plains, 1) is Err {
                lemma_first_error_stands(blobs, mats, plains, 1, n);
            }
        }
        if r is Ok {
            lemma_values_of_prefix(blobs, mats, plains, n);
            assert(blobs.take(n) =~= blobs);
            let values = r->Ok_0.values@;
            assert forall|k: int| 0 <= k < values.len() implies #[trigger] row_value(rows@, mats, k)
                == Ok::<u32, EnvelopeError>(values[k]) by {
                assert(value_of_opened(opened_at(plains, k)) == Ok::<u32, EnvelopeError>(values[k]));
            }
        }
    }
    r
}

/// Whether the rows come in the order of `le`: no row stands before one
/// that `le` puts ahead of it.
pub open spec fn sorted_by(blobs: Seq<Seq<u8>>, le: spec_fn(Seq<u8>, Seq<u8>) -> bool) -> bool {
    forall|i: int, j: int| 0 <= i <= j < blobs.len() ==> #[trigger] le(blobs[i], blobs[j])
}

/// Whether the digest tells neighbouring rows apart: no two different
/// wrapped keys that stand side by side share a digest.
pub open spec fn digests_tell_neighbours_apart(blobs: Seq<Seq<u8>>) -> bool {
    forall|i: int|
        0 < i < blobs.len() && metro_hash64(#[trigger] blobs[i]) == metro_hash64(blobs[i - 1])
            ==> blobs[i] == blobs[i - 1]
}

/// `n` rows that take turns between two wrapped keys, `a` first.
pub open spec fn alternating(a: Seq<u8>, b: Seq<u8>, n: nat) -> Seq<Seq<u8>> {
    Seq::new(
        n,
        |i: int|
            if i % 2 == 0 {
                a
            } else {
                b
            },
    )
}

/// Sorted input: when the rows are sorted by wrapped key, under any order
/// that holds both ways only between equal keys, the batch costs one call
/// to the key service for each distinct wrapped key, however many rows
/// there are.  This holds where the digest tells neighbouring rows apart;
/// two different keys with one digest, side by side, would share a call.
pub proof fn lemma_sorted_rows_cost_one_call_per_key(
    blobs: Seq<Seq<u8>>,
    le: spec_fn(Seq<u8>, Seq<u8>) -> bool,
)
    requires
        forall|a: Seq<u8>, b: Seq<u8>| #[trigger] le(a, b) && le(b, a) ==> a == b,
        sorted_by(blobs, le),
        digests_tell_neighbours_apart(blobs),
    ensures
        blobs.to_set().finite(),
        unwrap_calls(blobs) == blobs.to_set().len(),
    decreases blobs.len(),
{
    seq_to_set_is_finite(blobs);
    if blobs.len() == 0 {
        assert(blobs.to_set() =~= Set::<Seq<u8>>::empty());
    } else {
        let n = blobs.len() - 1;
        let front = blobs.drop_last();
        let last = blobs.last();
        assert forall|i: int, j: int| 0 <= i <= j < front.len() implies #[trigger] le(
            front[i],
            front[j],
        ) by {
            assert(le(blobs[i], blobs[j]));
        }
        assert forall|i: int|
            0 < i < front.len() && metro_hash64(#[trigger] front[i]) == metro_hash64(
                front[i - 1],
            ) implies front[i] == front[i - 1] by {
            assert(blobs[i] == front[i] && blobs[i - 1] == front[i - 1]);
        }
        lemma_sorted_rows_cost_one_call_per_key(front, le);
        seq_to_set_is_finite(front);
        assert(blobs =~= front.push(last));
        front.lemma_push_to_set_commute(last);
        if misses_at(blobs, n) {
            // A key that stood before the last row would stand beside it,
            // the rows being sorted, and the last row would not miss.
            assert(!front.contains(last)) by {
                if front.contains(last) {
                    let k = choose|k: int| 0 <= k < front.len() && front[k] == last;
                    assert(le(blobs[k], blobs[n - 1]) && le(blobs[n - 1], blobs[n]));
                    assert(blobs[n - 1] == last);
                }
            }
        } else {
            assert(front[n - 1] == last);
        }
    }
}

/// Interleaved input: when the rows take turns between two wrapped keys
/// with different digests, every row costs a call to the key service.  The
/// single slot gives nothing here; that is how it is meant to behave.
pub proof fn lemma_alternating_rows_cost_one_call_per_row(a: Seq<u8>, b: Seq<u8>, n: nat)
    requires
        metro_hash64(a) != metro_hash64(b),
    ensures
        unwrap_calls(alternating(a, b, n)) == n,
    decreases n,
{
    if n > 0 {
        let m = (n - 1) as nat;
        lemma_alternating_rows_cost_one_call_per_row(a, b, m);
        assert(alternating(a, b, n).drop_last() =~= alternating(a, b, m));
    }
}

/// Taking one value out of a sequence takes it out of the sum.
pub proof fn lemma_seq_sum_remove(values: Seq<u32>, j: int)
    requires
        0 <= j < values.len(),
    ensures
        seq_sum(values) == seq_sum(values.remove(j)) + values[j],
    decreases values.len(),
{
    if j == values.len() - 1 {
        assert(values.remove(j) =~= values.drop_last());
    } else {
        lemma_seq_sum_remove(values.drop_last(), j);
        assert(values.remove(j).drop_last() =~= values.drop_last().remove(j));
    }
}

/// Order does not matter to the aggregate: two batches with the same
/// values, in whatever order the rows came, have the same sum.
pub proof fn lemma_sum_order_independent(a: Seq<u32>, b: Seq<u32>)
    requires
        a.to_multiset() == b.to_multiset(),
    ensures
        seq_sum(a) == seq_sum(b),
    decreases a.len(),
{
    to_multiset_len(a);
    to_multiset_len(b);
    if a.len() > 0 {
        let x = a.last();
        let front = a.drop_last();
        assert(a =~= front.push(x));
        to_multiset_build(front, x);
        to_multiset_contains(b, x);
        let j = choose|j: int| 0 <= j < b.len() && b[j] == x;
        to_multiset_remove(b, j);
        assert(b.remove(j).to_multiset() =~= front.to_multiset());
        lemma_sum_order_independent(front, b.remove(j));
        lemma_seq_sum_remove(b, j);
    }
}

/// The key material that the key service hands out for the rows of the
/// schedule, in that order, where it unwraps every wrapped key to `unwrap`
/// of it.
pub open spec fn answers(blobs: Seq<Seq<u8>>, unwrap: spec_fn(Seq<u8>) -> Seq<u8>) -> Seq<Seq<u8>> {
    Seq::new(unwrap_calls(blobs), |j: int| unwrap(blobs[miss_indices(blobs)[j] as int]))
}

/// The value that a row holds under the key that its own wrapped key
/// unwraps to.
pub open spec fn own_value(row: Row, unwrap: spec_fn(Seq<u8>) -> Seq<u8>) -> Result<
    u32,
    EnvelopeError,
> {
    sealed_value(key_text_of(unwrap(row.wrapped_key@)), row.token@)
}

/// The schedule of a prefix is the start of the schedule of the batch.
pub proof fn lemma_schedule_of_prefix(blobs: Seq<Seq<u8>>, n: int, j: int)
    requires
        0 <= n <= blobs.len(),
        0 <= j < unwrap_calls(blobs.take(n)),
    ensures
        j < unwrap_calls(blobs),
        miss_indices(blobs)[j] == miss_indices(blobs.take(n))[j],
    decreases blobs.len() - n,
{
    if n < blobs.len() {
        lemma_unwrap_calls_step(blobs, n);
        lemma_schedule_of_prefix(blobs, n + 1, j);
    } else {
        assert(blobs.take(n) =~= blobs);
    }
}

/// The cache serves every row with its own key: where the digest tells
/// neighbouring rows apart, the key in force at a row is the one that the
/// row's own wrapped key unwraps to, wherever the row stands in the batch.
pub proof fn lemma_key_in_force_is_the_rows_own(
    blobs: Seq<Seq<u8>>,
    unwrap: spec_fn(Seq<u8>) -> Seq<u8>,
    i: int,
)
    requires
        0 <= i < blobs.len() <= usize::MAX,
        digests_tell_neighbours_apart(blobs),
    ensures
        key_in_force(blobs, answers(blobs, unwrap), i) == key_text_of(unwrap(blobs[i])),
    decreases i,
{
    lemma_unwrap_calls_step(blobs, i);
    let calls = unwrap_calls(blobs.take(i + 1)) as int;
    if misses_at(blobs, i) {
        // The row is the latest of the schedule so far: the material in
        // force is the answer for this very row.
        lemma_schedule_of_prefix(blobs, i + 1, calls - 1);
        assert(miss_indices(blobs)[calls - 1] == i as usize);
    } else {
        // The row shares the key in force with the row before it, and
        // its wrapped key too.
        lemma_key_in_force_is_the_rows_own(blobs, unwrap, i - 1);
        assert(blobs[i] == blobs[i - 1]);
    }
}

/// Every row reads as its own value: where the digest tells neighbouring
/// rows apart, the value of a row in a batch is the value that its token
/// holds under the key that its own wrapped key unwraps to.  A row sealed
/// with [`CipherHandle::encrypt`] under that key so has the value that was
/// sealed.
pub proof fn lemma_row_value_is_the_rows_own(
    rows: Seq<Row>,
    unwrap: spec_fn(Seq<u8>) -> Seq<u8>,
    i: int,
)
    requires
        0 <= i < rows.len() <= usize::MAX,
        digests_tell_neighbours_apart(blobs_of(rows)),
    ensures
        row_value(rows, answers(blobs_of(rows), unwrap), i) == own_value(rows[i], unwrap),
{
    lemma_key_in_force_is_the_rows_own(blobs_of(rows), unwrap, i);
}

/// A row whose token holds nothing under the key in force, as a token
/// sealed under another key does wherever the cipher tells the two keys
/// apart, has no value: the batch comes to no sum, neither a wrong one nor
/// zero.
pub proof fn lemma_row_without_plaintext_ends_the_batch(
    rows: Seq<Row>,
    unwrapped: Seq<Seq<u8>>,
    values: Seq<u32>,
    i: int,
)
    requires
        0 <= i < rows.len(),
        fernet_plaintext(key_in_force(blobs_of(rows), unwrapped, i), rows[i].token@) is None,
    ensures
        row_value(rows, unwrapped, i) == Err::<u32, EnvelopeError>(EnvelopeError::Decryption),
        !(values.len() == rows.len() && values_of_rows(rows, unwrapped, values)),
{
}

/// Rows in another order, each with its own value, have the same sum.
pub proof fn lemma_sum_of_permuted_rows(
    rows: Seq<Row>,
    values: Seq<u32>,
    others: Seq<Row>,
    other_values: Seq<u32>,
    unwrap: spec_fn(Seq<u8>) -> Seq<u8>,
)
    requires
        rows.to_multiset() == others.to_multiset(),
        values.len() == rows.len(),
        other_values.len() == others.len(),
        forall|k: int|
            0 <= k < rows.len() ==> own_value(#[trigger] rows[k], unwrap) == Ok::<
                u32,
                EnvelopeError,
            >(values[k]),
        forall|k: int|
            0 <= k < others.len() ==> own_value(#[trigger] others[k], unwrap) == Ok::<
                u32,
                EnvelopeError,
            >(other_values[k]),
    ensures
        seq_sum(values) == seq_sum(other_values),
    decreases rows.len(),
{
    to_multiset_len(rows);
    to_multiset_len(others);
    if rows.len() > 0 {
        let row = rows.last();
        let front = rows.drop_last();
        assert(rows =~= front.push(row));
        to_multiset_build(front, row);
        to_multiset_contains(others, row);
        let j = choose|j: int| 0 <= j < others.len() && others[j] == row;
        to_multiset_remove(others, j);
        assert(others.remove(j).to_multiset() =~= front.to_multiset());
        let rest = others.remove(j);
        let rest_values = other_values.remove(j);
        assert forall|k: int| 0 <= k < rest.len() implies own_value(#[trigger] rest[k], unwrap)
            == Ok::<u32, EnvelopeError>(rest_values[k]) by {
            if k < j {
                assert(rest[k] == others[k] && rest_values[k] == other_values[k]);
            } else {
                assert(rest[k] == others[k + 1] && rest_values[k] == other_values[k + 1]);
            }
        }
        assert forall|k: int| 0 <= k < front.len() implies own_value(#[trigger] front[k], unwrap)
            == Ok::<u32, EnvelopeError>(values.drop_last()[k]) by {
            assert(front[k] == rows[k]);
        }
        lemma_sum_of_permuted_rows(front, values.drop_last(), rest, rest_values, unwrap);
        lemma_seq_sum_remove(other_values, j);
    }
}

/// The aggregate does not depend on the order of the rows: two batches of
/// the same rows, each in an order in which the digest tells neighbouring
/// rows apart, come to the same sum, however the rows of different keys
/// are ordered or interleaved.  Only the number of calls to the key
/// service differs.
pub proof fn lemma_sum_does_not_depend_on_row_order(
    rows: Seq<Row>,
    values: Seq<u32>,
    others: Seq<Row>,
    other_values: Seq<u32>,
    unwrap: spec_fn(Seq<u8>) -> Seq<u8>,
)
    requires
        rows.to_multiset() == others.to_multiset(),
        rows.len() <= usize::MAX,
        digests_tell_neighbours_apart(blobs_of(rows)),
        digests_tell_neighbours_apart(blobs_of(others)),
        values.len() == rows.len(),
        values_of_rows(rows, answers(blobs_of(rows), unwrap), values),
        other_values.len() == others.len(),
        values_of_rows(others, answers(blobs_of(others), unwrap), other_values),
    ensures
        seq_sum(values) == seq_sum(other_values),
{
    to_multiset_len(rows);
    to_multiset_len(others);
    assert forall|k: int| 0 <= k < rows.len() implies own_value(#[trigger] rows[k], unwrap) == Ok::<
        u32,
        EnvelopeError,
    >(values[k]) by {
        lemma_row_value_is_the_rows_own(rows, unwrap, k);
    }
    assert forall|k: int| 0 <= k < others.len() implies own_value(#[trigger] others[k], unwrap)
        == Ok::<u32, EnvelopeError>(other_values[k]) by {
        lemma_row_value_is_the_rows_own(others, unwrap, k);
    }
    lemma_sum_of_permuted_rows(rows, values, others, other_values, unwrap);
}

} // verus!
