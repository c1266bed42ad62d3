use envelope_encryption::cipher::CipherHandle;
use envelope_encryption::error::EnvelopeError;
use envelope_encryption::pipeline::{
    accumulate, sum_all_sensitive_values, sum_opened, unwrap_schedule,
};
use envelope_encryption::records::Row;

fn wrapped(tag: u8) -> Vec<u8> {
    vec![tag; 24]
}

fn material(tag: u8) -> Vec<u8> {
    (0..40u8).map(|i| i.wrapping_mul(3) ^ tag).collect()
}

fn key_service(wrapped_key: &[u8]) -> Vec<u8> {
    material(wrapped_key[0])
}

fn row(user: &str, value: u32, tag: u8) -> Row {
    let cipher = CipherHandle::from_key_material(&material(tag)).ok().unwrap();
    Row { user_name: user.to_string(), token: cipher.encrypt(value), wrapped_key: wrapped(tag) }
}

fn blank_row(tag: u8) -> Row {
    Row { user_name: String::new(), token: String::new(), wrapped_key: wrapped(tag) }
}

fn unwrap_all(rows: &Vec<Row>) -> Vec<Vec<u8>> {
    unwrap_schedule(rows).into_iter().map(|i| key_service(&rows[i].wrapped_key)).collect()
}

#[test]
fn schedule_of_no_rows_is_empty() {
    assert_eq!(unwrap_schedule(&Vec::new()), Vec::<usize>::new());
}

#[test]
fn schedule_of_one_row_is_that_row() {
    assert_eq!(unwrap_schedule(&vec![blank_row(1)]), vec![0]);
}

#[test]
fn sorted_rows_cost_one_call_per_key() {
    let tags: [u8; 9] = [1, 1, 1, 1, 2, 2, 5, 5, 5];
    let rows: Vec<Row> = tags.iter().map(|t| blank_row(*t)).collect();
    assert_eq!(unwrap_schedule(&rows), vec![0, 4, 6]);
    let many: Vec<Row> = (0..300).map(|i| blank_row(if i < 200 { 1 } else { 2 })).collect();
    assert_eq!(unwrap_schedule(&many), vec![0, 200]);
}

#[test]
fn one_key_costs_one_call_whatever_the_row_count() {
    let rows: Vec<Row> = (0..50).map(|_| blank_row(9)).collect();
    assert_eq!(unwrap_schedule(&rows), vec![0]);
}

#[test]
fn interleaved_rows_cost_one_call_per_row() {
    let rows: Vec<Row> = (0..8u8).map(|i| blank_row(if i % 2 == 0 { 1 } else { 2 })).collect();
    assert_eq!(unwrap_schedule(&rows), vec![0, 1, 2, 3, 4, 5, 6, 7]);
}

#[test]
fn a_key_that_comes_back_costs_a_call_again() {
    let tags: [u8; 5] = [1, 2, 2, 1, 1];
    let rows: Vec<Row> = tags.iter().map(|t| blank_row(*t)).collect();
    assert_eq!(unwrap_schedule(&rows), vec![0, 1, 3]);
}

#[test]
fn sum_of_no_rows_is_zero() {
    let sum = sum_all_sensitive_values(&Vec::new(), &Vec::new()).ok().unwrap();
    assert_eq!(sum.total, 0);
    assert!(sum.values.is_empty());
}

#[test]
fn three_records_under_two_keys_sum_to_42() {
    let rows = vec![row("Liam", 10, 1), row("Noah", 25, 2), row("Oliver", 7, 1)];
    let unwrapped = unwrap_all(&rows);
    assert_eq!(unwrapped.len(), 3);
    let sum = sum_all_sensitive_values(&rows, &unwrapped).ok().unwrap();
    assert_eq!(sum.total, 42);
    assert_eq!(sum.values, vec![10, 25, 7]);
}

#[test]
fn the_sum_does_not_depend_on_row_order() {
    let sorted = vec![row("Liam", 10, 1), row("Oliver", 7, 1), row("Noah", 25, 2)];
    let unwrapped = unwrap_all(&sorted);
    assert_eq!(unwrapped.len(), 2);
    let sum = sum_all_sensitive_values(&sorted, &unwrapped).ok().unwrap();
    assert_eq!(sum.total, 42);
    assert_eq!(sum.values, vec![10, 7, 25]);

    let reversed = vec![row("Noah", 25, 2), row("Oliver", 7, 1), row("Liam", 10, 1)];
    let unwrapped = unwrap_all(&reversed);
    let sum = sum_all_sensitive_values(&reversed, &unwrapped).ok().unwrap();
    assert_eq!(sum.total, 42);
    assert_eq!(sum.values, vec![25, 7, 10]);
}

#[test]
fn the_sum_is_wider_than_32_bits() {
    let rows = vec![row("a", u32::MAX, 1), row("b", u32::MAX, 1), row("c", 2, 3)];
    let unwrapped = unwrap_all(&rows);
    let sum = sum_all_sensitive_values(&rows, &unwrapped).ok().unwrap();
    assert_eq!(sum.total, 8_589_934_592);
}

#[test]
fn more_material_than_needed_is_left_unused() {
    let rows = vec![row("a", 1, 1), row("b", 2, 1)];
    let unwrapped = vec![material(1), material(2), material(3)];
    let sum = sum_all_sensitive_values(&rows, &unwrapped).ok().unwrap();
    assert_eq!(sum.total, 3);
}

#[test]
fn missing_key_material_ends_the_batch() {
    let rows = vec![row("a", 1, 1), row("b", 2, 2)];
    let r = sum_all_sensitive_values(&rows, &vec![material(1)]);
    assert_eq!(r.err(), Some(EnvelopeError::NoCipher));
    let r = sum_all_sensitive_values(&rows, &Vec::new());
    assert_eq!(r.err(), Some(EnvelopeError::NoCipher));
}

#[test]
fn short_key_material_ends_the_batch() {
    let rows = vec![row("a", 1, 1)];
    let r = sum_all_sensitive_values(&rows, &vec![vec![0u8; 31]]);
    assert_eq!(r.err(), Some(EnvelopeError::KeyMaterialTooShort));
}

#[test]
fn material_of_another_key_ends_the_batch() {
    let rows = vec![row("a", 1, 1), row("b", 2, 2)];
    let r = sum_all_sensitive_values(&rows, &vec![material(1), material(1)]);
    assert_eq!(r.err(), Some(EnvelopeError::Decryption));
}

#[test]
fn a_corrupt_record_ends_the_batch() {
    let mut rows = vec![row("a", 1, 1), row("b", 2, 1)];
    rows[1].token = "corrupt".to_string();
    let unwrapped = unwrap_all(&rows);
    let r = sum_all_sensitive_values(&rows, &unwrapped);
    assert_eq!(r.err(), Some(EnvelopeError::Decryption));
}

#[test]
fn a_record_that_holds_no_four_bytes_ends_the_batch() {
    let mut rows = vec![row("a", 1, 1)];
    let key_text = base64::encode_config(&material(1)[..32], base64::URL_SAFE);
    rows[0].token = fernet::Fernet::new(&key_text).unwrap().encrypt(b"12345");
    let unwrapped = unwrap_all(&rows);
    let r = sum_all_sensitive_values(&rows, &unwrapped);
    assert_eq!(r.err(), Some(EnvelopeError::PlaintextLength));
}

#[test]
fn accumulate_adds_in_64_bits() {
    assert_eq!(accumulate(0, 0), Ok(0));
    assert_eq!(accumulate(35, 7), Ok(42));
    assert_eq!(accumulate(0, u32::MAX), Ok(4_294_967_295));
    assert_eq!(accumulate(4_294_967_295, u32::MAX), Ok(8_589_934_590));
    assert_eq!(accumulate(-10, 3), Ok(-7));
    assert_eq!(accumulate(i64::MAX - 5, 5), Ok(i64::MAX));
}

#[test]
fn accumulate_refuses_to_leave_64_bits() {
    assert_eq!(accumulate(i64::MAX, 1), Err(EnvelopeError::SumOverflow));
    assert_eq!(accumulate(i64::MAX - 5, 6), Err(EnvelopeError::SumOverflow));
    assert_eq!(accumulate(i64::MAX, 0), Ok(i64::MAX));
}

#[test]
fn unusable_material_at_the_first_row_gives_its_own_error() {
    let rows = vec![row("a", 1, 1)];
    let r = sum_all_sensitive_values(&rows, &vec![vec![1u8, 2, 3]]);
    assert_eq!(r.err(), Some(EnvelopeError::KeyMaterialTooShort));
    let r = sum_all_sensitive_values(&rows, &vec![vec![], material(1)]);
    assert_eq!(r.err(), Some(EnvelopeError::KeyMaterialTooShort));
}

#[test]
fn the_first_failure_in_row_order_ends_the_batch() {
    let mut rows = vec![row("a", 1, 1), row("b", 2, 2), row("c", 3, 3)];
    rows[1].token = "corrupt".to_string();
    let r = sum_all_sensitive_values(&rows, &vec![material(1), material(2)]);
    assert_eq!(r.err(), Some(EnvelopeError::Decryption));
    let r = sum_all_sensitive_values(&rows, &vec![material(1)]);
    assert_eq!(r.err(), Some(EnvelopeError::NoCipher));
    let r = sum_all_sensitive_values(&rows, &vec![material(1), vec![0u8; 4], material(3)]);
    assert_eq!(r.err(), Some(EnvelopeError::KeyMaterialTooShort));
}

#[test]
fn sum_opened_adds_what_the_cipher_handed_out() {
    let rows = vec![blank_row(1), blank_row(2), blank_row(1)];
    let unwrapped = vec![material(1), material(2), material(1)];
    let opened = vec![Some(vec![0u8, 0, 0, 10]), Some(vec![0, 0, 0, 25]), Some(vec![0, 0, 0, 7])];
    let sum = sum_opened(&rows, &unwrapped, &opened).ok().unwrap();
    assert_eq!(sum.total, 42);
    assert_eq!(sum.values, vec![10, 25, 7]);
}

#[test]
fn sum_opened_of_no_rows_is_zero() {
    let sum = sum_opened(&Vec::new(), &Vec::new(), &Vec::new()).ok().unwrap();
    assert_eq!(sum.total, 0);
    assert!(sum.values.is_empty());
    let sum = sum_opened(&Vec::new(), &vec![material(1)], &vec![None]).ok().unwrap();
    assert_eq!(sum.total, 0);
}

#[test]
fn sum_opened_reads_big_endian() {
    let rows = vec![blank_row(1), blank_row(1)];
    let opened = vec![Some(vec![1u8, 0, 0, 0]), Some(vec![255, 255, 255, 255])];
    let sum = sum_opened(&rows, &vec![material(1)], &opened).ok().unwrap();
    assert_eq!(sum.values, vec![16_777_216, u32::MAX]);
    assert_eq!(sum.total, 16_777_216 + 4_294_967_295);
}

#[test]
fn sum_opened_gives_the_error_of_the_first_row_that_fails() {
    let rows = vec![blank_row(1), blank_row(2), blank_row(3)];
    let good = Some(vec![0u8, 0, 0, 1]);
    let all = vec![material(1), material(2), material(3)];

    let r = sum_opened(&rows, &Vec::new(), &vec![good.clone(), good.clone(), good.clone()]);
    assert_eq!(r.err(), Some(EnvelopeError::NoCipher));
    let r = sum_opened(&rows, &vec![material(1), material(2)], &vec![good.clone(); 3]);
    assert_eq!(r.err(), Some(EnvelopeError::NoCipher));
    let r = sum_opened(&rows, &vec![material(1), vec![9u8; 31], material(3)], &vec![good.clone(); 3]);
    assert_eq!(r.err(), Some(EnvelopeError::KeyMaterialTooShort));
    let r = sum_opened(&rows, &all, &vec![good.clone(), None, good.clone()]);
    assert_eq!(r.err(), Some(EnvelopeError::Decryption));
    let r = sum_opened(&rows, &all, &vec![good.clone(), Some(vec![1u8, 2, 3]), None]);
    assert_eq!(r.err(), Some(EnvelopeError::PlaintextLength));
    let r = sum_opened(&rows, &all, &vec![None, Some(vec![1u8, 2, 3]), good.clone()]);
    assert_eq!(r.err(), Some(EnvelopeError::Decryption));
    let r = sum_opened(&rows, &vec![vec![], material(2)], &vec![None, None, None]);
    assert_eq!(r.err(), Some(EnvelopeError::KeyMaterialTooShort));
}

#[test]
fn sum_opened_counts_a_row_beyond_the_list_as_refused() {
    let rows = vec![blank_row(1), blank_row(1)];
    let r = sum_opened(&rows, &vec![material(1)], &vec![Some(vec![0u8, 0, 0, 1])]);
    assert_eq!(r.err(), Some(EnvelopeError::Decryption));
    let r = sum_opened(&rows, &vec![material(1)], &Vec::new());
    assert_eq!(r.err(), Some(EnvelopeError::Decryption));
}

#[test]
fn sum_opened_asks_for_material_only_at_a_miss() {
    let rows = vec![blank_row(1), blank_row(1), blank_row(1)];
    let opened = vec![Some(vec![0u8, 0, 0, 1]); 3];
    let sum = sum_opened(&rows, &vec![material(1)], &opened).ok().unwrap();
    assert_eq!(sum.total, 3);
}
