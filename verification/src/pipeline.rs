//! The computing steps of a matrix summing demo and of a file encryption
//! pipeline.

use vstd::prelude::*;
use rayon::iter::{IntoParallelRefIterator, ParallelIterator};
use rand::Rng;
use aes_gcm::aead::{Aead, KeyInit};

verus! {

/// Sum of a row.
pub open spec fn row_total(r: Seq<i32>) -> int
    decreases r.len(),
{
    if r.len() == 0 {
        0
    } else {
        row_total(r.drop_last()) + r.last()
    }
}

/// Sum of the absolute values of a row.
pub open spec fn row_abs_total(r: Seq<i32>) -> int
    decreases r.len(),
{
    if r.len() == 0 {
        0
    } else {
        row_abs_total(r.drop_last()) + if r.last() < 0 { -r.last() } else { r.last() as int }
    }
}

/// The rows of a matrix as sequences.
pub open spec fn rows_view(m: Seq<Vec<i32>>) -> Seq<Seq<i32>> {
    m.map_values(|r: Vec<i32>| r@)
}

/// Sum of all cells.
pub open spec fn matrix_total(m: Seq<Seq<i32>>) -> int
    decreases m.len(),
{
    if m.len() == 0 {
        0
    } else {
        matrix_total(m.drop_last()) + row_total(m.last())
    }
}

/// Sum of the absolute values of all cells.
pub open spec fn matrix_abs_total(m: Seq<Seq<i32>>) -> int
    decreases m.len(),
{
    if m.len() == 0 {
        0
    } else {
        matrix_abs_total(m.drop_last()) + row_abs_total(m.last())
    }
}

proof fn lemma_row_bounds(r: Seq<i32>)
    ensures
        -row_abs_total(r) <= row_total(r) <= row_abs_total(r),
        row_abs_total(r) >= 0,
    decreases r.len(),
{
    if r.len() > 0 {
        lemma_row_bounds(r.drop_last());
    }
}

/// Sum of a row, whose absolute values sum to at most `i32::MAX`.
pub fn row_sum(row: &Vec<i32>) -> (r: i32)
    requires
        row_abs_total(row@) <= i32::MAX,
    ensures
        r == row_total(row@),
{
    let mut acc: i32 = 0;
    let mut i: usize = 0;
    proof {
        lemma_row_prefix(row@, 0);
    }
    while i < row.len()
        invariant
            i <= row@.len(),
            row_abs_total(row@) <= i32::MAX,
            acc == row_total(row@.subrange(0, i as int)),
            row_abs_total(row@.subrange(0, i as int)) <= row_abs_total(row@),
        decreases row@.len() - i,
    {
        let ghost pre = row@.subrange(0, i as int);
        let ghost next = row@.subrange(0, i + 1);
        assert(next.drop_last() =~= pre);
        proof {
            lemma_row_bounds(next);
            lemma_row_prefix(row@, i + 1);
        }
        acc = acc + row[i];
        i = i + 1;
    }
    assert(row@.subrange(0, row@.len() as int) =~= row@);
    acc
}

proof fn lemma_row_prefix(r: Seq<i32>, i: int)
    requires
        0 <= i <= r.len(),
    ensures
        row_abs_total(r.subrange(0, i)) <= row_abs_total(r),
    decreases r.len() - i,
{
    if i < r.len() {
        lemma_row_prefix(r, i + 1);
        assert(r.subrange(0, i + 1).drop_last() =~= r.subrange(0, i));
    } else {
        assert(r.subrange(0, i) =~= r);
    }
}

/// Sums the row sums of a matrix in parallel with rayon's `par_iter().sum()`,
/// each row summed by `row_sum`. The contract says the result is the sum of
/// all cells: rayon adds the items in an unspecified grouping, and with the
/// absolute values summing to at most `i32::MAX` no grouping overflows.
#[verifier::external_body]
fn par_sum_rows(m: &Vec<Vec<i32>>) -> (r: i32)
    requires
        matrix_abs_total(rows_view(m@)) <= i32::MAX,
    ensures
        r == matrix_total(rows_view(m@)),
{
    m.par_iter().map(|row| row_sum(row)).sum()
}

/// The sum of all cells of a matrix, computed row by row in parallel.
pub fn matrix_sum(m: &Vec<Vec<i32>>) -> (r: i32)
    requires
        matrix_abs_total(rows_view(m@)) <= i32::MAX,
    ensures
        r == matrix_total(rows_view(m@)),
{
    par_sum_rows(m)
}

/// A uniformly random number in `[low, high)` from the thread's generator
/// (`rand::Rng::gen_range`). Only the bounds are promised.
#[verifier::external_body]
fn random_in_range(low: i32, high: i32) -> (r: i32)
    requires
        low < high,
    ensures
        low <= r < high,
{
    rand::thread_rng().gen_range(low..high)
}

/// Whether `x` is a value that `random_in_range(0, 10)` (`gen_range(0..10)`)
/// can draw.
pub closed spec fn digit_draw(x: i32) -> bool {
    call_ensures(random_in_range, (0i32, 10i32), x)
}

/// A drawn digit lies in `0..10`.
pub proof fn lemma_digit_draw_bounds(x: i32)
    requires
        digit_draw(x),
    ensures
        0 <= x < 10,
{
}

/// A `size` by `size` matrix of random digits (`0` to `9`), each cell a draw
/// of `gen_range(0..10)`.
pub fn random_matrix(size: usize) -> (m: Vec<Vec<i32>>)
    ensures
        m@.len() == size,
        forall|i: int| 0 <= i < size ==> #[trigger] m@[i]@.len() == size,
        forall|i: int, j: int| 0 <= i < size && 0 <= j < size ==> 0 <= #[trigger] m@[i]@[j] < 10,
        forall|i: int, j: int| 0 <= i < size && 0 <= j < size ==> digit_draw(#[trigger] m@[i]@[j]),
{
    let mut m: Vec<Vec<i32>> = Vec::new();
    let mut i: usize = 0;
    while i < size
        invariant
            i <= size,
            m@.len() == i,
            forall|k: int| 0 <= k < i ==> #[trigger] m@[k]@.len() == size,
            forall|k: int, j: int| 0 <= k < i && 0 <= j < size ==> 0 <= #[trigger] m@[k]@[j] < 10,
            forall|k: int, j: int| 0 <= k < i && 0 <= j < size ==> digit_draw(#[trigger] m@[k]@[j]),
        decreases size - i,
    {
        let mut row: Vec<i32> = Vec::new();
        let mut j: usize = 0;
        while j < size
            invariant
                j <= size,
                row@.len() == j,
                forall|k: int| 0 <= k < j ==> 0 <= #[trigger] row@[k] < 10,
                forall|k: int| 0 <= k < j ==> digit_draw(#[trigger] row@[k]),
            decreases size - j,
        {
            row.push(random_in_range(0, 10));
            j = j + 1;
        }
        m.push(row);
        i = i + 1;
    }
    m
}

/// Every cell of a random matrix is a draw of `gen_range(0..10)`, so a digit
/// from `0` to `9`, and the matrix is square of the size asked for.
pub proof fn law_random_matrix_cells(size: usize, m: Vec<Vec<i32>>, i: int, j: int)
    requires
        call_ensures(random_matrix, (size,), m),
        0 <= i < size,
        0 <= j < size,
    ensures
        m@.len() == size,
        m@[i]@.len() == size,
        digit_draw(m@[i]@[j]),
        0 <= m@[i]@[j] < 10,
{
}

/// The largest plaintext AES-GCM accepts, in bytes.
pub open spec fn aes_gcm_max_plaintext() -> int {
    0x10_0000_0000
}

/// AES-256-GCM encryption of `plaintext` with `key` and `nonce` and no
/// associated data: the ciphertext followed by the tag.
pub uninterp spec fn aes256gcm_seal(key: Seq<u8>, nonce: Seq<u8>, plaintext: Seq<u8>) -> Seq<u8>;

/// Encrypts with `aes_gcm::Aes256Gcm` (`Aead::encrypt`, no associated data).
/// It fails only for a plaintext longer than 2^36 bytes and appends a
/// 16-byte tag; the ciphertext itself is named `aes256gcm_seal` of the key,
/// nonce and plaintext.
#[verifier::external_body]
fn aes256gcm_encrypt(key: &[u8; 32], nonce: &[u8; 12], data: &[u8]) -> (r: Result<Vec<u8>, aes_gcm::Error>)
    ensures
        r is Ok <==> data@.len() <= aes_gcm_max_plaintext(),
        r matches Ok(c) ==> c@ == aes256gcm_seal(key@, nonce@, data@) && c@.len() == data@.len() + 16,
{
    let cipher = aes_gcm::Aes256Gcm::new(aes_gcm::Key::<aes_gcm::Aes256Gcm>::from_slice(key));
    cipher.encrypt(aes_gcm::Nonce::from_slice(nonce), data)
}

#[verifier::external_type_specification]
#[verifier::external_body]
pub struct ExAeadError(aes_gcm::Error);

/// The path with its extension replaced, as `Path::with_extension` gives it.
pub uninterp spec fn path_with_extension(path: Seq<char>, ext: Seq<char>) -> Seq<char>;

/// Calls `Path::with_extension`, which panics when the extension holds a
/// path separator (`/` on Unix). The contract names the result
/// `path_with_extension` of the path and extension.
#[verifier::external_body]
fn with_extension(path: &str, ext: &str) -> (r: String)
    requires
        !ext@.contains('/'),
    ensures
        r@ == path_with_extension(path@, ext@),
{
    std::path::Path::new(path).with_extension(ext).to_string_lossy().into_owned()
}

/// The all-zero key the pipeline encrypts with.
pub open spec fn zero_key() -> Seq<u8> {
    Seq::new(32, |i: int| 0u8)
}

/// The all-zero nonce the pipeline encrypts with.
pub open spec fn zero_nonce() -> Seq<u8> {
    Seq::new(12, |i: int| 0u8)
}

/// The output of one pipeline job: the file's content encrypted with the
/// all-zero key and nonce, to be written next to it with extension `data`.
pub fn encrypt_file(path: &str, data: &Vec<u8>) -> (r: (String, Vec<u8>))
    requires
        data@.len() <= aes_gcm_max_plaintext(),
    ensures
        r.0@ == path_with_extension(path@, "data"@),
        r.1@ == aes256gcm_seal(zero_key(), zero_nonce(), data@),
        r.1@.len() == data@.len() + 16,
{
    let key: [u8; 32] = [0u8; 32];
    let nonce: [u8; 12] = [0u8; 12];
    assert(key@ =~= zero_key());
    assert(nonce@ =~= zero_nonce());
    let sealed = match aes256gcm_encrypt(&key, &nonce, data.as_slice()) {
        Ok(c) => c,
        Err(_) => {
            assert(false);
            Vec::new()
        },
    };
    proof {
        reveal_strlit("data");
    }
    (with_extension(path, "data"), sealed)
}

/// What the progress monitor does on reading the counter: the count to print
/// when it changed since the last one printed.
pub fn progress_update(last: usize, current: usize) -> (r: Option<usize>)
    ensures
        r == (if current != last { Some(current) } else { None::<usize> }),
{
    if current != last {
        Some(current)
    } else {
        None
    }
}

} // verus!
