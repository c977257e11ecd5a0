//! Content digests: one fixed-size fingerprint per file content, written in
//! lower-case hexadecimal.

use rayon::iter::IntoParallelRefIterator;
use rayon::iter::ParallelIterator;
use vstd::prelude::*;

verus! {

/// The number of bytes of a digest.
pub const DIGEST_LEN: usize = 32;

/// The BLAKE3 digest of `data`.
pub uninterp spec fn blake3_digest(data: Seq<u8>) -> Seq<u8>;

/// `blake3::hash` computes the digest of the bytes it is given; the digest
/// has 32 bytes.
#[verifier::external_body]
fn digest_bytes(data: &[u8]) -> (digest: [u8; 32])
    ensures
        digest@ == blake3_digest(data@),
{
    *blake3::hash(data).as_bytes()
}

/// The sixteen hexadecimal digits, in lower case.
pub open spec fn hex_digits() -> Seq<char> {
    seq!['0', '1', '2', '3', '4', '5', '6', '7', '8', '9', 'a', 'b', 'c', 'd', 'e', 'f']
}

/// The hexadecimal writing of `bytes`: two digits per byte, the high half
/// first.
pub open spec fn hex_string(bytes: Seq<u8>) -> Seq<char> {
    Seq::new(
        2 * bytes.len(),
        |i: int|
            if i % 2 == 0 {
                hex_digits()[bytes[i / 2] as int / 16]
            } else {
                hex_digits()[bytes[i / 2] as int % 16]
            },
    )
}

/// The digit for a value below sixteen.
fn hex_digit(value: u8) -> (digit: char)
    requires
        value < 16,
    ensures
        digit == hex_digits()[value as int],
{
    match value {
        0 => '0',
        1 => '1',
        2 => '2',
        3 => '3',
        4 => '4',
        5 => '5',
        6 => '6',
        7 => '7',
        8 => '8',
        9 => '9',
        10 => 'a',
        11 => 'b',
        12 => 'c',
        13 => 'd',
        14 => 'e',
        _ => 'f',
    }
}

/// Writes bytes in lower-case hexadecimal.
pub fn hex_encode(bytes: &[u8]) -> (text: String)
    ensures
        text@ == hex_string(bytes@),
{
    let mut text = String::new();
    let mut i: usize = 0;
    while i < bytes.len()
        invariant
            i <= bytes@.len(),
            text@ == hex_string(bytes@.take(i as int)),
        decreases bytes@.len() - i,
    {
        let byte = bytes[i];
        let high = hex_digit(byte / 16);
        let low = hex_digit(byte % 16);
        text.push(high);
        text.push(low);
        i = i + 1;
    }
    text
}

/// The hexadecimal writing has two characters per byte.
pub proof fn lemma_hex_string_len(bytes: Seq<u8>)
    ensures
        hex_string(bytes).len() == 2 * bytes.len(),
{
}

/// Every character of a hexadecimal writing is a digit or a lower-case
/// letter from `a` to `f`.
pub proof fn lemma_hex_string_is_lower_hex(bytes: Seq<u8>, i: int)
    requires
        0 <= i < hex_string(bytes).len(),
    ensures
        hex_digits().contains(hex_string(bytes)[i]),
{
}

/// Different bytes are written differently: two byte strings with the same
/// hexadecimal writing are the same.
pub proof fn lemma_hex_string_injective(a: Seq<u8>, b: Seq<u8>)
    requires
        hex_string(a) == hex_string(b),
    ensures
        a == b,
{
    assert(hex_string(a).len() == 2 * a.len());
    assert forall|k: int| 0 <= k < a.len() implies a[k] == b[k] by {
        let high = 2 * k;
        let low = 2 * k + 1;
        assert(hex_string(a)[high] == hex_digits()[a[k] as int / 16]);
        assert(hex_string(a)[low] == hex_digits()[a[k] as int % 16]);
        lemma_hex_digits_differ(a[k] as int / 16, b[k] as int / 16);
        lemma_hex_digits_differ(a[k] as int % 16, b[k] as int % 16);
    }
}

/// The sixteen digits are pairwise different.
proof fn lemma_hex_digits_differ(x: int, y: int)
    requires
        0 <= x < 16,
        0 <= y < 16,
        hex_digits()[x] == hex_digits()[y],
    ensures
        x == y,
{
}

/// A path with what was read at it: the bytes of the file, or `None` where
/// the file could not be read.
pub struct FileContent {
    pub path: String,
    pub bytes: Option<Vec<u8>>,
}

/// A path with the digest of the content found at it.
#[derive(Clone, Debug)]
pub struct HashResult {
    pub path: String,
    pub digest_hex: String,
}

/// A hash result by its view.
pub struct HashResultView {
    pub path: Seq<char>,
    pub digest_hex: Seq<char>,
}

impl View for HashResult {
    type V = HashResultView;

    open spec fn view(&self) -> HashResultView {
        HashResultView { path: self.path@, digest_hex: self.digest_hex@ }
    }
}

/// The content that is hashed for what a read gave: a file that could not
/// be read counts as empty.
pub open spec fn content_of(bytes: Option<Vec<u8>>) -> Seq<u8> {
    match bytes {
        Some(b) => b@,
        None => Seq::empty(),
    }
}

/// The digest of a content, in hexadecimal.
pub open spec fn digest_hex_of(content: Seq<u8>) -> Seq<char> {
    hex_string(blake3_digest(content))
}

/// The result owed for one item.
pub open spec fn hashed(item: FileContent) -> HashResultView {
    HashResultView { path: item.path@, digest_hex: digest_hex_of(content_of(item.bytes)) }
}

/// Whether `result` is the result owed for `item`, with a digest of 64
/// characters.
pub open spec fn is_hash_of(item: FileContent, result: HashResult) -> bool {
    result@ == hashed(item) && result.digest_hex@.len() == 2 * DIGEST_LEN
}

/// The digest of `content` in lower-case hexadecimal: 64 characters.
pub fn digest_hex(content: &[u8]) -> (text: String)
    ensures
        text@ == digest_hex_of(content@),
        text@.len() == 2 * DIGEST_LEN,
{
    let digest = digest_bytes(content);
    hex_encode(digest.as_slice())
}

/// Hashes one item. Its path is kept as it is; a file that could not be read
/// is hashed as the empty content.
pub fn hash_one(item: &FileContent) -> (result: HashResult)
    ensures
        is_hash_of(*item, result),
{
    let digest_hex = match &item.bytes {
        Some(bytes) => digest_hex(bytes.as_slice()),
        None => {
            let empty: Vec<u8> = Vec::new();
            digest_hex(empty.as_slice())
        },
    };
    HashResult { path: item.path.clone(), digest_hex }
}

/// Hands the items to `rayon`: `par_iter`, `map` and `collect` into a
/// vector call `hash_one` once for each item and keep the results in the
/// order of the items. A host on which `rayon` cannot start its workers ends
/// the call by a panic.
#[verifier::external_body]
fn hash_each(items: &Vec<FileContent>) -> (results: Vec<HashResult>)
    ensures
        results@.len() == items@.len(),
        forall|i: int| 0 <= i < items@.len() ==> is_hash_of(items@[i], #[trigger] results@[i]),
{
    items.par_iter().map(hash_one).collect()
}

/// Hashes every item, possibly many at a time. Each item gives exactly one
/// result, duplicates among the paths included, and the result of an item
/// stands where the item stood.
pub fn hash_files_parallel(items: &Vec<FileContent>) -> (results: Vec<HashResult>)
    ensures
        results@.len() == items@.len(),
        forall|i: int| 0 <= i < items@.len() ==> is_hash_of(items@[i], #[trigger] results@[i]),
{
    hash_each(items)
}

/// The same content gives the same digest, whatever the path.
pub proof fn lemma_same_content_same_digest(a: FileContent, b: FileContent)
    requires
        content_of(a.bytes) == content_of(b.bytes),
    ensures
        hashed(a).digest_hex == hashed(b).digest_hex,
{
}

/// Two contents have the same hexadecimal digest exactly where they have the
/// same digest.
pub proof fn lemma_digest_hex_equal_iff_digest_equal(x: Seq<u8>, y: Seq<u8>)
    ensures
        digest_hex_of(x) == digest_hex_of(y) <==> blake3_digest(x) == blake3_digest(y),
{
    if digest_hex_of(x) == digest_hex_of(y) {
        lemma_hex_string_injective(blake3_digest(x), blake3_digest(y));
    }
}

} // verus!
