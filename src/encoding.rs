use vstd::prelude::*;

verus! {

/// The text that Shift_JIS bytes decode to, or `None` when they are malformed.
pub uninterp spec fn shift_jis_decode(b: Seq<u8>) -> Option<Seq<char>>;

/// Every byte is below 0x80.
pub open spec fn all_ascii(b: Seq<u8>) -> bool {
    forall|i: int| 0 <= i < b.len() ==> b[i] < 0x80
}

/// The bytes as characters, one each.
pub open spec fn ascii_chars(b: Seq<u8>) -> Seq<char> {
    Seq::new(b.len(), |i: int| b[i] as char)
}

/// The characters of an optional string.
pub open spec fn text_of(r: Option<String>) -> Option<Seq<char>> {
    match r {
        Some(s) => Some(s@),
        None => None,
    }
}

/// Relies on `encoding_rs::SHIFT_JIS.decode_without_bom_handling_and_without_replacement`:
/// `None` on malformed input, and bytes that are all ASCII come back unchanged.
#[verifier::external_body]
fn decode_shift_jis(b: &[u8]) -> (r: Option<String>)
    ensures
        text_of(r) == shift_jis_decode(b@),
        all_ascii(b@) ==> text_of(r) == Some(ascii_chars(b@)),
{
    encoding_rs::SHIFT_JIS.decode_without_bom_handling_and_without_replacement(b).map(
        |s| s.into_owned(),
    )
}

/// The bytes before the first zero byte, or all of them when none is zero.
pub open spec fn c_prefix(b: Seq<u8>) -> Seq<u8> {
    if exists|i: int| 0 <= i < b.len() && b[i] == 0 {
        b.subrange(0, choose|i: int| 0 <= i < b.len() && b[i] == 0 && forall|j: int| 0 <= j < i ==> b[j] != 0)
    } else {
        b
    }
}

/// Length of the run of non-zero bytes at the start of `b`.
pub fn c_string_len(b: &[u8]) -> (n: usize)
    ensures
        n <= b@.len(),
        forall|j: int| 0 <= j < n ==> b@[j] != 0,
        n < b@.len() ==> b@[n as int] == 0,
        b@.subrange(0, n as int) == c_prefix(b@),
{
    let mut n: usize = 0;
    while n < b.len() && b[n] != 0
        invariant
            n <= b@.len(),
            forall|j: int| 0 <= j < n ==> b@[j] != 0,
        decreases b@.len() - n,
    {
        n += 1;
    }
    if n < b.len() {
        assert(exists|i: int| 0 <= i < b@.len() && b@[i] == 0);
        let ghost k = choose|i: int| 0 <= i < b@.len() && b@[i] == 0 && forall|j: int| 0 <= j < i ==> b@[j] != 0;
        assert(0 <= n < b@.len() && b@[n as int] == 0 && forall|j: int| 0 <= j < n ==> b@[j] != 0);
        assert(k == n) by {
            if k < n {
                assert(b@[k] != 0);
            } else if k > n {
                assert(b@[n as int] != 0);
            }
        }
    } else {
        assert(b@.subrange(0, n as int) =~= b@);
    }
    n
}

/// Decodes the zero-terminated Shift_JIS string at the start of `b` (all of
/// `b` when it holds no zero byte); `None` when the bytes are malformed.
pub fn decode_c_string(b: &[u8]) -> (r: Option<String>)
    ensures
        text_of(r) == shift_jis_decode(c_prefix(b@)),
        all_ascii(c_prefix(b@)) ==> text_of(r) == Some(ascii_chars(c_prefix(b@))),
{
    let n = c_string_len(b);
    let v = slice_prefix(b, n);
    decode_shift_jis(v.as_slice())
}

/// The first `n` bytes of `b`.
pub fn slice_prefix(b: &[u8], n: usize) -> (r: Vec<u8>)
    requires
        n <= b@.len(),
    ensures
        r@ == b@.subrange(0, n as int),
{
    let mut v: Vec<u8> = Vec::new();
    let mut i: usize = 0;
    while i < n
        invariant
            n <= b@.len(),
            i <= n,
            v@ == b@.subrange(0, i as int),
        decreases n - i,
    {
        v.push(b[i]);
        i += 1;
    }
    v
}

} // verus!
