//! 128-bit identifiers encoded as 32 characters of the `k`-`z` alphabet.

use rand::RngExt;
use vstd::prelude::*;

use vstd::string::{StringExecFns, StringSliceAdditionalSpecFns};
use vstd::utf8::encode_utf8;

use crate::text::{chars_of, decimal, decimal_chars, lemma_lex_lt_at, lex_lt, push_all, string_of};

verus! {

/// The random number generator that `rand::rng` hands out.
#[verifier::external_type_specification]
#[verifier::external_body]
pub struct ExThreadRng(rand::rngs::ThreadRng);

/// Calls `rand::rng`, the thread-local random number generator. Nothing is
/// stated of it.
#[verifier::external_body]
fn thread_rng() -> rand::rngs::ThreadRng {
    rand::rng()
}

/// Calls `RngExt::random::<u8>` on the generator. The byte drawn is left
/// free: any `u8` may come back.
#[verifier::external_body]
fn random_byte(rng: &mut rand::rngs::ThreadRng) -> u8 {
    rng.random()
}

/// The character that encodes a nibble: `0` is `z`, `15` is `k`.
pub open spec fn nibble_char(n: int) -> char {
    ((122 - n) as u8) as char
}

/// The nibble at position `k` of the nibble stream of `b`
/// (high nibble first within each byte).
pub open spec fn nibble_at(b: Seq<u8>, k: int) -> int {
    if k % 2 == 0 {
        b[k / 2] as int / 16
    } else {
        b[k / 2] as int % 16
    }
}

/// The `k`-`z` encoding of a byte sequence: two characters per byte.
pub open spec fn encode_bytes(b: Seq<u8>) -> Seq<char> {
    Seq::new(2 * b.len(), |k: int| nibble_char(nibble_at(b, k)))
}

/// Whether a byte is one of `k`..=`z`.
pub open spec fn is_id_byte(c: u8) -> bool {
    107 <= c <= 122
}

/// Whether a character is one of `k`..=`z`.
pub open spec fn is_id_char(c: char) -> bool {
    'k' <= c <= 'z'
}

/// The nibble that an id byte stands for.
pub open spec fn byte_nibble(c: u8) -> int {
    122 - c
}

/// The bytes that a sequence of id bytes decodes to, two input bytes each.
pub open spec fn decode_bytes(s: Seq<u8>) -> Seq<u8> {
    Seq::new(s.len() / 2, |i: int| (byte_nibble(s[2 * i]) * 16 + byte_nibble(s[2 * i + 1])) as u8)
}

/// `j` is the position of the first byte of `s` outside `k`..=`z`.
pub open spec fn first_bad_byte(s: Seq<u8>, j: int) -> bool {
    &&& 0 <= j < s.len()
    &&& !is_id_byte(s[j])
    &&& forall|k: int| 0 <= k < j ==> is_id_byte(#[trigger] s[k])
}

/// Whether every byte of `s` is one of `k`..=`z`.
pub open spec fn all_id_bytes(s: Seq<u8>) -> bool {
    forall|k: int| 0 <= k < s.len() ==> is_id_byte(#[trigger] s[k])
}

/// The error for a string whose byte length is not 32.
pub open spec fn length_error(n: nat) -> Seq<char> {
    "Id must be exactly 32 characters, got "@ + decimal(n)
}

/// The error for a byte outside the alphabet (the byte read as a `char`).
pub open spec fn byte_error(c: u8) -> Seq<char> {
    "Id must contain only characters k-z, found '"@ + seq![c as char] + "'"@
}

/// What decoding a byte string yields: the 16 bytes, or the error message.
pub open spec fn spec_decode(s: Seq<u8>) -> Result<Seq<u8>, Seq<char>> {
    if s.len() != 32 {
        Err(length_error(s.len()))
    } else if all_id_bytes(s) {
        Ok(decode_bytes(s))
    } else {
        Err(byte_error(s[choose|j: int| first_bad_byte(s, j)]))
    }
}

/// A 128-bit identifier encoded as a 32-character string using the `k`-`z` alphabet.
///
/// Each byte is split into two nibbles and mapped through a reverse-hex alphabet,
/// producing a lowercase, URL-safe string that sorts in reverse byte order.
#[derive(Clone, Copy, Debug, Eq, Hash)]
pub struct Primitive(pub [u8; 16]);

impl View for Primitive {
    type V = Seq<u8>;

    closed spec fn view(&self) -> Seq<u8> {
        self.0@
    }
}

impl PartialEq for Primitive {
    fn eq(&self, other: &Self) -> (r: bool) {
        let mut i: usize = 0;
        while i < 16
            invariant
                0 <= i <= 16,
                self@.len() == 16,
                other@.len() == 16,
                forall|k: int| 0 <= k < i ==> self@[k] == other@[k],
            decreases 16 - i,
        {
            if self.0[i] != other.0[i] {
                return false;
            }
            i = i + 1;
        }
        assert(self@ =~= other@);
        true
    }
}

impl vstd::std_specs::cmp::PartialEqSpecImpl for Primitive {
    open spec fn obeys_eq_spec() -> bool {
        true
    }

    open spec fn eq_spec(&self, other: &Self) -> bool {
        self@ == other@
    }
}

impl Primitive {
    /// An id always holds sixteen bytes.
    pub broadcast proof fn lemma_len(id: Primitive)
        ensures
            #[trigger] id@.len() == 16,
    {
    }
}

/// Converts one nibble to its character.
fn nibble_to_char(n: u8) -> (c: char)
    requires
        n < 16,
    ensures
        c == nibble_char(n as int),
{
    (122u8 - n) as char
}

/// Converts one alphabet byte back to its nibble.
fn nibble_from_byte(c: u8) -> (r: Result<u8, String>)
    ensures
        match r {
            Ok(n) => is_id_byte(c) && n == byte_nibble(c),
            Err(e) => !is_id_byte(c) && e@ == byte_error(c),
        },
{
    if 107 <= c && c <= 122 {
        Ok(122 - c)
    } else {
        let mut msg = chars_of("Id must contain only characters k-z, found '");
        let ghost head = msg@;
        msg.push(c as char);
        let tail = chars_of("'");
        push_all(&mut msg, &tail);
        assert(head.push(c as char) =~= head + seq![c as char]);
        Err(string_of(&msg))
    }
}

/// Encodes the first `n` bytes of `bytes`, two characters per byte.
fn encode_first(bytes: &[u8; 16], n: usize) -> (r: Vec<char>)
    requires
        n <= 16,
    ensures
        r@ == encode_bytes(bytes@.take(n as int)),
{
    let mut s: Vec<char> = Vec::new();
    let mut i: usize = 0;
    while i < n
        invariant
            0 <= i <= n <= 16,
            bytes@.len() == 16,
            s@.len() == 2 * i,
            forall|k: int| 0 <= k < 2 * i ==> s@[k] == nibble_char(#[trigger] nibble_at(bytes@, k)),
        decreases n - i,
    {
        let b = bytes[i];
        let high = b / 16;
        let low = b % 16;
        s.push(nibble_to_char(high));
        s.push(nibble_to_char(low));
        i = i + 1;
        assert forall|k: int| 0 <= k < 2 * i implies s@[k] == nibble_char(
            #[trigger] nibble_at(bytes@, k),
        ) by {
            if k >= 2 * (i - 1) {
                assert(k / 2 == i - 1);
            }
        }
    }
    let ghost t = bytes@.take(n as int);
    assert(encode_bytes(t).len() == 2 * n);
    assert forall|k: int| 0 <= k < 2 * n implies s@[k] == encode_bytes(t)[k] by {
        assert(t[k / 2] == bytes@[k / 2]);
        assert(s@[k] == nibble_char(nibble_at(bytes@, k)));
        assert(nibble_at(bytes@, k) == nibble_at(t, k));
    }
    assert(s@ =~= encode_bytes(t));
    s
}

impl Primitive {
    /// The 32-character encoding of this id.
    pub open spec fn encoded(&self) -> Seq<char> {
        encode_bytes(self@)
    }

    /// Generate a new random `Id` using the thread-local RNG.
    pub fn new() -> (r: Self)
        ensures
            r@.len() == 16,
    {
        let mut rng = thread_rng();
        let mut bytes = [0u8; 16];
        let mut i: usize = 0;
        while i < 16
            invariant
                0 <= i <= 16,
            decreases 16 - i,
        {
            bytes[i] = random_byte(&mut rng);
            i = i + 1;
        }
        Primitive(bytes)
    }
}


/// The error for an empty prefix.
pub open spec fn prefix_empty_error() -> Seq<char> {
    "Id prefix must not be empty"@
}

/// The error for a prefix longer than 32 bytes.
pub open spec fn prefix_length_error(n: nat) -> Seq<char> {
    "Id prefix must be at most 32 characters, got "@ + decimal(n)
}

/// The error for a prefix character outside the alphabet.
pub open spec fn prefix_char_error(c: char) -> Seq<char> {
    "Id prefix must contain only characters k-z, found '"@ + seq![c] + "'"@
}

/// `j` is the position of the first character of `s` outside `k`..=`z`.
pub open spec fn first_bad_char(s: Seq<char>, j: int) -> bool {
    &&& 0 <= j < s.len()
    &&& !is_id_char(s[j])
    &&& forall|k: int| 0 <= k < j ==> is_id_char(#[trigger] s[k])
}

/// Whether every character of `s` is one of `k`..=`z`.
pub open spec fn all_id_chars(s: Seq<char>) -> bool {
    forall|k: int| 0 <= k < s.len() ==> is_id_char(#[trigger] s[k])
}

/// What validating an id prefix yields for a string with the given
/// characters and UTF-8 bytes.
pub open spec fn spec_validate_prefix(chars: Seq<char>, bytes: Seq<u8>) -> Result<(), Seq<char>> {
    if chars.len() == 0 {
        Err(prefix_empty_error())
    } else if bytes.len() > 32 {
        Err(prefix_length_error(bytes.len()))
    } else if all_id_chars(chars) {
        Ok(())
    } else {
        Err(prefix_char_error(chars[choose|j: int| first_bad_char(chars, j)]))
    }
}

/// The first bad position is unique.
proof fn lemma_first_bad_byte_unique(s: Seq<u8>, j: int)
    requires
        first_bad_byte(s, j),
    ensures
        (choose|i: int| first_bad_byte(s, i)) == j,
{
    let i = choose|i: int| first_bad_byte(s, i);
    assert(first_bad_byte(s, i));
    if i < j {
        assert(is_id_byte(s[i]));
    } else if i > j {
        assert(is_id_byte(s[j]));
    }
}

/// The first bad character is unique.
proof fn lemma_first_bad_char_unique(s: Seq<char>, j: int)
    requires
        first_bad_char(s, j),
    ensures
        (choose|i: int| first_bad_char(s, i)) == j,
{
    let i = choose|i: int| first_bad_char(s, i);
    assert(first_bad_char(s, i));
    if i < j {
        assert(is_id_char(s[i]));
    } else if i > j {
        assert(is_id_char(s[j]));
    }
}

impl Primitive {
    /// Validate that `s` is a valid ID prefix: 1-32 characters, all in `[k-z]`.
    ///
    /// Returns `Ok(s)` on success so callers can chain the result. Rejects empty
    /// strings, strings longer than 32 bytes, and any character outside the
    /// ID alphabet (the first such character is reported).
    pub fn validate_prefix(s: &str) -> (r: Result<&str, String>)
        ensures
            match r {
                Ok(t) => t@ == s@ && spec_validate_prefix(s@, s.spec_bytes()) == Ok::<(), Seq<char>>(()),
                Err(e) => spec_validate_prefix(s@, s.spec_bytes()) == Err::<(), Seq<char>>(e@),
            },
    {
        if s.is_empty() {
            return Err(String::from_str("Id prefix must not be empty"));
        }
        let n = s.as_bytes().len();
        if n > 32 {
            let mut msg = chars_of("Id prefix must be at most 32 characters, got ");
            let digits = decimal_chars(n);
            push_all(&mut msg, &digits);
            return Err(string_of(&msg));
        }
        let cs = chars_of(s);
        let mut i: usize = 0;
        while i < cs.len()
            invariant
                0 <= i <= cs.len(),
                cs@ == s@,
                s@.len() > 0,
                s.spec_bytes().len() <= 32,
                forall|k: int| 0 <= k < i ==> is_id_char(#[trigger] cs@[k]),
            decreases cs.len() - i,
        {
            let c = cs[i];
            if !('k' <= c && c <= 'z') {
                proof {
                    assert(first_bad_char(s@, i as int));
                    lemma_first_bad_char_unique(s@, i as int);
                }
                let mut msg = chars_of("Id prefix must contain only characters k-z, found '");
                let ghost head = msg@;
                msg.push(c);
                assert(head.push(c) =~= head + seq![c]);
                let tail = chars_of("'");
                push_all(&mut msg, &tail);
                return Err(string_of(&msg));
            }
            i = i + 1;
        }
        Ok(s)
    }

    /// Decode a 32-byte `[k-z]` string back into 16 raw bytes.
    pub fn decode(s: &str) -> (r: Result<[u8; 16], String>)
        ensures
            r matches Ok(b) ==> spec_decode(s.spec_bytes()) == Ok::<Seq<u8>, Seq<char>>(b@),
            r matches Err(e) ==> spec_decode(s.spec_bytes()) == Err::<Seq<u8>, Seq<char>>(e@),
    {
        let chars = s.as_bytes();
        let ghost sb = s.spec_bytes();
        if chars.len() != 32 {
            let mut msg = chars_of("Id must be exactly 32 characters, got ");
            let digits = decimal_chars(chars.len());
            push_all(&mut msg, &digits);
            return Err(string_of(&msg));
        }
        let mut bytes = [0u8; 16];
        let mut i: usize = 0;
        while i < 16
            invariant
                0 <= i <= 16,
                chars@ == sb,
                sb == s.spec_bytes(),
                sb.len() == 32,
                forall|k: int| 0 <= k < 2 * i ==> is_id_byte(#[trigger] sb[k]),
                forall|k: int|
                    0 <= k < i ==> #[trigger] bytes@[k] == (byte_nibble(sb[2 * k]) * 16
                        + byte_nibble(sb[2 * k + 1])) as u8,
            decreases 16 - i,
        {
            let high = match nibble_from_byte(chars[2 * i]) {
                Ok(h) => h,
                Err(e) => {
                    proof {
                        assert(first_bad_byte(sb, 2 * i));
                        lemma_first_bad_byte_unique(sb, 2 * i);
                    }
                    return Err(e);
                },
            };
            let low = match nibble_from_byte(chars[2 * i + 1]) {
                Ok(l) => l,
                Err(e) => {
                    proof {
                        assert(first_bad_byte(sb, 2 * i + 1));
                        lemma_first_bad_byte_unique(sb, 2 * i + 1);
                    }
                    return Err(e);
                },
            };
            bytes[i] = high * 16 + low;
            i = i + 1;
        }
        assert(all_id_bytes(sb));
        assert(bytes@ =~= decode_bytes(sb));
        Ok(bytes)
    }

    /// Encode 16 raw bytes into a 32-character `[k-z]` string.
    pub fn encode(bytes: &[u8; 16]) -> (r: String)
        ensures
            r@ == encode_bytes(bytes@),
    {
        let v = encode_first(bytes, 16);
        assert(bytes@.take(16) =~= bytes@);
        string_of(&v)
    }

    /// Encode only the first 4 bytes into an 8-character string for [`Primitive::short`].
    pub fn encode_prefix(bytes: &[u8; 16]) -> (r: String)
        ensures
            r@ == encode_bytes(bytes@).take(8),
    {
        let v = encode_first(bytes, 4);
        let ghost t = bytes@.take(4);
        assert forall|k: int| 0 <= k < 8 implies encode_bytes(t)[k] == encode_bytes(bytes@)[k] by {
            assert(t[k / 2] == bytes@[k / 2]);
        }
        assert(encode_bytes(t) =~= encode_bytes(bytes@).take(8));
        string_of(&v)
    }

    /// Returns the first 8 characters of the encoded ID as a short prefix.
    pub fn short(&self) -> (r: String)
        ensures
            r@ == self.encoded().take(8),
    {
        Self::encode_prefix(&self.0)
    }

    /// Formats the ID as its 32-character `[k-z]` encoded string.
    pub fn to_string(&self) -> (r: String)
        ensures
            r@ == self.encoded(),
    {
        Self::encode(&self.0)
    }

    /// Parses a 32-character `[k-z]` string into an `Id`.
    ///
    /// Returns an error if the string is not exactly 32 bytes long or
    /// contains characters outside the `[k-z]` range.
    pub fn parse_str(s: &str) -> (r: Result<Self, String>)
        ensures
            match r {
                Ok(id) => spec_decode(s.spec_bytes()) == Ok::<Seq<u8>, Seq<char>>(id@),
                Err(e) => spec_decode(s.spec_bytes()) == Err::<Seq<u8>, Seq<char>>(e@),
            },
    {
        let n = s.as_bytes().len();
        if n != 32 {
            let mut msg = chars_of("Id must be exactly 32 characters, got ");
            let digits = decimal_chars(n);
            push_all(&mut msg, &digits);
            return Err(string_of(&msg));
        }
        match Self::decode(s) {
            Ok(b) => Ok(Primitive(b)),
            Err(e) => Err(e),
        }
    }
}

/// Every encoded id consists of alphabet characters only, and so is ASCII.
pub proof fn lemma_encoded_chars(b: Seq<u8>)
    ensures
        all_id_chars(encode_bytes(b)),
        vstd::utf8::is_ascii_chars(encode_bytes(b)),
        encode_utf8(encode_bytes(b)).len() == 2 * b.len(),
        forall|k: int|
            0 <= k < 2 * b.len() ==> #[trigger] encode_utf8(encode_bytes(b))[k] == 122
                - nibble_at(b, k),
{
    let e = encode_bytes(b);
    assert forall|k: int| 0 <= k < e.len() implies is_id_char(#[trigger] e[k]) && '\0' <= e[k]
        <= '\u{7f}' by {
        let n = nibble_at(b, k);
        assert(0 <= n < 16);
    }
    vstd::utf8::is_ascii_chars_encode_utf8(e);
}

/// Decoding the encoding of any 16 bytes gives those bytes back: the text
/// form of an id parses to the same id.
pub proof fn law_decode_encode(b: Seq<u8>)
    requires
        b.len() == 16,
    ensures
        spec_decode(encode_utf8(encode_bytes(b))) == Ok::<Seq<u8>, Seq<char>>(b),
{
    lemma_encoded_chars(b);
    let s = encode_utf8(encode_bytes(b));
    assert forall|k: int| 0 <= k < s.len() implies is_id_byte(#[trigger] s[k]) by {
        assert(s[k] == 122 - nibble_at(b, k));
    }
    assert forall|i: int| 0 <= i < 16 implies #[trigger] decode_bytes(s)[i] == b[i] by {
        assert(s[2 * i] == 122 - nibble_at(b, 2 * i));
        assert(s[2 * i + 1] == 122 - nibble_at(b, 2 * i + 1));
        assert((2 * i) / 2 == i);
        assert((2 * i + 1) / 2 == i);
        assert((2 * i) % 2 == 0);
        assert((2 * i + 1) % 2 == 1);
    }
    assert(decode_bytes(s) =~= b);
}

/// Encoding what a valid 32-byte id string decodes to gives that string
/// back: the encoding is a bijection between byte arrays and id strings.
pub proof fn law_encode_decode(s: Seq<u8>)
    requires
        s.len() == 32,
        all_id_bytes(s),
    ensures
        encode_utf8(encode_bytes(decode_bytes(s))) == s,
{
    let b = decode_bytes(s);
    lemma_encoded_chars(b);
    let t = encode_utf8(encode_bytes(b));
    assert forall|k: int| 0 <= k < 32 implies #[trigger] t[k] == s[k] by {
        let i = k / 2;
        assert(is_id_byte(s[2 * i]));
        assert(is_id_byte(s[2 * i + 1]));
        assert(b[i] == (byte_nibble(s[2 * i]) * 16 + byte_nibble(s[2 * i + 1])) as u8);
        assert(t[k] == 122 - nibble_at(b, k));
    }
    assert(t =~= s);
}

/// Every non-empty beginning of an id's text is a valid id prefix; in
/// particular the short form of every id is one.
pub proof fn law_id_text_prefixes_are_valid(b: Seq<u8>, n: int)
    requires
        b.len() == 16,
        1 <= n <= 32,
    ensures
        spec_validate_prefix(encode_bytes(b).take(n), encode_utf8(encode_bytes(b).take(n))) == Ok::<(), Seq<char>>(()),
{
    lemma_encoded_chars(b);
    let e = encode_bytes(b);
    let t = e.take(n);
    assert(vstd::utf8::is_ascii_chars(t)) by {
        assert forall|i: int| 0 <= i < t.len() implies '\0' <= #[trigger] t[i] <= '\u{7f}' by {
            assert(t[i] == e[i]);
        }
    }
    vstd::utf8::is_ascii_chars_encode_utf8(t);
    assert(all_id_chars(t)) by {
        assert forall|i: int| 0 <= i < t.len() implies is_id_char(#[trigger] t[i]) by {
            assert(t[i] == e[i]);
        }
    }
}

/// Whether byte sequence `a` sorts before `b`: they agree before some
/// position where `a`'s byte is smaller.
pub open spec fn bytes_before(a: Seq<u8>, b: Seq<u8>) -> bool {
    exists|i: int| 0 <= i < a.len() && i < b.len() && a.take(i) == b.take(i) && #[trigger] a[i] < b[i]
}

/// The encoding sorts in reverse byte order: when one id's bytes sort
/// before another's, its text sorts after the other's.
pub proof fn law_encoding_reverses_order(a: Seq<u8>, b: Seq<u8>)
    requires
        a.len() == 16,
        b.len() == 16,
        bytes_before(a, b),
    ensures
        lex_lt(encode_bytes(b), encode_bytes(a)),
{
    let i = choose|i: int| 0 <= i < a.len() && i < b.len() && a.take(i) == b.take(i) && #[trigger] a[i] < b[i];
    let ea = encode_bytes(a);
    let eb = encode_bytes(b);
    let k = if (a[i] as int) / 16 < (b[i] as int) / 16 {
        2 * i
    } else {
        2 * i + 1
    };
    assert(forall|j: int| 0 <= j < i ==> a[j] == b[j]) by {
        assert forall|j: int| 0 <= j < i implies a[j] == b[j] by {
            assert(a.take(i)[j] == b.take(i)[j]);
        }
    }
    assert(eb.take(k) =~= ea.take(k)) by {
        assert forall|j: int| 0 <= j < k implies eb.take(k)[j] == ea.take(k)[j] by {
            assert(j / 2 <= i);
            if j / 2 < i {
                assert(a[j / 2] == b[j / 2]);
            } else {
                assert(j == 2 * i);
                assert((a[i] as int) / 16 == (b[i] as int) / 16);
            }
            assert(nibble_at(a, j) == nibble_at(b, j));
        }
    }
    assert((a[i] as int) / 16 <= (b[i] as int) / 16);
    assert(nibble_at(b, k) > nibble_at(a, k)) by {
        if k == 2 * i {
            assert(k / 2 == i && k % 2 == 0);
        } else {
            assert(k / 2 == i && k % 2 == 1);
            assert((a[i] as int) / 16 == (b[i] as int) / 16);
        }
    }
    assert(0 <= nibble_at(a, k) < 16 && 0 <= nibble_at(b, k) < 16);
    assert((eb[k] as u32) == 122 - nibble_at(b, k));
    assert((ea[k] as u32) == 122 - nibble_at(a, k));
    lemma_lex_lt_at(eb, ea, k);
}

impl Default for Primitive {
    /// A fresh random id.
    fn default() -> (r: Self)
        ensures
            r@.len() == 16,
    {
        Self::new()
    }
}

impl std::str::FromStr for Primitive {
    type Err = String;

    /// Parses a 32-character `[k-z]` string, as `parse_str` does.
    fn from_str(s: &str) -> (r: Result<Self, String>)
        ensures
            match r {
                Ok(id) => spec_decode(s.spec_bytes()) == Ok::<Seq<u8>, Seq<char>>(id@),
                Err(e) => spec_decode(s.spec_bytes()) == Err::<Seq<u8>, Seq<char>>(e@),
            },
    {
        Self::parse_str(s)
    }
}

} // verus!
