//! The identifier codec: external identifiers are 24-character hexadecimal
//! strings naming 12 bytes, the document store's native identifier encoding.
//!
//! `todo_id_from_str` validates and decodes such a string; a malformed
//! string is rejected with a [`ValidationError`]. Identifiers are ordered as
//! big-endian integers over their bytes, which is the bytewise order the
//! store sorts by; [`id_key`] gives that integer.
use vstd::prelude::*;
use vstd::string::StrSliceExecFns;

verus! {

/// A malformed external identifier.
#[derive(Clone, Copy, Debug, PartialEq, Eq, Structural)]
pub struct ValidationError {}

/// A server-assigned document identifier: 12 bytes.
#[derive(Debug)]
pub struct TodoId {
    bytes: Vec<u8>,
}

/// The numeric value of a hexadecimal digit, or -1 for any other character.
/// Both digit cases are accepted.
pub open spec fn hex_digit_value(c: char) -> int {
    let u = c as u32;
    if '0' as u32 <= u <= '9' as u32 {
        u - '0' as u32
    } else if 'a' as u32 <= u <= 'f' as u32 {
        u - 'a' as u32 + 10
    } else if 'A' as u32 <= u <= 'F' as u32 {
        u - 'A' as u32 + 10
    } else {
        -1
    }
}

pub open spec fn is_hex_digit(c: char) -> bool {
    hex_digit_value(c) >= 0
}

/// A well-formed external identifier: exactly 24 hexadecimal characters.
pub open spec fn valid_id_string(s: Seq<char>) -> bool {
    s.len() == 24 && forall|i: int| 0 <= i < 24 ==> is_hex_digit(#[trigger] s[i])
}

/// The byte a pair of hexadecimal digits encodes.
pub open spec fn byte_of_digits(hi: char, lo: char) -> u8 {
    (hex_digit_value(hi) * 16 + hex_digit_value(lo)) as u8
}

/// The 12 bytes a well-formed identifier string encodes.
pub open spec fn id_bytes_of(s: Seq<char>) -> Seq<u8> {
    Seq::new(12, |i: int| byte_of_digits(s[2 * i], s[2 * i + 1]))
}

/// An identifier's value as a big-endian integer over its bytes; identifiers
/// are ordered by this value, which at a fixed length is bytewise
/// lexicographic order.
pub open spec fn id_key(s: Seq<u8>) -> int
    decreases s.len(),
{
    if s.len() == 0 {
        0
    } else {
        256 * id_key(s.drop_last()) + s.last()
    }
}

/// 256 to the power `n`; bounds `id_key` for bytes of length `n`.
pub open spec fn pow256(n: nat) -> int
    decreases n,
{
    if n == 0 {
        1
    } else {
        256 * pow256((n - 1) as nat)
    }
}

proof fn lemma_id_key_bound(s: Seq<u8>)
    ensures
        0 <= id_key(s) < pow256(s.len()),
    decreases s.len(),
{
    if s.len() > 0 {
        lemma_id_key_bound(s.drop_last());
        assert(256 * id_key(s.drop_last()) + s.last() < 256 * pow256((s.len() - 1) as nat))
            by (nonlinear_arith)
            requires
                id_key(s.drop_last()) < pow256((s.len() - 1) as nat),
                0 <= id_key(s.drop_last()),
                s.last() < 256,
        ;
        assert(0 <= 256 * id_key(s.drop_last())) by (nonlinear_arith)
            requires
                0 <= id_key(s.drop_last()),
        ;
    }
}

impl View for TodoId {
    type V = Seq<u8>;

    closed spec fn view(&self) -> Seq<u8> {
        self.bytes@
    }
}

impl TodoId {
    /// A well-formed identifier holds exactly 12 bytes; every constructor
    /// of the library establishes this.
    pub open spec fn wf(&self) -> bool {
        self@.len() == 12
    }

    /// The identifier's bytes.
    pub fn as_bytes(&self) -> (r: &Vec<u8>)
        ensures
            r@ == self@,
    {
        &self.bytes
    }

    /// The identifier's ordering key, its value as a big-endian integer.
    pub fn key(&self) -> (k: u128)
        requires
            self.wf(),
        ensures
            k == id_key(self@),
    {
        let mut k: u128 = 0;
        let n = self.bytes.len();
        let mut i: usize = 0;
        while i < n
            invariant
                n == self@.len() == 12,
                0 <= i <= n,
                k == id_key(self@.take(i as int)),
            decreases n - i,
        {
            proof {
                lemma_id_key_bound(self@.take(i as int));
                lemma_pow256_le(i as nat, 11);
                lemma_pow256_11();
                assert(256 * k < 256 * pow256(11)) by (nonlinear_arith)
                    requires
                        0 <= k < pow256(11),
                ;
                assert(self@.take(i as int + 1).drop_last() =~= self@.take(i as int));
                assert(self@.take(i as int + 1).last() == self@[i as int]);
            }
            k = k * 256 + self.bytes[i] as u128;
            i = i + 1;
        }
        proof {
            assert(self@.take(n as int) =~= self@);
        }
        k
    }
}

impl Clone for TodoId {
    /// A clone names the same document: the bytes are kept.
    fn clone(&self) -> (r: Self)
        ensures
            r@ == self@,
    {
        let mut bytes: Vec<u8> = Vec::new();
        let mut i: usize = 0;
        let n = self.bytes.len();
        while i < n
            invariant
                n == self@.len(),
                0 <= i <= n,
                bytes@ =~= self@.take(i as int),
            decreases n - i,
        {
            bytes.push(self.bytes[i]);
            i = i + 1;
        }
        proof {
            assert(self@.take(n as int) =~= self@);
        }
        TodoId { bytes }
    }
}

proof fn lemma_pow256_le(i: nat, j: nat)
    requires
        i <= j,
    ensures
        pow256(i) <= pow256(j),
    decreases j,
{
    if i < j {
        lemma_pow256_le(i, (j - 1) as nat);
        assert(pow256(j) == 256 * pow256((j - 1) as nat));
        assert(pow256((j - 1) as nat) >= 1) by {
            lemma_pow256_pos((j - 1) as nat);
        }
    }
}

proof fn lemma_pow256_pos(n: nat)
    ensures
        pow256(n) >= 1,
    decreases n,
{
    if n > 0 {
        lemma_pow256_pos((n - 1) as nat);
    }
}

proof fn lemma_pow256_11()
    ensures
        pow256(11) == 0x10000000000000000000000,
{
    reveal_with_fuel(pow256, 12);
}

/// The numeric value of one hexadecimal character, or `None` for any other
/// character.
fn hex_digit(c: char) -> (r: Option<u8>)
    ensures
        r is Some <==> is_hex_digit(c),
        r matches Some(v) ==> v == hex_digit_value(c) && v < 16,
{
    let u = c as u32;
    if 48 <= u && u <= 57 {
        Some((u - 48) as u8)
    } else if 97 <= u && u <= 102 {
        Some((u - 97 + 10) as u8)
    } else if 65 <= u && u <= 70 {
        Some((u - 65 + 10) as u8)
    } else {
        None
    }
}

/// Decode an external identifier string. Returns the identifier exactly when
/// the string is 24 hexadecimal characters, and a [`ValidationError`] on any
/// other string.
pub fn todo_id_from_str(id: &str) -> (r: Result<TodoId, ValidationError>)
    ensures
        r is Ok <==> valid_id_string(id@),
        r matches Ok(t) ==> t@ == id_bytes_of(id@) && t.wf(),
{
    let n = id.unicode_len();
    if n != 24 {
        return Err(ValidationError {});
    }
    let mut bytes: Vec<u8> = Vec::new();
    let mut i: usize = 0;
    while i < 12
        invariant
            id@.len() == 24,
            0 <= i <= 12,
            bytes@ =~= id_bytes_of(id@).take(i as int),
            forall|j: int| 0 <= j < 2 * i ==> is_hex_digit(#[trigger] id@[j]),
        decreases 12 - i,
    {
        let hi = match hex_digit(id.get_char(2 * i)) {
            Some(v) => v,
            None => {
                return Err(ValidationError {});
            },
        };
        let lo = match hex_digit(id.get_char(2 * i + 1)) {
            Some(v) => v,
            None => {
                return Err(ValidationError {});
            },
        };
        bytes.push(hi * 16 + lo);
        proof {
            assert(bytes@ =~= id_bytes_of(id@).take(i as int + 1));
        }
        i = i + 1;
    }
    proof {
        assert(bytes@ =~= id_bytes_of(id@));
        assert(forall|j: int| 0 <= j < 24 ==> is_hex_digit(#[trigger] id@[j]));
    }
    Ok(TodoId { bytes })
}

} // verus!
