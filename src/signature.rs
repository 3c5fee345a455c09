//! The textual grammar of ABI types and function signatures.
//!
//! A type is read from the right for array suffixes (`T[]`, `T[N]`), then as a
//! keyword (`address`, `bool`, `string`, `bytes`, `bytesN`, `uintN`, `intN`) or
//! a parenthesised tuple whose members are split at top-level commas.
use vstd::prelude::*;
use vstd::string::*;
use vstd::utf8::*;
use ethabi::ParamType;
use crate::error::DecodeError;
use vstd::slice::slice_to_vec;

verus! {

broadcast use vstd::std_specs::vec::group_vec_axioms, vstd::utf8::group_utf8_lib;

/// An ABI type as a mathematical value.
pub enum AbiType {
    Address,
    Bool,
    Str,
    Bytes,
    FixedBytes(usize),
    Uint(usize),
    Int(usize),
    Array(Box<AbiType>),
    FixedArray(Box<AbiType>, usize),
    Tuple(Seq<AbiType>),
}

/// The model of an `ethabi` type.
pub open spec fn abi_type(p: ParamType) -> AbiType
    decreases p,
{
    match p {
        ParamType::Address => AbiType::Address,
        ParamType::Bool => AbiType::Bool,
        ParamType::String => AbiType::Str,
        ParamType::Bytes => AbiType::Bytes,
        ParamType::FixedBytes(n) => AbiType::FixedBytes(n),
        ParamType::Uint(n) => AbiType::Uint(n),
        ParamType::Int(n) => AbiType::Int(n),
        ParamType::Array(inner) => AbiType::Array(Box::new(abi_type(*inner))),
        ParamType::FixedArray(inner, n) => AbiType::FixedArray(Box::new(abi_type(*inner)), n),
        ParamType::Tuple(members) => AbiType::Tuple(abi_types(members@)),
    }
}

/// The models of a list of types.
pub open spec fn abi_types(ps: Seq<ParamType>) -> Seq<AbiType>
    decreases ps,
{
    Seq::new(
        ps.len(),
        |i: int|
            if 0 <= i < ps.len() {
                abi_type(ps[i])
            } else {
                AbiType::Bool
            },
    )
}

/// Why a type text was refused.
#[derive(Debug, Clone, Copy, PartialEq, Eq)]
pub enum TypeFault {
    /// A word that is no type, or a size out of bounds.
    Unsupported,
    /// A tuple whose parentheses do not pair up.
    Parens,
    /// A signature without a name and a closed parameter list.
    NotASignature,
}

/// ASCII white space: tab, line feed, vertical tab, form feed, carriage
/// return and space.
pub open spec fn is_space(c: u8) -> bool {
    c == 32 || (9 <= c && c <= 13)
}

/// The UTF-8 bytes of a three-byte white-space character: U+1680, U+2000 to
/// U+200A, U+2028, U+2029, U+202F, U+205F or U+3000.
pub open spec fn is_space3(x: u8, y: u8, z: u8) -> bool {
    ||| (x == 0xE1 && y == 0x9A && z == 0x80)
    ||| (x == 0xE2 && y == 0x80 && ((0x80 <= z && z <= 0x8A) || z == 0xA8 || z == 0xA9 || z == 0xAF))
    ||| (x == 0xE2 && y == 0x81 && z == 0x9F)
    ||| (x == 0xE3 && y == 0x80 && z == 0x80)
}

/// The byte length of the white-space character that starts at `i`, zero where
/// none does. White space is Unicode's White_Space, as `str::trim` takes it
/// off: the ASCII ones, U+0085 and U+00A0 (two bytes), and the three-byte ones.
pub open spec fn space_len_at(s: Seq<u8>, i: int) -> int {
    if !(0 <= i < s.len()) {
        0
    } else if is_space(s[i]) {
        1
    } else if i + 1 < s.len() && s[i] == 0xC2 && (s[i + 1] == 0x85 || s[i + 1] == 0xA0) {
        2
    } else if i + 2 < s.len() && is_space3(s[i], s[i + 1], s[i + 2]) {
        3
    } else {
        0
    }
}

/// The byte length of the white-space character that ends at `j`, zero where
/// none does.
pub open spec fn space_len_before(s: Seq<u8>, j: int) -> int {
    if !(0 < j <= s.len()) {
        0
    } else if is_space(s[j - 1]) {
        1
    } else if j >= 2 && s[j - 2] == 0xC2 && (s[j - 1] == 0x85 || s[j - 1] == 0xA0) {
        2
    } else if j >= 3 && is_space3(s[j - 3], s[j - 2], s[j - 1]) {
        3
    } else {
        0
    }
}

/// The first index from `i` on that starts no white-space character.
pub open spec fn lead_end(s: Seq<u8>, i: int) -> int
    decreases s.len() - i,
{
    if 0 <= i < s.len() && space_len_at(s, i) > 0 {
        lead_end(s, i + space_len_at(s, i))
    } else {
        i
    }
}

/// The end of `s[a..j]` once trailing white-space characters are taken off.
pub open spec fn trail_end(s: Seq<u8>, a: int, j: int) -> int
    decreases j - a,
{
    if a < j && j <= s.len() && space_len_before(s, j) > 0 && j - space_len_before(s, j) >= a {
        trail_end(s, a, j - space_len_before(s, j))
    } else {
        j
    }
}

/// Text without leading and trailing white space.
pub open spec fn trim(s: Seq<u8>) -> Seq<u8> {
    let a = lead_end(s, 0);
    s.subrange(a, trail_end(s, a, s.len() as int))
}

pub open spec fn is_digit(c: u8) -> bool {
    48 <= c <= 57
}

/// The value of decimal digits, most significant first.
pub open spec fn decimal_value(s: Seq<u8>) -> nat
    decreases s.len(),
{
    if s.len() == 0 {
        0
    } else {
        10 * decimal_value(s.drop_last()) + (s.last() - 48) as nat
    }
}

/// A count written as one or more decimal digits, where it fits in `usize`.
pub open spec fn count_of(s: Seq<u8>) -> Option<usize> {
    if s.len() > 0 && (forall|i: int| 0 <= i < s.len() ==> #[trigger] is_digit(s[i]))
        && decimal_value(s) <= usize::MAX {
        Some(decimal_value(s) as usize)
    } else {
        None
    }
}

pub open spec fn starts_with(s: Seq<u8>, p: Seq<u8>) -> bool {
    p.len() <= s.len() && s.subrange(0, p.len() as int) == p
}

pub open spec fn word_address() -> Seq<u8> {
    seq![97u8, 100, 100, 114, 101, 115, 115]
}

pub open spec fn word_bool() -> Seq<u8> {
    seq![98u8, 111, 111, 108]
}

pub open spec fn word_string() -> Seq<u8> {
    seq![115u8, 116, 114, 105, 110, 103]
}

pub open spec fn word_bytes() -> Seq<u8> {
    seq![98u8, 121, 116, 101, 115]
}

pub open spec fn word_uint() -> Seq<u8> {
    seq![117u8, 105, 110, 116]
}

pub open spec fn word_int() -> Seq<u8> {
    seq![105u8, 110, 116]
}

/// The width of `uintN` or `intN`: a multiple of 8 from 8 to 256.
pub open spec fn int_width(digits: Seq<u8>) -> Option<usize> {
    match count_of(digits) {
        Some(n) => if 8 <= n <= 256 && n % 8 == 0 {
            Some(n)
        } else {
            None
        },
        None => None,
    }
}

/// The size of `bytesN`: from 1 to 32.
pub open spec fn bytes_width(digits: Seq<u8>) -> Option<usize> {
    match count_of(digits) {
        Some(n) => if 1 <= n <= 32 {
            Some(n)
        } else {
            None
        },
        None => None,
    }
}

/// The type that a keyword names.
pub open spec fn primitive_of(t: Seq<u8>) -> Option<AbiType> {
    if t == word_address() {
        Some(AbiType::Address)
    } else if t == word_bool() {
        Some(AbiType::Bool)
    } else if t == word_string() {
        Some(AbiType::Str)
    } else if t == word_bytes() {
        Some(AbiType::Bytes)
    } else if starts_with(t, word_uint()) {
        match int_width(t.subrange(4, t.len() as int)) {
            Some(n) => Some(AbiType::Uint(n)),
            None => None,
        }
    } else if starts_with(t, word_int()) {
        match int_width(t.subrange(3, t.len() as int)) {
            Some(n) => Some(AbiType::Int(n)),
            None => None,
        }
    } else if starts_with(t, word_bytes()) {
        match bytes_width(t.subrange(5, t.len() as int)) {
            Some(n) => Some(AbiType::FixedBytes(n)),
            None => None,
        }
    } else {
        None
    }
}

/// Whether text ends in `[]`.
pub open spec fn ends_with_brackets(t: Seq<u8>) -> bool {
    t.len() >= 2 && t[t.len() - 2] == 91 && t[t.len() - 1] == 93
}

/// Where the run of digits that ends at `end` starts.
pub open spec fn digits_start(t: Seq<u8>, end: int) -> int
    decreases end,
{
    if 0 < end <= t.len() && is_digit(t[end - 1]) {
        digits_start(t, end - 1)
    } else {
        end
    }
}

/// `inner[N]` with a non-empty inner text: where the inner text ends, and N.
pub open spec fn fixed_array_suffix(t: Seq<u8>) -> Option<(int, usize)> {
    if t.len() >= 1 && t[t.len() - 1] == 93 {
        let d = digits_start(t, t.len() - 1);
        if 2 <= d && t[d - 1] == 91 {
            match count_of(t.subrange(d, t.len() - 1)) {
                Some(n) => Some((d - 1, n)),
                None => None,
            }
        } else {
            None
        }
    } else {
        None
    }
}

/// Whether text is wrapped in one pair of parentheses, `(` first and `)` last.
pub open spec fn is_parenthesised(t: Seq<u8>) -> bool {
    t.len() >= 2 && t[0] == 40 && t[t.len() - 1] == 41
}

/// The pieces finished so far, the piece being read, and the parenthesis depth,
/// after the first `i` bytes of a comma-separated list.
pub open spec fn split_prefix(s: Seq<u8>, i: int) -> (Seq<Seq<u8>>, Seq<u8>, int)
    decreases i,
{
    if i <= 0 || i > s.len() {
        (Seq::empty(), Seq::empty(), 0)
    } else {
        let (done, cur, depth) = split_prefix(s, i - 1);
        let c = s[i - 1];
        if c == 40 {
            (done, cur.push(c), depth + 1)
        } else if c == 41 {
            (done, cur.push(c), depth - 1)
        } else if c == 44 && depth == 0 {
            if cur.len() > 0 {
                (done.push(trim(cur)), Seq::empty(), depth)
            } else {
                (done, cur, depth)
            }
        } else {
            (done, cur.push(c), depth)
        }
    }
}

/// A list split at its top-level commas, each piece trimmed and empty pieces
/// dropped; `None` where the parentheses do not pair up.
pub open spec fn split_top_level(s: Seq<u8>) -> Option<Seq<Seq<u8>>> {
    let (done, cur, depth) = split_prefix(s, s.len() as int);
    if depth != 0 {
        None
    } else if cur.len() > 0 {
        Some(done.push(trim(cur)))
    } else {
        Some(done)
    }
}

/// The type that text names.
pub open spec fn type_of(s: Seq<u8>) -> Result<AbiType, TypeFault>
    decreases s.len(), 1nat, 0nat,
{
    let t = trim(s);
    if t.len() > s.len() {
        Err(TypeFault::Unsupported)
    } else if ends_with_brackets(t) {
        match type_of(t.subrange(0, t.len() - 2)) {
            Ok(inner) => Ok(AbiType::Array(Box::new(inner))),
            Err(e) => Err(e),
        }
    } else if fixed_array_suffix(t) is Some {
        let (end, n) = fixed_array_suffix(t).unwrap();
        if 0 <= end < t.len() {
            match type_of(t.subrange(0, end)) {
                Ok(inner) => Ok(AbiType::FixedArray(Box::new(inner), n)),
                Err(e) => Err(e),
            }
        } else {
            Err(TypeFault::Unsupported)
        }
    } else if primitive_of(t) is Some {
        Ok(primitive_of(t).unwrap())
    } else if is_parenthesised(t) {
        match split_top_level(t.subrange(1, t.len() - 1)) {
            None => Err(TypeFault::Parens),
            Some(pieces) => match types_of(pieces, t.len()) {
                Ok(members) => Ok(AbiType::Tuple(members)),
                Err(e) => Err(e),
            },
        }
    } else {
        Err(TypeFault::Unsupported)
    }
}

/// The types that a list of texts names, each shorter than `bound`; the first
/// fault where one names none.
pub open spec fn types_of(pieces: Seq<Seq<u8>>, bound: nat) -> Result<Seq<AbiType>, TypeFault>
    decreases bound, 0nat, pieces.len(),
{
    if pieces.len() == 0 {
        Ok(Seq::empty())
    } else if pieces[0].len() < bound {
        match type_of(pieces[0]) {
            Ok(first) => match types_of(pieces.drop_first(), bound) {
                Ok(rest) => Ok(seq![first] + rest),
                Err(e) => Err(e),
            },
            Err(e) => Err(e),
        }
    } else {
        Err(TypeFault::Unsupported)
    }
}

/// The fault that an error stands for.
pub open spec fn fault_of(e: DecodeError) -> TypeFault {
    match e {
        DecodeError::MismatchedParentheses => TypeFault::Parens,
        DecodeError::InvalidSignature => TypeFault::NotASignature,
        _ => TypeFault::Unsupported,
    }
}

/// Whether a result of parsing agrees with what the grammar gives.
pub open spec fn parsed_as(r: Result<ParamType, DecodeError>, g: Result<AbiType, TypeFault>) -> bool {
    match r {
        Ok(p) => g == Ok::<AbiType, TypeFault>(abi_type(p)),
        Err(e) => g == Err::<AbiType, TypeFault>(fault_of(e)),
    }
}

fn space_len_at_exec(s: &[u8], i: usize) -> (r: usize)
    requires
        i < s@.len(),
    ensures
        r == space_len_at(s@, i as int),
{
    let c = s[i];
    if c == 32 || (9 <= c && c <= 13) {
        1
    } else if i + 1 < s.len() && c == 0xC2u8 && (s[i + 1] == 0x85u8 || s[i + 1] == 0xA0u8) {
        2
    } else if s.len() >= 3 && i < s.len() - 2 && is_space3_exec(c, s[i + 1], s[i + 2]) {
        3
    } else {
        0
    }
}

fn space_len_before_exec(s: &[u8], j: usize) -> (r: usize)
    requires
        0 < j <= s@.len(),
    ensures
        r == space_len_before(s@, j as int),
{
    let c = s[j - 1];
    if c == 32 || (9 <= c && c <= 13) {
        1
    } else if j >= 2 && s[j - 2] == 0xC2u8 && (c == 0x85u8 || c == 0xA0u8) {
        2
    } else if j >= 3 && is_space3_exec(s[j - 3], s[j - 2], c) {
        3
    } else {
        0
    }
}

fn is_space3_exec(x: u8, y: u8, z: u8) -> (r: bool)
    ensures
        r == is_space3(x, y, z),
{
    (x == 0xE1u8 && y == 0x9Au8 && z == 0x80u8) || (x == 0xE2u8 && y == 0x80u8 && ((0x80u8 <= z
        && z <= 0x8Au8) || z == 0xA8u8 || z == 0xA9u8 || z == 0xAFu8)) || (x == 0xE2u8 && y
        == 0x81u8 && z == 0x9Fu8) || (x == 0xE3u8 && y == 0x80u8 && z == 0x80u8)
}

fn is_digit_byte(c: u8) -> (r: bool)
    ensures
        r == is_digit(c),
{
    48 <= c && c <= 57
}

/// Where the text without its surrounding white space starts and ends.
fn trim_range(s: &[u8]) -> (r: (usize, usize))
    ensures
        r.0 <= r.1 <= s@.len(),
        r.0 == lead_end(s@, 0),
        s@.subrange(r.0 as int, r.1 as int) == trim(s@),
{
    let mut a: usize = 0;
    while a < s.len() && space_len_at_exec(s, a) > 0
        invariant
            0 <= a <= s@.len(),
            lead_end(s@, a as int) == lead_end(s@, 0),
        decreases s@.len() - a,
    {
        a = a + space_len_at_exec(s, a);
    }
    let mut b: usize = s.len();
    while b > a && space_len_before_exec(s, b) > 0 && b - space_len_before_exec(s, b) >= a
        invariant
            a <= b <= s@.len(),
            lead_end(s@, 0) == a,
            trail_end(s@, a as int, b as int) == trail_end(s@, a as int, s@.len() as int),
        decreases b,
    {
        b = b - space_len_before_exec(s, b);
    }
    (a, b)
}

/// Text without its surrounding white space.
fn trimmed(s: &[u8]) -> (r: Vec<u8>)
    ensures
        r@ == trim(s@),
        r@.len() <= s@.len(),
{
    let (a, b) = trim_range(s);
    slice_to_vec(&s[a..b])
}

proof fn lemma_decimal_prefix_grows(s: Seq<u8>, i: int, j: int)
    requires
        0 <= i <= j <= s.len(),
        forall|k: int| 0 <= k < s.len() ==> #[trigger] is_digit(s[k]),
    ensures
        decimal_value(s.subrange(0, i)) <= decimal_value(s.subrange(0, j)),
    decreases j - i,
{
    if i < j {
        lemma_decimal_prefix_grows(s, i, j - 1);
        assert(s.subrange(0, j).drop_last() == s.subrange(0, j - 1));
    }
}

/// Reads a count written in decimal digits.
fn parse_count(s: &[u8]) -> (r: Option<usize>)
    ensures
        r == count_of(s@),
{
    if s.len() == 0 {
        return None;
    }
    let mut k: usize = 0;
    while k < s.len()
        invariant
            0 <= k <= s@.len(),
            forall|m: int| 0 <= m < k ==> #[trigger] is_digit(s@[m]),
        decreases s@.len() - k,
    {
        if !is_digit_byte(s[k]) {
            return None;
        }
        k = k + 1;
    }
    let mut value: usize = 0;
    let mut i: usize = 0;
    while i < s.len()
        invariant
            0 <= i <= s@.len(),
            forall|m: int| 0 <= m < s@.len() ==> #[trigger] is_digit(s@[m]),
            value as nat == decimal_value(s@.subrange(0, i as int)),
        decreases s@.len() - i,
    {
        assert(s@.subrange(0, i + 1).drop_last() == s@.subrange(0, i as int));
        assert(is_digit(s@[i as int]));
        let d = (s[i] - 48u8) as usize;
        if value > (usize::MAX - d) / 10 {
            proof {
                lemma_decimal_prefix_grows(s@, i + 1, s@.len() as int);
                assert(s@.subrange(0, s@.len() as int) == s@);
            }
            return None;
        }
        value = value * 10 + d;
        i = i + 1;
    }
    assert(s@.subrange(0, s@.len() as int) == s@);
    Some(value)
}

fn same_bytes(a: &[u8], b: &[u8]) -> (r: bool)
    ensures
        r == (a@ == b@),
{
    if a.len() != b.len() {
        return false;
    }
    let mut i: usize = 0;
    while i < a.len()
        invariant
            a@.len() == b@.len(),
            0 <= i <= a@.len(),
            forall|k: int| 0 <= k < i ==> a@[k] == b@[k],
        decreases a@.len() - i,
    {
        if a[i] != b[i] {
            return false;
        }
        i = i + 1;
    }
    assert(a@ == b@);
    true
}

fn has_prefix(s: &[u8], p: &[u8]) -> (r: bool)
    ensures
        r == starts_with(s@, p@),
{
    p.len() <= s.len() && same_bytes(&s[0..p.len()], p)
}

/// The type that a keyword names.
pub fn parse_primitive_type(t: &[u8]) -> (r: Option<ParamType>)
    ensures
        match r {
            Some(p) => primitive_of(t@) == Some(abi_type(p)),
            None => primitive_of(t@) is None,
        },
{
    let address: Vec<u8> = vec![97u8, 100, 100, 114, 101, 115, 115];
    let boolean: Vec<u8> = vec![98u8, 111, 111, 108];
    let string: Vec<u8> = vec![115u8, 116, 114, 105, 110, 103];
    let bytes: Vec<u8> = vec![98u8, 121, 116, 101, 115];
    let unsigned: Vec<u8> = vec![117u8, 105, 110, 116];
    let signed: Vec<u8> = vec![105u8, 110, 116];
    assert(address@ == word_address());
    assert(boolean@ == word_bool());
    assert(string@ == word_string());
    assert(bytes@ == word_bytes());
    assert(unsigned@ == word_uint());
    assert(signed@ == word_int());
    if same_bytes(t, address.as_slice()) {
        Some(ParamType::Address)
    } else if same_bytes(t, boolean.as_slice()) {
        Some(ParamType::Bool)
    } else if same_bytes(t, string.as_slice()) {
        Some(ParamType::String)
    } else if same_bytes(t, bytes.as_slice()) {
        Some(ParamType::Bytes)
    } else if has_prefix(t, unsigned.as_slice()) {
        match parse_count(&t[4..t.len()]) {
            Some(n) => if 8 <= n && n <= 256 && n % 8 == 0 {
                Some(ParamType::Uint(n))
            } else {
                None
            },
            None => None,
        }
    } else if has_prefix(t, signed.as_slice()) {
        match parse_count(&t[3..t.len()]) {
            Some(n) => if 8 <= n && n <= 256 && n % 8 == 0 {
                Some(ParamType::Int(n))
            } else {
                None
            },
            None => None,
        }
    } else if has_prefix(t, bytes.as_slice()) {
        match parse_count(&t[5..t.len()]) {
            Some(n) => if 1 <= n && n <= 32 {
                Some(ParamType::FixedBytes(n))
            } else {
                None
            },
            None => None,
        }
    } else {
        None
    }
}

/// The texts of a list of pieces.
pub open spec fn pieces_view(v: Seq<Vec<u8>>) -> Seq<Seq<u8>> {
    Seq::new(v.len(), |i: int| v[i]@)
}

/// A list of types in front of what the rest of a list gives.
pub open spec fn prepend_types(
    first: Seq<AbiType>,
    rest: Result<Seq<AbiType>, TypeFault>,
) -> Result<Seq<AbiType>, TypeFault> {
    match rest {
        Ok(more) => Ok(first + more),
        Err(e) => Err(e),
    }
}

/// Splits a list of types at its top-level commas; each piece is trimmed, and
/// empty pieces are dropped. `None` where the parentheses do not pair up.
pub fn split_tuple_types(s: &[u8]) -> (r: Option<Vec<Vec<u8>>>)
    ensures
        match r {
            Some(v) => split_top_level(s@) == Some(pieces_view(v@)),
            None => split_top_level(s@) is None,
        },
        r is Some ==> forall|k: int|
            0 <= k < r->Some_0@.len() ==> (#[trigger] r->Some_0@[k])@.len() <= s@.len(),
{
    let mut done: Vec<Vec<u8>> = Vec::new();
    let mut cur: Vec<u8> = Vec::new();
    let mut opens: usize = 0;
    let mut closes: usize = 0;
    let mut i: usize = 0;
    while i < s.len()
        invariant
            0 <= i <= s@.len(),
            opens <= i,
            closes <= i,
            split_prefix(s@, i as int) == (pieces_view(done@), cur@, opens - closes),
            cur@.len() <= i,
            forall|k: int| 0 <= k < done@.len() ==> (#[trigger] done@[k])@.len() <= i,
        decreases s@.len() - i,
    {
        let c = s[i];
        if c == 40u8 {
            cur.push(c);
            opens = opens + 1;
        } else if c == 41u8 {
            cur.push(c);
            closes = closes + 1;
        } else if c == 44u8 && opens == closes {
            if cur.len() > 0 {
                let piece = trimmed(cur.as_slice());
                let ghost old_done = done@;
                done.push(piece);
                cur = Vec::new();
                assert(pieces_view(done@) == pieces_view(old_done).push(piece@));
            }
        } else {
            cur.push(c);
        }
        i = i + 1;
    }
    if opens != closes {
        return None;
    }
    if cur.len() > 0 {
        let piece = trimmed(cur.as_slice());
        let ghost old_done = done@;
        done.push(piece);
        assert(pieces_view(done@) == pieces_view(old_done).push(piece@));
    }
    Some(done)
}

/// Parses a list of type texts, each shorter than `bound`.
pub fn parse_type_list(pieces: &Vec<Vec<u8>>, bound: usize) -> (r: Result<Vec<ParamType>, DecodeError>)
    requires
        forall|j: int| 0 <= j < pieces@.len() ==> (#[trigger] pieces@[j])@.len() < bound,
    ensures
        match r {
            Ok(members) => types_of(pieces_view(pieces@), bound as nat) == Ok::<Seq<AbiType>, TypeFault>(
                abi_types(members@),
            ),
            Err(e) => types_of(pieces_view(pieces@), bound as nat) == Err::<Seq<AbiType>, TypeFault>(
                fault_of(e),
            ),
        },
    decreases bound, 0nat,
{
    let ghost all = pieces_view(pieces@);
    let mut members: Vec<ParamType> = Vec::new();
    let mut k: usize = 0;
    assert(all.subrange(0, all.len() as int) == all);
    while k < pieces.len()
        invariant
            0 <= k <= pieces@.len(),
            all == pieces_view(pieces@),
            forall|j: int| 0 <= j < pieces@.len() ==> (#[trigger] pieces@[j])@.len() < bound,
            types_of(all, bound as nat) == prepend_types(
                abi_types(members@),
                types_of(all.subrange(k as int, all.len() as int), bound as nat),
            ),
        decreases pieces@.len() - k,
    {
        let ghost rest = all.subrange(k as int, all.len() as int);
        assert(rest[0] == pieces@[k as int]@);
        assert(rest.drop_first() == all.subrange(k + 1, all.len() as int));
        assert(pieces@[k as int]@.len() < bound);
        match parse_type(pieces[k].as_slice()) {
            Ok(p) => {
                let ghost old_members = members@;
                members.push(p);
                assert(abi_types(members@) == abi_types(old_members) + seq![abi_type(p)]);
                assert forall|tail: Seq<AbiType>|
                    #![trigger abi_types(old_members) + (seq![abi_type(p)] + tail)]
                    abi_types(old_members) + (seq![abi_type(p)] + tail) == abi_types(members@)
                        + tail by {
                    assert(abi_types(old_members) + (seq![abi_type(p)] + tail) =~= abi_types(
                        members@,
                    ) + tail);
                }
            },
            Err(e) => {
                assert(types_of(rest, bound as nat) == Err::<Seq<AbiType>, TypeFault>(fault_of(e)));
                return Err(e);
            },
        }
        k = k + 1;
    }
    assert(all.subrange(k as int, all.len() as int) == Seq::<Seq<u8>>::empty());
    assert(abi_types(members@) + Seq::<AbiType>::empty() == abi_types(members@));
    Ok(members)
}

/// Parses the text of one ABI type.
pub fn parse_type(s: &[u8]) -> (r: Result<ParamType, DecodeError>)
    ensures
        parsed_as(r, type_of(s@)),
    decreases s@.len(), 1nat,
{
    let (a, b) = trim_range(s);
    let t = &s[a..b];
    let n = t.len();
    assert(t@ == trim(s@));
    if n >= 2 && t[n - 2] == 91u8 && t[n - 1] == 93u8 {
        return match parse_type(&t[0..n - 2]) {
            Ok(p) => Ok(ParamType::Array(Box::new(p))),
            Err(e) => Err(e),
        };
    }
    if n >= 1 && t[n - 1] == 93u8 {
        let mut d: usize = n - 1;
        while d > 0 && is_digit_byte(t[d - 1])
            invariant
                d <= n - 1,
                n == t@.len(),
                digits_start(t@, d as int) == digits_start(t@, n - 1),
            decreases d,
        {
            d = d - 1;
        }
        if d >= 2 && t[d - 1] == 91u8 {
            match parse_count(&t[d..n - 1]) {
                Some(count) => {
                    return match parse_type(&t[0..d - 1]) {
                        Ok(p) => Ok(ParamType::FixedArray(Box::new(p), count)),
                        Err(e) => Err(e),
                    };
                },
                None => {},
            }
        }
    }
    match parse_primitive_type(t) {
        Some(p) => {
            return Ok(p);
        },
        None => {},
    }
    if n >= 2 && t[0] == 40u8 && t[n - 1] == 41u8 {
        match split_tuple_types(&t[1..n - 1]) {
            None => {
                return Err(DecodeError::MismatchedParentheses);
            },
            Some(pieces) => {
                assert(forall|j: int| 0 <= j < pieces@.len() ==> (#[trigger] pieces_view(pieces@)[j]) == pieces@[j]@);
                return match parse_type_list(&pieces, n) {
                    Ok(members) => Ok(ParamType::Tuple(members)),
                    Err(e) => Err(e),
                };
            },
        }
    }
    Err(DecodeError::UnsupportedType(slice_to_vec(t)))
}

/// Letters, digits and `_`.
pub open spec fn is_word_byte(c: u8) -> bool {
    is_digit(c) || (65 <= c <= 90) || (97 <= c <= 122) || c == 95
}

/// The first index from `i` on that holds `(`; the length where none does.
pub open spec fn open_index(s: Seq<u8>, i: int) -> int
    decreases s.len() - i,
{
    if i < 0 || i >= s.len() {
        s.len() as int
    } else if s[i] == 40 {
        i
    } else {
        open_index(s, i + 1)
    }
}

/// Where the run of word bytes that ends at `end` starts.
pub open spec fn word_start(s: Seq<u8>, end: int) -> int
    decreases end,
{
    if 0 < end <= s.len() && is_word_byte(s[end - 1]) {
        word_start(s, end - 1)
    } else {
        end
    }
}

/// The index of the `)` that brings the depth, counted from `i` on, to zero;
/// the length where none does.
pub open spec fn close_index(s: Seq<u8>, i: int, depth: int) -> int
    decreases s.len() - i,
{
    if i < 0 || i >= s.len() {
        s.len() as int
    } else if s[i] == 41 {
        if depth <= 1 {
            i
        } else {
            close_index(s, i + 1, depth - 1)
        }
    } else if s[i] == 40 {
        close_index(s, i + 1, depth + 1)
    } else {
        close_index(s, i + 1, depth)
    }
}

/// A signature `name(type,...)`: the name is the run of word bytes just before
/// the first `(`, the parameter list ends at the `)` that closes it, and what
/// follows (a return type) is not read. Gives where the name starts and ends,
/// and the parameter types.
pub open spec fn signature_of(s: Seq<u8>) -> Result<(int, int, Seq<AbiType>), TypeFault> {
    let o = open_index(s, 0);
    let ws = word_start(s, o);
    let c = close_index(s, o + 1, 1);
    if o >= s.len() || ws == o || c >= s.len() {
        Err(TypeFault::NotASignature)
    } else {
        match split_top_level(s.subrange(o + 1, c)) {
            None => Err(TypeFault::Parens),
            Some(pieces) => match types_of(pieces, s.len()) {
                Ok(types) => Ok((ws, o, types)),
                Err(e) => Err(e),
            },
        }
    }
}

proof fn lemma_ascii_boundary(b: Seq<u8>, i: int)
    requires
        valid_utf8(b),
        0 <= i < b.len(),
        b[i] < 128,
    ensures
        is_char_boundary(b, i),
{
    assert(!is_continuation_byte(b[i]));
}

/// Parses a signature such as `transfer(address,uint256)` into its name and
/// parameter types.
pub fn parse_signature(signature: &str) -> (r: Result<(String, Vec<ParamType>), DecodeError>)
    ensures
        match r {
            Ok((name, types)) => {
                &&& signature_of(signature.spec_bytes()) is Ok
                &&& encode_utf8(name@) == signature.spec_bytes().subrange(
                    signature_of(signature.spec_bytes())->Ok_0.0,
                    signature_of(signature.spec_bytes())->Ok_0.1,
                )
                &&& abi_types(types@) == signature_of(signature.spec_bytes())->Ok_0.2
            },
            Err(e) => signature_of(signature.spec_bytes()) == Err::<(int, int, Seq<AbiType>), TypeFault>(
                fault_of(e),
            ),
        },
{
    let s = signature.as_bytes();
    let ghost sb = s@;
    let mut o: usize = 0;
    while o < s.len() && s[o] != 40u8
        invariant
            0 <= o <= s@.len(),
            sb == s@,
            open_index(sb, o as int) == open_index(sb, 0),
        decreases s@.len() - o,
    {
        o = o + 1;
    }
    if o >= s.len() {
        return Err(DecodeError::InvalidSignature);
    }
    let mut ws: usize = o;
    while ws > 0 && (is_digit_byte(s[ws - 1]) || (65u8 <= s[ws - 1] && s[ws - 1] <= 90u8) || (97u8
        <= s[ws - 1] && s[ws - 1] <= 122u8) || s[ws - 1] == 95u8)
        invariant
            ws <= o < s@.len(),
            sb == s@,
            word_start(sb, ws as int) == word_start(sb, o as int),
            forall|k: int| ws <= k < o ==> #[trigger] is_word_byte(sb[k]),
        decreases ws,
    {
        ws = ws - 1;
    }
    if ws == o {
        return Err(DecodeError::InvalidSignature);
    }
    let mut c: usize = o + 1;
    let mut depth: usize = 1;
    while c < s.len() && !(s[c] == 41u8 && depth <= 1)
        invariant
            o < c <= s@.len(),
            sb == s@,
            1 <= depth <= c - o,
            close_index(sb, c as int, depth as int) == close_index(sb, o + 1, 1),
        decreases s@.len() - c,
    {
        if s[c] == 41u8 {
            depth = depth - 1;
        } else if s[c] == 40u8 {
            depth = depth + 1;
        }
        c = c + 1;
    }
    if c >= s.len() {
        return Err(DecodeError::InvalidSignature);
    }
    let pieces = match split_tuple_types(&s[o + 1..c]) {
        Some(pieces) => pieces,
        None => {
            return Err(DecodeError::MismatchedParentheses);
        },
    };
    assert(forall|j: int| 0 <= j < pieces@.len() ==> (#[trigger] pieces_view(pieces@)[j]) == pieces@[j]@);
    let types = match parse_type_list(&pieces, s.len()) {
        Ok(types) => types,
        Err(e) => {
            return Err(e);
        },
    };
    proof {
        assert(valid_utf8(sb));
        assert(is_word_byte(sb[ws as int]));
        lemma_ascii_boundary(sb, ws as int);
        lemma_ascii_boundary(sb, o as int);
    }
    let (head, _rest) = signature.split_at(o);
    proof {
        let hb = head.spec_bytes();
        assert(hb == sb.subrange(0, o as int));
        assert(valid_utf8(hb));
        assert(hb[ws as int] == sb[ws as int]);
        lemma_ascii_boundary(hb, ws as int);
    }
    let (_before, name_text) = head.split_at(ws);
    assert(name_text.spec_bytes() == sb.subrange(ws as int, o as int));
    let name = String::from_str(name_text);
    Ok((name, types))
}

} // verus!
