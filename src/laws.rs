//! Properties that hold across the decoders, stated over the models that their
//! contracts use, and proved.
use vstd::prelude::*;
use ethabi::ParamType;
use crate::codec::{abi_decoding, all_sizes_bounded};
use crate::error::DecodeError;
use crate::selector::{decimal_text, list_text, selector_of, signature_text, type_text};
use crate::signature::{
    AbiType, abi_types, close_index, count_of, is_word_byte, open_index, signature_of, word_start, decimal_value, digits_start, is_digit, is_space, lead_end,
    primitive_of, split_prefix, split_top_level, trail_end, trim, type_of, types_of, word_address,
    word_bool, word_bytes, word_int, word_string, word_uint,
};
use crate::transaction::{
    expected_items, gas_limit_index, layout_decoded, rlp_count, rlp_item, Transaction,
    TransactionType,
};
use crate::without_abi::checked_call_decoded;

verus! {

/// Whether every size inside a type is within its bounds: `bytesN` from 1 to
/// 32, `uintN` and `intN` multiples of 8 from 8 to 256.
pub open spec fn well_formed(t: AbiType) -> bool
    decreases t,
{
    match t {
        AbiType::FixedBytes(n) => 1 <= n <= 32,
        AbiType::Uint(n) => 8 <= n <= 256 && n % 8 == 0,
        AbiType::Int(n) => 8 <= n <= 256 && n % 8 == 0,
        AbiType::Array(inner) => well_formed(*inner),
        AbiType::FixedArray(inner, _) => well_formed(*inner),
        AbiType::Tuple(members) => all_well_formed(members),
        _ => true,
    }
}

/// Whether every type of a list is well formed.
pub open spec fn all_well_formed(ts: Seq<AbiType>) -> bool
    decreases ts,
{
    if ts.len() == 0 {
        true
    } else {
        well_formed(ts[0]) && all_well_formed(ts.drop_first())
    }
}

proof fn lemma_primitive_well_formed(t: Seq<u8>)
    requires
        primitive_of(t) is Some,
    ensures
        well_formed(primitive_of(t)->Some_0),
{
}

/// Every type that the grammar accepts is well formed: a size out of bounds
/// (`bytes0`, `bytes33`, `uint0`, `uint260`, `uint255`), at any depth, is
/// rejected when the type is parsed.
pub proof fn lemma_parsed_types_well_formed(s: Seq<u8>)
    ensures
        type_of(s) is Ok ==> well_formed(type_of(s)->Ok_0),
    decreases s.len(), 1nat, 0nat,
{
    let t = crate::signature::trim(s);
    if t.len() > s.len() {
    } else if crate::signature::ends_with_brackets(t) {
        lemma_parsed_types_well_formed(t.subrange(0, t.len() - 2));
    } else if crate::signature::fixed_array_suffix(t) is Some {
        let (end, n) = crate::signature::fixed_array_suffix(t).unwrap();
        if 0 <= end < t.len() {
            lemma_parsed_types_well_formed(t.subrange(0, end));
        }
    } else if primitive_of(t) is Some {
        lemma_primitive_well_formed(t);
    } else if crate::signature::is_parenthesised(t) {
        match crate::signature::split_top_level(t.subrange(1, t.len() - 1)) {
            None => {},
            Some(pieces) => {
                lemma_parsed_lists_well_formed(pieces, t.len());
            },
        }
    }
}

/// Every list of types that the grammar accepts is well formed.
pub proof fn lemma_parsed_lists_well_formed(pieces: Seq<Seq<u8>>, bound: nat)
    ensures
        types_of(pieces, bound) is Ok ==> all_well_formed(types_of(pieces, bound)->Ok_0),
    decreases bound, 0nat, pieces.len(),
{
    if pieces.len() > 0 && pieces[0].len() < bound {
        lemma_parsed_types_well_formed(pieces[0]);
        lemma_parsed_lists_well_formed(pieces.drop_first(), bound);
        if types_of(pieces, bound) is Ok {
            let first = type_of(pieces[0])->Ok_0;
            let rest = types_of(pieces.drop_first(), bound)->Ok_0;
            assert((seq![first] + rest).drop_first() == rest);
            assert((seq![first] + rest)[0] == first);
        }
    }
}

/// A list whose item count is not the one of its layout is refused with a
/// structural mismatch, never read in part.
pub proof fn lemma_wrong_item_count_is_structural_mismatch(
    buf: Seq<u8>,
    kind: TransactionType,
    r: Result<Transaction, DecodeError>,
)
    requires
        rlp_count(buf) is Ok,
        rlp_count(buf)->Ok_0 != expected_items(kind),
        layout_decoded(buf, kind, r),
    ensures
        r == Err::<Transaction, DecodeError>(
            DecodeError::StructuralMismatch {
                expected: expected_items(kind),
                found: rlp_count(buf)->Ok_0,
            },
        ),
{
}

/// A decoded transaction has no recipient exactly when the recipient's item is
/// the empty byte string; any other item, a zero address included, is a recipient.
pub proof fn lemma_recipient_absent_iff_empty_item(
    buf: Seq<u8>,
    kind: TransactionType,
    r: Result<Transaction, DecodeError>,
)
    requires
        layout_decoded(buf, kind, r),
        r is Ok,
    ensures
        rlp_item(buf, (gas_limit_index(kind) + 1) as usize) is Ok,
        r->Ok_0.to is None <==> rlp_item(buf, (gas_limit_index(kind) + 1) as usize)->Ok_0 == seq![
            0x80u8,
        ],
{
}

/// The selector of a signature text depends on the text alone.
pub proof fn lemma_selector_deterministic(a: Seq<u8>, b: Seq<u8>)
    requires
        a == b,
    ensures
        selector_of(a) == selector_of(b),
{
}

/// Decoding against a signature whose canonical selector differs from the
/// call's first four bytes fails with a selector mismatch; where it agrees, the
/// parameters are whatever the codec reads.
pub proof fn lemma_signature_checked_against_selector(
    name: Seq<u8>,
    types: Seq<ParamType>,
    data: Seq<u8>,
    r: Result<Vec<ethabi::Token>, DecodeError>,
)
    requires
        data.len() >= 4,
        checked_call_decoded(name, types, data, r),
    ensures
        selector_of(signature_text(name, abi_types(types))) != data.subrange(0, 4) ==> r == Err::<
            Vec<ethabi::Token>,
            DecodeError,
        >(DecodeError::SelectorMismatch),
        selector_of(signature_text(name, abi_types(types))) == data.subrange(0, 4) ==> (r is Ok
            <==> all_sizes_bounded(types) && abi_decoding(types, data.subrange(4, data.len() as int))
            is Some),
{
}

/// The state of the comma splitter: pieces done, the piece being read, depth.
pub type SplitState = (Seq<Seq<u8>>, Seq<u8>, int);

/// One byte of the comma splitter.
pub open spec fn split_step(st: SplitState, c: u8) -> SplitState {
    let (done, cur, depth) = st;
    if c == 40 {
        (done, cur.push(c), depth + 1)
    } else if c == 41 {
        (done, cur.push(c), depth - 1)
    } else if c == 44 && depth == 0 {
        if cur.len() > 0 {
            (done.push(trim(cur)), Seq::empty(), depth)
        } else {
            (done, cur, depth)
        }
    } else {
        (done, cur.push(c), depth)
    }
}

/// The comma splitter run over some bytes from a state.
pub open spec fn split_run(st: SplitState, xs: Seq<u8>) -> SplitState
    decreases xs.len(),
{
    if xs.len() == 0 {
        st
    } else {
        split_step(split_run(st, xs.drop_last()), xs.last())
    }
}

proof fn lemma_split_prefix_is_run(s: Seq<u8>, i: int)
    requires
        0 <= i <= s.len(),
    ensures
        split_prefix(s, i) == split_run((Seq::empty(), Seq::empty(), 0), s.subrange(0, i)),
    decreases i,
{
    if i > 0 {
        lemma_split_prefix_is_run(s, i - 1);
        assert(s.subrange(0, i).drop_last() == s.subrange(0, i - 1));
    } else {
        assert(s.subrange(0, 0).len() == 0);
    }
}

proof fn lemma_split_run_concat(st: SplitState, a: Seq<u8>, b: Seq<u8>)
    ensures
        split_run(st, a + b) == split_run(split_run(st, a), b),
    decreases b.len(),
{
    if b.len() == 0 {
        assert(a + b == a);
    } else {
        lemma_split_run_concat(st, a, b.drop_last());
        assert((a + b).drop_last() == a + b.drop_last());
        assert((a + b).last() == b.last());
    }
}

/// Bytes that are no parenthesis and no comma.
pub open spec fn plain(xs: Seq<u8>) -> bool {
    forall|i: int| 0 <= i < xs.len() ==> xs[i] != 40 && xs[i] != 41 && xs[i] != 44
}

proof fn lemma_split_run_plain(st: SplitState, xs: Seq<u8>)
    requires
        plain(xs),
    ensures
        split_run(st, xs) == (st.0, st.1 + xs, st.2),
    decreases xs.len(),
{
    if xs.len() == 0 {
        assert(st.1 + xs == st.1);
    } else {
        lemma_split_run_plain(st, xs.drop_last());
        assert(st.1 + xs.drop_last() + seq![xs.last()] == st.1 + xs);
    }
}

proof fn lemma_decimal_text(n: nat)
    ensures
        decimal_text(n).len() > 0,
        forall|i: int| 0 <= i < decimal_text(n).len() ==> #[trigger] is_digit(decimal_text(n)[i]),
        decimal_value(decimal_text(n)) == n,
    decreases n,
{
    let d = decimal_text(n);
    if n >= 10 {
        lemma_decimal_text(n / 10);
        assert(d.drop_last() == decimal_text(n / 10));
        assert(d.last() == (48 + n % 10) as u8);
        assert(decimal_value(d) == 10 * (n / 10) + n % 10);
        assert(10 * (n / 10) + n % 10 == n) by (nonlinear_arith);
    } else {
        assert(d.drop_last().len() == 0);
        assert(decimal_value(d.drop_last()) == 0);
        assert(d.last() == (48 + n) as u8);
        assert((d.last() - 48) as nat == n);
    }
}

proof fn lemma_digits_plain(d: Seq<u8>)
    requires
        forall|i: int| 0 <= i < d.len() ==> #[trigger] is_digit(d[i]),
    ensures
        plain(d),
{
    assert forall|i: int| 0 <= i < d.len() implies d[i] != 40 && d[i] != 41 && d[i] != 44 by {
        assert(is_digit(d[i]));
    }
}

proof fn lemma_count_of_decimal(n: usize)
    ensures
        count_of(decimal_text(n as nat)) == Some(n),
{
    lemma_decimal_text(n as nat);
}

/// First and last bytes of a type's text, and its length.
proof fn lemma_type_text_ends(t: AbiType)
    ensures
        type_text(t).len() > 0,
        !is_space(type_text(t)[0]),
        !is_space(type_text(t).last()),
        type_text(t)[0] < 128,
        type_text(t).last() < 128,
        type_text(t)[0] != 91 && !is_digit(type_text(t)[0]),
    decreases t,
{
    match t {
        AbiType::FixedBytes(n) => {
            lemma_decimal_text(n as nat);
            assert(is_digit(decimal_text(n as nat).last()));
        },
        AbiType::Uint(n) => {
            lemma_decimal_text(n as nat);
            assert(is_digit(decimal_text(n as nat).last()));
        },
        AbiType::Int(n) => {
            lemma_decimal_text(n as nat);
            assert(is_digit(decimal_text(n as nat).last()));
        },
        AbiType::Array(inner) => {
            lemma_type_text_ends(*inner);
        },
        AbiType::FixedArray(inner, n) => {
            lemma_type_text_ends(*inner);
        },
        _ => {},
    }
}

proof fn lemma_trim_type_text(t: AbiType)
    ensures
        trim(type_text(t)) == type_text(t),
{
    let s = type_text(t);
    lemma_type_text_ends(t);
    assert(lead_end(s, 0) == 0);
    assert(trail_end(s, 0, s.len() as int) == s.len());
    assert(s.subrange(0, s.len() as int) == s);
}

proof fn lemma_run_one(st: SplitState, c: u8)
    ensures
        split_run(st, seq![c]) == split_step(st, c),
{
    assert(seq![c].drop_last() == Seq::<u8>::empty());
    assert(seq![c].last() == c);
    assert(split_run(st, Seq::<u8>::empty()) == st);
    assert(seq![c].len() == 1);
}

proof fn lemma_words_plain()
    ensures
        plain(word_address()),
        plain(word_bool()),
        plain(word_string()),
        plain(word_bytes()),
        plain(word_uint()),
        plain(word_int()),
        plain(seq![91u8]),
        plain(seq![93u8]),
        plain(seq![91u8, 93]),
{
}

proof fn lemma_run_word_then_number(st: SplitState, w: Seq<u8>, n: nat)
    requires
        plain(w),
    ensures
        split_run(st, w + decimal_text(n)) == (st.0, st.1 + (w + decimal_text(n)), st.2),
{
    lemma_decimal_text(n);
    lemma_digits_plain(decimal_text(n));
    lemma_split_run_concat(st, w, decimal_text(n));
    lemma_split_run_plain(st, w);
    lemma_split_run_plain((st.0, st.1 + w, st.2), decimal_text(n));
    assert(st.1 + w + decimal_text(n) == st.1 + (w + decimal_text(n)));
}

/// Running the splitter over a type's text, from a depth of at least zero,
/// appends the text to the piece being read and ends at the same depth.
proof fn lemma_run_type_text(st: SplitState, t: AbiType)
    requires
        st.2 >= 0,
    ensures
        split_run(st, type_text(t)) == (st.0, st.1 + type_text(t), st.2),
    decreases t,
{
    lemma_words_plain();
    match t {
        AbiType::Address => lemma_split_run_plain(st, word_address()),
        AbiType::Bool => lemma_split_run_plain(st, word_bool()),
        AbiType::Str => lemma_split_run_plain(st, word_string()),
        AbiType::Bytes => lemma_split_run_plain(st, word_bytes()),
        AbiType::FixedBytes(n) => lemma_run_word_then_number(st, word_bytes(), n as nat),
        AbiType::Uint(n) => lemma_run_word_then_number(st, word_uint(), n as nat),
        AbiType::Int(n) => lemma_run_word_then_number(st, word_int(), n as nat),
        AbiType::Array(inner) => {
            let a = type_text(*inner);
            lemma_split_run_concat(st, a, seq![91u8, 93]);
            lemma_run_type_text(st, *inner);
            lemma_split_run_plain((st.0, st.1 + a, st.2), seq![91u8, 93]);
            assert(st.1 + a + seq![91u8, 93] == st.1 + (a + seq![91u8, 93]));
        },
        AbiType::FixedArray(inner, n) => {
            let a = type_text(*inner);
            let d = decimal_text(n as nat);
            lemma_decimal_text(n as nat);
            lemma_digits_plain(d);
            lemma_run_type_text(st, *inner);
            lemma_split_run_concat(st, a + seq![91u8] + d, seq![93u8]);
            lemma_split_run_concat(st, a + seq![91u8], d);
            lemma_split_run_concat(st, a, seq![91u8]);
            lemma_split_run_plain((st.0, st.1 + a, st.2), seq![91u8]);
            lemma_split_run_plain((st.0, st.1 + a + seq![91u8], st.2), d);
            lemma_split_run_plain((st.0, st.1 + a + seq![91u8] + d, st.2), seq![93u8]);
            assert(st.1 + a + seq![91u8] + d + seq![93u8] == st.1 + (a + seq![91u8] + d + seq![93u8]));
        },
        AbiType::Tuple(members) => {
            let l = list_text(members);
            lemma_split_run_concat(st, seq![40u8] + l, seq![41u8]);
            lemma_split_run_concat(st, seq![40u8], l);
            lemma_run_one(st, 40u8);
            let st1 = (st.0, st.1.push(40u8), st.2 + 1);
            assert(split_run(st, seq![40u8]) == st1);
            lemma_run_list_text(st1, members);
            let st2 = (st.0, st.1.push(40u8) + l, st.2 + 1);
            lemma_run_one(st2, 41u8);
            assert(split_run(st2, seq![41u8]) == (st.0, (st.1.push(40u8) + l).push(41u8), st.2));
            assert((st.1.push(40u8) + l).push(41u8) == st.1 + (seq![40u8] + l + seq![41u8]));
        },
    }
}

/// Running the splitter over a list's text inside parentheses appends it whole.
proof fn lemma_run_list_text(st: SplitState, ms: Seq<AbiType>)
    requires
        st.2 >= 1,
    ensures
        split_run(st, list_text(ms)) == (st.0, st.1 + list_text(ms), st.2),
    decreases ms,
{
    if ms.len() == 0 {
        assert(st.1 + list_text(ms) == st.1);
    } else if ms.len() == 1 {
        lemma_run_type_text(st, ms[0]);
    } else {
        let front = list_text(ms.drop_last());
        let last = type_text(ms.last());
        lemma_split_run_concat(st, front + seq![44u8], last);
        lemma_split_run_concat(st, front, seq![44u8]);
        lemma_run_list_text(st, ms.drop_last());
        lemma_run_one((st.0, st.1 + front, st.2), 44u8);
        let st1 = (st.0, st.1 + front + seq![44u8], st.2);
        assert((st.1 + front).push(44u8) == st.1 + front + seq![44u8]);
        assert(split_run((st.0, st.1 + front, st.2), seq![44u8]) == st1);
        lemma_run_type_text(st1, ms.last());
        assert(st.1 + front + seq![44u8] + last == st.1 + (front + seq![44u8] + last));
    }
}

/// The texts of a list of types.
pub open spec fn texts_of(ms: Seq<AbiType>) -> Seq<Seq<u8>> {
    Seq::new(ms.len(), |i: int| type_text(ms[i]))
}

proof fn lemma_run_top_level_list(ms: Seq<AbiType>)
    requires
        ms.len() >= 1,
    ensures
        split_run((Seq::empty(), Seq::empty(), 0), list_text(ms)) == (
            texts_of(ms.drop_last()),
            type_text(ms.last()),
            0int,
        ),
    decreases ms.len(),
{
    let init: SplitState = (Seq::empty(), Seq::empty(), 0);
    if ms.len() == 1 {
        lemma_run_type_text(init, ms[0]);
        assert(Seq::<u8>::empty() + type_text(ms[0]) == type_text(ms[0]));
        assert(texts_of(ms.drop_last()) == Seq::<Seq<u8>>::empty());
    } else {
        let rest = ms.drop_last();
        let front = list_text(rest);
        let last = type_text(ms.last());
        lemma_run_top_level_list(rest);
        lemma_split_run_concat(init, front + seq![44u8], last);
        lemma_split_run_concat(init, front, seq![44u8]);
        let before = (texts_of(rest.drop_last()), type_text(rest.last()), 0int);
        lemma_run_one(before, 44u8);
        lemma_type_text_ends(rest.last());
        lemma_trim_type_text(rest.last());
        let after = (texts_of(rest.drop_last()).push(type_text(rest.last())), Seq::<u8>::empty(), 0int);
        assert(split_run(init, front + seq![44u8]) == after);
        assert(texts_of(rest.drop_last()).push(type_text(rest.last())) == texts_of(rest));
        lemma_run_type_text(after, ms.last());
        assert(Seq::<u8>::empty() + last == last);
    }
}

proof fn lemma_split_list_text(ms: Seq<AbiType>)
    ensures
        split_top_level(list_text(ms)) == Some(texts_of(ms)),
{
    let x = list_text(ms);
    lemma_split_prefix_is_run(x, x.len() as int);
    assert(x.subrange(0, x.len() as int) == x);
    if ms.len() == 0 {
        assert(texts_of(ms) == Seq::<Seq<u8>>::empty());
    } else {
        lemma_run_top_level_list(ms);
        lemma_type_text_ends(ms.last());
        lemma_trim_type_text(ms.last());
        assert(texts_of(ms.drop_last()).push(type_text(ms.last())) == texts_of(ms));
    }
}

proof fn lemma_member_text_shorter(ms: Seq<AbiType>, i: int)
    requires
        0 <= i < ms.len(),
    ensures
        type_text(ms[i]).len() <= list_text(ms).len(),
    decreases ms.len(),
{
    if ms.len() > 1 && i < ms.len() - 1 {
        lemma_member_text_shorter(ms.drop_last(), i);
    }
}

proof fn lemma_digits_run_start(s: Seq<u8>, k: int, j: int)
    requires
        0 <= k < j <= s.len(),
        s[k] == 91,
        forall|m: int| k < m < j ==> #[trigger] is_digit(s[m]),
    ensures
        digits_start(s, j) == k + 1,
    decreases j - k,
{
    if j > k + 1 {
        assert(is_digit(s[j - 1]));
        lemma_digits_run_start(s, k, j - 1);
    }
}

#[verifier::rlimit(40)]
proof fn lemma_parse_back_fixed_bytes(n: usize)
    requires
        1 <= n <= 32,
    ensures
        type_of(type_text(AbiType::FixedBytes(n))) == Ok::<AbiType, crate::signature::TypeFault>(
            AbiType::FixedBytes(n),
        ),
{
    let t = AbiType::FixedBytes(n);
    let s = type_text(t);
    lemma_trim_type_text(t);
    lemma_type_text_ends(t);
    lemma_decimal_text(n as nat);
    lemma_count_of_decimal(n);
    assert(s[0] == 98u8 && s[1] == 121u8);
    assert(s != word_address() && s != word_bool() && s != word_string());
    assert(s.len() > word_bytes().len());
    assert(s.subrange(0, 4)[0] == 98u8 && s.subrange(0, 3)[0] == 98u8);
    assert(!crate::signature::starts_with(s, word_uint()));
    assert(!crate::signature::starts_with(s, word_int()));
    assert(s.subrange(0, 5) == word_bytes());
    assert(s.subrange(5, s.len() as int) == decimal_text(n as nat));
    assert(primitive_of(s) == Some(t));
}

#[verifier::rlimit(40)]
proof fn lemma_parse_back_uint(n: usize)
    requires
        8 <= n <= 256,
        n % 8 == 0,
    ensures
        type_of(type_text(AbiType::Uint(n))) == Ok::<AbiType, crate::signature::TypeFault>(
            AbiType::Uint(n),
        ),
{
    let t = AbiType::Uint(n);
    let s = type_text(t);
    lemma_trim_type_text(t);
    lemma_type_text_ends(t);
    lemma_decimal_text(n as nat);
    lemma_count_of_decimal(n);
    assert(s[0] == 117u8);
    assert(s != word_address() && s != word_bool() && s != word_string() && s != word_bytes());
    assert(s.subrange(0, 4) == word_uint());
    assert(s.subrange(4, s.len() as int) == decimal_text(n as nat));
    assert(primitive_of(s) == Some(t));
}

#[verifier::rlimit(40)]
proof fn lemma_parse_back_int(n: usize)
    requires
        8 <= n <= 256,
        n % 8 == 0,
    ensures
        type_of(type_text(AbiType::Int(n))) == Ok::<AbiType, crate::signature::TypeFault>(
            AbiType::Int(n),
        ),
{
    let t = AbiType::Int(n);
    let s = type_text(t);
    lemma_trim_type_text(t);
    lemma_type_text_ends(t);
    lemma_decimal_text(n as nat);
    lemma_count_of_decimal(n);
    assert(s[0] == 105u8);
    assert(s != word_address() && s != word_bool() && s != word_string() && s != word_bytes());
    assert(s.subrange(0, 4)[0] == 105u8);
    assert(!crate::signature::starts_with(s, word_uint()));
    assert(s.subrange(0, 3) == word_int());
    assert(s.subrange(3, s.len() as int) == decimal_text(n as nat));
    assert(primitive_of(s) == Some(t));
}

proof fn lemma_parse_back_word(t: AbiType)
    requires
        t is Address || t is Bool || t is Str || t is Bytes,
    ensures
        type_of(type_text(t)) == Ok::<AbiType, crate::signature::TypeFault>(t),
{
    lemma_trim_type_text(t);
    lemma_type_text_ends(t);
}

proof fn lemma_parse_back_array(inner: AbiType)
    requires
        type_of(type_text(inner)) == Ok::<AbiType, crate::signature::TypeFault>(inner),
    ensures
        type_of(type_text(AbiType::Array(Box::new(inner)))) == Ok::<AbiType, crate::signature::TypeFault>(
            AbiType::Array(Box::new(inner)),
        ),
{
    let t = AbiType::Array(Box::new(inner));
    let s = type_text(t);
    lemma_trim_type_text(t);
    lemma_type_text_ends(t);
    assert(s.subrange(0, s.len() - 2) == type_text(inner));
}

proof fn lemma_parse_back_fixed_array(inner: AbiType, n: usize)
    requires
        type_of(type_text(inner)) == Ok::<AbiType, crate::signature::TypeFault>(inner),
    ensures
        type_of(type_text(AbiType::FixedArray(Box::new(inner), n))) == Ok::<
            AbiType,
            crate::signature::TypeFault,
        >(AbiType::FixedArray(Box::new(inner), n)),
{
    let t = AbiType::FixedArray(Box::new(inner), n);
    let s = type_text(t);
    let a = type_text(inner);
    let d = decimal_text(n as nat);
    lemma_trim_type_text(t);
    lemma_type_text_ends(t);
    lemma_type_text_ends(inner);
    lemma_decimal_text(n as nat);
    lemma_count_of_decimal(n);
    assert(s[a.len() as int] == 91u8);
    assert forall|m: int| a.len() < m < s.len() - 1 implies #[trigger] is_digit(s[m]) by {
        assert(s[m] == d[m - a.len() - 1]);
    }
    lemma_digits_run_start(s, a.len() as int, s.len() - 1);
    assert(is_digit(s[s.len() - 2]));
    assert(s.subrange(a.len() as int + 1, s.len() - 1) == d);
    assert(s.subrange(0, a.len() as int) == a);
}

proof fn lemma_no_primitive_starts_with_paren(s: Seq<u8>)
    requires
        s.len() > 0,
        s[0] == 40,
    ensures
        primitive_of(s) is None,
{
    assert(s != word_address() && s != word_bool() && s != word_string() && s != word_bytes()) by {
        assert(word_address()[0] != 40 && word_bool()[0] != 40 && word_string()[0] != 40
            && word_bytes()[0] != 40);
    }
    if s.len() >= 3 {
        assert(s.subrange(0, 3)[0] == 40);
        assert(s.subrange(0, 3) != word_int());
    }
    if s.len() >= 4 {
        assert(s.subrange(0, 4)[0] == 40);
        assert(s.subrange(0, 4) != word_uint());
    }
    if s.len() >= 5 {
        assert(s.subrange(0, 5)[0] == 40);
        assert(s.subrange(0, 5) != word_bytes());
    }
}

#[verifier::rlimit(50)]
proof fn lemma_parse_back_tuple(ms: Seq<AbiType>)
    requires
        types_of(texts_of(ms), type_text(AbiType::Tuple(ms)).len()) == Ok::<
            Seq<AbiType>,
            crate::signature::TypeFault,
        >(ms),
    ensures
        type_of(type_text(AbiType::Tuple(ms))) == Ok::<AbiType, crate::signature::TypeFault>(
            AbiType::Tuple(ms),
        ),
{
    let t = AbiType::Tuple(ms);
    let s = type_text(t);
    lemma_trim_type_text(t);
    lemma_type_text_ends(t);
    assert(s.subrange(1, s.len() - 1) == list_text(ms));
    assert(s[0] == 40u8);
    assert(s.last() == 41u8);
    lemma_no_primitive_starts_with_paren(s);
    assert(!crate::signature::ends_with_brackets(s));
    assert(crate::signature::fixed_array_suffix(s) is None);
    assert(crate::signature::is_parenthesised(s));
    lemma_split_list_text(ms);
}

/// Reading the canonical text of a well-formed type gives the type back: the
/// textual grammar and the canonical writing agree on every type.
pub proof fn lemma_canonical_text_parses_back(t: AbiType)
    requires
        well_formed(t),
    ensures
        type_of(type_text(t)) == Ok::<AbiType, crate::signature::TypeFault>(t),
    decreases t,
{
    match t {
        AbiType::Array(inner) => {
            lemma_canonical_text_parses_back(*inner);
            lemma_parse_back_array(*inner);
        },
        AbiType::FixedArray(inner, n) => {
            lemma_canonical_text_parses_back(*inner);
            lemma_parse_back_fixed_array(*inner, n);
        },
        AbiType::Tuple(members) => {
            let s = type_text(t);
            assert(s == seq![40u8] + list_text(members) + seq![41u8]);
            assert forall|i: int| 0 <= i < members.len() implies #[trigger] texts_of(members)[i].len()
                < s.len() by {
                lemma_member_text_shorter(members, i);
            }
            lemma_texts_parse_back(members, s.len());
            lemma_parse_back_tuple(members);
        },
        AbiType::FixedBytes(n) => lemma_parse_back_fixed_bytes(n),
        AbiType::Uint(n) => lemma_parse_back_uint(n),
        AbiType::Int(n) => lemma_parse_back_int(n),
        _ => lemma_parse_back_word(t),
    }
}

/// Reading the canonical texts of well-formed types gives the types back.
pub proof fn lemma_texts_parse_back(ms: Seq<AbiType>, bound: nat)
    requires
        all_well_formed(ms),
        forall|i: int| 0 <= i < ms.len() ==> #[trigger] texts_of(ms)[i].len() < bound,
    ensures
        types_of(texts_of(ms), bound) == Ok::<Seq<AbiType>, crate::signature::TypeFault>(ms),
    decreases ms,
{
    if ms.len() > 0 {
        let pieces = texts_of(ms);
        assert(pieces[0].len() < bound);
        lemma_canonical_text_parses_back(ms[0]);
        assert(pieces.drop_first() == texts_of(ms.drop_first()));
        assert forall|i: int| 0 <= i < ms.drop_first().len() implies #[trigger] texts_of(ms.drop_first())[i].len() < bound by {
            assert(texts_of(ms.drop_first())[i] == pieces[i + 1]);
        }
        lemma_texts_parse_back(ms.drop_first(), bound);
        assert(seq![ms[0]] + ms.drop_first() == ms);
    } else {
        assert(texts_of(ms) == Seq::<Seq<u8>>::empty());
        assert(ms == Seq::<AbiType>::empty());
    }
}

proof fn lemma_within(s: Seq<u8>, i: int, x: Seq<u8>, p: int, q: int)
    requires
        0 <= i,
        i + x.len() <= s.len(),
        s.subrange(i, i + x.len()) == x,
        0 <= p <= q <= x.len(),
    ensures
        s.subrange(i + p, i + q) == x.subrange(p, q),
        p < x.len() ==> s[i + p] == x[p],
{
    assert(s.subrange(i + p, i + q) =~= x.subrange(p, q)) by {
        assert forall|k: int| 0 <= k < q - p implies s.subrange(i + p, i + q)[k] == x.subrange(p, q)[k] by {
            assert(s.subrange(i, i + x.len())[p + k] == s[i + p + k]);
        }
    }
    if p < x.len() {
        assert(s.subrange(i, i + x.len())[p] == s[i + p]);
    }
}

proof fn lemma_close_index_plain(s: Seq<u8>, i: int, j: int, depth: int)
    requires
        0 <= i <= j <= s.len(),
        plain(s.subrange(i, j)),
    ensures
        close_index(s, i, depth) == close_index(s, j, depth),
    decreases j - i,
{
    if i < j {
        assert(s.subrange(i, j)[0] == s[i]);
        assert(s.subrange(i + 1, j) == s.subrange(i, j).drop_first());
        lemma_close_index_plain(s, i + 1, j, depth);
    }
}

proof fn lemma_close_index_one(s: Seq<u8>, i: int, depth: int)
    requires
        0 <= i < s.len(),
    ensures
        s[i] == 40 ==> close_index(s, i, depth) == close_index(s, i + 1, depth + 1),
        s[i] == 41 && depth > 1 ==> close_index(s, i, depth) == close_index(s, i + 1, depth - 1),
        s[i] == 41 && depth <= 1 ==> close_index(s, i, depth) == i,
        s[i] != 40 && s[i] != 41 ==> close_index(s, i, depth) == close_index(s, i + 1, depth),
{
}

/// Scanning for the closing parenthesis from inside a parenthesis passes over
/// a whole type's text.
proof fn lemma_close_index_type_text(s: Seq<u8>, i: int, depth: int, t: AbiType)
    requires
        depth >= 1,
        0 <= i,
        i + type_text(t).len() <= s.len(),
        s.subrange(i, i + type_text(t).len()) == type_text(t),
    ensures
        close_index(s, i, depth) == close_index(s, i + type_text(t).len(), depth),
    decreases t,
{
    let x = type_text(t);
    let e = i + x.len();
    lemma_words_plain();
    match t {
        AbiType::Array(inner) => {
            let a = type_text(*inner);
            lemma_within(s, i, x, 0, a.len() as int);
            assert(x.subrange(0, a.len() as int) == a);
            lemma_close_index_type_text(s, i, depth, *inner);
            lemma_within(s, i, x, a.len() as int, x.len() as int);
            assert(x.subrange(a.len() as int, x.len() as int) == seq![91u8, 93]);
            lemma_close_index_plain(s, i + a.len(), e, depth);
        },
        AbiType::FixedArray(inner, n) => {
            let a = type_text(*inner);
            let d = decimal_text(n as nat);
            lemma_decimal_text(n as nat);
            lemma_digits_plain(d);
            lemma_within(s, i, x, 0, a.len() as int);
            assert(x.subrange(0, a.len() as int) == a);
            lemma_close_index_type_text(s, i, depth, *inner);
            let tail = seq![91u8] + d + seq![93u8];
            assert forall|k: int| 0 <= k < tail.len() implies tail[k] != 40 && tail[k] != 41 && tail[k] != 44 by {
                if 0 < k < tail.len() - 1 {
                    assert(tail[k] == d[k - 1]);
                }
            }
            lemma_within(s, i, x, a.len() as int, x.len() as int);
            assert(x.subrange(a.len() as int, x.len() as int) == tail);
            lemma_close_index_plain(s, i + a.len(), e, depth);
        },
        AbiType::Tuple(members) => {
            let l = list_text(members);
            lemma_within(s, i, x, 0, 1);
            assert(x[0] == 40);
            lemma_close_index_one(s, i, depth);
            lemma_within(s, i, x, 1, 1 + l.len() as int);
            assert(x.subrange(1, 1 + l.len() as int) == l);
            lemma_close_index_list_text(s, i + 1, depth + 1, members);
            lemma_within(s, i, x, x.len() - 1, x.len() as int);
            assert(x[x.len() - 1] == 41);
            lemma_close_index_one(s, e - 1, depth + 1);
        },
        _ => {
            lemma_decimal_text_plain_words(t);
            lemma_close_index_plain(s, i, e, depth);
        },
    }
}

proof fn lemma_decimal_text_plain_words(t: AbiType)
    requires
        !(t is Array || t is FixedArray || t is Tuple),
    ensures
        plain(type_text(t)),
{
    lemma_words_plain();
    match t {
        AbiType::FixedBytes(n) => {
            lemma_decimal_text(n as nat);
            lemma_digits_plain(decimal_text(n as nat));
        },
        AbiType::Uint(n) => {
            lemma_decimal_text(n as nat);
            lemma_digits_plain(decimal_text(n as nat));
        },
        AbiType::Int(n) => {
            lemma_decimal_text(n as nat);
            lemma_digits_plain(decimal_text(n as nat));
        },
        _ => {},
    }
}

/// Scanning for the closing parenthesis passes over a whole list's text.
proof fn lemma_close_index_list_text(s: Seq<u8>, i: int, depth: int, ms: Seq<AbiType>)
    requires
        depth >= 1,
        0 <= i,
        i + list_text(ms).len() <= s.len(),
        s.subrange(i, i + list_text(ms).len()) == list_text(ms),
    ensures
        close_index(s, i, depth) == close_index(s, i + list_text(ms).len(), depth),
    decreases ms,
{
    if ms.len() == 1 {
        lemma_close_index_type_text(s, i, depth, ms[0]);
    } else if ms.len() > 1 {
        let front = list_text(ms.drop_last());
        let last = type_text(ms.last());
        let x = list_text(ms);
        let m = i + front.len();
        lemma_within(s, i, x, 0, front.len() as int);
        assert(x.subrange(0, front.len() as int) == front);
        lemma_close_index_list_text(s, i, depth, ms.drop_last());
        lemma_within(s, i, x, front.len() as int, front.len() as int + 1);
        assert(x[front.len() as int] == 44);
        lemma_close_index_one(s, m, depth);
        lemma_within(s, i, x, front.len() as int + 1, x.len() as int);
        assert(x.subrange(front.len() as int + 1, x.len() as int) == last);
        lemma_close_index_type_text(s, m + 1, depth, ms.last());
    }
}

/// Reading a canonical signature, whose name is a run of word bytes and whose
/// types are well formed, gives back the name and the types.
pub proof fn lemma_canonical_signature_parses_back(name: Seq<u8>, ts: Seq<AbiType>)
    requires
        name.len() > 0,
        forall|i: int| 0 <= i < name.len() ==> #[trigger] is_word_byte(name[i]),
        all_well_formed(ts),
    ensures
        signature_of(signature_text(name, ts)) == Ok::<
            (int, int, Seq<AbiType>),
            crate::signature::TypeFault,
        >((0, name.len() as int, ts)),
{
    let s = signature_text(name, ts);
    let l = list_text(ts);
    let o = name.len() as int;
    assert(s[o] == 40);
    assert forall|k: int| 0 <= k < o implies s[k] != 40 by {
        assert(s[k] == name[k]);
        assert(is_word_byte(name[k]));
    }
    lemma_open_index_first(s, 0, o);
    lemma_word_start_run(s, o);
    assert(s.subrange(o + 1, o + 1 + l.len()) == l);
    lemma_close_index_list_text(s, o + 1, 1, ts);
    assert(s[o + 1 + l.len()] == 41);
    lemma_close_index_one(s, o + 1 + l.len(), 1);
    assert(s.subrange(o + 1, o + 1 + l.len()) == l);
    lemma_split_list_text(ts);
    assert forall|i: int| 0 <= i < ts.len() implies #[trigger] texts_of(ts)[i].len() < s.len() by {
        lemma_member_text_shorter(ts, i);
    }
    lemma_texts_parse_back(ts, s.len());
}

proof fn lemma_open_index_first(s: Seq<u8>, i: int, o: int)
    requires
        0 <= i <= o < s.len(),
        s[o] == 40,
        forall|k: int| i <= k < o ==> s[k] != 40,
    ensures
        open_index(s, i) == o,
    decreases o - i,
{
    if i < o {
        lemma_open_index_first(s, i + 1, o);
    }
}

proof fn lemma_word_start_run(s: Seq<u8>, end: int)
    requires
        0 <= end <= s.len(),
        forall|k: int| 0 <= k < end ==> #[trigger] is_word_byte(s[k]),
    ensures
        word_start(s, end) == 0,
    decreases end,
{
    if end > 0 {
        assert(is_word_byte(s[end - 1]));
        lemma_word_start_run(s, end - 1);
    }
}

/// A registry answer written canonically is checked against the hash of its own
/// text: once parsed (as the signature decoder parses it), the selector that
/// decoding recomputes is the answer's hash, so an answer that truly hashes to
/// the call's selector never fails the check, and the call decodes exactly when
/// the codec reads its parameters.
pub proof fn lemma_true_registry_answer_passes_check(
    name: Seq<u8>,
    ts: Seq<AbiType>,
    parsed_name: Seq<u8>,
    parsed_types: Seq<ParamType>,
    data: Seq<u8>,
    r: Result<Vec<ethabi::Token>, DecodeError>,
)
    requires
        name.len() > 0,
        forall|i: int| 0 <= i < name.len() ==> #[trigger] is_word_byte(name[i]),
        all_well_formed(ts),
        signature_of(signature_text(name, ts)) is Ok,
        parsed_name == signature_text(name, ts).subrange(
            signature_of(signature_text(name, ts))->Ok_0.0,
            signature_of(signature_text(name, ts))->Ok_0.1,
        ),
        abi_types(parsed_types) == signature_of(signature_text(name, ts))->Ok_0.2,
        data.len() >= 4,
        selector_of(signature_text(name, ts)) == data.subrange(0, 4),
        checked_call_decoded(parsed_name, parsed_types, data, r),
    ensures
        r != Err::<Vec<ethabi::Token>, DecodeError>(DecodeError::SelectorMismatch),
        r is Ok <==> all_sizes_bounded(parsed_types) && abi_decoding(
            parsed_types,
            data.subrange(4, data.len() as int),
        ) is Some,
{
    lemma_canonical_signature_parses_back(name, ts);
    let text = signature_text(name, ts);
    assert(text.subrange(0, name.len() as int) == name);
}

} // verus!
