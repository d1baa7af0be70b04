//! UUIDs, as the numbers that they are.
use crate::json::hex_digit;
use vstd::prelude::*;

verus! {

/// The last `len` lowercase hexadecimal digits of a number.
pub open spec fn hex_text(n: nat, len: nat) -> Seq<char>
    decreases len,
{
    if len == 0 {
        Seq::empty()
    } else {
        hex_text(n / 16, (len - 1) as nat).push(hex_digit((n % 16) as int))
    }
}

/// The text of a UUID: its digits with hyphens behind the eighth, the twelfth, the
/// sixteenth and the twentieth.
pub open spec fn hyphenated(id: u128) -> Seq<char> {
    let digits = hex_text(id as nat, 32);
    digits.subrange(0, 8).push('-') + digits.subrange(8, 12).push('-') + digits.subrange(
        12,
        16,
    ).push('-') + digits.subrange(16, 20).push('-') + digits.subrange(20, 32)
}

/// The version of a UUID.
pub open spec fn version(id: u128) -> u128 {
    (id / 0x1000_0000_0000_0000_0000) % 16
}

/// The number of the UUID that a text is read as; none if it is not read as one.
pub uninterp spec fn uuid_read(text: Seq<char>) -> Option<u128>;

/// `uuid::Uuid::now_v7` makes a new UUID of version 7 from the time and random bits.
/// Which one is not stated.
#[verifier::external_body]
pub(crate) fn now_v7() -> (r: u128)
    ensures
        version(r) == 7,
{
    uuid::Uuid::now_v7().as_u128()
}

/// `uuid::Uuid` is displayed as its lowercase hexadecimal digits with four hyphens.
#[verifier::external_body]
pub(crate) fn to_text(id: u128) -> (r: String)
    ensures
        r@ == hyphenated(id),
{
    uuid::Uuid::from_u128(id).to_string()
}

/// `uuid::Uuid` is parsed from several notations; the one that it is displayed in is
/// among them.
#[verifier::external_body]
pub(crate) fn parse(text: &str) -> (r: Option<u128>)
    ensures
        r == uuid_read(text@),
        forall|id: u128| text@ == #[trigger] hyphenated(id) ==> r == Some(id),
{
    text.parse::<uuid::Uuid>().ok().map(|id| id.as_u128())
}

/// A number below `16^len` is determined by its last `len` digits.
proof fn lemma_hex_text(a: nat, b: nat, len: nat)
    requires
        hex_text(a, len) == hex_text(b, len),
        a < vstd::arithmetic::power::pow(16, len),
        b < vstd::arithmetic::power::pow(16, len),
    ensures
        a == b,
    decreases len,
{
    reveal(vstd::arithmetic::power::pow);
    if len > 0 {
        let rest = (len - 1) as nat;
        let high_a = hex_text(a / 16, rest);
        let high_b = hex_text(b / 16, rest);
        let low_a = hex_digit((a % 16) as int);
        let low_b = hex_digit((b % 16) as int);
        assert(high_a.push(low_a).last() == low_a);
        assert(high_b.push(low_b).last() == low_b);
        assert(high_a.push(low_a).drop_last() =~= high_a);
        assert(high_b.push(low_b).drop_last() =~= high_b);
        let below = vstd::arithmetic::power::pow(16, rest);
        assert(vstd::arithmetic::power::pow(16, len) == 16 * below);
        lemma_hex_text(a / 16, b / 16, rest);
    }
}

proof fn lemma_hex_text_len(n: nat, len: nat)
    ensures
        hex_text(n, len).len() == len,
    decreases len,
{
    if len > 0 {
        lemma_hex_text_len(n / 16, (len - 1) as nat);
    }
}

/// A lowercase hexadecimal digit or a hyphen.
pub open spec fn id_char(c: char) -> bool {
    '0' <= c <= '9' || 'a' <= c <= 'f' || c == '-'
}

proof fn lemma_hex_text_chars(n: nat, len: nat)
    ensures
        forall|i: int| 0 <= i < hex_text(n, len).len() ==> id_char(#[trigger] hex_text(n, len)[i]),
    decreases len,
{
    if len > 0 {
        lemma_hex_text_chars(n / 16, (len - 1) as nat);
        let digit = (n % 16) as int;
        assert(id_char(hex_digit(digit)));
        let high = hex_text(n / 16, (len - 1) as nat);
        assert forall|i: int| 0 <= i < hex_text(n, len).len() implies id_char(
            #[trigger] hex_text(n, len)[i],
        ) by {
            if i < high.len() {
                assert(hex_text(n, len)[i] == high[i]);
            }
        }
    }
}

/// The text of a UUID is 36 lowercase hexadecimal digits and hyphens.
pub proof fn law_text_of_an_id(id: u128)
    ensures
        hyphenated(id).len() == 36,
        forall|i: int| 0 <= i < 36 ==> id_char(#[trigger] hyphenated(id)[i]),
{
    lemma_hex_text_len(id as nat, 32);
    lemma_hex_text_chars(id as nat, 32);
}

/// Two UUIDs with one text are the same.
pub proof fn law_text_tells_ids_apart(a: u128, b: u128)
    requires
        hyphenated(a) == hyphenated(b),
    ensures
        a == b,
{
    let first = hex_text(a as nat, 32);
    let second = hex_text(b as nat, 32);
    lemma_hex_text_len(a as nat, 32);
    lemma_hex_text_len(b as nat, 32);
    assert forall|i: int| 0 <= i < 32 implies first[i] == second[i] by {
        let at = if i < 8 {
            i
        } else if i < 12 {
            i + 1
        } else if i < 16 {
            i + 2
        } else if i < 20 {
            i + 3
        } else {
            i + 4
        };
        assert(hyphenated(a)[at] == first[i]);
        assert(hyphenated(b)[at] == second[i]);
    }
    assert(first =~= second);
    assert(vstd::arithmetic::power::pow(16, 32) == 0x1_0000_0000_0000_0000_0000_0000_0000_0000)
        by {
        reveal_with_fuel(vstd::arithmetic::power::pow, 33);
    }
    lemma_hex_text(a as nat, b as nat, 32);
}

} // verus!
