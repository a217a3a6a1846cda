//! Keys: bounded integers with a fixed-width alphabetic textual form.

use vstd::prelude::*;

verus! {

/// Number of symbols in the textual form of a key.
pub const KEY_WIDTH: usize = 3;

/// Number of symbols in the key alphabet (`a`..`z`, then `A`..`Z`).
pub const KEY_BASE: u32 = 52;

/// Number of distinct keys: `KEY_BASE` to the power `KEY_WIDTH`.
pub const KEY_SPACE: u32 = 140608;

/// The symbol standing for digit `d` (`0 <= d < 52`): lower-case letters
/// first, then upper-case ones.
pub open spec fn key_symbol(d: int) -> char {
    if d < 26 {
        (97 + d) as u32 as char
    } else {
        (65 + (d - 26)) as u32 as char
    }
}

/// The digit that symbol `c` stands for, or `None` when `c` is outside the
/// key alphabet.
pub open spec fn symbol_digit(c: char) -> Option<int> {
    if 97 <= (c as u32) && (c as u32) <= 122 {
        Some(c as u32 - 97)
    } else if 65 <= (c as u32) && (c as u32) <= 90 {
        Some(c as u32 - 65 + 26)
    } else {
        None
    }
}

/// The textual form of key value `n`: its three base-52 digits, most
/// significant first.
pub open spec fn key_text(n: nat) -> Seq<char> {
    seq![
        key_symbol(((n / 2704) % 52) as int),
        key_symbol(((n / 52) % 52) as int),
        key_symbol((n % 52) as int),
    ]
}

/// The key value that text `t` stands for: `t` read as a base-52 numeral,
/// or `None` when `t` does not have exactly three symbols of the alphabet.
pub open spec fn key_value(t: Seq<char>) -> Option<nat> {
    if t.len() == 3 && symbol_digit(t[0]) is Some && symbol_digit(t[1]) is Some
        && symbol_digit(t[2]) is Some {
        Some(
            (symbol_digit(t[0])->0 * 2704 + symbol_digit(t[1])->0 * 52 + symbol_digit(
                t[2],
            )->0) as nat,
        )
    } else {
        None
    }
}

/// The decoding of each symbol inverts its encoding.
proof fn lemma_symbol_round_trip(d: int)
    requires
        0 <= d < 52,
    ensures
        symbol_digit(key_symbol(d)) == Some(d),
{
    if d < 26 {
        assert(((97 + d) as u32 as char) as u32 == 97 + d);
    } else {
        assert(((65 + (d - 26)) as u32 as char) as u32 == 65 + (d - 26));
    }
}

/// A symbol of the alphabet is the encoding of its digit.
proof fn lemma_digit_round_trip(c: char)
    requires
        symbol_digit(c) is Some,
    ensures
        0 <= symbol_digit(c)->0 < 52,
        key_symbol(symbol_digit(c)->0) == c,
{
    vstd::utf8::char_u32_cast(c, c as u32);
}

/// A key of the map: an integer below `KEY_SPACE`.
#[derive(Clone, Copy, Debug, Hash, PartialEq, Eq)]
pub struct Key(u32);

impl View for Key {
    type V = nat;

    closed spec fn view(&self) -> nat {
        self.0 as nat
    }
}

impl Key {
    #[verifier::type_invariant]
    spec fn in_range(self) -> bool {
        self.0 < KEY_SPACE
    }

    /// The key with value `k`.
    pub fn new(k: u32) -> (r: Key)
        requires
            k < KEY_SPACE,
        ensures
            r@ == k,
    {
        Key(k)
    }

    /// The value of this key, which lies below `KEY_SPACE`.
    pub fn value(&self) -> (r: u32)
        ensures
            r == self@,
            r < KEY_SPACE,
    {
        proof {
            use_type_invariant(self);
        }
        self.0
    }
}

/// The two directions of the key codec.
pub struct KeyStrConverter;

impl KeyStrConverter {
    /// The textual form of `key`.
    pub fn key_to_str(key: Key) -> (r: String)
        ensures
            r@ == key_text(key@),
    {
        proof {
            use_type_invariant(&key);
        }
        let n = key.0;
        let digits: [u32; 3] = [n / 2704 % 52, n / 52 % 52, n % 52];
        let mut out: Vec<char> = Vec::new();
        let mut i: usize = 0;
        while i < 3
            invariant
                i <= 3,
                digits@ == seq![n / 2704 % 52, n / 52 % 52, n % 52],
                out@.len() == i,
                forall|j: int| 0 <= j < i ==> out@[j] == key_symbol(digits@[j] as int),
            decreases 3 - i,
        {
            let d = digits[i];
            let c = if d < 26 {
                (97 + d) as u8 as char
            } else {
                (65 + (d - 26)) as u8 as char
            };
            proof {
                if d < 26 {
                    assert((97 + d) as u8 as u32 == (97 + d) as u32);
                } else {
                    assert((65 + (d - 26)) as u8 as u32 == (65 + (d - 26)) as u32);
                }
                assert(c as u32 == key_symbol(d as int) as u32);
                vstd::utf8::char_u32_cast(c, c as u32);
                vstd::utf8::char_u32_cast(key_symbol(d as int), c as u32);
            }
            out.push(c);
            i = i + 1;
        }
        assert(out@ =~= key_text(key@));
        crate::text::string_of_chars(out.as_slice())
    }

    /// The key whose textual form is `v`, or `None` when `v` is not exactly
    /// three symbols of the key alphabet.
    pub fn str_to_key(v: &str) -> (r: Option<Key>)
        ensures
            r is Some <==> key_value(v@) is Some,
            r is Some ==> r->0@ == key_value(v@)->0,
    {
        let cs = crate::text::chars_of(v);
        if cs.len() != 3 {
            return None;
        }
        let d0 = match symbol_digit_of(cs[0]) {
            Some(d) => d,
            None => return None,
        };
        let d1 = match symbol_digit_of(cs[1]) {
            Some(d) => d,
            None => return None,
        };
        let d2 = match symbol_digit_of(cs[2]) {
            Some(d) => d,
            None => return None,
        };
        let value = d0 * 2704 + d1 * 52 + d2;
        Some(Key(value))
    }
}

/// The digit that `c` stands for in a key, if any.
fn symbol_digit_of(c: char) -> (r: Option<u32>)
    ensures
        r is Some <==> symbol_digit(c) is Some,
        r is Some ==> r->0 == symbol_digit(c)->0 && r->0 < 52,
{
    let code = c as u32;
    if 97 <= code && code <= 122 {
        Some(code - 97)
    } else if 65 <= code && code <= 90 {
        Some(code - 65 + 26)
    } else {
        None
    }
}

/// Decoding inverts encoding on every key value, and a text of the wrong
/// length or holding a symbol outside the alphabet decodes to nothing.
pub proof fn lemma_key_round_trip(n: nat, t: Seq<char>)
    requires
        n < KEY_SPACE,
    ensures
        key_value(key_text(n)) == Some(n),
        t.len() != KEY_WIDTH ==> key_value(t) is None,
        (exists|i: int| 0 <= i < t.len() && symbol_digit(#[trigger] t[i]) is None) ==> key_value(t)
            is None,
{
    let d0 = ((n / 2704) % 52) as int;
    let d1 = ((n / 52) % 52) as int;
    let d2 = (n % 52) as int;
    lemma_symbol_round_trip(d0);
    lemma_symbol_round_trip(d1);
    lemma_symbol_round_trip(d2);
    assert(d0 * 2704 + d1 * 52 + d2 == n) by (nonlinear_arith)
        requires
            d0 == (n / 2704) % 52,
            d1 == (n / 52) % 52,
            d2 == n % 52,
            n < 140608,
    ;
}

/// Encoding inverts decoding on every valid key text.
pub proof fn lemma_text_round_trip(t: Seq<char>)
    requires
        key_value(t) is Some,
    ensures
        key_value(t)->0 < KEY_SPACE,
        key_text(key_value(t)->0) == t,
{
    lemma_digit_round_trip(t[0]);
    lemma_digit_round_trip(t[1]);
    lemma_digit_round_trip(t[2]);
    let d0 = symbol_digit(t[0])->0;
    let d1 = symbol_digit(t[1])->0;
    let d2 = symbol_digit(t[2])->0;
    let n = (d0 * 2704 + d1 * 52 + d2) as nat;
    assert((n / 2704) % 52 == d0 && (n / 52) % 52 == d1 && n % 52 == d2 && n < 140608)
        by (nonlinear_arith)
        requires
            0 <= d0 < 52,
            0 <= d1 < 52,
            0 <= d2 < 52,
            n == d0 * 2704 + d1 * 52 + d2,
    ;
    assert(key_text(n) =~= t);
}

} // verus!
