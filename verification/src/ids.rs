use vstd::prelude::*;
use crate::text::hex_char;

verus! {

/// Positions of the hyphens in the canonical 8-4-4-4-12 identifier text.
pub open spec fn id_hyphen(i: int) -> bool {
    i == 8 || i == 13 || i == 18 || i == 23
}

/// For a non-hyphen position of the identifier text, the index of its
/// hexadecimal digit among the thirty-two digits, most significant first.
pub open spec fn id_hex_index(i: int) -> int {
    if i < 8 {
        i
    } else if i < 13 {
        i - 1
    } else if i < 18 {
        i - 2
    } else if i < 23 {
        i - 3
    } else {
        i - 4
    }
}

/// The `j`-th least significant hexadecimal digit of a 128-bit value.
pub open spec fn nibble(id: u128, j: int) -> int {
    ((id as int) / pow16(j)) % 16
}

/// The character at position `i` of the canonical identifier text.
pub open spec fn id_char(id: u128, i: int) -> char {
    if id_hyphen(i) {
        '-'
    } else {
        hex_char(nibble(id, 31 - id_hex_index(i)) as u128)
    }
}

/// The canonical text of an identifier: thirty-two lowercase hexadecimal
/// digits, most significant first, with hyphens after the eighth, twelfth,
/// sixteenth and twentieth digit.
pub open spec fn id_seq(id: u128) -> Seq<char> {
    Seq::new(36, |i: int| id_char(id, i))
}

/// Renders an identifier in its canonical hyphenated hexadecimal text.
/// Digits are taken from the most significant end down, dividing the place
/// value by sixteen after each digit.
pub fn format_id(id: u128) -> (s: String)
    ensures
        s@ == id_seq(id),
{
    let mut s = String::new();
    let mut p: u128 = 0x1000_0000_0000_0000_0000_0000_0000_0000;
    proof {
        lemma_pow16_values();
    }
    let mut k: usize = 0;
    while k < 36
        invariant
            k <= 36,
            s@ =~= id_seq(id).subrange(0, k as int),
            k < 36 ==> p as int == pow16(31 - id_hex_count(k as int)),
        decreases 36 - k,
    {
        if k == 8 || k == 13 || k == 18 || k == 23 {
            proof {
                reveal_strlit("-");
            }
            s.append("-");
        } else {
            proof {
                lemma_pow16_pos(31 - id_hex_count(k as int));
                assert(id_hex_index(k as int) == id_hex_count(k as int));
            }
            let nib: u128 = ((id / p) % 16) as u128;
            proof {
                assert(nib as int == nibble(id, 31 - id_hex_index(k as int)));
            }
            crate::text::append_hex_digit(&mut s, nib);
            p = p / 16;
            proof {
                if k + 1 < 36 {
                    assert(pow16(31 - id_hex_count(k as int)) == 16 * pow16(
                        31 - id_hex_count(k + 1),
                    ));
                    vstd::arithmetic::div_mod::lemma_div_denominator(
                        pow16(31 - id_hex_count(k as int)),
                        16,
                        pow16(31 - id_hex_count(k + 1)),
                    );
                    lemma_pow16_pos(31 - id_hex_count(k + 1));
                    assert(p as int == pow16(31 - id_hex_count(k + 1))) by {
                        vstd::arithmetic::div_mod::lemma_fundamental_div_mod(
                            16 * pow16(31 - id_hex_count(k + 1)),
                            16,
                        );
                        vstd::arithmetic::div_mod::lemma_mod_bound(
                            16 * pow16(31 - id_hex_count(k + 1)),
                            16,
                        );
                    }
                }
            }
        }
        proof {
            assert(s@ =~= id_seq(id).subrange(0, k + 1));
        }
        k += 1;
    }
    proof {
        assert(s@ =~= id_seq(id));
    }
    s
}

/// The numeric value of a hexadecimal digit character; negative when the
/// character is not a lowercase hexadecimal digit.
pub open spec fn hex_val(c: char) -> int {
    if '0' <= c && c <= '9' {
        c as int - '0' as int
    } else if 'a' <= c && c <= 'f' {
        c as int - 'a' as int + 10
    } else {
        -1
    }
}

/// Whether a character sequence has the canonical identifier shape: length
/// thirty-six, hyphens exactly at the hyphen positions, lowercase
/// hexadecimal digits everywhere else.
pub open spec fn id_text_wf(s: Seq<char>) -> bool {
    &&& s.len() == 36
    &&& forall|i: int|
        0 <= i < 36 ==> (if id_hyphen(i) {
            #[trigger] s[i] == '-'
        } else {
            hex_val(s[i]) >= 0
        })
}

/// The value of the hexadecimal digits among the first `k` characters,
/// most significant first.
pub open spec fn id_acc(s: Seq<char>, k: int) -> int
    decreases k,
{
    if k <= 0 {
        0
    } else if id_hyphen(k - 1) {
        id_acc(s, k - 1)
    } else {
        16 * id_acc(s, k - 1) + hex_val(s[k - 1])
    }
}

/// How many of the first `k` positions of the identifier text hold a
/// hexadecimal digit rather than a hyphen.
pub open spec fn id_hex_count(k: int) -> int {
    if k <= 8 {
        k
    } else if k <= 13 {
        k - 1
    } else if k <= 18 {
        k - 2
    } else if k <= 23 {
        k - 3
    } else {
        k - 4
    }
}

/// Sixteen to the `n`-th power.
pub open spec fn pow16(n: int) -> int
    decreases n,
{
    if n <= 0 {
        1
    } else {
        16 * pow16(n - 1)
    }
}

/// The result of parsing a character sequence as a canonical identifier
/// text: the 128-bit value of its digits when well formed, nothing
/// otherwise.
pub open spec fn parse_id_spec(s: Seq<char>) -> Option<u128> {
    if id_text_wf(s) {
        Some(id_acc(s, 36) as u128)
    } else {
        None
    }
}

/// Parses the canonical hyphenated hexadecimal identifier text. Strict:
/// exactly thirty-six characters, lowercase digits, hyphens in place.
pub fn parse_id(s: &str) -> (r: Option<u128>)
    ensures
        r == parse_id_spec(s@),
{
    let len = s.unicode_len();
    if len != 36 {
        return None;
    }
    let mut acc: u128 = 0;
    let mut k: usize = 0;
    while k < 36
        invariant
            s@.len() == 36,
            k <= 36,
            acc == id_acc(s@, k as int),
            acc < pow16(id_hex_count(k as int)),
            forall|i: int|
                0 <= i < k ==> (if id_hyphen(i) {
                    #[trigger] s@[i] == '-'
                } else {
                    hex_val(s@[i]) >= 0
                }),
        decreases 36 - k,
    {
        let c = s.get_char(k);
        if k == 8 || k == 13 || k == 18 || k == 23 {
            if c != '-' {
                return None;
            }
        } else {
            let v: u128 = if '0' <= c && c <= '9' {
                (c as u32 - '0' as u32) as u128
            } else if 'a' <= c && c <= 'f' {
                (c as u32 - 'a' as u32 + 10) as u128
            } else {
                return None;
            };
            proof {
                assert(v == hex_val(s@[k as int]));
                assert(id_hex_count(k as int) <= 31);
                lemma_pow16_le(id_hex_count(k as int), 31);
                assert(pow16(31) * 16 == pow16(32));
                lemma_pow16_values();
            }
            acc = acc * 16 + v;
        }
        k += 1;
    }
    Some(acc)
}

/// Sixteen to the thirty-second is exactly two to the one-hundred-
/// twenty-eighth, one past the largest 128-bit value; sixteen to the
/// thirty-first is the place value of the leading hexadecimal digit.
pub proof fn lemma_pow16_values()
    ensures
        pow16(32) == 0x100000000000000000000000000000000,
        pow16(31) == 0x1000_0000_0000_0000_0000_0000_0000_0000,
{
    reveal_with_fuel(pow16, 33);
}

/// `pow16` grows with its exponent.
pub proof fn lemma_pow16_le(a: int, b: int)
    requires
        0 <= a <= b,
    ensures
        pow16(a) <= pow16(b),
        pow16(a) >= 1,
    decreases b,
{
    if a < b {
        lemma_pow16_le(a, b - 1);
    } else {
        lemma_pow16_pos(a);
    }
}

/// Relies on `uuid::Uuid::new_v4`: a freshly drawn random version-4
/// identifier, taken as its 128-bit value. Nothing can be promised of a
/// random draw, so the contract is empty; callers test the value they get.
/// The draw panics inside the identifier library if the operating system's
/// randomness source fails; no `requires` can exclude that state.
#[verifier::external_body]
pub(crate) fn fresh_id() -> u128 {
    uuid::Uuid::new_v4().as_u128()
}

/// Reading the digit character of a value below sixteen gives the value
/// back.
proof fn lemma_hexval_hexchar(n: int)
    requires
        0 <= n < 16,
    ensures
        hex_val(hex_char(n as u128)) == n,
{
}

/// The canonical identifier text is well formed.
pub proof fn lemma_id_seq_wf(id: u128)
    ensures
        id_text_wf(id_seq(id)),
{
    assert forall|i: int|
        0 <= i < 36 implies (if id_hyphen(i) {
        id_seq(id)[i] == '-'
    } else {
        hex_val(id_seq(id)[i]) >= 0
    }) by {
        if !id_hyphen(i) {
            let j: int = 31 - id_hex_index(i);
            lemma_pow16_pos(j);
            vstd::arithmetic::div_mod::lemma_div_pos_is_pos(id as int, pow16(j));
            vstd::arithmetic::div_mod::lemma_mod_bound((id as int) / pow16(j), 16);
            lemma_hexval_hexchar(nibble(id, j));
        }
    }
}

/// After `k` characters of the canonical text, the parsed accumulator
/// holds the identifier's leading digits: the identifier divided by the
/// place value of the digits still to come.
proof fn lemma_id_acc_value(id: u128, k: int)
    requires
        0 <= k <= 36,
    ensures
        id_acc(id_seq(id), k) == (id as int) / pow16(32 - id_hex_count(k)),
    decreases k,
{
    let s = id_seq(id);
    let x = id as int;
    if k == 0 {
        lemma_pow16_values();
        vstd::arithmetic::div_mod::lemma_basic_div(x, pow16(32));
    } else {
        lemma_id_acc_value(id, k - 1);
        if id_hyphen(k - 1) {
            assert(id_hex_count(k) == id_hex_count(k - 1));
        } else {
            let h = id_hex_count(k - 1);
            assert(id_hex_index(k - 1) == h);
            assert(id_hex_count(k) == h + 1);
            let p = pow16(31 - h);
            lemma_pow16_pos(31 - h);
            assert(pow16(32 - h) == 16 * p);
            vstd::arithmetic::div_mod::lemma_div_pos_is_pos(x, p);
            vstd::arithmetic::div_mod::lemma_mod_bound(x / p, 16);
            lemma_hexval_hexchar(nibble(id, 31 - h));
            assert(hex_val(s[k - 1]) == (x / p) % 16);
            vstd::arithmetic::div_mod::lemma_div_denominator(x, p, 16);
            assert(x / (p * 16) == (x / p) / 16);
            assert(p * 16 == 16 * p) by (nonlinear_arith);
            vstd::arithmetic::div_mod::lemma_fundamental_div_mod(x / p, 16);
            assert(id_acc(s, k) == 16 * ((x / p) / 16) + (x / p) % 16);
        }
    }
}

/// Law (identifier round trip): parsing the canonical text of an
/// identifier gives the identifier back.
pub proof fn lemma_id_round_trip(id: u128)
    ensures
        parse_id_spec(id_seq(id)) == Some(id),
{
    lemma_id_seq_wf(id);
    lemma_id_acc_value(id, 36);
    assert(pow16(0) == 1);
    assert((id as int) / 1 == id as int);
}

/// `pow16` is positive.
pub proof fn lemma_pow16_pos(n: int)
    ensures
        pow16(n) >= 1,
    decreases n,
{
    if n > 0 {
        lemma_pow16_pos(n - 1);
    }
}

} // verus!
