use vstd::prelude::*;

verus! {

/// The lowercase hexadecimal digit for a value below sixteen.
pub open spec fn hex_char(n: u128) -> char {
    if n == 0 {
        '0'
    } else if n == 1 {
        '1'
    } else if n == 2 {
        '2'
    } else if n == 3 {
        '3'
    } else if n == 4 {
        '4'
    } else if n == 5 {
        '5'
    } else if n == 6 {
        '6'
    } else if n == 7 {
        '7'
    } else if n == 8 {
        '8'
    } else if n == 9 {
        '9'
    } else if n == 10 {
        'a'
    } else if n == 11 {
        'b'
    } else if n == 12 {
        'c'
    } else if n == 13 {
        'd'
    } else if n == 14 {
        'e'
    } else {
        'f'
    }
}

/// The decimal digit for a value below ten.
pub open spec fn dec_digit(n: int) -> char {
    hex_char(n as u128)
}

/// The decimal digit sequence of a non-negative integer, most significant
/// digit first, with no leading zeros (a lone zero for zero itself).
pub open spec fn dec_seq(n: int) -> Seq<char>
    decreases n,
{
    if n < 10 {
        seq![dec_digit(n)]
    } else {
        dec_seq(n / 10) + seq![dec_digit(n % 10)]
    }
}

/// The decimal digit sequence of a signed integer: a minus sign before the
/// digits of the magnitude when the value is negative.
pub open spec fn dec_seq_i64(n: i64) -> Seq<char> {
    if n >= 0 {
        dec_seq(n as int)
    } else {
        seq!['-'] + dec_seq(-(n as int))
    }
}

/// Appends the hexadecimal digit of `nib` to `s`.
pub fn append_hex_digit(s: &mut String, nib: u128)
    requires
        nib < 16,
    ensures
        final(s)@ == old(s)@ + seq![hex_char(nib)],
{
    proof {
        reveal_strlit("0");
        reveal_strlit("1");
        reveal_strlit("2");
        reveal_strlit("3");
        reveal_strlit("4");
        reveal_strlit("5");
        reveal_strlit("6");
        reveal_strlit("7");
        reveal_strlit("8");
        reveal_strlit("9");
        reveal_strlit("a");
        reveal_strlit("b");
        reveal_strlit("c");
        reveal_strlit("d");
        reveal_strlit("e");
        reveal_strlit("f");
    }
    if nib == 0 {
        s.append("0");
    } else if nib == 1 {
        s.append("1");
    } else if nib == 2 {
        s.append("2");
    } else if nib == 3 {
        s.append("3");
    } else if nib == 4 {
        s.append("4");
    } else if nib == 5 {
        s.append("5");
    } else if nib == 6 {
        s.append("6");
    } else if nib == 7 {
        s.append("7");
    } else if nib == 8 {
        s.append("8");
    } else if nib == 9 {
        s.append("9");
    } else if nib == 10 {
        s.append("a");
    } else if nib == 11 {
        s.append("b");
    } else if nib == 12 {
        s.append("c");
    } else if nib == 13 {
        s.append("d");
    } else if nib == 14 {
        s.append("e");
    } else {
        s.append("f");
    }
    proof {
        assert(final(s)@ =~= old(s)@ + seq![hex_char(nib)]);
    }
}

/// The decimal text of a 64-bit unsigned integer.
pub fn dec_string_u64(n: u64) -> (s: String)
    ensures
        s@ == dec_seq(n as int),
    decreases n,
{
    if n < 10 {
        let mut s = String::new();
        append_hex_digit(&mut s, n as u128);
        proof {
            assert(s@ =~= dec_seq(n as int));
        }
        s
    } else {
        let mut s = dec_string_u64(n / 10);
        append_hex_digit(&mut s, (n % 10) as u128);
        proof {
            assert(s@ =~= dec_seq(n as int));
        }
        s
    }
}

/// The decimal text of a 64-bit signed integer.
pub fn dec_string_i64(n: i64) -> (s: String)
    ensures
        s@ == dec_seq_i64(n),
{
    if n >= 0 {
        dec_string_u64(n as u64)
    } else {
        proof {
            reveal_strlit("-");
        }
        let mut s = String::new();
        s.append("-");
        let mag: u64 = ((-(n as i128)) as u64);
        let digits = dec_string_u64(mag);
        s.append(digits.as_str());
        proof {
            assert(s@ =~= dec_seq_i64(n));
        }
        s
    }
}

/// `needle` occurs as a contiguous run of characters inside `hay`.
pub open spec fn contains_seq(hay: Seq<char>, needle: Seq<char>) -> bool {
    exists|i: int|
        0 <= i && i + needle.len() <= hay.len() && #[trigger] hay.subrange(i, i + needle.len())
            == needle
}

/// Whether the characters of `hay` starting at `at` are exactly `needle`.
pub(crate) fn matches_at(hay: &str, hl: usize, needle: &str, nl: usize, at: usize) -> (r: bool)
    requires
        hl == hay@.len(),
        nl == needle@.len(),
        at + nl <= hl,
    ensures
        r == (hay@.subrange(at as int, at + nl) == needle@),
{
    let mut j: usize = 0;
    while j < nl
        invariant
            hl == hay@.len(),
            nl == needle@.len(),
            at + nl <= hl,
            j <= nl,
            forall|j2: int| 0 <= j2 < j ==> hay@[at + j2] == needle@[j2],
        decreases nl - j,
    {
        if hay.get_char(at + j) != needle.get_char(j) {
            proof {
                assert(hay@.subrange(at as int, at + nl)[j as int] != needle@[j as int]);
            }
            return false;
        }
        j += 1;
    }
    proof {
        assert(hay@.subrange(at as int, at + nl) =~= needle@);
    }
    true
}

/// Substring search: whether `needle` occurs in `hay`, character-wise.
/// The empty needle occurs in every string.
pub fn contains_sub(hay: &str, needle: &str) -> (r: bool)
    ensures
        r == contains_seq(hay@, needle@),
{
    let hl = hay.unicode_len();
    let nl = needle.unicode_len();
    if nl > hl {
        return false;
    }
    if nl == 0 {
        proof {
            assert(hay@.subrange(0, 0 + needle@.len() as int) =~= needle@);
        }
        return true;
    }
    let mut i: usize = 0;
    while i <= hl - nl
        invariant
            hl == hay@.len(),
            nl == needle@.len(),
            1 <= nl <= hl,
            i <= hl - nl + 1,
            forall|i2: int|
                0 <= i2 < i ==> #[trigger] hay@.subrange(i2, i2 + nl as int) != needle@,
        decreases hl - nl - i + 1,
    {
        if matches_at(hay, hl, needle, nl, i) {
            return true;
        }
        i += 1;
    }
    false
}

} // verus!
