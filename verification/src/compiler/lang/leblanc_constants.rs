//! Literal constants: which words are constants, and of which type.
use vstd::prelude::*;
use vstd::utf8::{encode_utf8, encode_scalar};
use vstd::string::StringSliceAdditionalSpecFns;
use crate::native_types::LeBlancType;
use crate::text::{
    char_is_numeric,
    seq_ends_with,
    seq_starts_with,
    spec_to_ascii_uppercase,
    str_eq,
    str_ends_with,
    str_starts_with,
    to_ascii_uppercase,
    unicode_numeric,
};

verus! {

/// The number of UTF-8 bytes of the characters of `s` from index `k` on.
pub open spec fn bytes_from(s: Seq<char>, k: int) -> nat {
    encode_utf8(s.skip(k)).len()
}

/// Whether a numeric word ends in a type letter that is cut off before its digits are
/// checked: it is longer than one byte and its last character is not numeric.
pub open spec fn has_suffix_letter(s: Seq<char>) -> bool {
    encode_utf8(s).len() > 1 && !unicode_numeric(s.last())
}

/// Whether every character is numeric or a dot.
pub open spec fn all_numeric_or_dot(s: Seq<char>) -> bool {
    forall|i: int| 0 <= i < s.len() ==> unicode_numeric(#[trigger] s[i]) || s[i] == '.'
}

/// The index of the first dot.
pub open spec fn first_dot(s: Seq<char>) -> int {
    choose|i: int| 0 <= i < s.len() && s[i] == '.' && forall|j: int| 0 <= j < i ==> s[j] != '.'
}

/// The type of a literal constant, `Class(0)` for a word that is none: `true` and
/// `false` are booleans, quoted words strings and characters, and a word of digits and
/// dots (maybe ending in a type letter) is a number.  A number with the letter `L` is a
/// 64-bit integer, with `F` a float, with `D` a double; a number with a dot is a double
/// when the dot and what follows take more than 7 bytes, else a float; a number without
/// dot is a 64-bit integer beyond 10 bytes, else an integer.
pub open spec fn spec_constant_type(s: Seq<char>) -> LeBlancType {
    if s == "true"@ || s == "false"@ {
        LeBlancType::Boolean
    } else if seq_starts_with(s, "\""@) && seq_ends_with(s, "\""@) {
        LeBlancType::String
    } else if seq_starts_with(s, "'"@) && seq_ends_with(s, "'"@) {
        LeBlancType::Char
    } else {
        let cut = has_suffix_letter(s);
        let last_char = if cut {
            s.last()
        } else {
            '\0'
        };
        let number = if cut {
            s.drop_last()
        } else {
            s
        };
        if all_numeric_or_dot(number) {
            let up = spec_to_ascii_uppercase(last_char);
            if up == 'L' {
                LeBlancType::Int64
            } else if up == 'F' {
                LeBlancType::Float
            } else if up == 'D' {
                LeBlancType::Double
            } else if s.contains('.') {
                if bytes_from(s, first_dot(s)) > 7 {
                    LeBlancType::Double
                } else {
                    LeBlancType::Float
                }
            } else if encode_utf8(s).len() > 10 {
                LeBlancType::Int64
            } else {
                LeBlancType::Int
            }
        } else {
            LeBlancType::Class(0)
        }
    }
}

/// A word whose last character would be cut off in the middle of its bytes.
pub open spec fn cuts_inside_char(s: Seq<char>) -> bool {
    has_suffix_letter(s) && (s.last() as u32) >= 0x80
}

/// The words that `constant_type` reads without cutting a character in two.
pub open spec fn constant_readable(s: Seq<char>) -> bool {
    (s == "true"@ || s == "false"@) || (seq_starts_with(s, "\""@) && seq_ends_with(s, "\""@)) || (
    seq_starts_with(s, "'"@) && seq_ends_with(s, "'"@)) || !cuts_inside_char(s)
}

pub fn is_constant(string: &str) -> (r: bool)
    requires
        constant_readable(string@),
        encode_utf8(string@).len() <= usize::MAX,
    ensures
        r == (spec_constant_type(string@) != LeBlancType::Class(0)),
{
    constant_type(string) != LeBlancType::Class(0)
}

/// The byte width of one character in UTF-8.
fn utf8_width(c: char) -> (r: usize)
    ensures
        r == encode_scalar(c as u32).len(),
        r == 1 <==> (c as u32) < 0x80,
{
    let v = c as u32;
    if v < 0x80 {
        1
    } else if v < 0x800 {
        2
    } else if v < 0x10000 {
        3
    } else {
        4
    }
}

proof fn lemma_bytes_from_step(s: Seq<char>, k: int)
    requires
        0 <= k < s.len(),
    ensures
        bytes_from(s, k) == encode_scalar(s[k] as u32).len() + bytes_from(s, k + 1),
{
    assert(s.skip(k).drop_first() =~= s.skip(k + 1));
    assert(s.skip(k)[0] == s[k]);
}

/// Whether `constant_type` can read the word: a boolean, a quoted string or character,
/// or a word whose last character is not cut in two when a type letter is cut off.
pub fn readable_constant(string: &str) -> (r: bool)
    requires
        encode_utf8(string@).len() <= usize::MAX,
    ensures
        r == constant_readable(string@),
{
    let ghost s = string@;
    if str_eq(string, "true") || str_eq(string, "false") {
        return true;
    }
    if str_starts_with(string, "\"") && str_ends_with(string, "\"") {
        return true;
    }
    if str_starts_with(string, "'") && str_ends_with(string, "'") {
        return true;
    }
    let n = string.unicode_len();
    let byte_len = string.len();
    assert(string.spec_bytes() == encode_utf8(s));
    proof {
        if s.len() == 0 {
            assert(encode_utf8(s).len() == 0);
        }
    }
    if byte_len > 1 {
        assert(s.len() > 0);
        let last = string.get_char(n - 1);
        if !char_is_numeric(last) {
            return (last as u32) < 0x80;
        }
    }
    true
}

pub fn constant_type(string: &str) -> (r: LeBlancType)
    requires
        constant_readable(string@),
        encode_utf8(string@).len() <= usize::MAX,
    ensures
        r == spec_constant_type(string@),
{
    let ghost s = string@;
    if str_eq(string, "true") || str_eq(string, "false") {
        return LeBlancType::Boolean;
    }
    if str_starts_with(string, "\"") && str_ends_with(string, "\"") {
        return LeBlancType::String;
    }
    if str_starts_with(string, "'") && str_ends_with(string, "'") {
        return LeBlancType::Char;
    }
    let n = string.unicode_len();
    let byte_len = string.len();
    assert(string.spec_bytes() == encode_utf8(s));
    assert(byte_len == encode_utf8(s).len());
    proof {
        if s.len() == 0 {
            assert(encode_utf8(s).len() == 0);
        }
    }
    let mut last_char = '\0';
    let mut number_len = n;
    if byte_len > 1 {
        assert(s.len() > 0);
        let last = string.get_char(n - 1);
        if !char_is_numeric(last) {
            last_char = last;
            number_len = n - 1;
        }
    }
    let ghost cut = has_suffix_letter(s);
    assert(cut <==> number_len == n - 1);
    assert(!cut ==> number_len == n);
    let mut all_ok = true;
    let mut i: usize = 0;
    while i < number_len
        invariant
            s == string@,
            number_len <= n,
            n == s.len(),
            i <= number_len,
            all_ok <==> forall|j: int| 0 <= j < i ==> unicode_numeric(#[trigger] s[j]) || s[j] == '.',
        decreases number_len - i,
    {
        let c = string.get_char(i);
        assert(c == s[i as int]);
        if !(char_is_numeric(c) || c == '.') {
            all_ok = false;
        }
        i = i + 1;
    }
    let ghost number = if cut {
        s.drop_last()
    } else {
        s
    };
    assert(all_ok == all_numeric_or_dot(number)) by {
        if all_ok {
            assert forall|j: int| 0 <= j < number.len() implies unicode_numeric(#[trigger] number[j])
                || number[j] == '.' by {
                assert(number[j] == s[j]);
            }
        } else {
            let j = choose|j: int| 0 <= j < number_len && !(unicode_numeric(s[j]) || s[j] == '.');
            assert(number[j] == s[j]);
        }
    }
    if all_ok {
        let up = to_ascii_uppercase(last_char);
        if up == 'L' {
            return LeBlancType::Int64;
        } else if up == 'F' {
            return LeBlancType::Float;
        } else if up == 'D' {
            return LeBlancType::Double;
        }
        let mut dot: usize = 0;
        while dot < n && string.get_char(dot) != '.'
            invariant
                s == string@,
                n == s.len(),
                dot <= n,
                forall|j: int| 0 <= j < dot ==> s[j] != '.',
            decreases n - dot,
        {
            dot = dot + 1;
        }
        if dot < n {
            assert(s[dot as int] == '.');
            assert(s.contains('.'));
            assert(first_dot(s) == dot) by {
                let f = first_dot(s);
                assert(0 <= dot < s.len() && s[dot as int] == '.' && forall|j: int|
                    0 <= j < dot ==> s[j] != '.');
                if f < dot {
                    assert(s[f] != '.');
                } else if f > dot {
                }
            }
            let mut tail_bytes: usize = 0;
            let mut j: usize = n;
            assert(s.skip(0) =~= s);
            assert(bytes_from(s, n as int) == 0) by {
                assert(s.skip(n as int) =~= Seq::<char>::empty());
            }
            while j > dot
                invariant
                    s == string@,
                    dot < j <= n || j == dot,
                    dot < n,
                    n == s.len(),
                    j <= n,
                    tail_bytes == bytes_from(s, j as int),
                    bytes_from(s, 0) == byte_len,
                decreases j,
            {
                let c = string.get_char(j - 1);
                proof {
                    lemma_bytes_from_step(s, j - 1);
                    lemma_bytes_from_bound(s, j - 1);
                }
                tail_bytes = tail_bytes + utf8_width(c);
                j = j - 1;
            }
            if tail_bytes > 7 {
                return LeBlancType::Double;
            } else {
                return LeBlancType::Float;
            }
        }
        assert(!s.contains('.'));
        if byte_len > 10 {
            return LeBlancType::Int64;
        }
        return LeBlancType::Int;
    }
    LeBlancType::Class(0)
}

proof fn lemma_bytes_from_bound(s: Seq<char>, k: int)
    requires
        0 <= k <= s.len(),
    ensures
        bytes_from(s, k) <= bytes_from(s, 0),
    decreases k,
{
    if k > 0 {
        lemma_bytes_from_step(s, k - 1);
        lemma_bytes_from_bound(s, k - 1);
    }
}


/// The only boolean constants are the words `true` and `false`: every other word is of
/// another type, or no constant at all.
pub proof fn only_true_and_false_are_booleans(s: Seq<char>)
    ensures
        (spec_constant_type(s) == LeBlancType::Boolean) <==> (s == seq!['t', 'r', 'u', 'e'] || s == seq![
            'f',
            'a',
            'l',
            's',
            'e',
        ]),
{
    reveal_strlit("true");
    reveal_strlit("false");
    assert("true"@ =~= seq!['t', 'r', 'u', 'e']);
    assert("false"@ =~= seq!['f', 'a', 'l', 's', 'e']);
}

} // verus!
