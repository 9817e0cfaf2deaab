//! Character classes, decimal and hexadecimal values, and positional
//! searches over character sequences: the vocabulary in which the address
//! grammar is stated and proved.
use vstd::prelude::*;

verus! {

use vstd::string::StrSliceExecFns;

/// ASCII decimal digit.
pub open spec fn is_digit(c: char) -> bool {
    '0' <= c && c <= '9'
}

/// Numeric value of a decimal digit.
pub open spec fn digit_val(c: char) -> int
    recommends
        is_digit(c),
{
    c as int - '0' as int
}

/// ASCII hexadecimal digit, either case.
pub open spec fn is_hex_digit(c: char) -> bool {
    is_digit(c) || ('a' <= c && c <= 'f') || ('A' <= c && c <= 'F')
}

/// Numeric value of a hexadecimal digit.
pub open spec fn hex_digit_val(c: char) -> int
    recommends
        is_hex_digit(c),
{
    if is_digit(c) {
        digit_val(c)
    } else if 'a' <= c && c <= 'f' {
        c as int - 'a' as int + 10
    } else {
        c as int - 'A' as int + 10
    }
}

/// ASCII word character: letter, digit or underscore.
pub open spec fn is_word_char(c: char) -> bool {
    is_digit(c) || ('a' <= c && c <= 'z') || ('A' <= c && c <= 'Z') || c == '_'
}

/// Every character of `s` is a decimal digit.
pub open spec fn all_digits(s: Seq<char>) -> bool {
    forall|i: int| 0 <= i < s.len() ==> is_digit(#[trigger] s[i])
}

/// Every character of `s` is a word character.
pub open spec fn all_word_chars(s: Seq<char>) -> bool {
    forall|i: int| 0 <= i < s.len() ==> is_word_char(#[trigger] s[i])
}

/// Value of `s` read as a decimal numeral, most significant digit first.
pub open spec fn dec_val(s: Seq<char>) -> int
    recommends
        all_digits(s),
    decreases s.len(),
{
    if s.len() == 0 {
        0
    } else {
        dec_val(s.drop_last()) * 10 + digit_val(s.last())
    }
}

/// Value of `s` read as a hexadecimal numeral, most significant digit first.
pub open spec fn hex_val(s: Seq<char>) -> int
    recommends
        forall|i: int| 0 <= i < s.len() ==> is_hex_digit(#[trigger] s[i]),
    decreases s.len(),
{
    if s.len() == 0 {
        0
    } else {
        hex_val(s.drop_last()) * 16 + hex_digit_val(s.last())
    }
}

/// Ten to the power `n`.
pub open spec fn pow10(n: nat) -> int
    decreases n,
{
    if n == 0 {
        1
    } else {
        10 * pow10((n - 1) as nat)
    }
}

/// Sixteen to the power `n`.
pub open spec fn pow16(n: nat) -> int
    decreases n,
{
    if n == 0 {
        1
    } else {
        16 * pow16((n - 1) as nat)
    }
}

/// A decimal numeral of `n` digits is at least 0 and below `pow10(n)`.
pub proof fn lemma_dec_val_bound(s: Seq<char>)
    requires
        all_digits(s),
    ensures
        0 <= dec_val(s) < pow10(s.len()),
    decreases s.len(),
{
    if s.len() > 0 {
        lemma_dec_val_bound(s.drop_last());
    }
}

/// Reading more digits never decreases the value of a decimal numeral.
pub proof fn lemma_dec_val_prefix_le(s: Seq<char>, i: int)
    requires
        all_digits(s),
        0 <= i <= s.len(),
    ensures
        dec_val(s.take(i)) <= dec_val(s),
    decreases s.len() - i,
{
    if i < s.len() {
        lemma_dec_val_prefix_le(s, i + 1);
        assert(s.take(i + 1).drop_last() =~= s.take(i));
        lemma_dec_val_bound(s.take(i));
    } else {
        assert(s.take(i) =~= s);
    }
}

/// Index of the first occurrence of `c` in `s`, or -1 if `c` does not occur.
pub open spec fn first_index(s: Seq<char>, c: char) -> int
    decreases s.len(),
{
    if s.len() == 0 {
        -1
    } else if s[0] == c {
        0
    } else {
        let r = first_index(s.drop_first(), c);
        if r < 0 {
            -1
        } else {
            1 + r
        }
    }
}

/// Index of the last occurrence of `c` in `s`, or -1 if `c` does not occur.
pub open spec fn last_index(s: Seq<char>, c: char) -> int
    decreases s.len(),
{
    if s.len() == 0 {
        -1
    } else if s.last() == c {
        s.len() - 1
    } else {
        last_index(s.drop_last(), c)
    }
}

/// What `first_index` returns: the smallest index holding `c`, or -1.
pub proof fn lemma_first_index(s: Seq<char>, c: char)
    ensures
        first_index(s, c) >= 0 ==> {
            &&& first_index(s, c) < s.len()
            &&& s[first_index(s, c)] == c
            &&& forall|j: int| 0 <= j < first_index(s, c) ==> s[j] != c
        },
        first_index(s, c) < 0 ==> (forall|j: int| 0 <= j < s.len() ==> s[j] != c),
    decreases s.len(),
{
    if s.len() > 0 && s[0] != c {
        let t = s.drop_first();
        lemma_first_index(t, c);
        assert forall|j: int| 1 <= j < s.len() implies s[j] == t[j - 1] by {}
    }
}

/// What `last_index` returns: the largest index holding `c`, or -1.
pub proof fn lemma_last_index(s: Seq<char>, c: char)
    ensures
        last_index(s, c) >= 0 ==> {
            &&& last_index(s, c) < s.len()
            &&& s[last_index(s, c)] == c
            &&& forall|j: int| last_index(s, c) < j < s.len() ==> s[j] != c
        },
        last_index(s, c) < 0 ==> last_index(s, c) == -1 && (forall|j: int|
            0 <= j < s.len() ==> s[j] != c),
    decreases s.len(),
{
    if s.len() > 0 && s.last() != c {
        let t = s.drop_last();
        lemma_last_index(t, c);
        assert forall|j: int| 0 <= j < s.len() - 1 implies s[j] == t[j] by {}
    }
}

/// The groups of `s` between occurrences of the separator `sep`.
/// A sequence without the separator is one group; every separator,
/// including a leading, trailing or doubled one, bounds a group, so the
/// result holds one group more than `s` holds separators.
pub open spec fn split_on(s: Seq<char>, sep: char) -> Seq<Seq<char>>
    decreases s.len(),
{
    let i = first_index(s, sep);
    if i < 0 {
        seq![s]
    } else if i < s.len() {
        seq![s.take(i)] + split_on(s.skip(i + 1), sep)
    } else {
        // `first_index` never exceeds the length; unreachable
        seq![s]
    }
}

/// Every character of `s` other than the separator stands in some group of
/// the split.
pub proof fn lemma_split_on_membership(s: Seq<char>, sep: char)
    ensures
        forall|j: int|
            0 <= j < s.len() && s[j] != sep ==> exists|g: int, k: int|
                0 <= g < split_on(s, sep).len() && 0 <= k < split_on(s, sep)[g].len()
                    && #[trigger] split_on(s, sep)[g][k] == s[j],
    decreases s.len(),
{
    lemma_first_index(s, sep);
    let i = first_index(s, sep);
    if 0 <= i < s.len() {
        let tail = s.skip(i + 1);
        lemma_split_on_membership(tail, sep);
        let rest = split_on(tail, sep);
        assert forall|j: int| 0 <= j < s.len() && s[j] != sep implies exists|g: int, k: int|
            0 <= g < split_on(s, sep).len() && 0 <= k < split_on(s, sep)[g].len()
                && #[trigger] split_on(s, sep)[g][k] == s[j] by {
            if j < i {
                assert(split_on(s, sep)[0][j] == s[j]);
            } else {
                // j > i since s[i] == sep; find s[j] in the tail's groups
                assert(tail[j - i - 1] == s[j]);
                assert(0 <= j - i - 1 < tail.len() && tail[j - i - 1] != sep);
                let (g, k): (int, int) = choose|g: int, k: int|
                    0 <= g < rest.len() && 0 <= k < rest[g].len() && #[trigger] rest[g][k]
                        == tail[j - i - 1];
                assert(split_on(s, sep)[g + 1] == rest[g]);
                assert(split_on(s, sep)[g + 1][k] == s[j]);
            }
        }
    } else {
        assert forall|j: int| 0 <= j < s.len() && s[j] != sep implies exists|g: int, k: int|
            0 <= g < split_on(s, sep).len() && 0 <= k < split_on(s, sep)[g].len()
                && #[trigger] split_on(s, sep)[g][k] == s[j] by {
            assert(split_on(s, sep)[0][j] == s[j]);
        }
    }
}

/// Position of the first occurrence of `c` in `s`, if any.
#[verifier::loop_isolation(false)]
pub fn find_first_char(s: &str, c: char) -> (r: Option<usize>)
    ensures
        match r {
            Some(i) => first_index(s@, c) == i as int,
            None => first_index(s@, c) == -1,
        },
{
    proof {
        lemma_first_index(s@, c);
    }
    let n = s.unicode_len();
    let mut i: usize = 0;
    while i < n
        invariant
            i <= n,
            n == s@.len(),
            forall|j: int| 0 <= j < i ==> s@[j] != c,
        decreases n - i,
    {
        if s.get_char(i) == c {
            return Some(i);
        }
        i = i + 1;
    }
    None
}

/// Position of the last occurrence of `c` in `s`, if any.
#[verifier::loop_isolation(false)]
pub fn find_last_char(s: &str, c: char) -> (r: Option<usize>)
    ensures
        match r {
            Some(i) => last_index(s@, c) == i as int,
            None => last_index(s@, c) == -1,
        },
{
    proof {
        lemma_last_index(s@, c);
    }
    let n = s.unicode_len();
    let mut i: usize = n;
    while i > 0
        invariant
            i <= n,
            n == s@.len(),
            forall|j: int| i <= j < n ==> s@[j] != c,
        decreases i,
    {
        i = i - 1;
        if s.get_char(i) == c {
            return Some(i);
        }
    }
    None
}

/// Whether every character of `s` is a decimal digit.
pub fn check_all_digits(s: &str) -> (r: bool)
    ensures
        r == all_digits(s@),
{
    let n = s.unicode_len();
    let mut i: usize = 0;
    while i < n
        invariant
            i <= n,
            n == s@.len(),
            forall|j: int| 0 <= j < i ==> is_digit(#[trigger] s@[j]),
        decreases n - i,
    {
        let ch = s.get_char(i);
        if !('0' <= ch && ch <= '9') {
            return false;
        }
        i = i + 1;
    }
    true
}

/// Whether every character of `s` is a word character.
pub fn check_all_word_chars(s: &str) -> (r: bool)
    ensures
        r == all_word_chars(s@),
{
    let n = s.unicode_len();
    let mut i: usize = 0;
    while i < n
        invariant
            i <= n,
            n == s@.len(),
            forall|j: int| 0 <= j < i ==> is_word_char(#[trigger] s@[j]),
        decreases n - i,
    {
        let ch = s.get_char(i);
        if !(('0' <= ch && ch <= '9') || ('a' <= ch && ch <= 'z') || ('A' <= ch && ch <= 'Z')
            || ch == '_') {
            return false;
        }
        i = i + 1;
    }
    true
}

/// The substrings of `s` between occurrences of `sep`, in order; they agree
/// group for group with `split_on(s@, sep)`.
pub fn split_str<'a>(s: &'a str, sep: char) -> (r: Vec<&'a str>)
    ensures
        r@.len() == split_on(s@, sep).len(),
        forall|g: int| 0 <= g < r@.len() ==> (#[trigger] r@[g])@ == split_on(s@, sep)[g],
    decreases s@.len(),
{
    proof {
        lemma_first_index(s@, sep);
    }
    let n = s.unicode_len();
    match find_first_char(s, sep) {
        None => {
            let mut v: Vec<&'a str> = Vec::new();
            v.push(s);
            v
        },
        Some(i) => {
            let head = s.substring_char(0, i);
            let tail = s.substring_char(i + 1, n);
            let mut rest = split_str(tail, sep);
            let mut v: Vec<&'a str> = Vec::new();
            v.push(head);
            v.append(&mut rest);
            proof {
                assert(head@ == split_on(s@, sep)[0]);
                assert forall|g: int| 0 <= g < v@.len() implies (#[trigger] v@[g])@ == split_on(
                    s@,
                    sep,
                )[g] by {
                    if g > 0 {
                        assert(split_on(s@, sep)[g] == split_on(tail@, sep)[g - 1]);
                    }
                }
            }
            v
        },
    }
}

} // verus!
