//! Small verified helpers on strings and characters.

use vstd::prelude::*;

verus! {

/// True when every character of `s` is ASCII.
pub open spec fn ascii_only(s: Seq<char>) -> bool {
    forall|i: int| #![trigger s[i]] 0 <= i < s.len() ==> (s[i] as u32) < 128
}

/// Compares two string slices character by character.
pub fn str_eq(a: &str, b: &str) -> (r: bool)
    ensures
        r == (a@ == b@),
{
    let a_len = a.unicode_len();
    let b_len = b.unicode_len();
    if a_len != b_len {
        assert(a@ != b@);
        return false;
    }
    let mut i: usize = 0;
    while i < a_len
        invariant
            i <= a_len,
            a_len == a@.len(),
            a_len == b@.len(),
            forall|j: int| 0 <= j < i ==> a@[j] == b@[j],
        decreases a_len - i,
    {
        if a.get_char(i) != b.get_char(i) {
            return false;
        }
        i += 1;
    }
    assert(a@ =~= b@);
    true
}

/// The views of a sequence of strings.
pub open spec fn views_of(strings: Seq<String>) -> Seq<Seq<char>> {
    strings.map_values(|s: String| s@)
}

/// True when `c` is one of the ten ASCII digits.
pub open spec fn is_digit_char(c: char) -> bool {
    48 <= c as u32 <= 57
}

/// Lexicographic order on character sequences, by code point. This is the
/// order Rust's own string comparison induces, since UTF-8 preserves code
/// point order byte for byte.
pub open spec fn lex_leq(a: Seq<char>, b: Seq<char>) -> bool
    decreases a.len(),
{
    if a.len() == 0 {
        true
    } else if b.len() == 0 {
        false
    } else if (a[0] as u32) < (b[0] as u32) {
        true
    } else if (a[0] as u32) > (b[0] as u32) {
        false
    } else {
        lex_leq(a.skip(1), b.skip(1))
    }
}

/// Lexicographic order is total.
pub proof fn lemma_lex_total(a: Seq<char>, b: Seq<char>)
    ensures
        lex_leq(a, b) || lex_leq(b, a),
    decreases a.len(),
{
    if a.len() != 0 && b.len() != 0 && a[0] as u32 == b[0] as u32 {
        lemma_lex_total(a.skip(1), b.skip(1));
    }
}

/// Lexicographic order is transitive.
pub proof fn lemma_lex_trans(a: Seq<char>, b: Seq<char>, c: Seq<char>)
    requires
        lex_leq(a, b),
        lex_leq(b, c),
    ensures
        lex_leq(a, c),
    decreases a.len(),
{
    if a.len() != 0 && b.len() != 0 && c.len() != 0 && a[0] as u32 == b[0] as u32 && b[0] as u32
        == c[0] as u32 {
        lemma_lex_trans(a.skip(1), b.skip(1), c.skip(1));
    }
}

/// Compares two string slices in lexicographic order.
pub fn str_le(a: &str, b: &str) -> (r: bool)
    ensures
        r == lex_leq(a@, b@),
{
    let a_len = a.unicode_len();
    let b_len = b.unicode_len();
    let mut i: usize = 0;
    proof {
        assert(a@.skip(0) =~= a@);
        assert(b@.skip(0) =~= b@);
    }
    while i < a_len && i < b_len
        invariant
            i <= a_len,
            i <= b_len,
            a_len == a@.len(),
            b_len == b@.len(),
            lex_leq(a@, b@) == lex_leq(a@.skip(i as int), b@.skip(i as int)),
        decreases a_len - i,
    {
        let ca = a.get_char(i);
        let cb = b.get_char(i);
        proof {
            assert(a@.skip(i as int)[0] == a@[i as int]);
            assert(b@.skip(i as int)[0] == b@[i as int]);
            assert(a@.skip(i as int).skip(1) =~= a@.skip(i as int + 1));
            assert(b@.skip(i as int).skip(1) =~= b@.skip(i as int + 1));
        }
        if (ca as u32) < (cb as u32) {
            return true;
        }
        if (ca as u32) > (cb as u32) {
            return false;
        }
        i += 1;
    }
    a_len <= b_len
}

/// The characters of a path after its last slash: the file's own name. A
/// path without a slash is all name; a path ending in a slash has none.
pub open spec fn file_name_of(path: Seq<char>) -> Seq<char>
    decreases path.len(),
{
    if path.len() == 0 {
        path
    } else if path.last() == '/' {
        Seq::empty()
    } else {
        file_name_of(path.drop_last()).push(path.last())
    }
}

/// The file name is exactly the suffix after the last slash.
pub proof fn lemma_file_name_of(path: Seq<char>, k: int)
    requires
        0 <= k <= path.len(),
        k == 0 || path[k - 1] == '/',
        forall|i: int| k <= i < path.len() ==> path[i] != '/',
    ensures
        file_name_of(path) == path.skip(k),
    decreases path.len(),
{
    if path.len() == 0 {
        assert(file_name_of(path) =~= path.skip(k));
    } else if path.len() == k {
        if k > 0 {
            assert(path.last() == '/');
        }
        assert(file_name_of(path) =~= path.skip(k));
    } else {
        assert(path.last() != '/');
        lemma_file_name_of(path.drop_last(), k);
        assert(file_name_of(path.drop_last()).push(path.last()) =~= path.skip(k));
    }
}

/// The number a sequence of decimal digit characters stands for.
pub open spec fn digits_value(s: Seq<char>) -> int
    decreases s.len(),
{
    if s.len() == 0 {
        0
    } else {
        digits_value(s.drop_last()) * 10 + (s.last() as u32 - 48)
    }
}

/// A digit string's value is never negative.
pub proof fn lemma_digits_value_nonneg(s: Seq<char>)
    requires
        forall|i: int| 0 <= i < s.len() ==> is_digit_char(#[trigger] s[i]),
    ensures
        digits_value(s) >= 0,
    decreases s.len(),
{
    if s.len() > 0 {
        assert(forall|i: int| 0 <= i < s.drop_last().len() ==> is_digit_char(
            #[trigger] s.drop_last()[i],
        ));
        lemma_digits_value_nonneg(s.drop_last());
    }
}

/// A digit string's prefixes never exceed the whole string's value.
pub proof fn lemma_digits_take_le(s: Seq<char>, j: int)
    requires
        0 <= j <= s.len(),
        forall|i: int| 0 <= i < s.len() ==> is_digit_char(#[trigger] s[i]),
    ensures
        digits_value(s.take(j)) <= digits_value(s),
    decreases s.len() - j,
{
    if j < s.len() {
        lemma_digits_take_le(s, j + 1);
        assert(s.take(j + 1).drop_last() =~= s.take(j));
        assert(forall|i: int| 0 <= i < s.take(j).len() ==> is_digit_char(
            #[trigger] s.take(j)[i],
        ));
        lemma_digits_value_nonneg(s.take(j));
        assert(digits_value(s.take(j + 1)) == digits_value(s.take(j)) * 10 + (s[j] as u32 - 48));
    } else {
        assert(s.take(j) =~= s);
    }
}

/// The number of digits in `n` written in decimal.
pub open spec fn dec_len(n: int) -> int
    decreases n,
{
    if n < 10 {
        1
    } else {
        1 + dec_len(n / 10)
    }
}

/// Prepending a zero leaves a digit string's value unchanged.
pub proof fn lemma_digits_leading_zero(s: Seq<char>)
    ensures
        digits_value(seq!['0'] + s) == digits_value(s),
    decreases s.len(),
{
    if s.len() == 0 {
        let z = seq!['0'] + s;
        assert(z.len() == 1);
        assert(z.last() == '0');
        assert(z.drop_last() =~= Seq::<char>::empty());
        assert(digits_value(z.drop_last()) == 0);
        assert(digits_value(z) == digits_value(z.drop_last()) * 10 + (z.last() as u32 - 48));
        assert(digits_value(z) == 0);
    } else {
        assert((seq!['0'] + s).drop_last() =~= seq!['0'] + s.drop_last());
        assert((seq!['0'] + s).last() == s.last());
        lemma_digits_leading_zero(s.drop_last());
    }
}

/// Relies on usize::to_string via core::fmt: the result is the decimal
/// rendering of the number, which these clauses pin down uniquely: only
/// digits, the documented digit count, no leading zero, and the value read
/// back equals the number.
#[verifier::external_body]
pub(crate) fn usize_to_string(n: usize) -> (r: String)
    ensures
        r@.len() == dec_len(n as int),
        forall|i: int| 0 <= i < r@.len() ==> is_digit_char(#[trigger] r@[i]),
        digits_value(r@) == n as int,
        r@[0] == '0' ==> n == 0,
{
    n.to_string()
}

/// The file name is never longer than the path it came from.
pub proof fn lemma_file_name_len(path: Seq<char>)
    ensures
        file_name_of(path).len() <= path.len(),
    decreases path.len(),
{
    if path.len() > 0 && path.last() != '/' {
        lemma_file_name_len(path.drop_last());
    }
}

/// A path of ASCII characters has an ASCII file name.
pub proof fn lemma_ascii_file_name(path: Seq<char>)
    requires
        ascii_only(path),
    ensures
        ascii_only(file_name_of(path)),
    decreases path.len(),
{
    if path.len() > 0 && path.last() != '/' {
        assert(ascii_only(path.drop_last()));
        lemma_ascii_file_name(path.drop_last());
        assert forall|i: int| 0 <= i < file_name_of(path).len() implies (#[trigger] file_name_of(
            path,
        )[i] as u32) < 128 by {
            if i < file_name_of(path).len() - 1 {
                assert(file_name_of(path)[i] == file_name_of(path.drop_last())[i]);
            } else {
                assert(file_name_of(path)[i] == path.last());
            }
        }
    }
}

/// Returns the part of a path after its last slash.
pub fn file_name(path: &str) -> (r: &str)
    ensures
        r@ == file_name_of(path@),
{
    let len = path.unicode_len();
    let mut cut: usize = 0;
    let mut i: usize = 0;
    while i < len
        invariant
            cut <= i <= len,
            len == path@.len(),
            cut == 0 || path@[cut - 1] == '/',
            forall|j: int| cut <= j < i ==> path@[j] != '/',
        decreases len - i,
    {
        if path.get_char(i) == '/' {
            cut = i + 1;
        }
        i += 1;
    }
    proof {
        lemma_file_name_of(path@, cut as int);
    }
    path.substring_char(cut, len)
}

} // verus!
