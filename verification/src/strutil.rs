//! Text helpers shared across the library: decimal rendering of numbers,
//! lexicographic order on text, base names and joining of slash-separated
//! paths, and fixed-pattern matching inside a text.

use vstd::prelude::*;
use crate::datetime::digit_char;
use crate::datetime::digit_str;
use crate::datetime::digit_val;
use crate::datetime::is_digit;

verus! {

/// Decimal text of `n`, without padding and without a sign.
pub open spec fn dec_digits(n: nat) -> Seq<char>
    decreases n,
{
    if n < 10 {
        seq![digit_char(n as int)]
    } else {
        dec_digits(n / 10) + seq![digit_char((n % 10) as int)]
    }
}

/// Value of a digit text, most significant digit first.
pub open spec fn dec_val(s: Seq<char>) -> int
    decreases s.len(),
{
    if s.len() == 0 {
        0
    } else {
        dec_val(s.drop_last()) * 10 + digit_val(s.last())
    }
}

/// The decimal text of a number carries the number: reading it back yields
/// the number again.
pub proof fn lemma_dec_val_of_dec_digits(n: nat)
    ensures
        dec_val(dec_digits(n)) == n,
        dec_digits(n).len() >= 1,
    decreases n,
{
    if n < 10 {
        crate::datetime::lemma_digit_char_val(n as int);
        let s = dec_digits(n);
        assert(s =~= seq![digit_char(n as int)]);
        assert(s.drop_last() =~= Seq::<char>::empty());
        assert(dec_val(Seq::<char>::empty()) == 0);
        assert(s.last() == digit_char(n as int));
        assert(dec_val(s) == dec_val(s.drop_last()) * 10 + digit_val(s.last()));
    } else {
        crate::datetime::lemma_digit_char_val((n % 10) as int);
        lemma_dec_val_of_dec_digits(n / 10);
        assert(dec_digits(n).drop_last() =~= dec_digits(n / 10));
        assert(dec_digits(n).last() == digit_char((n % 10) as int));
        assert(dec_val(dec_digits(n)) == dec_val(dec_digits(n / 10)) * 10 + digit_val(
            digit_char((n % 10) as int),
        ));
        assert(dec_val(dec_digits(n)) == (n / 10) * 10 + (n % 10));
    }
}

/// Distinct numbers have distinct decimal texts.
pub proof fn lemma_dec_digits_injective(a: nat, b: nat)
    requires
        dec_digits(a) == dec_digits(b),
    ensures
        a == b,
{
    lemma_dec_val_of_dec_digits(a);
    lemma_dec_val_of_dec_digits(b);
}

/// Renders `n` in decimal.
pub fn u64_to_dec(n: u64) -> (r: String)
    ensures
        r@ == dec_digits(n as nat),
    decreases n,
{
    if n < 10 {
        let r = String::from_str(digit_str(n as u8));
        proof {
            assert(r@ =~= dec_digits(n as nat));
        }
        r
    } else {
        let mut r = u64_to_dec(n / 10);
        r.append(digit_str((n % 10) as u8));
        proof {
            assert(r@ =~= dec_digits(n as nat));
        }
        r
    }
}

/// Lexicographic order on text, by character code, with a prefix before
/// every longer text.
pub open spec fn lex_le(a: Seq<char>, b: Seq<char>) -> bool
    decreases a.len(),
{
    if a.len() == 0 {
        true
    } else if b.len() == 0 {
        false
    } else if a[0] != b[0] {
        a[0] < b[0]
    } else {
        lex_le(a.drop_first(), b.drop_first())
    }
}

/// The lexicographic order relates every pair of texts one way or the other.
pub proof fn lemma_lex_le_total(a: Seq<char>, b: Seq<char>)
    ensures
        lex_le(a, b) || lex_le(b, a),
    decreases a.len(),
{
    if a.len() > 0 && b.len() > 0 && a[0] == b[0] {
        lemma_lex_le_total(a.drop_first(), b.drop_first());
    }
}

/// The lexicographic order is transitive.
pub proof fn lemma_lex_le_trans(a: Seq<char>, b: Seq<char>, c: Seq<char>)
    requires
        lex_le(a, b),
        lex_le(b, c),
    ensures
        lex_le(a, c),
    decreases a.len(),
{
    if a.len() > 0 && b.len() > 0 && c.len() > 0 && a[0] == b[0] && b[0] == c[0] {
        lemma_lex_le_trans(a.drop_first(), b.drop_first(), c.drop_first());
    }
}

/// Compares two texts in the lexicographic order.
pub fn str_lex_le(a: &str, b: &str) -> (r: bool)
    ensures
        r == lex_le(a@, b@),
{
    let a_len = a.unicode_len();
    let b_len = b.unicode_len();
    let mut i: usize = 0;
    proof {
        assert(a@.skip(0) =~= a@);
        assert(b@.skip(0) =~= b@);
    }
    loop
        invariant
            i <= a_len,
            i <= b_len,
            a_len == a@.len(),
            b_len == b@.len(),
            lex_le(a@, b@) == lex_le(a@.skip(i as int), b@.skip(i as int)),
        decreases a_len - i,
    {
        if i >= a_len {
            proof {
                assert(a@.skip(i as int).len() == 0);
            }
            return true;
        }
        if i >= b_len {
            proof {
                assert(b@.skip(i as int).len() == 0);
                assert(a@.skip(i as int).len() > 0);
            }
            return false;
        }
        let ca = a.get_char(i);
        let cb = b.get_char(i);
        if ca != cb {
            proof {
                assert(a@.skip(i as int)[0] == ca);
                assert(b@.skip(i as int)[0] == cb);
            }
            return ca < cb;
        }
        proof {
            assert(a@.skip(i as int).drop_first() =~= a@.skip(i as int + 1));
            assert(b@.skip(i as int).drop_first() =~= b@.skip(i as int + 1));
        }
        i = i + 1;
    }
}

/// The base name of a slash-separated path: what follows the last slash, or
/// the whole text when it has none.
pub open spec fn basename_of(p: Seq<char>) -> Seq<char>
    decreases p.len(),
{
    if p.len() > 0 && p.contains('/') {
        basename_of(p.drop_first())
    } else {
        p
    }
}

/// A text without slashes is its own base name.
proof fn lemma_basename_no_slash(p: Seq<char>)
    requires
        forall|j: int| 0 <= j < p.len() ==> p[j] != '/',
    ensures
        basename_of(p) == p,
{
    if p.contains('/') {
        let j = choose|j: int| 0 <= j < p.len() && p[j] == '/';
        assert(false);
    }
}

/// What follows the last slash of a path is its base name.
proof fn lemma_basename_after_slash(p: Seq<char>, k: int)
    requires
        0 <= k < p.len(),
        p[k] == '/',
        forall|j: int| k < j < p.len() ==> p[j] != '/',
    ensures
        basename_of(p) == p.skip(k + 1),
    decreases p.len(),
{
    assert(p.contains('/'));
    if k == 0 {
        let rest = p.drop_first();
        assert(forall|j: int| 0 <= j < rest.len() ==> rest[j] == p[j + 1] && rest[j] != '/');
        lemma_basename_no_slash(rest);
        assert(p.drop_first() =~= p.skip(1));
    } else {
        lemma_basename_after_slash(p.drop_first(), k - 1);
        assert(p.drop_first().skip(k) =~= p.skip(k + 1));
    }
}

/// The base name of a slash-separated path: what follows the last slash, or
/// the whole text when it has none.
pub fn base_name(p: &str) -> (r: String)
    ensures
        r@ == basename_of(p@),
{
    let len = p.unicode_len();
    let mut i: usize = len;
    loop
        invariant
            i <= len,
            len == p@.len(),
            forall|j: int| i <= j < len ==> p@[j] != '/',
        decreases i,
    {
        if i == 0 {
            proof {
                lemma_basename_no_slash(p@);
            }
            return String::from_str(p);
        }
        if p.get_char(i - 1) == '/' {
            let tail = p.substring_char(i, len);
            proof {
                lemma_basename_after_slash(p@, i - 1);
                assert(tail@ =~= p@.skip(i as int));
            }
            return String::from_str(tail);
        }
        i = i - 1;
    }
}

/// An absolute path: nonempty and beginning with a slash.
pub open spec fn is_absolute_path(p: Seq<char>) -> bool {
    p.len() > 0 && p[0] == '/'
}

/// Whether `p` is an absolute path.
pub fn is_absolute(p: &str) -> (r: bool)
    ensures
        r == is_absolute_path(p@),
{
    p.unicode_len() > 0 && p.get_char(0) == '/'
}

/// Whether `c` occurs in `s`.
pub fn contains_char(s: &str, c: char) -> (r: bool)
    ensures
        r == s@.contains(c),
{
    let len = s.unicode_len();
    let mut i: usize = 0;
    while i < len
        invariant
            i <= len,
            len == s@.len(),
            forall|j: int| 0 <= j < i ==> s@[j] != c,
        decreases len - i,
    {
        if s.get_char(i) == c {
            return true;
        }
        i = i + 1;
    }
    proof {
        if s@.contains(c) {
            let j = choose|j: int| 0 <= j < s@.len() && s@[j] == c;
            assert(false);
        }
    }
    false
}

/// Whether `pat` occurs in `s` starting at position `pos`.
pub fn match_at(s: &str, pos: usize, pat: &str) -> (r: bool)
    requires
        pos + pat@.len() <= s@.len(),
        s@.len() <= usize::MAX,
    ensures
        r == (s@.subrange(pos as int, pos as int + pat@.len() as int) == pat@),
{
    let n = pat.unicode_len();
    let ghost win = s@.subrange(pos as int, pos as int + pat@.len() as int);
    let mut i: usize = 0;
    while i < n
        invariant
            i <= n,
            n == pat@.len(),
            pos + n <= s@.len() <= usize::MAX,
            win == s@.subrange(pos as int, pos as int + pat@.len() as int),
            forall|j: int| 0 <= j < i ==> win[j] == pat@[j],
        decreases n - i,
    {
        if s.get_char(pos + i) != pat.get_char(i) {
            proof {
                assert(win[i as int] != pat@[i as int]);
            }
            return false;
        }
        i = i + 1;
    }
    proof {
        assert(win =~= pat@);
    }
    true
}

} // verus!
