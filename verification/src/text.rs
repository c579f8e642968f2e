//! Character classes and low-level text scanning shared by the invocation
//! grammar, the config key grammar and the substitution scanner.
//!
//! All quantities are in characters (code points), matching the `Seq<char>`
//! view of `str` and `String`.

use vstd::prelude::*;

verus! {

/// An ASCII decimal digit.
pub open spec fn is_digit(c: char) -> bool {
    48 <= c as u32 && c as u32 <= 57
}

/// An ASCII letter.
pub open spec fn is_alpha(c: char) -> bool {
    (65 <= c as u32 && c as u32 <= 90) || (97 <= c as u32 && c as u32 <= 122)
}

/// An ASCII letter or digit.
pub open spec fn is_alnum(c: char) -> bool {
    is_alpha(c) || is_digit(c)
}

/// An ASCII whitespace character: space, tab, line feed, vertical tab,
/// form feed or carriage return.
pub open spec fn is_space(c: char) -> bool {
    c as u32 == 32 || c as u32 == 9 || c as u32 == 10 || c as u32 == 11 || c as u32 == 12 || c
        as u32 == 13
}

pub fn digit_char(c: char) -> (b: bool)
    ensures
        b == is_digit(c),
{
    let u = c as u32;
    48 <= u && u <= 57
}

pub fn alpha_char(c: char) -> (b: bool)
    ensures
        b == is_alpha(c),
{
    let u = c as u32;
    (65 <= u && u <= 90) || (97 <= u && u <= 122)
}

pub fn alnum_char(c: char) -> (b: bool)
    ensures
        b == is_alnum(c),
{
    alpha_char(c) || digit_char(c)
}

pub fn space_char(c: char) -> (b: bool)
    ensures
        b == is_space(c),
{
    let u = c as u32;
    u == 32 || u == 9 || u == 10 || u == 11 || u == 12 || u == 13
}

/// Length of the longest prefix of `s` whose characters all satisfy `f`.
pub open spec fn class_prefix_len(s: Seq<char>, f: spec_fn(char) -> bool) -> nat
    decreases s.len(),
{
    if s.len() > 0 && f(s[0]) {
        (1 + class_prefix_len(s.skip(1), f)) as nat
    } else {
        0
    }
}

/// `class_prefix_len` is exactly the first point where `f` fails.
pub proof fn lemma_class_prefix(s: Seq<char>, f: spec_fn(char) -> bool)
    ensures
        class_prefix_len(s, f) <= s.len(),
        forall|i: int| 0 <= i < class_prefix_len(s, f) ==> f(#[trigger] s[i]),
        class_prefix_len(s, f) < s.len() ==> !f(s[class_prefix_len(s, f) as int]),
    decreases s.len(),
{
    if s.len() > 0 && f(s[0]) {
        lemma_class_prefix(s.skip(1), f);
        assert forall|i: int| 0 <= i < class_prefix_len(s, f) implies f(#[trigger] s[i]) by {
            if i > 0 {
                assert(s.skip(1)[i - 1] == s[i]);
            }
        }
        if class_prefix_len(s, f) < s.len() {
            assert(s.skip(1)[class_prefix_len(s, f) as int - 1] == s[class_prefix_len(
                s,
                f,
            ) as int]);
        }
    }
}

/// Any point where `f` holds before and fails at (or the end is reached)
/// is the class prefix length: the characterization is unique.
pub proof fn lemma_class_prefix_unique(s: Seq<char>, f: spec_fn(char) -> bool, p: int)
    requires
        0 <= p <= s.len(),
        forall|i: int| 0 <= i < p ==> f(#[trigger] s[i]),
        p < s.len() ==> !f(s[p]),
    ensures
        p == class_prefix_len(s, f),
{
    lemma_class_prefix(s, f);
    let q = class_prefix_len(s, f) as int;
    if p < q {
        assert(f(s[p]));
    } else if q < p {
        assert(f(s[q]));
    }
}

pub open spec fn alnum_pred() -> spec_fn(char) -> bool {
    |c: char| is_alnum(c)
}

pub open spec fn alpha_pred() -> spec_fn(char) -> bool {
    |c: char| is_alpha(c)
}

pub open spec fn digit_pred() -> spec_fn(char) -> bool {
    |c: char| is_digit(c)
}

pub open spec fn space_pred() -> spec_fn(char) -> bool {
    |c: char| is_space(c)
}

pub open spec fn not_comma_pred() -> spec_fn(char) -> bool {
    |c: char| c != ','
}

/// Length of the longest all-alphanumeric prefix of `s`.
pub open spec fn alnum_prefix_len(s: Seq<char>) -> nat {
    class_prefix_len(s, alnum_pred())
}

/// Length of the longest all-alphabetic prefix of `s`.
pub open spec fn alpha_prefix_len(s: Seq<char>) -> nat {
    class_prefix_len(s, alpha_pred())
}

/// Length of the longest all-digit prefix of `s`.
pub open spec fn digit_prefix_len(s: Seq<char>) -> nat {
    class_prefix_len(s, digit_pred())
}

/// Length of the longest all-whitespace prefix of `s`.
pub open spec fn space_prefix_len(s: Seq<char>) -> nat {
    class_prefix_len(s, space_pred())
}

/// Index of the first comma in `s`, or `s.len()` if there is none.
pub open spec fn first_comma(s: Seq<char>) -> nat {
    class_prefix_len(s, not_comma_pred())
}

pub fn scan_alnum_prefix(s: &str) -> (p: usize)
    ensures
        p == alnum_prefix_len(s@),
{
    let n = s.unicode_len();
    let mut i: usize = 0;
    while i < n && alnum_char(s.get_char(i))
        invariant
            n == s@.len(),
            0 <= i <= n,
            forall|j: int| 0 <= j < i ==> is_alnum(#[trigger] s@[j]),
        decreases n - i,
    {
        i = i + 1;
    }
    proof {
        lemma_class_prefix_unique(s@, alnum_pred(), i as int);
    }
    i
}

pub fn scan_alpha_prefix(s: &str) -> (p: usize)
    ensures
        p == alpha_prefix_len(s@),
{
    let n = s.unicode_len();
    let mut i: usize = 0;
    while i < n && alpha_char(s.get_char(i))
        invariant
            n == s@.len(),
            0 <= i <= n,
            forall|j: int| 0 <= j < i ==> is_alpha(#[trigger] s@[j]),
        decreases n - i,
    {
        i = i + 1;
    }
    proof {
        lemma_class_prefix_unique(s@, alpha_pred(), i as int);
    }
    i
}

/// Index of the first comma of `s`, or its length when it has none.
pub fn scan_first_comma(s: &str) -> (p: usize)
    ensures
        p == first_comma(s@),
{
    let n = s.unicode_len();
    let mut i: usize = 0;
    while i < n && s.get_char(i) != ','
        invariant
            n == s@.len(),
            0 <= i <= n,
            forall|j: int| 0 <= j < i ==> #[trigger] s@[j] != ',',
        decreases n - i,
    {
        i = i + 1;
    }
    proof {
        lemma_class_prefix_unique(s@, not_comma_pred(), i as int);
    }
    i
}

/// Numeric value of a string of decimal digits (most significant first).
pub open spec fn digits_val(s: Seq<char>) -> nat
    decreases s.len(),
{
    if s.len() == 0 {
        0
    } else {
        digits_val(s.drop_last()) * 10 + (s.last() as u32 - 48) as nat
    }
}

pub open spec fn all_digits(s: Seq<char>) -> bool {
    forall|i: int| 0 <= i < s.len() ==> is_digit(#[trigger] s[i])
}

/// The value of a digit string only grows as digits are appended.
proof fn lemma_digits_val_prefix(s: Seq<char>, k: int)
    requires
        0 <= k <= s.len(),
    ensures
        digits_val(s.take(k)) <= digits_val(s),
    decreases s.len() - k,
{
    if k == s.len() {
        assert(s.take(k) =~= s);
    } else {
        lemma_digits_val_prefix(s.take(s.len() - 1), k);
        assert(s.take(s.len() - 1).take(k) =~= s.take(k));
        assert(s.drop_last() =~= s.take(s.len() - 1));
    }
}

/// A fresh copy of a vector of strings, equal to it view by view.
pub fn clone_string_vec(l: &Vec<String>) -> (r: Vec<String>)
    ensures
        r.deep_view() == l.deep_view(),
{
    let mut out: Vec<String> = Vec::new();
    let mut i: usize = 0;
    while i < l.len()
        invariant
            out@.len() == i,
            0 <= i <= l@.len(),
            forall|j: int| 0 <= j < i ==> (#[trigger] out@[j])@ == l@[j]@,
        decreases l@.len() - i,
    {
        out.push(l[i].clone());
        i = i + 1;
    }
    proof {
        assert(out.deep_view() =~= l.deep_view());
    }
    out
}

/// Whether every character of `s` is a decimal digit.
pub fn all_digits_exec(s: &str) -> (b: bool)
    ensures
        b == all_digits(s@),
{
    let n = s.unicode_len();
    let mut i: usize = 0;
    while i < n
        invariant
            n == s@.len(),
            0 <= i <= n,
            forall|j: int| 0 <= j < i ==> is_digit(#[trigger] s@[j]),
        decreases n - i,
    {
        if !digit_char(s.get_char(i)) {
            return false;
        }
        i = i + 1;
    }
    true
}

/// Parse a non-empty all-digit string as a `usize`; `None` exactly when the
/// value does not fit.
pub fn parse_usize(s: &str) -> (r: Option<usize>)
    requires
        all_digits(s@),
    ensures
        match r {
            Some(v) => digits_val(s@) <= usize::MAX && v == digits_val(s@),
            None => digits_val(s@) > usize::MAX,
        },
{
    let n = s.unicode_len();
    let mut i: usize = 0;
    let mut val: usize = 0;
    while i < n
        invariant
            n == s@.len(),
            0 <= i <= n,
            all_digits(s@),
            val == digits_val(s@.take(i as int)),
        decreases n - i,
    {
        let c = s.get_char(i);
        let d = (c as u32 - 48) as usize;
        let next = match val.checked_mul(10) {
            Some(m) => m.checked_add(d),
            None => None,
        };
        match next {
            Some(v) => {
                proof {
                    assert(s@.take(i + 1).drop_last() =~= s@.take(i as int));
                    assert(s@.take(i + 1).last() == s@[i as int]);
                }
                val = v;
                i = i + 1;
            },
            None => {
                proof {
                    assert(s@.take(i + 1).drop_last() =~= s@.take(i as int));
                    assert(s@.take(i + 1).last() == s@[i as int]);
                    assert(digits_val(s@.take(i + 1)) > usize::MAX);
                    lemma_digits_val_prefix(s@, i + 1);
                }
                return None;
            },
        }
    }
    proof {
        assert(s@.take(n as int) =~= s@);
    }
    Some(val)
}

/// `s` with every leading whitespace character removed.
pub open spec fn strip_spaces(s: Seq<char>) -> Seq<char>
    decreases s.len(),
{
    if s.len() > 0 && is_space(s[0]) {
        strip_spaces(s.skip(1))
    } else {
        s
    }
}

/// Stripping leading whitespace is skipping the whitespace prefix.
pub proof fn lemma_strip_spaces(s: Seq<char>)
    ensures
        strip_spaces(s) == s.skip(space_prefix_len(s) as int),
        strip_spaces(s).len() <= s.len(),
    decreases s.len(),
{
    lemma_class_prefix(s, space_pred());
    if s.len() > 0 && is_space(s[0]) {
        lemma_strip_spaces(s.skip(1));
        assert(s.skip(1).skip(space_prefix_len(s.skip(1)) as int) =~= s.skip(
            space_prefix_len(s) as int,
        ));
    } else {
        assert(s.skip(0) =~= s);
    }
}

/// Split `s` on commas into tokens: each segment between commas has its
/// leading whitespace stripped, and segments left empty by that are dropped.
pub open spec fn split_args(s: Seq<char>) -> Seq<Seq<char>>
    decreases s.len(),
{
    let k = first_comma(s) as int;
    let piece = strip_spaces(s.take(k));
    if k == s.len() {
        if piece.len() > 0 {
            seq![piece]
        } else {
            Seq::empty()
        }
    } else {
        proof {
            lemma_class_prefix(s, not_comma_pred());
        }
        let rest = split_args(s.skip(k + 1));
        if piece.len() > 0 {
            seq![piece] + rest
        } else {
            rest
        }
    }
}

/// Every token produced by `split_args` is no longer than the input.
pub proof fn lemma_split_args_len(s: Seq<char>)
    ensures
        forall|i: int|
            0 <= i < split_args(s).len() ==> (#[trigger] split_args(s)[i]).len() <= s.len(),
    decreases s.len(),
{
    let k = first_comma(s) as int;
    lemma_class_prefix(s, not_comma_pred());
    lemma_strip_spaces(s.take(k));
    let piece = strip_spaces(s.take(k));
    if k < s.len() {
        lemma_split_args_len(s.skip(k + 1));
        let rest = split_args(s.skip(k + 1));
        assert forall|i: int|
            0 <= i < split_args(s).len() implies (#[trigger] split_args(s)[i]).len()
            <= s.len() by {
            if piece.len() > 0 {
                assert(split_args(s) == seq![piece] + rest);
                if i > 0 {
                    assert(split_args(s)[i] == rest[i - 1]);
                }
            } else {
                assert(split_args(s) == rest);
            }
        }
    }
}

/// Split a comma-separated token list, stripping each token's leading
/// whitespace and dropping tokens left empty.
pub fn split_args_exec(s: &str) -> (r: Vec<String>)
    ensures
        r.deep_view() == split_args(s@),
    decreases s@.len(),
{
    let n = s.unicode_len();
    let k = scan_first_comma(s);
    proof {
        lemma_class_prefix(s@, not_comma_pred());
    }
    let mut j: usize = 0;
    while j < k && space_char(s.get_char(j))
        invariant
            n == s@.len(),
            k == first_comma(s@),
            k <= n,
            0 <= j <= k,
            forall|i: int| 0 <= i < j ==> is_space(#[trigger] s@[i]),
        decreases k - j,
    {
        j = j + 1;
    }
    proof {
        let t = s@.take(k as int);
        assert(forall|i: int| 0 <= i < j ==> #[trigger] t[i] == s@[i]);
        lemma_class_prefix_unique(t, space_pred(), j as int);
        lemma_strip_spaces(t);
        assert(t.skip(j as int) =~= s@.subrange(j as int, k as int));
    }
    if k == n {
        let mut r: Vec<String> = Vec::new();
        if j < k {
            let piece = String::from_str(s.substring_char(j, k));
            r.push(piece);
        }
        proof {
            assert(r.deep_view() =~= split_args(s@));
        }
        r
    } else {
        let rest_str = s.substring_char(k + 1, n);
        let mut r = split_args_exec(rest_str);
        if j < k {
            let piece = String::from_str(s.substring_char(j, k));
            r.insert(0, piece);
        }
        proof {
            assert(rest_str@ == s@.skip(k + 1));
            assert(r.deep_view() =~= split_args(s@));
        }
        r
    }
}

} // verus!
