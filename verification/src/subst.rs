//! Positional argument substitution: placeholder tokens of the form
//! `$digits` in a command text are replaced left to right, the j-th token by
//! the j-th supplied argument, independent of the token's literal digits.
//!
//! Tokens beyond the supplied arguments are left untouched and unused
//! arguments are ignored: no arity error is raised.  Substitution always
//! produces a fresh string; it never mutates the input.

use vstd::prelude::*;

use crate::text::{
    class_prefix_len, digit_char, digit_pred, is_digit, lemma_class_prefix,
    lemma_class_prefix_unique,
};

verus! {

/// A placeholder token `$digits` begins at position `i` of `s`.
pub open spec fn token_at(s: Seq<char>, i: int) -> bool {
    s[i] == '$' && i + 1 < s.len() && is_digit(s[i + 1])
}

/// The text of `s` from position `i` on, with its placeholder tokens
/// replaced by the arguments from position `j` on.
pub open spec fn subst_from(s: Seq<char>, i: int, args: Seq<Seq<char>>, j: int) -> Seq<char>
    decreases s.len() - i,
{
    if i < 0 || i >= s.len() {
        Seq::empty()
    } else if token_at(s, i) {
        let t = i + 2 + class_prefix_len(s.skip(i + 2), digit_pred()) as int;
        proof {
            lemma_class_prefix(s.skip(i + 2), digit_pred());
        }
        let rep = if 0 <= j < args.len() {
            args[j]
        } else {
            s.subrange(i, t)
        };
        rep + subst_from(s, t, args, j + 1)
    } else {
        seq![s[i]] + subst_from(s, i + 1, args, j)
    }
}

/// `s` with its placeholder tokens replaced positionally by `args`.
pub open spec fn substitute(s: Seq<char>, args: Seq<Seq<char>>) -> Seq<char> {
    subst_from(s, 0, args, 0)
}

fn subst_tail(s: &str, i: usize, args: &Vec<String>, j: usize) -> (r: String)
    requires
        i <= s@.len(),
        j <= i,
    ensures
        r@ == subst_from(s@, i as int, args.deep_view(), j as int),
    decreases s@.len() - i,
{
    let n = s.unicode_len();
    if i >= n {
        return String::new();
    }
    let c = s.get_char(i);
    if c == '$' && i + 1 < n && digit_char(s.get_char(i + 1)) {
        let mut t: usize = i + 2;
        while t < n && digit_char(s.get_char(t))
            invariant
                n == s@.len(),
                i + 2 <= t <= n,
                forall|m: int| i + 2 <= m < t ==> is_digit(#[trigger] s@[m]),
            decreases n - t,
        {
            t = t + 1;
        }
        proof {
            let tail = s@.skip(i + 2);
            assert(forall|m: int| 0 <= m < t - i - 2 ==> #[trigger] tail[m] == s@[m + i + 2]);
            lemma_class_prefix_unique(tail, digit_pred(), t - i - 2);
        }
        let mut rep: String = if j < args.len() {
            proof {
                assert(args.deep_view()[j as int] == args@[j as int]@);
            }
            String::from_str(args[j].as_str())
        } else {
            String::from_str(s.substring_char(i, t))
        };
        let rest = subst_tail(s, t, args, j + 1);
        rep.append(rest.as_str());
        rep
    } else {
        let mut rep = String::from_str(s.substring_char(i, i + 1));
        proof {
            assert(s@.subrange(i as int, i + 1) =~= seq![s@[i as int]]);
        }
        let rest = subst_tail(s, i + 1, args, j);
        rep.append(rest.as_str());
        rep
    }
}

/// Replace the j-th placeholder token of `cmd` (counting from the left,
/// over the whole text) with the j-th argument, as `substitute` describes.
pub fn substitute_args(cmd: &str, args: &Vec<String>) -> (r: String)
    ensures
        r@ == substitute(cmd@, args.deep_view()),
{
    subst_tail(cmd, 0, args, 0)
}

} // verus!
