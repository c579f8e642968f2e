//! The invocation mini-language: the recursive `Invoc` AST, the grammar that
//! one statement must match, and the parser that connects them.
//!
//! Grammar, tried in order against the whole statement:
//! - declarative: `name`, one or more alphanumeric characters;
//! - imperative: `name(args)`, alphabetic name, comma-separated arguments;
//! - scoped: `name{stmts}`, alphanumeric name, comma-separated sub-statements;
//! - indexical: `name[idxs]`, alphanumeric name, comma-separated indices;
//! - selective: `name.rest`, alphanumeric name, `rest` a full statement.
//!
//! The forms are mutually exclusive: each is decided by the character that
//! follows the statement's leading alphanumeric (or alphabetic) run.

use vstd::prelude::*;

use crate::error::ParseError;
use crate::prelude::TryParseFrom;
use crate::text::{
    all_digits, alnum_pred, alpha_pred, alnum_prefix_len, alpha_prefix_len, digits_val,
    lemma_class_prefix, lemma_class_prefix_unique, lemma_split_args_len, split_args,
    split_args_exec, scan_alnum_prefix, scan_alpha_prefix, parse_usize, all_digits_exec,
    class_prefix_len, is_space, space_char,
};

verus! {

/// The shape of one invocation, with its payload.
#[derive(Debug, PartialEq, Eq)]
pub enum InvocType {
    Declarative,
    Imperative(Vec<String>),
    Scoped(Vec<Invoc>),
    Indexical(Vec<usize>),
    Selective(Box<Invoc>),
}

/// One parsed invocation: the alias name it targets and its kind.
#[derive(Debug, PartialEq, Eq)]
pub struct Invoc {
    pub alias_key: String,
    pub invoc_type: InvocType,
}

pub type Invocs = Vec<Invoc>;

/// The whole statement is one alphanumeric name.
pub open spec fn decl_form(s: Seq<char>) -> bool {
    s.len() >= 1 && alnum_prefix_len(s) == s.len()
}

/// A name of length `p`, an opening delimiter at `p`, and the matching
/// closing delimiter at the end.
pub open spec fn wrapped_form(s: Seq<char>, p: int, open_c: char, close_c: char) -> bool {
    1 <= p && p + 2 <= s.len() && s[p] == open_c && s[s.len() - 1] == close_c
}

/// `name(args)`: the name is the statement's alphabetic prefix.
pub open spec fn imp_form(s: Seq<char>) -> bool {
    wrapped_form(s, alpha_prefix_len(s) as int, '(', ')')
}

/// `name{stmts}`: the name is the statement's alphanumeric prefix.
pub open spec fn scope_form(s: Seq<char>) -> bool {
    wrapped_form(s, alnum_prefix_len(s) as int, '{', '}')
}

/// `name[idxs]`: the name is the statement's alphanumeric prefix.
pub open spec fn index_form(s: Seq<char>) -> bool {
    wrapped_form(s, alnum_prefix_len(s) as int, '[', ']')
}

/// `name.rest`: the name is the statement's alphanumeric prefix.
pub open spec fn select_form(s: Seq<char>) -> bool {
    let p = alnum_prefix_len(s) as int;
    1 <= p && p < s.len() && s[p] == '.'
}

/// The text between the delimiter at `p` and the closing one at the end.
pub open spec fn inner_of(s: Seq<char>, p: int) -> Seq<char> {
    s.subrange(p + 1, s.len() - 1)
}

/// `inv` is the parse of statement `s`: the grammar form that `s` matches
/// determines the alias name, the invocation kind and its payload.
pub open spec fn parses_to(s: Seq<char>, inv: Invoc) -> bool
    decreases s.len(),
{
    if decl_form(s) {
        inv.alias_key@ == s && inv.invoc_type is Declarative
    } else if imp_form(s) {
        let q = alpha_prefix_len(s) as int;
        inv.alias_key@ == s.take(q) && (inv.invoc_type matches InvocType::Imperative(args)
            && args.deep_view() == split_args(inner_of(s, q)))
    } else if scope_form(s) {
        let p = alnum_prefix_len(s) as int;
        let pieces = split_args(inner_of(s, p));
        proof {
            lemma_split_args_len(inner_of(s, p));
        }
        inv.alias_key@ == s.take(p) && (inv.invoc_type matches InvocType::Scoped(subs)
            && subs.len() == pieces.len() && (forall|i: int|
            0 <= i < pieces.len() ==> parses_to(pieces[i], #[trigger] subs@[i])))
    } else if index_form(s) {
        let p = alnum_prefix_len(s) as int;
        let toks = split_args(inner_of(s, p));
        inv.alias_key@ == s.take(p) && (inv.invoc_type matches InvocType::Indexical(idxs)
            && idxs.len() == toks.len() && (forall|i: int|
            0 <= i < toks.len() ==> all_digits(#[trigger] toks[i]) && idxs@[i] as nat
                == digits_val(toks[i])))
    } else if select_form(s) {
        let p = alnum_prefix_len(s) as int;
        inv.alias_key@ == s.take(p) && (inv.invoc_type matches InvocType::Selective(child)
            && parses_to(s.skip(p + 1), *child))
    } else {
        false
    }
}

/// `s` matches the grammar, every index literal fitting in `usize`: exactly
/// the statements the parser accepts.
pub open spec fn accepts(s: Seq<char>) -> bool
    decreases s.len(),
{
    if decl_form(s) {
        true
    } else if imp_form(s) {
        true
    } else if scope_form(s) {
        let pieces = split_args(inner_of(s, alnum_prefix_len(s) as int));
        proof {
            lemma_split_args_len(inner_of(s, alnum_prefix_len(s) as int));
        }
        forall|i: int| 0 <= i < pieces.len() ==> accepts(#[trigger] pieces[i])
    } else if index_form(s) {
        let toks = split_args(inner_of(s, alnum_prefix_len(s) as int));
        forall|i: int|
            0 <= i < toks.len() ==> all_digits(#[trigger] toks[i]) && digits_val(toks[i])
                <= usize::MAX
    } else if select_form(s) {
        accepts(s.skip(alnum_prefix_len(s) as int + 1))
    } else {
        false
    }
}

impl Invoc {
    /// Parse one statement (no statement delimiters) against the grammar.
    /// Succeeds exactly on the statements that `accepts` describes, and the
    /// result is the parse that `parses_to` describes.
    pub fn parse_statement(s: &str) -> (r: Result<Invoc, ParseError>)
        ensures
            match r {
                Ok(inv) => accepts(s@) && parses_to(s@, inv),
                Err(_) => !accepts(s@),
            },
        decreases s@.len(),
    {
        let n = s.unicode_len();
        let p = scan_alnum_prefix(s);
        let q = scan_alpha_prefix(s);
        proof {
            lemma_class_prefix(s@, alnum_pred());
            lemma_class_prefix(s@, alpha_pred());
        }
        if n >= 1 && p == n {
            Ok(Invoc { alias_key: String::from_str(s), invoc_type: InvocType::Declarative })
        } else if q >= 1 && n >= 2 && q <= n - 2 && s.get_char(q) == '(' && s.get_char(n - 1)
            == ')' {
            let name = String::from_str(s.substring_char(0, q));
            let inner = s.substring_char(q + 1, n - 1);
            let args = split_args_exec(inner);
            proof {
                assert(inner@ =~= inner_of(s@, q as int));
                assert(name@ =~= s@.take(q as int));
            }
            Ok(Invoc { alias_key: name, invoc_type: InvocType::Imperative(args) })
        } else if p >= 1 && n >= 2 && p <= n - 2 && s.get_char(p) == '{' && s.get_char(n - 1)
            == '}' {
            let name = String::from_str(s.substring_char(0, p));
            let inner = s.substring_char(p + 1, n - 1);
            let pieces = split_args_exec(inner);
            proof {
                assert(inner@ =~= inner_of(s@, p as int));
                assert(name@ =~= s@.take(p as int));
                lemma_split_args_len(inner_of(s@, p as int));
            }
            let mut subs: Vec<Invoc> = Vec::new();
            let mut i: usize = 0;
            while i < pieces.len()
                invariant
                    scope_form(s@),
                    !decl_form(s@),
                    !imp_form(s@),
                    p == alnum_prefix_len(s@),
                    n == s@.len(),
                    1 <= p && p + 2 <= n,
                    pieces.deep_view() == split_args(inner_of(s@, p as int)),
                    subs.len() == i,
                    0 <= i <= pieces.len(),
                    forall|j: int| 0 <= j < i ==> accepts(#[trigger] pieces.deep_view()[j]),
                    forall|j: int|
                        0 <= j < i ==> parses_to(pieces.deep_view()[j], #[trigger] subs@[j]),
                decreases pieces.len() - i,
            {
                proof {
                    lemma_split_args_len(inner_of(s@, p as int));
                    assert(pieces.deep_view()[i as int].len() <= inner_of(s@, p as int).len());
                    assert(pieces@[i as int]@ == pieces.deep_view()[i as int]);
                }
                match Invoc::parse_statement(pieces[i].as_str()) {
                    Ok(sub) => {
                        let ghost pre = subs@;
                        subs.push(sub);
                        proof {
                            assert(accepts(pieces.deep_view()[i as int]));
                            assert forall|j: int|
                                0 <= j <= i as int implies parses_to(
                                pieces.deep_view()[j],
                                #[trigger] subs@[j],
                            ) by {
                                if j < i as int {
                                    assert(subs@[j] == pre[j]);
                                } else {
                                    assert(subs@[j] == sub);
                                    assert(pieces@[i as int]@ == pieces.deep_view()[i as int]);
                                }
                            }
                        }
                        i = i + 1;
                    },
                    Err(e) => {
                        proof {
                            assert(!accepts(pieces.deep_view()[i as int]));
                        }
                        return Err(e);
                    },
                }
            }
            Ok(Invoc { alias_key: name, invoc_type: InvocType::Scoped(subs) })
        } else if p >= 1 && n >= 2 && p <= n - 2 && s.get_char(p) == '[' && s.get_char(n - 1)
            == ']' {
            let name = String::from_str(s.substring_char(0, p));
            let inner = s.substring_char(p + 1, n - 1);
            let toks = split_args_exec(inner);
            proof {
                assert(inner@ =~= inner_of(s@, p as int));
                assert(name@ =~= s@.take(p as int));
            }
            let mut idxs: Vec<usize> = Vec::new();
            let mut i: usize = 0;
            while i < toks.len()
                invariant
                    index_form(s@),
                    !decl_form(s@),
                    !imp_form(s@),
                    !scope_form(s@),
                    p == alnum_prefix_len(s@),
                    n == s@.len(),
                    toks.deep_view() == split_args(inner_of(s@, p as int)),
                    idxs.len() == i,
                    0 <= i <= toks.len(),
                    forall|j: int|
                        0 <= j < i ==> all_digits(#[trigger] toks.deep_view()[j]) && digits_val(
                            toks.deep_view()[j],
                        ) <= usize::MAX && idxs@[j] as nat == digits_val(toks.deep_view()[j]),
                decreases toks.len() - i,
            {
                proof {
                    assert(toks@[i as int]@ == toks.deep_view()[i as int]);
                }
                if !all_digits_exec(toks[i].as_str()) {
                    return Err(ParseError::Syntax);
                }
                match parse_usize(toks[i].as_str()) {
                    Some(v) => {
                        idxs.push(v);
                        i = i + 1;
                    },
                    None => {
                        return Err(ParseError::Syntax);
                    },
                }
            }
            Ok(Invoc { alias_key: name, invoc_type: InvocType::Indexical(idxs) })
        } else if p >= 1 && p < n && s.get_char(p) == '.' {
            let name = String::from_str(s.substring_char(0, p));
            let rest = s.substring_char(p + 1, n);
            proof {
                assert(rest@ =~= s@.skip(p + 1));
                assert(name@ =~= s@.take(p as int));
            }
            match Invoc::parse_statement(rest) {
                Ok(child) => Ok(
                    Invoc {
                        alias_key: name,
                        invoc_type: InvocType::Selective(Box::new(child)),
                    },
                ),
                Err(e) => Err(e),
            }
        } else {
            Err(ParseError::Syntax)
        }
    }
}

/// A statement delimiter character: semicolon or line feed.
pub open spec fn is_delim_char(c: char) -> bool {
    c == ';' || c == '\n'
}

pub open spec fn delim_pred() -> spec_fn(char) -> bool {
    |c: char| is_delim_char(c)
}

pub fn delim_char_exec(c: char) -> (b: bool)
    ensures
        b == is_delim_char(c),
{
    c == ';' || c == '\n'
}

/// A statement delimiter begins at `i`: a delimiter character, or a single
/// whitespace character directly followed by one.
pub open spec fn delim_start_at(s: Seq<char>, i: int) -> bool {
    is_delim_char(s[i]) || (is_space(s[i]) && i + 1 < s.len() && is_delim_char(s[i + 1]))
}

/// Index of the first statement delimiter in `s`, or `s.len()`.
pub open spec fn first_delim(s: Seq<char>) -> nat
    decreases s.len(),
{
    if s.len() == 0 {
        0
    } else if delim_start_at(s, 0) {
        0
    } else {
        1 + first_delim(s.skip(1))
    }
}

pub proof fn lemma_first_delim(s: Seq<char>)
    ensures
        first_delim(s) <= s.len(),
        forall|i: int| 0 <= i < first_delim(s) ==> !delim_start_at(s, i),
        first_delim(s) < s.len() ==> delim_start_at(s, first_delim(s) as int),
    decreases s.len(),
{
    if s.len() > 0 && !delim_start_at(s, 0) {
        lemma_first_delim(s.skip(1));
        let d = first_delim(s) as int;
        assert forall|i: int| 0 <= i < d implies !delim_start_at(s, i) by {
            if i > 0 {
                assert(s.skip(1)[i - 1] == s[i]);
                if i + 1 < s.len() {
                    assert(s.skip(1)[i] == s[i + 1]);
                }
                assert(!delim_start_at(s.skip(1), i - 1));
            }
        }
        if d < s.len() {
            assert(delim_start_at(s.skip(1), d - 1));
            assert(s.skip(1)[d - 1] == s[d]);
            if d + 1 < s.len() {
                assert(s.skip(1)[d] == s[d + 1]);
            }
        }
    }
}

pub proof fn lemma_first_delim_unique(s: Seq<char>, d: int)
    requires
        0 <= d <= s.len(),
        forall|i: int| 0 <= i < d ==> !delim_start_at(s, i),
        d < s.len() ==> delim_start_at(s, d),
    ensures
        d == first_delim(s),
{
    lemma_first_delim(s);
    let q = first_delim(s) as int;
    if d < q {
        assert(!delim_start_at(s, d));
    } else if q < d {
        assert(!delim_start_at(s, q));
    }
}

/// Split a script or multi-statement target on statement delimiters: a run
/// of one or more semicolons or line feeds, optionally bounded on each side
/// by a single whitespace character.  Statements left empty are discarded.
pub open spec fn split_stmts(s: Seq<char>) -> Seq<Seq<char>>
    decreases s.len(),
{
    let d = first_delim(s) as int;
    proof {
        lemma_first_delim(s);
    }
    if d >= s.len() {
        if s.len() > 0 {
            seq![s]
        } else {
            Seq::empty()
        }
    } else {
        let piece = s.take(d);
        let j = if is_delim_char(s[d]) {
            d
        } else {
            d + 1
        };
        let run = class_prefix_len(s.skip(j), delim_pred()) as int;
        proof {
            lemma_class_prefix(s.skip(j), delim_pred());
            assert(delim_pred()(s.skip(j)[0]));
        }
        let k = j + run;
        let e = if k < s.len() && is_space(s[k]) {
            k + 1
        } else {
            k
        };
        let rest = split_stmts(s.skip(e));
        if piece.len() > 0 {
            seq![piece] + rest
        } else {
            rest
        }
    }
}

/// Whether a statement delimiter begins at character `i`.
fn delim_start_here(s: &str, i: usize) -> (b: bool)
    requires
        i < s@.len(),
    ensures
        b == delim_start_at(s@, i as int),
{
    let c = s.get_char(i);
    if delim_char_exec(c) {
        true
    } else if space_char(c) {
        let n = s.unicode_len();
        i + 1 < n && delim_char_exec(s.get_char(i + 1))
    } else {
        false
    }
}

/// Split a script or multi-statement target into statements, as
/// `split_stmts` describes.
pub fn split_statements(s: &str) -> (r: Vec<String>)
    ensures
        r.deep_view() == split_stmts(s@),
    decreases s@.len(),
{
    let n = s.unicode_len();
    let mut d: usize = 0;
    while d < n && !delim_start_here(s, d)
        invariant
            n == s@.len(),
            0 <= d <= n,
            forall|i: int| 0 <= i < d ==> !delim_start_at(s@, i),
        decreases n - d,
    {
        d = d + 1;
    }
    proof {
        lemma_first_delim_unique(s@, d as int);
    }
    if d == n {
        let mut r: Vec<String> = Vec::new();
        if n > 0 {
            r.push(String::from_str(s));
        }
        proof {
            assert(r.deep_view() =~= split_stmts(s@));
        }
        r
    } else {
        let j = if delim_char_exec(s.get_char(d)) {
            d
        } else {
            d + 1
        };
        let mut k: usize = j;
        while k < n && delim_char_exec(s.get_char(k))
            invariant
                n == s@.len(),
                j <= k <= n,
                forall|m: int| j <= m < k ==> is_delim_char(#[trigger] s@[m]),
            decreases n - k,
        {
            k = k + 1;
        }
        proof {
            let t = s@.skip(j as int);
            assert(forall|i: int|
                0 <= i < k - j ==> #[trigger] t[i] == s@[i + j] && is_delim_char(s@[i + j]));
            lemma_class_prefix_unique(t, delim_pred(), k - j as int);
            assert(is_delim_char(s@[j as int]));
        }
        let e = if k < n && space_char(s.get_char(k)) {
            k + 1
        } else {
            k
        };
        let rest_str = s.substring_char(e, n);
        proof {
            assert(rest_str@ == s@.skip(e as int));
        }
        let mut r = split_statements(rest_str);
        if d > 0 {
            let ghost pre = r.deep_view();
            let piece = String::from_str(s.substring_char(0, d));
            proof {
                assert(piece@ =~= s@.take(d as int));
            }
            r.insert(0, piece);
            proof {
                assert(r.deep_view() =~= seq![s@.take(d as int)] + pre);
            }
        }
        proof {
            assert(r.deep_view() =~= split_stmts(s@));
        }
        r
    }
}

impl TryParseFrom<&str> for Invoc {
    type Error = ParseError;

    fn try_parse_from(value: &str) -> (r: Result<Self, Self::Error>)
        ensures
            match r {
                Ok(inv) => accepts(value@) && parses_to(value@, inv),
                Err(_) => !accepts(value@),
            },
    {
        Invoc::parse_statement(value)
    }
}

impl TryParseFrom<&String> for Invocs {
    type Error = ParseError;

    /// Split `value` into statements and parse each in order, failing on the
    /// first statement that the grammar rejects.
    fn try_parse_from(value: &String) -> (r: Result<Invocs, ParseError>)
        ensures
            match r {
                Ok(invs) => {
                    let stmts = split_stmts(value@);
                    &&& invs.len() == stmts.len()
                    &&& forall|i: int| 0 <= i < stmts.len() ==> accepts(#[trigger] stmts[i])
                    &&& forall|i: int|
                        0 <= i < stmts.len() ==> parses_to(stmts[i], #[trigger] invs@[i])
                },
                Err(_) => exists|i: int|
                    0 <= i < split_stmts(value@).len() && !accepts(
                        #[trigger] split_stmts(value@)[i],
                    ),
            },
    {
        let stmts = split_statements(value.as_str());
        let mut invs: Vec<Invoc> = Vec::new();
        let mut i: usize = 0;
        while i < stmts.len()
            invariant
                stmts.deep_view() == split_stmts(value@),
                invs.len() == i,
                0 <= i <= stmts.len(),
                forall|j: int| 0 <= j < i ==> accepts(#[trigger] stmts.deep_view()[j]),
                forall|j: int|
                    0 <= j < i ==> parses_to(stmts.deep_view()[j], #[trigger] invs@[j]),
            decreases stmts.len() - i,
        {
            proof {
                assert(stmts@[i as int]@ == stmts.deep_view()[i as int]);
            }
            match Invoc::parse_statement(stmts[i].as_str()) {
                Ok(inv) => {
                    let ghost pre = invs@;
                    invs.push(inv);
                    proof {
                        assert(accepts(stmts.deep_view()[i as int]));
                        assert forall|j: int|
                            0 <= j <= i as int implies parses_to(
                            stmts.deep_view()[j],
                            #[trigger] invs@[j],
                        ) by {
                            if j < i as int {
                                assert(invs@[j] == pre[j]);
                            } else {
                                assert(invs@[j] == inv);
                            }
                        }
                    }
                    i = i + 1;
                },
                Err(e) => {
                    proof {
                        assert(!accepts(split_stmts(value@)[i as int]));
                    }
                    return Err(e);
                },
            }
        }
        Ok(invs)
    }
}

} // verus!
