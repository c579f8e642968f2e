//! The decoded config document: the structural value model handed over by
//! the config-decoding collaborator, and the classification of config keys
//! into plain declarations and `name(arity)` function declarations.

use vstd::prelude::*;

use crate::text::{
    all_digits, all_digits_exec, alpha_pred, alpha_prefix_len, digits_val, lemma_class_prefix,
    parse_usize, scan_alpha_prefix,
};

verus! {

/// One decoded config value: a scalar command string, an ordered list of
/// command strings, or a nested mapping in document order.
#[derive(Debug, PartialEq, Eq)]
pub enum ConfigValue {
    Command(String),
    List(Vec<String>),
    Mapping(Vec<(String, ConfigValue)>),
}

/// Whether a config key is a plain declaration or records an expected
/// argument count.
#[derive(Debug, PartialEq, Eq)]
pub enum ConfigKeyType {
    Declarative,
    Functional(usize),
}

/// One config entry with its key classified: for a `name(arity)` key, `key`
/// holds the bare name.
#[derive(Debug, PartialEq, Eq)]
pub struct ConfigEntry {
    pub key: String,
    pub key_type: ConfigKeyType,
    pub value: ConfigValue,
}

/// A config document: the directory it was found in, the file it was decoded
/// from, and its decoded data in document order.
#[derive(Debug, PartialEq, Eq)]
pub struct Config {
    pub path: String,
    pub entry: String,
    pub data: Vec<(String, ConfigValue)>,
}

/// `name(digits)`: a non-empty alphabetic name followed by a parenthesised
/// non-empty digit string, spanning the whole key.
pub open spec fn func_key_form(key: Seq<char>) -> bool {
    let q = alpha_prefix_len(key) as int;
    &&& 1 <= q
    &&& q + 3 <= key.len()
    &&& key[q] == '('
    &&& key[key.len() - 1] == ')'
    &&& all_digits(key.subrange(q + 1, key.len() - 1))
}

/// The arity a function-form key records.
pub open spec fn func_key_arity(key: Seq<char>) -> nat {
    digits_val(key.subrange(alpha_prefix_len(key) as int + 1, key.len() - 1))
}

/// A key is classified as functional exactly when it has the function form
/// and its arity fits the machine word.
pub open spec fn key_is_functional(key: Seq<char>) -> bool {
    func_key_form(key) && func_key_arity(key) <= usize::MAX
}

/// The name under which a key is entered: the bare name of a functional key,
/// the whole key otherwise.
pub open spec fn config_key_name(key: Seq<char>) -> Seq<char> {
    if key_is_functional(key) {
        key.take(alpha_prefix_len(key) as int)
    } else {
        key
    }
}

/// The classification a key receives.
pub open spec fn key_classifies_to(key: Seq<char>, kt: ConfigKeyType) -> bool {
    if key_is_functional(key) {
        kt matches ConfigKeyType::Functional(a) && a as nat == func_key_arity(key)
    } else {
        kt is Declarative
    }
}

/// Classify one config key: `name(arity)` with an alphabetic name and an
/// arity that fits the machine word becomes functional, anything else a
/// plain declaration under the whole key.
pub fn classify_key(key: &str) -> (r: (String, ConfigKeyType))
    ensures
        r.0@ == config_key_name(key@),
        key_classifies_to(key@, r.1),
{
    let n = key.unicode_len();
    let q = scan_alpha_prefix(key);
    proof {
        lemma_class_prefix(key@, alpha_pred());
    }
    if q >= 1 && n >= 3 && q <= n - 3 && key.get_char(q) == '(' && key.get_char(n - 1) == ')' {
        let digits = key.substring_char(q + 1, n - 1);
        proof {
            assert(digits@ =~= key@.subrange(q + 1, n - 1));
        }
        if all_digits_exec(digits) {
            if let Some(a) = parse_usize(digits) {
                let name = String::from_str(key.substring_char(0, q));
                proof {
                    assert(name@ =~= key@.take(q as int));
                }
                return (name, ConfigKeyType::Functional(a));
            }
        }
    }
    (String::from_str(key), ConfigKeyType::Declarative)
}

/// Index just after the last `/` of `s`, or 0: where the file name starts.
pub open spec fn last_slash_end(s: Seq<char>) -> int
    decreases s.len(),
{
    if s.len() == 0 {
        0
    } else if s.last() == '/' {
        s.len() as int
    } else {
        last_slash_end(s.drop_last())
    }
}

pub proof fn lemma_last_slash_end(s: Seq<char>)
    ensures
        0 <= last_slash_end(s) <= s.len(),
        forall|i: int| last_slash_end(s) <= i < s.len() ==> s[i] != '/',
        last_slash_end(s) > 0 ==> s[last_slash_end(s) - 1] == '/',
    decreases s.len(),
{
    if s.len() > 0 && s.last() != '/' {
        lemma_last_slash_end(s.drop_last());
        assert forall|i: int| last_slash_end(s) <= i < s.len() implies s[i] != '/' by {
            if i < s.len() - 1 {
                assert(s.drop_last()[i] == s[i]);
            }
        }
        if last_slash_end(s) > 0 {
            assert(s.drop_last()[last_slash_end(s) - 1] == s[last_slash_end(s) - 1]);
        }
    }
}

/// Index of the last `.` of `s`, if any.
pub open spec fn last_dot(s: Seq<char>) -> Option<int>
    decreases s.len(),
{
    if s.len() == 0 {
        Option::None
    } else if s.last() == '.' {
        Option::Some((s.len() - 1) as int)
    } else {
        last_dot(s.drop_last())
    }
}

pub proof fn lemma_last_dot(s: Seq<char>)
    ensures
        (match last_dot(s) {
            Option::Some(d) => 0 <= d < s.len() && s[d] == '.' && (forall|i: int|
                d < i < s.len() ==> s[i] != '.'),
            Option::None => forall|i: int| 0 <= i < s.len() ==> s[i] != '.',
        }),
    decreases s.len(),
{
    if s.len() > 0 && s.last() != '.' {
        lemma_last_dot(s.drop_last());
        assert(forall|i: int| 0 <= i < s.len() - 1 ==> s.drop_last()[i] == s[i]);
    }
}

/// The file stem of a slash-separated path: the file name (after the last
/// `/`) up to its last `.`, except that a `.` opening the file name does not
/// end the stem.
pub open spec fn file_stem(path: Seq<char>) -> Seq<char> {
    let name = path.skip(last_slash_end(path));
    match last_dot(name) {
        Option::Some(d) => if d > 0 {
            name.take(d)
        } else {
            name
        },
        Option::None => name,
    }
}

/// Compute the file stem of a slash-separated path, as `file_stem` describes.
pub fn file_stem_exec(path: &str) -> (r: String)
    ensures
        r@ == file_stem(path@),
{
    let n = path.unicode_len();
    let mut b: usize = n;
    while b > 0 && path.get_char(b - 1) != '/'
        invariant
            n == path@.len(),
            0 <= b <= n,
            forall|m: int| b <= m < n ==> path@[m] != '/',
        decreases b,
    {
        b = b - 1;
    }
    proof {
        lemma_last_slash_end(path@);
        let lse = last_slash_end(path@);
        if lse < b {
            assert(path@[b - 1] == '/');
        } else if b < lse {
            assert(path@[lse - 1] != '/');
        }
        assert(b as int == lse);
    }
    let mut d: usize = n;
    while d > b && path.get_char(d - 1) != '.'
        invariant
            n == path@.len(),
            b <= d <= n,
            forall|m: int| d <= m < n ==> path@[m] != '.',
        decreases d,
    {
        d = d - 1;
    }
    let ghost name = path@.skip(b as int);
    proof {
        lemma_last_dot(name);
        assert(forall|m: int| 0 <= m < name.len() ==> name[m] == path@[m + b]);
        match last_dot(name) {
            Option::Some(ld) => {
                assert(d > b);
                assert(path@[d - 1] == '.');
                if ld < d - 1 - b {
                    assert(name[d - 1 - b] == '.');
                } else if d - 1 - b < ld {
                    assert(path@[ld + b] == '.');
                }
                assert(ld == d - 1 - b);
            },
            Option::None => {
                if d > b {
                    assert(name[d - 1 - b] == '.');
                }
                assert(d == b);
            },
        }
    }
    if d > b && d - 1 > b {
        let r = String::from_str(path.substring_char(b, d - 1));
        proof {
            assert(r@ =~= file_stem(path@));
        }
        r
    } else {
        let r = String::from_str(path.substring_char(b, n));
        proof {
            assert(r@ =~= file_stem(path@));
        }
        r
    }
}

/// Find the config file among directory entries: the first path whose file
/// stem is the fixed config name stem, or nothing when no entry matches.
pub fn find_config(entries: &Vec<String>) -> (r: Option<String>)
    ensures
        (match r {
            Some(p) => exists|i: int|
                0 <= i < entries@.len() && p@ == #[trigger] entries@[i]@ && file_stem(
                    entries@[i]@,
                ) == "prog"@ && (forall|j: int|
                    0 <= j < i ==> file_stem(#[trigger] entries@[j]@) != "prog"@),
            None => forall|i: int|
                0 <= i < entries@.len() ==> file_stem(#[trigger] entries@[i]@) != "prog"@,
        }),
{
    let needle = String::from_str("prog");
    let mut i: usize = 0;
    while i < entries.len()
        invariant
            needle@ == "prog"@,
            0 <= i <= entries@.len(),
            forall|j: int| 0 <= j < i ==> file_stem(#[trigger] entries@[j]@) != "prog"@,
        decreases entries@.len() - i,
    {
        let stem = file_stem_exec(entries[i].as_str());
        if stem == needle {
            return Some(entries[i].clone());
        }
        i = i + 1;
    }
    None
}

/// Classify every entry of a decoded config mapping, in order, carrying the
/// values through unchanged.
pub fn parse_config(raw: Vec<(String, ConfigValue)>) -> (r: Vec<ConfigEntry>)
    ensures
        r@.len() == raw@.len(),
        forall|i: int|
            0 <= i < raw@.len() ==> {
                &&& (#[trigger] r@[i]).key@ == config_key_name(raw@[i].0@)
                &&& key_classifies_to(raw@[i].0@, r@[i].key_type)
                &&& r@[i].value == raw@[i].1
            },
{
    let ghost orig = raw@;
    let mut raw = raw;
    let mut out: Vec<ConfigEntry> = Vec::new();
    while raw.len() > 0
        invariant
            out@.len() + raw@.len() == orig.len(),
            raw@ == orig.skip(out@.len() as int),
            forall|i: int|
                0 <= i < out@.len() ==> {
                    &&& (#[trigger] out@[i]).key@ == config_key_name(orig[i].0@)
                    &&& key_classifies_to(orig[i].0@, out@[i].key_type)
                    &&& out@[i].value == orig[i].1
                },
        decreases raw@.len(),
    {
        proof {
            assert(raw@[0] == orig[out@.len() as int]);
        }
        let (k, v) = raw.remove(0);
        let (name, kt) = classify_key(k.as_str());
        out.push(ConfigEntry { key: name, key_type: kt, value: v });
        proof {
            assert(raw@ =~= orig.skip(out@.len() as int));
        }
    }
    out
}

} // verus!
