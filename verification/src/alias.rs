//! The alias dictionary: an ordered sequence of key/value pairs, nested
//! through `Mapping` values to unbounded depth, built from a decoded config
//! document and looked up by name with later entries shadowing earlier ones.

use vstd::prelude::*;

use crate::config::{
    classify_key, config_key_name, func_key_arity, key_is_functional, Config, ConfigKeyType,
    ConfigValue,
};
use crate::error::ParseError;
use crate::prelude::{Process, TryParseFrom};
use crate::subst::{substitute, substitute_args};
use crate::text::clone_string_vec;

verus! {

/// The value of one alias: a single command, an ordered command list, or a
/// nested dictionary.
#[derive(Debug, PartialEq, Eq)]
pub enum AliasValue {
    Command(String),
    List(Vec<String>),
    Mapping(Aliases),
}

/// The key of one alias: a plain name, or a name recording the expected
/// argument count of the alias.  Lookup matches on the name only.
#[derive(Debug, PartialEq, Eq)]
pub enum AliasKey {
    Declaration(String),
    Function(String, usize),
}

/// One alias: a key paired with its value.
#[derive(Debug, PartialEq, Eq)]
pub struct Alias {
    pub key: AliasKey,
    pub value: AliasValue,
}

/// One dictionary level, in document order.
pub type Aliases = Vec<Alias>;

/// The literal name an alias key is looked up under, regardless of its tag.
pub open spec fn key_name(k: AliasKey) -> Seq<char> {
    match k {
        AliasKey::Declaration(s) => s@,
        AliasKey::Function(s, _) => s@,
    }
}

/// The last entry of `aliases` whose key name equals `name`, if any: later
/// entries shadow earlier ones.
pub open spec fn lookup(aliases: Seq<Alias>, name: Seq<char>) -> Option<Alias>
    decreases aliases.len(),
{
    if aliases.len() == 0 {
        None
    } else if key_name(aliases.last().key) == name {
        Some(aliases.last())
    } else {
        lookup(aliases.drop_last(), name)
    }
}

/// Shadowing law: when position `j` holds the last entry whose key name
/// matches `name`, lookup returns exactly that entry — in particular, with
/// two entries of the same name, the later one wins.
pub proof fn lemma_lookup_last_match(aliases: Seq<Alias>, name: Seq<char>, j: int)
    requires
        0 <= j < aliases.len(),
        key_name(aliases[j].key) == name,
        forall|k: int| j < k < aliases.len() ==> key_name((#[trigger] aliases[k]).key) != name,
    ensures
        lookup(aliases, name) == Some(aliases[j]),
    decreases aliases.len(),
{
    if j == aliases.len() - 1 {
        assert(aliases.last() == aliases[j]);
    } else {
        assert(key_name(aliases.last().key) != name);
        assert(aliases.drop_last()[j] == aliases[j]);
        lemma_lookup_last_match(aliases.drop_last(), name, j);
    }
}

/// Look `name` up at one dictionary level, later entries shadowing earlier
/// ones, as `lookup` describes.
pub fn lookup_alias<'a>(aliases: &'a Aliases, name: &String) -> (r: Option<&'a Alias>)
    ensures
        match r {
            Some(a) => lookup(aliases@, name@) == Some(*a),
            None => lookup(aliases@, name@) is None,
        },
{
    proof {
        assert(aliases@.take(aliases@.len() as int) =~= aliases@);
    }
    let mut i: usize = aliases.len();
    while i > 0
        invariant
            0 <= i <= aliases@.len(),
            lookup(aliases@, name@) == lookup(aliases@.take(i as int), name@),
        decreases i,
    {
        i = i - 1;
        let a = &aliases[i];
        let nm = match &a.key {
            AliasKey::Declaration(s) => s,
            AliasKey::Function(s, _) => s,
        };
        proof {
            let t = aliases@.take(i + 1);
            assert(t.last() == aliases@[i as int]);
            assert(t.drop_last() =~= aliases@.take(i as int));
            assert(nm@ == key_name(aliases@[i as int].key));
        }
        if *nm == *name {
            return Some(a);
        }
    }
    None
}

/// The alias key built from config key text: functional keys keep the bare
/// name and the recorded arity, all others the whole key.
pub open spec fn built_key(key: Seq<char>, k: AliasKey) -> bool {
    if key_is_functional(key) {
        k matches AliasKey::Function(nm, a) && nm@ == config_key_name(key) && a as nat
            == func_key_arity(key)
    } else {
        k matches AliasKey::Declaration(nm) && nm@ == key
    }
}

/// The alias value built from a config value: the same shape, with nested
/// mapping entries built pairwise in order.
pub open spec fn built_value(cv: ConfigValue, av: AliasValue) -> bool
    decreases cv,
{
    match cv {
        ConfigValue::Command(c) => av matches AliasValue::Command(c2) && c2@ == c@,
        ConfigValue::List(l) => av matches AliasValue::List(l2) && l2.deep_view()
            == l.deep_view(),
        ConfigValue::Mapping(m) => av matches AliasValue::Mapping(al) && al@.len() == m@.len()
            && (forall|i: int|
            0 <= i < m@.len() ==> built_key(m@[i].0@, (#[trigger] al@[i]).key) && built_value(
                m@[i].1,
                al@[i].value,
            )),
    }
}

/// The alias built from one config entry.
pub open spec fn built_alias(key: Seq<char>, cv: ConfigValue, a: Alias) -> bool {
    built_key(key, a.key) && built_value(cv, a.value)
}

/// Build one alias from a config key and value, as `built_alias` describes.
fn build_alias_from(key: &String, cv: &ConfigValue) -> (r: Alias)
    ensures
        built_alias(key@, *cv, r),
    decreases *cv, 1int,
{
    let (name, kt) = classify_key(key.as_str());
    let akey = match kt {
        ConfigKeyType::Declarative => AliasKey::Declaration(name),
        ConfigKeyType::Functional(a) => AliasKey::Function(name, a),
    };
    let av = build_alias_value(cv);
    Alias { key: akey, value: av }
}

/// Build one alias value from a config value, as `built_value` describes.
fn build_alias_value(cv: &ConfigValue) -> (r: AliasValue)
    ensures
        built_value(*cv, r),
    decreases *cv, 0int,
{
    match cv {
        ConfigValue::Command(c) => AliasValue::Command(c.clone()),
        ConfigValue::List(l) => AliasValue::List(clone_string_vec(l)),
        ConfigValue::Mapping(m) => {
            let mut out: Aliases = Vec::new();
            let mut i: usize = 0;
            while i < m.len()
                invariant
                    cv matches ConfigValue::Mapping(mm) && mm == m,
                    out@.len() == i,
                    0 <= i <= m@.len(),
                    forall|j: int|
                        0 <= j < i ==> built_key(m@[j].0@, (#[trigger] out@[j]).key)
                            && built_value(m@[j].1, out@[j].value),
                decreases m@.len() - i,
            {
                let pair = &m[i];
                proof {
                    assert(decreases_to!(*cv => *m));
                    assert(decreases_to!(*m => m@));
                    assert(decreases_to!(m@ => m@[i as int]));
                    assert(decreases_to!(m@[i as int] => m@[i as int].1));
                }
                let sub = build_alias_from(&pair.0, &pair.1);
                out.push(sub);
                i = i + 1;
            }
            AliasValue::Mapping(out)
        },
    }
}

impl TryParseFrom<(String, ConfigValue)> for Alias {
    type Error = ParseError;

    /// Build one alias from one decoded config pair; this never fails.
    fn try_parse_from(value: (String, ConfigValue)) -> (r: Result<Alias, ParseError>)
        ensures
            r matches Ok(a) && built_alias(value.0@, value.1, a),
    {
        let (key, cv) = value;
        Ok(build_alias_from(&key, &cv))
    }
}

impl TryParseFrom<Config> for Aliases {
    type Error = ParseError;

    /// Build one dictionary level from a decoded config document, in document
    /// order; this never fails.
    fn try_parse_from(value: Config) -> (r: Result<Aliases, ParseError>)
        ensures
            r matches Ok(al) && al@.len() == value.data@.len() && (forall|i: int|
                0 <= i < value.data@.len() ==> built_alias(
                    value.data@[i].0@,
                    value.data@[i].1,
                    #[trigger] al@[i],
                )),
    {
        let mut out: Aliases = Vec::new();
        let mut i: usize = 0;
        while i < value.data.len()
            invariant
                out@.len() == i,
                0 <= i <= value.data@.len(),
                forall|j: int|
                    0 <= j < i ==> built_alias(
                        value.data@[j].0@,
                        value.data@[j].1,
                        #[trigger] out@[j],
                    ),
            decreases value.data@.len() - i,
        {
            let pair = &value.data[i];
            let a = build_alias_from(&pair.0, &pair.1);
            out.push(a);
            i = i + 1;
        }
        Ok(out)
    }
}

/// The two keys carry the same tag, name and arity.
pub open spec fn key_eq_view(a: AliasKey, b: AliasKey) -> bool {
    match (a, b) {
        (AliasKey::Declaration(x), AliasKey::Declaration(y)) => x@ == y@,
        (AliasKey::Function(x, m), AliasKey::Function(y, n)) => x@ == y@ && m == n,
        _ => false,
    }
}

/// `w` is `v` with the arguments substituted positionally into every command
/// string, keys kept, nested dictionaries handled entrywise.
pub open spec fn value_substituted(v: AliasValue, w: AliasValue, args: Seq<Seq<char>>) -> bool
    decreases v,
{
    match v {
        AliasValue::Command(c) => w matches AliasValue::Command(c2) && c2@ == substitute(
            c@,
            args,
        ),
        AliasValue::List(l) => w matches AliasValue::List(l2) && l2@.len() == l@.len() && (
        forall|i: int| 0 <= i < l@.len() ==> (#[trigger] l2@[i])@ == substitute(l@[i]@, args)),
        AliasValue::Mapping(m) => w matches AliasValue::Mapping(m2) && m2@.len() == m@.len()
            && (forall|i: int|
            0 <= i < m@.len() ==> key_eq_view((#[trigger] m2@[i]).key, m@[i].key)
                && value_substituted(m@[i].value, m2@[i].value, args)),
    }
}

fn clone_key(k: &AliasKey) -> (r: AliasKey)
    ensures
        key_eq_view(r, *k),
{
    match k {
        AliasKey::Declaration(s) => AliasKey::Declaration(s.clone()),
        AliasKey::Function(s, a) => AliasKey::Function(s.clone(), *a),
    }
}

/// A fresh copy of `v` with the arguments substituted, as
/// `value_substituted` describes; `v` itself is untouched.
fn subst_value(v: &AliasValue, args: &Vec<String>) -> (r: AliasValue)
    ensures
        value_substituted(*v, r, args.deep_view()),
    decreases *v,
{
    match v {
        AliasValue::Command(c) => AliasValue::Command(substitute_args(c.as_str(), args)),
        AliasValue::List(l) => {
            let mut out: Vec<String> = Vec::new();
            let mut i: usize = 0;
            while i < l.len()
                invariant
                    out@.len() == i,
                    0 <= i <= l@.len(),
                    forall|j: int|
                        0 <= j < i ==> (#[trigger] out@[j])@ == substitute(
                            l@[j]@,
                            args.deep_view(),
                        ),
                decreases l@.len() - i,
            {
                out.push(substitute_args(l[i].as_str(), args));
                i = i + 1;
            }
            AliasValue::List(out)
        },
        AliasValue::Mapping(m) => {
            let mut out: Aliases = Vec::new();
            let mut i: usize = 0;
            while i < m.len()
                invariant
                    v matches AliasValue::Mapping(mm) && mm == m,
                    out@.len() == i,
                    0 <= i <= m@.len(),
                    forall|j: int|
                        0 <= j < i ==> key_eq_view((#[trigger] out@[j]).key, m@[j].key)
                            && value_substituted(m@[j].value, out@[j].value, args.deep_view()),
                decreases m@.len() - i,
            {
                let a = &m[i];
                proof {
                    assert(decreases_to!(*v => *m));
                    assert(decreases_to!(*m => m@));
                    assert(decreases_to!(m@ => m@[i as int]));
                    assert(decreases_to!(m@[i as int] => m@[i as int].value));
                }
                let nk = clone_key(&a.key);
                let nv = subst_value(&a.value, args);
                out.push(Alias { key: nk, value: nv });
                i = i + 1;
            }
            AliasValue::Mapping(out)
        },
    }
}

impl Process for Alias {
    /// Substitute the arguments positionally into this alias's value; the
    /// key is untouched and the substituted strings are fresh.
    fn process(&mut self, args: &Vec<String>)
        ensures
            final(self).key == old(self).key,
            value_substituted(old(self).value, final(self).value, args.deep_view()),
    {
        let nv = subst_value(&self.value, args);
        self.value = nv;
    }
}

impl Process for Aliases {
    /// Substitute the arguments into every alias of this level, in place.
    fn process(&mut self, args: &Vec<String>)
        ensures
            final(self)@.len() == old(self)@.len(),
            forall|i: int|
                0 <= i < old(self)@.len() ==> (#[trigger] final(self)@[i]).key == old(
                    self,
                )@[i].key && value_substituted(
                    old(self)@[i].value,
                    final(self)@[i].value,
                    args.deep_view(),
                ),
    {
        let n = self.len();
        let mut i: usize = 0;
        while i < n
            invariant
                n == self@.len(),
                self@.len() == old(self)@.len(),
                0 <= i <= n,
                forall|j: int|
                    0 <= j < i ==> (#[trigger] self@[j]).key == old(self)@[j].key
                        && value_substituted(
                        old(self)@[j].value,
                        self@[j].value,
                        args.deep_view(),
                    ),
                forall|j: int| i <= j < n ==> self@[j] == old(self)@[j],
            decreases n - i,
        {
            let a = &mut self[i];
            let nv = subst_value(&a.value, args);
            a.value = nv;
            i = i + 1;
        }
    }
}

} // verus!
