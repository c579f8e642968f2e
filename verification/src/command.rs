//! The resolver: walks one invocation against one alias dictionary level,
//! applying argument substitution and kind-compatibility checks, and
//! produces the ordered command list — or fails, with no partial output.

use vstd::prelude::*;

use crate::alias::{lookup, lookup_alias, Alias, AliasValue, Aliases};
use crate::error::{KindMismatch, ResolveError};
use crate::invoc::{Invoc, InvocType, Invocs};
use crate::prelude::TryParseFrom;
use crate::subst::{substitute, substitute_args};
use crate::text::clone_string_vec;

verus! {

/// The resolver's output: an ordered list of shell command strings.
pub type Commands = Vec<String>;

/// The elements of `l` from position `i` on whose position appears in
/// `idxs`, in list order; positions in `idxs` with no matching element are
/// ignored.
pub open spec fn select_from(l: Seq<Seq<char>>, idxs: Seq<usize>, i: int) -> Seq<Seq<char>>
    decreases l.len() - i,
{
    if i < 0 || i >= l.len() {
        Seq::empty()
    } else if idxs.contains(i as usize) {
        seq![l[i]] + select_from(l, idxs, i + 1)
    } else {
        select_from(l, idxs, i + 1)
    }
}

/// The elements of `l` whose position appears in `idxs`, in list order.
pub open spec fn selected(l: Seq<Seq<char>>, idxs: Seq<usize>) -> Seq<Seq<char>> {
    select_from(l, idxs, 0)
}

/// The command list one invocation resolves to against one dictionary
/// level, or the error that aborts the resolution.
pub open spec fn spec_resolve(inv: Invoc, aliases: Seq<Alias>) -> Result<
    Seq<Seq<char>>,
    ResolveError,
>
    decreases inv, 1int,
{
    match lookup(aliases, inv.alias_key@) {
        Option::None => Err(ResolveError::Lookup),
        Option::Some(a) => match inv.invoc_type {
            InvocType::Declarative => match a.value {
                AliasValue::Command(c) => Ok(seq![c@]),
                AliasValue::List(l) => Ok(l.deep_view()),
                AliasValue::Mapping(_) => Err(
                    ResolveError::KindMismatch(KindMismatch::DeclarativeOnMap),
                ),
            },
            InvocType::Imperative(args) => match a.value {
                AliasValue::Command(c) => Ok(seq![substitute(c@, args.deep_view())]),
                AliasValue::List(l) => Ok(
                    Seq::new(l@.len(), |i: int| substitute(l@[i]@, args.deep_view())),
                ),
                AliasValue::Mapping(_) => Err(
                    ResolveError::KindMismatch(KindMismatch::ImperativeOnMap),
                ),
            },
            InvocType::Scoped(subs) => match a.value {
                AliasValue::Mapping(m) => spec_resolve_seq(subs, 0, m@),
                _ => Err(ResolveError::KindMismatch(KindMismatch::ScopedOnNonMap)),
            },
            InvocType::Indexical(idxs) => match a.value {
                AliasValue::List(l) => Ok(selected(l.deep_view(), idxs@)),
                _ => Err(ResolveError::KindMismatch(KindMismatch::IndexicalOnNonList)),
            },
            InvocType::Selective(child) => match a.value {
                AliasValue::Mapping(m) => spec_resolve(*child, m@),
                _ => Err(ResolveError::KindMismatch(KindMismatch::SelectiveOnNonMap)),
            },
        },
    }
}

/// The concatenated command lists of the invocations from position `from`
/// on, resolved in order against one level; the first failure aborts the
/// whole batch.
pub open spec fn spec_resolve_seq(invs: Vec<Invoc>, from: int, aliases: Seq<Alias>) -> Result<
    Seq<Seq<char>>,
    ResolveError,
>
    decreases invs, invs@.len() - from,
{
    if from < 0 || from >= invs@.len() {
        Ok(Seq::empty())
    } else {
        match spec_resolve(invs@[from], aliases) {
            Err(e) => Err(e),
            Ok(cmds) => match spec_resolve_seq(invs, from + 1, aliases) {
                Err(e) => Err(e),
                Ok(rest) => Ok(cmds + rest),
            },
        }
    }
}

/// `r` with `p` prepended to its command list, errors unchanged.
pub open spec fn prepend_ok(p: Seq<Seq<char>>, r: Result<Seq<Seq<char>>, ResolveError>) -> Result<
    Seq<Seq<char>>,
    ResolveError,
> {
    match r {
        Ok(v) => Ok(p + v),
        Err(e) => Err(e),
    }
}

/// Resolving any invocation against a level where its alias name is missing
/// fails with the lookup error, whatever the invocation's kind.
pub proof fn lemma_resolve_missing_alias(inv: Invoc, aliases: Seq<Alias>)
    requires
        lookup(aliases, inv.alias_key@) is None,
    ensures
        spec_resolve(inv, aliases) == Err::<Seq<Seq<char>>, ResolveError>(ResolveError::Lookup),
{
}

proof fn lemma_resolve_seq_fail_from(invs: Vec<Invoc>, aliases: Seq<Alias>, i: int, from: int)
    requires
        0 <= from <= i < invs@.len(),
        spec_resolve(invs@[i], aliases) is Err,
        forall|k: int| from <= k < i ==> spec_resolve(#[trigger] invs@[k], aliases) is Ok,
    ensures
        spec_resolve_seq(invs, from, aliases) == spec_resolve(invs@[i], aliases),
    decreases i - from,
{
    if from < i {
        lemma_resolve_seq_fail_from(invs, aliases, i, from + 1);
    }
}

/// Fail-fast law: when resolving a batch in order, the first invocation that
/// fails makes the whole batch fail with its error — commands resolved from
/// earlier invocations of the batch are never returned.
pub proof fn lemma_resolve_seq_fail_fast(invs: Vec<Invoc>, aliases: Seq<Alias>, i: int)
    requires
        0 <= i < invs@.len(),
        spec_resolve(invs@[i], aliases) is Err,
        forall|k: int| 0 <= k < i ==> spec_resolve(#[trigger] invs@[k], aliases) is Ok,
    ensures
        spec_resolve_seq(invs, 0, aliases) == spec_resolve(invs@[i], aliases),
{
    lemma_resolve_seq_fail_from(invs, aliases, i, 0);
}

/// Whether `x` occurs in `idxs`.
fn contains_index(idxs: &Vec<usize>, x: usize) -> (b: bool)
    ensures
        b == idxs@.contains(x),
{
    let mut i: usize = 0;
    while i < idxs.len()
        invariant
            0 <= i <= idxs@.len(),
            forall|j: int| 0 <= j < i ==> idxs@[j] != x,
        decreases idxs@.len() - i,
    {
        if idxs[i] == x {
            return true;
        }
        i = i + 1;
    }
    false
}

/// Resolve one invocation against one dictionary level, as `spec_resolve`
/// describes: look the alias name up (later entries shadow earlier ones) and
/// dispatch on the invocation kind against the alias value's shape.
pub fn resolve_invoc(inv: &Invoc, aliases: &Aliases) -> (r: Result<Commands, ResolveError>)
    ensures
        (match r {
            Ok(cmds) => spec_resolve(*inv, aliases@) == Ok::<Seq<Seq<char>>, ResolveError>(
                cmds.deep_view(),
            ),
            Err(e) => spec_resolve(*inv, aliases@) == Err::<Seq<Seq<char>>, ResolveError>(e),
        }),
    decreases *inv, 1int,
{
    let a = match lookup_alias(aliases, &inv.alias_key) {
        Some(a) => a,
        None => {
            return Err(ResolveError::Lookup);
        },
    };
    match &inv.invoc_type {
        InvocType::Declarative => match &a.value {
            AliasValue::Command(c) => {
                let mut out: Commands = Vec::new();
                out.push(c.clone());
                proof {
                    assert(out.deep_view() =~= seq![c@]);
                }
                Ok(out)
            },
            AliasValue::List(l) => Ok(clone_string_vec(l)),
            AliasValue::Mapping(_) => Err(
                ResolveError::KindMismatch(KindMismatch::DeclarativeOnMap),
            ),
        },
        InvocType::Imperative(args) => match &a.value {
            AliasValue::Command(c) => {
                let mut out: Commands = Vec::new();
                out.push(substitute_args(c.as_str(), args));
                proof {
                    assert(out.deep_view() =~= seq![substitute(c@, args.deep_view())]);
                }
                Ok(out)
            },
            AliasValue::List(l) => {
                let mut out: Commands = Vec::new();
                let mut i: usize = 0;
                while i < l.len()
                    invariant
                        out@.len() == i,
                        0 <= i <= l@.len(),
                        forall|j: int|
                            0 <= j < i ==> (#[trigger] out@[j])@ == substitute(
                                l@[j]@,
                                args.deep_view(),
                            ),
                    decreases l@.len() - i,
                {
                    out.push(substitute_args(l[i].as_str(), args));
                    i = i + 1;
                }
                proof {
                    assert(out.deep_view() =~= Seq::new(
                        l@.len(),
                        |i: int| substitute(l@[i]@, args.deep_view()),
                    ));
                }
                Ok(out)
            },
            AliasValue::Mapping(_) => Err(
                ResolveError::KindMismatch(KindMismatch::ImperativeOnMap),
            ),
        },
        InvocType::Scoped(subs) => match &a.value {
            AliasValue::Mapping(m) => {
                proof {
                    assert(decreases_to!(*inv => inv.invoc_type));
                    assert(decreases_to!(inv.invoc_type => *subs));
                }
                resolve_all(subs, m)
            },
            _ => Err(ResolveError::KindMismatch(KindMismatch::ScopedOnNonMap)),
        },
        InvocType::Indexical(idxs) => match &a.value {
            AliasValue::List(l) => {
                let mut out: Commands = Vec::new();
                let mut i: usize = 0;
                proof {
                    assert(Seq::<Seq<char>>::empty() + select_from(l.deep_view(), idxs@, 0)
                        =~= select_from(l.deep_view(), idxs@, 0));
                }
                while i < l.len()
                    invariant
                        0 <= i <= l@.len(),
                        l.deep_view().len() == l@.len(),
                        selected(l.deep_view(), idxs@) == out.deep_view() + select_from(
                            l.deep_view(),
                            idxs@,
                            i as int,
                        ),
                    decreases l@.len() - i,
                {
                    let ghost pre = out.deep_view();
                    let ghost dv = l.deep_view();
                    if contains_index(idxs, i) {
                        out.push(l[i].clone());
                        proof {
                            assert(dv[i as int] == l@[i as int]@);
                            assert(out.deep_view() =~= pre + seq![dv[i as int]]);
                            assert(pre + (seq![dv[i as int]] + select_from(dv, idxs@, i + 1))
                                =~= (pre + seq![dv[i as int]]) + select_from(
                                dv,
                                idxs@,
                                i + 1,
                            ));
                        }
                    }
                    i = i + 1;
                }
                proof {
                    assert(out.deep_view() + Seq::<Seq<char>>::empty() =~= out.deep_view());
                }
                Ok(out)
            },
            _ => Err(ResolveError::KindMismatch(KindMismatch::IndexicalOnNonList)),
        },
        InvocType::Selective(child) => match &a.value {
            AliasValue::Mapping(m) => {
                proof {
                    assert(decreases_to!(*inv => inv.invoc_type));
                    assert(decreases_to!(inv.invoc_type => **child));
                }
                resolve_invoc(&**child, m)
            },
            _ => Err(ResolveError::KindMismatch(KindMismatch::SelectiveOnNonMap)),
        },
    }
}

/// Resolve every invocation of a batch, in order, against one dictionary
/// level, concatenating the command lists; the first failure aborts the
/// whole batch with no partial output, as `spec_resolve_seq` describes.
/// This is both the top-level driver and the resolution of a scope.
pub fn resolve_all(invs: &Invocs, aliases: &Aliases) -> (r: Result<Commands, ResolveError>)
    ensures
        (match r {
            Ok(cmds) => spec_resolve_seq(*invs, 0, aliases@) == Ok::<
                Seq<Seq<char>>,
                ResolveError,
            >(cmds.deep_view()),
            Err(e) => spec_resolve_seq(*invs, 0, aliases@) == Err::<
                Seq<Seq<char>>,
                ResolveError,
            >(e),
        }),
    decreases *invs, 0int,
{
    let mut out: Commands = Vec::new();
    let mut i: usize = 0;
    proof {
        assert(Seq::<Seq<char>>::empty() + spec_resolve_seq(*invs, 0, aliases@)->Ok_0
            =~= spec_resolve_seq(*invs, 0, aliases@)->Ok_0);
    }
    while i < invs.len()
        invariant
            0 <= i <= invs@.len(),
            spec_resolve_seq(*invs, 0, aliases@) == prepend_ok(
                out.deep_view(),
                spec_resolve_seq(*invs, i as int, aliases@),
            ),
        decreases invs@.len() - i,
    {
        proof {
            assert(decreases_to!(*invs => invs@));
            assert(decreases_to!(invs@ => invs@[i as int]));
        }
        match resolve_invoc(&invs[i], aliases) {
            Err(e) => {
                return Err(e);
            },
            Ok(mut cmds) => {
                let ghost pre = out.deep_view();
                let ghost got = cmds.deep_view();
                out.append(&mut cmds);
                proof {
                    assert(out.deep_view() =~= pre + got);
                    let rest = spec_resolve_seq(*invs, i + 1, aliases@);
                    if rest is Ok {
                        assert(pre + (got + rest->Ok_0) =~= (pre + got) + rest->Ok_0);
                    }
                }
                i = i + 1;
            },
        }
    }
    proof {
        assert(out.deep_view() + Seq::<Seq<char>>::empty() =~= out.deep_view());
    }
    Ok(out)
}

impl TryParseFrom<(&Invoc, &Aliases)> for Commands {
    type Error = ResolveError;

    /// Resolve one invocation against one dictionary level, as
    /// `spec_resolve` describes.
    fn try_parse_from(value: (&Invoc, &Aliases)) -> (r: Result<Commands, ResolveError>)
        ensures
            (match r {
                Ok(cmds) => spec_resolve(*value.0, value.1@) == Ok::<
                    Seq<Seq<char>>,
                    ResolveError,
                >(cmds.deep_view()),
                Err(e) => spec_resolve(*value.0, value.1@) == Err::<
                    Seq<Seq<char>>,
                    ResolveError,
                >(e),
            }),
    {
        resolve_invoc(value.0, value.1)
    }
}

} // verus!
