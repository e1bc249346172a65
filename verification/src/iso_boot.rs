//! Resolving a distro recipe against a mounted ISO.
//!
//! A recipe names kernel and initrd candidates; a candidate is an exact
//! path or a trailing-`*` prefix glob within a directory.  The caller looks
//! on the ISO (whether an exact path exists, or the names in a glob's
//! directory) and this module turns the answers into paths: the first
//! kernel candidate that resolves is the kernel, and every initrd candidate
//! that resolves is loaded, in order (microcode before the main initramfs).
use vstd::prelude::*;

use crate::distro_iso::{glob_pick, is_glob_pick, no_glob_match, split_glob, split_glob_spec};
use crate::text::{chars_of, string_of};
use crate::loopback_cfg::LoopbackEntry;
use crate::distro_iso::{render_cmdline, rendered_cmdline, DistroRecipe};

verus! {

/// `dir/name`.
pub open spec fn joined(dir: Seq<char>, name: Seq<char>) -> Seq<char> {
    dir + seq!['/'] + name
}

/// `p` is `dir/n` for a name `n` that `glob_pick` may choose.
pub open spec fn picked_path(names: Seq<&str>, prefix: Seq<char>, dir: Seq<char>, p: Seq<char>) -> bool {
    exists|n: &str| #[trigger] is_glob_pick(names, prefix, n) && p == joined(dir, n@)
}

/// What resolving `candidate` may give, given whether it exists as an exact
/// path and the names listed in its glob directory (`None` when the
/// directory could not be read).
pub open spec fn resolves_to(
    candidate: Seq<char>,
    exists: bool,
    listing: Option<Seq<&str>>,
    r: Option<Seq<char>>,
) -> bool {
    match split_glob_spec(candidate) {
        Some((dir, prefix)) => match listing {
            None => r is None,
            Some(names) => match r {
                None => no_glob_match(names, prefix),
                Some(p) => picked_path(names, prefix, dir, p),
            },
        },
        None => r == (if exists {
            Some(candidate)
        } else {
            None::<Seq<char>>
        }),
    }
}

/// Resolves one recipe candidate.  An exact path resolves to itself when it
/// `exists`; a glob resolves to `dir/name` for the greatest listed name
/// carrying its prefix, and to nothing when no name carries it or its
/// directory could not be listed.
pub fn resolve_candidate(candidate: &str, exists: bool, listing: Option<&[&str]>) -> (r: Option<
    String,
>)
    ensures
        resolves_to(candidate@, exists, listing_view(listing), opt_view(r)),
{
    match split_glob(candidate) {
        Some((dir, prefix)) => match listing {
            None => None,
            Some(names) => match glob_pick(names, prefix) {
                None => {
                    assert(resolves_to(candidate@, exists, Some(names@), None));
                    None
                },
                Some(pick) => {
                    let mut v = chars_of(dir);
                    v.push('/');
                    let w = chars_of(pick);
                    let mut k: usize = 0;
                    let ghost before = v@;
                    while k < w.len()
                        invariant
                            k <= w@.len(),
                            v@ == before + w@.subrange(0, k as int),
                        decreases w@.len() - k,
                    {
                        v.push(w[k]);
                        assert(w@.subrange(0, k + 1) == w@.subrange(0, k as int).push(w@[k as int]));
                        k += 1;
                    }
                    assert(w@.subrange(0, w@.len() as int) == w@);
                    let s = string_of(&v);
                    assert(s@ == joined(dir@, pick@));
                    assert(is_glob_pick(names@, prefix@, pick));
                    assert(picked_path(names@, prefix@, dir@, s@));
                    assert(resolves_to(candidate@, exists, Some(names@), Some(s@)));
                    Some(s)
                },
            },
        },
        None => {
            if exists {
                Some(string_of(&chars_of(candidate)))
            } else {
                None
            }
        },
    }
}

/// The listing as plain values.
pub open spec fn listing_view<'a>(listing: Option<&'a [&'a str]>) -> Option<Seq<&'a str>> {
    match listing {
        Some(l) => Some(l@),
        None => None,
    }
}

/// An optional string as plain values.
pub open spec fn opt_view(o: Option<String>) -> Option<Seq<char>> {
    match o {
        Some(s) => Some(s@),
        None => None,
    }
}

/// The first present value of `s`.
pub open spec fn first_some(s: Seq<Option<Seq<char>>>) -> Option<Seq<char>>
    decreases s.len(),
{
    if s.len() == 0 {
        None
    } else if s[0] is Some {
        s[0]
    } else {
        first_some(s.drop_first())
    }
}

/// The present values of `s`, in order.
pub open spec fn somes(s: Seq<Option<Seq<char>>>) -> Seq<Seq<char>>
    decreases s.len(),
{
    if s.len() == 0 {
        seq![]
    } else {
        let rest = somes(s.drop_last());
        match s.last() {
            Some(x) => rest.push(x),
            None => rest,
        }
    }
}

/// The views of a vector of optional strings.
pub open spec fn opt_strings(v: Seq<Option<String>>) -> Seq<Option<Seq<char>>> {
    v.map_values(|o: Option<String>| match o {
        Some(s) => Some(s@),
        None => None,
    })
}

/// The views of a vector of strings.
pub open spec fn string_views(v: Seq<String>) -> Seq<Seq<char>> {
    v.map_values(|s: String| s@)
}

proof fn lemma_first_some_split(s: Seq<Option<Seq<char>>>, i: int)
    requires
        0 <= i < s.len(),
        forall|j: int| 0 <= j < i ==> s[j] is None,
    ensures
        first_some(s) == first_some(s.subrange(i, s.len() as int)),
    decreases i,
{
    if i == 0 {
        assert(s.subrange(0, s.len() as int) =~= s);
    } else {
        assert(s.drop_first().subrange(i - 1, s.drop_first().len() as int) =~= s.subrange(
            i,
            s.len() as int,
        ));
        lemma_first_some_split(s.drop_first(), i - 1);
    }
}

proof fn lemma_first_some_none(s: Seq<Option<Seq<char>>>)
    requires
        forall|j: int| 0 <= j < s.len() ==> s[j] is None,
    ensures
        first_some(s) is None,
    decreases s.len(),
{
    if s.len() > 0 {
        lemma_first_some_none(s.drop_first());
    }
}

fn first_resolved(v: &[Option<String>]) -> (r: Option<String>)
    ensures
        match r {
            Some(k) => first_some(opt_strings(v@)) == Some(k@),
            None => first_some(opt_strings(v@)) is None,
        },
{
    let mut a: usize = 0;
    while a < v.len()
        invariant
            a <= v@.len(),
            forall|j: int| 0 <= j < a ==> v@[j] is None,
        decreases v@.len() - a,
    {
        match &v[a] {
            Some(k) => {
                proof {
                    let s = opt_strings(v@);
                    lemma_first_some_split(s, a as int);
                    assert(s.subrange(a as int, s.len() as int)[0] == s[a as int]);
                }
                return Some(k.clone());
            },
            None => {},
        }
        a += 1;
    }
    proof {
        lemma_first_some_none(opt_strings(v@));
    }
    None
}

fn all_resolved(v: &[Option<String>]) -> (r: Vec<String>)
    ensures
        string_views(r@) == somes(opt_strings(v@)),
{
    let mut out: Vec<String> = Vec::new();
    let mut a: usize = 0;
    while a < v.len()
        invariant
            a <= v@.len(),
            string_views(out@) == somes(opt_strings(v@.subrange(0, a as int))),
        decreases v@.len() - a,
    {
        let ghost prev = opt_strings(v@.subrange(0, a as int));
        let ghost next = opt_strings(v@.subrange(0, a + 1));
        assert(next.drop_last() =~= prev);
        match &v[a] {
            Some(k) => {
                out.push(k.clone());
                assert(string_views(out@) =~= somes(prev).push(k@));
            },
            None => {
                assert(string_views(out@) =~= somes(prev));
            },
        }
        a += 1;
    }
    assert(v@.subrange(0, v@.len() as int) =~= v@);
    out
}

/// Resolves a recipe from the per-candidate results (`kernels[i]` for the
/// `i`-th kernel candidate, `initrds[j]` for the `j`-th initrd candidate):
/// the kernel is the first kernel candidate that resolved, the initrds are
/// all initrd candidates that resolved, in order; `None` when no kernel
/// candidate resolved.
pub fn resolve_recipe(kernels: &[Option<String>], initrds: &[Option<String>]) -> (r: Option<
    (String, Vec<String>),
>)
    ensures
        match r {
            Some((k, i)) => first_some(opt_strings(kernels@)) == Some(k@) && string_views(i@)
                == somes(opt_strings(initrds@)),
            None => first_some(opt_strings(kernels@)) is None,
        },
{
    match first_resolved(kernels) {
        None => None,
        Some(k) => Some((k, all_resolved(initrds))),
    }
}

/// How an ISO file is booted.
#[derive(Debug, Clone, PartialEq, Eq)]
pub enum IsoPlan {
    /// Boot this kernel with these initrds and command line.
    Boot { kernel: String, initrds: Vec<String>, options: String },
    /// No usable `loopback.cfg` entry and no recipe that resolves: the ISO
    /// cannot be booted (`UNSUPPORTED`).
    Unsupported,
}

/// The plan as plain values: `Some((kernel, initrds, options))` or `None`
/// for unsupported.
pub open spec fn plan_view(p: IsoPlan) -> Option<(Seq<char>, Seq<Seq<char>>, Seq<char>)> {
    match p {
        IsoPlan::Boot { kernel, initrds, options } => Some((kernel@, string_views(initrds@), options@)),
        IsoPlan::Unsupported => None,
    }
}

/// The boot of an ISO file at `iso_path` with volume label `label`: the
/// first `loopback.cfg` menu entry when there is one (its kernel, its
/// initrd, its command line); else the recognized distro recipe, when its
/// kernel resolved (`resolved`, see `resolve_recipe`), with the recipe's
/// loop-boot command line; else unsupported.
pub open spec fn iso_plan(
    cfg_entry: Option<(Seq<char>, Seq<char>, Seq<char>)>,
    recipe_cmdline: Option<Seq<char>>,
    resolved: Option<(Seq<char>, Seq<Seq<char>>)>,
    iso_path: Seq<char>,
    label: Seq<char>,
) -> Option<(Seq<char>, Seq<Seq<char>>, Seq<char>)> {
    match cfg_entry {
        Some((k, i, o)) => Some((k, seq![i], o)),
        None => match (recipe_cmdline, resolved) {
            (Some(t), Some((k, is))) => Some((k, is, rendered_cmdline(t, iso_path, label))),
            _ => None,
        },
    }
}

/// Choose how to boot an ISO file from what was found on it: the parsed
/// first `loopback.cfg` entry (`None` when the file is absent or has no
/// usable entry), the recognized recipe (`None` when the layout is
/// unknown), and that recipe's resolved kernel and initrds.
pub fn plan_iso_boot(
    cfg_entry: Option<LoopbackEntry>,
    recipe: Option<&DistroRecipe>,
    resolved: Option<(String, Vec<String>)>,
    iso_path: &str,
    label: &str,
) -> (r: IsoPlan)
    ensures
        plan_view(r) == iso_plan(
            match cfg_entry {
                Some(e) => Some((e.kernel@, e.initrd@, e.options@)),
                None => None,
            },
            match recipe {
                Some(rc) => Some(rc.file_cmdline@),
                None => None,
            },
            match resolved {
                Some((k, is)) => Some((k@, string_views(is@))),
                None => None,
            },
            iso_path@,
            label@,
        ),
{
    match cfg_entry {
        Some(e) => {
            let initrds = vec![e.initrd];
            assert(string_views(initrds@) =~= seq![initrds@[0]@]);
            IsoPlan::Boot { kernel: e.kernel, initrds, options: e.options }
        },
        None => match (recipe, resolved) {
            (Some(rc), Some((k, is))) => {
                let options = render_cmdline(rc.file_cmdline, iso_path, label);
                IsoPlan::Boot { kernel: k, initrds: is, options }
            },
            _ => IsoPlan::Unsupported,
        },
    }
}

} // verus!
