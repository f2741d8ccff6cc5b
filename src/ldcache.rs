//! Resolution of the shared libraries that a set of ELF files needs.
//!
//! The resolver is a state machine. Seeds are added first, with
//! [`Resolver::add_seed`]. Then, until neither is left, the caller resolves
//! the alias probes of each library taken by [`Resolver::next_pending`] and
//! hands them to [`Resolver::add_lib_aliases`], or reads the file named by
//! [`Resolver::next_path`] and hands its bytes to [`Resolver::scan`].
use vstd::prelude::*;

use crate::paths::{base_name, dir_name, file_name, join, join_path, parent_name};
use crate::FileEntry;

verus! {

#[verifier::external_type_specification]
#[verifier::external_body]
pub struct ExCache(ldcache_rs::Cache);

/// The full library names that a dynamic-linker cache has entries for.
pub uninterp spec fn cache_names(c: ldcache_rs::Cache) -> Set<Seq<char>>;

/// For each full library name of a dynamic-linker cache, the first path
/// recorded under it.
pub uninterp spec fn cache_first_paths(c: ldcache_rs::Cache) -> Map<Seq<char>, Seq<char>>;

/// What reading an ELF image gives: `None` where the bytes cannot be parsed,
/// `Some(None)` where they hold an object of another format, and
/// `Some(Some(needed))` for an ELF image, with its `DT_NEEDED` names.
pub uninterp spec fn elf_needed_of(b: Seq<u8>) -> Option<Option<Seq<Seq<char>>>>;

/// Relies on `ldcache_rs::Cache::contains`: whether the cache has an entry
/// under the full library name.
#[verifier::external_body]
fn cache_contains(c: &ldcache_rs::Cache, name: &str) -> (r: bool)
    ensures
        r == cache_names(*c).contains(name@),
{
    c.contains(name)
}

/// Relies on `ldcache_rs::Cache::get_path`: the first path recorded under the
/// full library name.
#[verifier::external_body]
fn cache_path(c: &ldcache_rs::Cache, name: &str) -> (r: Option<String>)
    ensures
        r.is_some() == cache_first_paths(*c).contains_key(name@),
        r.is_some() ==> r.unwrap()@ == cache_first_paths(*c)[name@],
{
    c.get_path(name).map(|p| p.to_string())
}

/// Relies on `goblin::Object::parse`: parses an object file and, for an ELF
/// image, gives the libraries that its dynamic section names.
#[verifier::external_body]
fn read_needed(buf: &Vec<u8>) -> (r: Result<Option<Vec<String>>, String>)
    ensures
        match r {
            Ok(Some(v)) => elf_needed_of(buf@) == Some(Some(texts(v@))),
            Ok(None) => elf_needed_of(buf@) == Some(None::<Seq<Seq<char>>>),
            Err(_) => elf_needed_of(buf@).is_none(),
        },
{
    match goblin::Object::parse(buf) {
        Ok(goblin::Object::Elf(e)) => Ok(Some(e.libraries.iter().map(|s| s.to_string()).collect())),
        Ok(_) => Ok(None),
        Err(err) => Err(err.to_string()),
    }
}

/// Errors of the dependency resolution.
#[derive(Debug)]
pub enum LdError {
    /// A file could not be read.
    Io(String),
    /// A file could not be parsed as an object file.
    Elf(String),
    /// A dynamic-linker cache could not be loaded.
    Cache(String),
    /// The file is not in ELF format.
    NotElf,
    /// A needed library is in neither cache.
    MissingDependency(String),
}

pub open spec fn texts(v: Seq<String>) -> Seq<Seq<char>> {
    v.map_values(|x: String| x@)
}

pub open spec fn entries(v: Seq<FileEntry>) -> Seq<(Seq<char>, Seq<char>)> {
    v.map_values(|e: FileEntry| e@)
}

pub open spec fn extra_view(v: Seq<(String, FileEntry)>) -> Seq<(Seq<char>, (Seq<char>, Seq<char>))> {
    v.map_values(|p: (String, FileEntry)| (p.0@, p.1@))
}

/// The archive name of a library shipped from the build cache.
pub open spec fn lib_name(d: Seq<char>) -> Seq<char> {
    seq!['l', 'i', 'b', '/'] + d
}

/// The prefixes of a file name that end just before one of its first `k - 1`
/// characters that is a `.`, or at its end.
pub open spec fn dot_prefixes(f: Seq<char>, k: nat) -> Seq<Seq<char>>
    decreases k,
{
    if k == 0 {
        Seq::empty()
    } else {
        let rest = dot_prefixes(f, (k - 1) as nat);
        if k - 1 == f.len() || f[k - 1] == '.' {
            rest.push(f.subrange(0, k - 1))
        } else {
            rest
        }
    }
}

/// The names under which a library file may also be known: each prefix of
/// its file name that ends before a `.`, and the whole name
/// (`libfoo`, `libfoo.so`, `libfoo.so.1`, `libfoo.so.1.2`).
pub open spec fn alias_names(f: Seq<char>) -> Seq<Seq<char>> {
    dot_prefixes(f, f.len() + 1)
}

/// The paths to probe for aliases of the file at `loc`: each alias name
/// beside it.
pub open spec fn probe_paths(loc: Seq<char>) -> Seq<Seq<char>> {
    alias_names(base_name(loc)).map_values(|d: Seq<char>| join(dir_name(loc), d))
}

/// The aliases found among the first `k` probes: those that resolve to the
/// seed's own location, each with the entry that ships it.
pub open spec fn found_aliases(
    loc: Seq<char>,
    name: Seq<char>,
    canon: Seq<Option<Seq<char>>>,
    k: nat,
) -> Seq<(Seq<char>, (Seq<char>, Seq<char>))>
    decreases k,
{
    if k == 0 {
        Seq::empty()
    } else {
        let rest = found_aliases(loc, name, canon, (k - 1) as nat);
        let d = alias_names(base_name(loc))[k - 1];
        if canon[k - 1] == Some(loc) {
            rest.push((d, (loc, join(dir_name(name), d))))
        } else {
            rest
        }
    }
}

/// The state of a resolution, as values.
pub struct ResolverState {
    /// Paths still to scan; the last one is scanned next.
    pub work: Seq<Seq<char>>,
    /// Paths that were ever put on the work list.
    pub queued: Seq<Seq<char>>,
    /// Library names already shipped.
    pub own_libs: Seq<Seq<char>>,
    /// Aliases of the seeds: name and the entry that ships it. A later
    /// record of a name replaces an earlier one.
    pub extra: Seq<(Seq<char>, (Seq<char>, Seq<char>))>,
    /// The entries found so far, in order of discovery.
    pub res: Seq<(Seq<char>, Seq<char>)>,
    /// Libraries found in the build cache whose other names are still to be
    /// recorded.
    pub pending: Seq<Seq<char>>,
}

/// The entry recorded last under alias `d`.
pub open spec fn lookup_extra(
    extra: Seq<(Seq<char>, (Seq<char>, Seq<char>))>,
    d: Seq<char>,
) -> Option<(Seq<char>, Seq<char>)>
    decreases extra.len(),
{
    if extra.len() == 0 {
        None
    } else if extra.last().0 == d {
        Some(extra.last().1)
    } else {
        lookup_extra(extra.drop_last(), d)
    }
}

/// The state after adding the seed at `loc` shipped as `name`, given the
/// canonical form of each probe path (`None` where it has none).
pub open spec fn seed_step(
    s: ResolverState,
    loc: Seq<char>,
    name: Seq<char>,
    canon: Seq<Option<Seq<char>>>,
) -> ResolverState {
    if s.queued.contains(loc) {
        s
    } else {
        ResolverState {
            work: s.work.push(loc),
            queued: s.queued.push(loc),
            own_libs: s.own_libs.push(base_name(name)),
            extra: s.extra + found_aliases(loc, name, canon, canon.len()),
            res: s.res,
            pending: s.pending,
        }
    }
}

/// The state after meeting needed library `d`, or the name that cannot be
/// found.
pub open spec fn dep_step(
    s: ResolverState,
    d: Seq<char>,
    base: Set<Seq<char>>,
    build: Map<Seq<char>, Seq<char>>,
) -> Result<ResolverState, Seq<char>> {
    if base.contains(d) || s.own_libs.contains(d) {
        Ok(s)
    } else {
        match lookup_extra(s.extra, d) {
            Some(e) => Ok(ResolverState { res: s.res.push(e), own_libs: s.own_libs.push(d), ..s }),
            None => if build.contains_key(d) {
                let p = build[d];
                if s.queued.contains(p) {
                    Ok(s)
                } else {
                    Ok(
                        ResolverState {
                            work: s.work.push(p),
                            queued: s.queued.push(p),
                            own_libs: s.own_libs.push(d),
                            res: s.res.push((p, lib_name(d))),
                            pending: s.pending.push(p),
                            ..s
                        },
                    )
                }
            } else {
                Err(d)
            },
        }
    }
}

/// The canonical forms of probe paths, as values.
pub open spec fn canon_view(v: Seq<Option<String>>) -> Seq<Option<Seq<char>>> {
    v.map_values(|c: Option<String>| match c {
        Some(t) => Some(t@),
        None => None,
    })
}

/// The state after recording, among the first `k` alias names of the
/// library file `p` found in the build cache, each one whose probe resolves
/// to `p` and that is not shipped yet: it is shipped as `lib/<name>` from
/// `p` itself.
pub open spec fn lib_alias_step(
    s: ResolverState,
    p: Seq<char>,
    canon: Seq<Option<Seq<char>>>,
    k: nat,
) -> ResolverState
    decreases k,
{
    if k == 0 {
        s
    } else {
        let t = lib_alias_step(s, p, canon, (k - 1) as nat);
        let q = alias_names(base_name(p))[k - 1];
        if canon[k - 1] == Some(p) && !t.own_libs.contains(q) {
            ResolverState { own_libs: t.own_libs.push(q), res: t.res.push((p, lib_name(q))), ..t }
        } else {
            t
        }
    }
}

/// The state after meeting each of `deps` in turn, or the first name that
/// cannot be found.
pub open spec fn deps_step(
    s: ResolverState,
    deps: Seq<Seq<char>>,
    base: Set<Seq<char>>,
    build: Map<Seq<char>, Seq<char>>,
) -> Result<ResolverState, Seq<char>>
    decreases deps.len(),
{
    if deps.len() == 0 {
        Ok(s)
    } else {
        match deps_step(s, deps.drop_last(), base, build) {
            Ok(s1) => dep_step(s1, deps.last(), base, build),
            Err(d) => Err(d),
        }
    }
}

proof fn lemma_err_persists(
    s: ResolverState,
    deps: Seq<Seq<char>>,
    k: nat,
    base: Set<Seq<char>>,
    build: Map<Seq<char>, Seq<char>>,
)
    requires
        k <= deps.len(),
        deps_step(s, deps.subrange(0, k as int), base, build).is_err(),
    ensures
        deps_step(s, deps, base, build) == deps_step(s, deps.subrange(0, k as int), base, build),
    decreases deps.len() - k,
{
    if k == deps.len() {
        assert(deps.subrange(0, k as int) =~= deps);
    } else {
        assert(deps.subrange(0, (k + 1) as int).drop_last() =~= deps.subrange(0, k as int));
        lemma_err_persists(s, deps, k + 1, base, build);
    }
}

/// The state that a step gives, where it gives one.
pub open spec fn state_of(r: Result<ResolverState, Seq<char>>) -> ResolverState {
    match r {
        Ok(t) => t,
        Err(_) => ResolverState {
            work: Seq::empty(),
            queued: Seq::empty(),
            own_libs: Seq::empty(),
            extra: Seq::empty(),
            res: Seq::empty(),
            pending: Seq::empty(),
        },
    }
}

/// After the needed names `deps` are met without error, each of them is
/// provided by the baseline cache, shipped under its own name (as a seed's
/// file name or a seed's alias), or found in the build cache at a file that
/// is queued, so shipped or a seed.
pub proof fn closure(
    s: ResolverState,
    deps: Seq<Seq<char>>,
    base: Set<Seq<char>>,
    build: Map<Seq<char>, Seq<char>>,
)
    requires
        deps_step(s, deps, base, build).is_ok(),
    ensures
        forall|i: int| 0 <= i < deps.len() ==> {
            let d = #[trigger] deps[i];
            let t = state_of(deps_step(s, deps, base, build));
            base.contains(d) || t.own_libs.contains(d) || (build.contains_key(d) && t.queued.contains(build[d]))
        },
    decreases deps.len(),
{
    if deps.len() > 0 {
        let front = deps.drop_last();
        closure(s, front, base, build);
        let t0 = state_of(deps_step(s, front, base, build));
        let t = state_of(deps_step(s, deps, base, build));
        lemma_dep_step_grows(t0, deps.last(), base, build);
        assert forall|i: int| 0 <= i < deps.len() implies {
            let d = #[trigger] deps[i];
            base.contains(d) || t.own_libs.contains(d) || (build.contains_key(d) && t.queued.contains(build[d]))
        } by {
            let d = deps[i];
            if i < deps.len() - 1 {
                assert(front[i] == d);
                if t0.own_libs.contains(d) {
                    let k = choose|k: int| 0 <= k < t0.own_libs.len() && t0.own_libs[k] == d;
                    assert(t.own_libs[k] == d);
                }
                if build.contains_key(d) && t0.queued.contains(build[d]) {
                    let k = choose|k: int| 0 <= k < t0.queued.len() && t0.queued[k] == build[d];
                    assert(t.queued[k] == build[d]);
                }
            } else {
                if lookup_extra(t0.extra, d).is_some() && !base.contains(d) && !t0.own_libs.contains(d) {
                    assert(t.own_libs.last() == d);
                }
                if !base.contains(d) && !t0.own_libs.contains(d) && lookup_extra(t0.extra, d).is_none()
                    && !t0.queued.contains(build[d]) {
                    assert(t.queued.last() == build[d]);
                }
            }
        }
    }
}

/// The state after meeting each list of needed names in turn (one list per
/// scanned file), or the first name that cannot be found.
pub open spec fn run_steps(
    s: ResolverState,
    lists: Seq<Seq<Seq<char>>>,
    base: Set<Seq<char>>,
    build: Map<Seq<char>, Seq<char>>,
) -> Result<ResolverState, Seq<char>>
    decreases lists.len(),
{
    if lists.len() == 0 {
        Ok(s)
    } else {
        match run_steps(s, lists.drop_last(), base, build) {
            Ok(t) => deps_step(t, lists.last(), base, build),
            Err(d) => Err(d),
        }
    }
}

/// Meeting a list of names keeps what was queued and shipped.
pub proof fn lemma_deps_step_grows(
    s: ResolverState,
    deps: Seq<Seq<char>>,
    base: Set<Seq<char>>,
    build: Map<Seq<char>, Seq<char>>,
)
    requires
        deps_step(s, deps, base, build).is_ok(),
    ensures
        s.own_libs.len() <= state_of(deps_step(s, deps, base, build)).own_libs.len(),
        s.queued.len() <= state_of(deps_step(s, deps, base, build)).queued.len(),
        s.own_libs == state_of(deps_step(s, deps, base, build)).own_libs.subrange(0, s.own_libs.len() as int),
        s.queued == state_of(deps_step(s, deps, base, build)).queued.subrange(0, s.queued.len() as int),
    decreases deps.len(),
{
    if deps.len() > 0 {
        let front = deps.drop_last();
        lemma_deps_step_grows(s, front, base, build);
        let t0 = state_of(deps_step(s, front, base, build));
        lemma_dep_step_grows(t0, deps.last(), base, build);
        let t = state_of(deps_step(s, deps, base, build));
        assert(s.own_libs =~= t.own_libs.subrange(0, s.own_libs.len() as int));
        assert(s.queued =~= t.queued.subrange(0, s.queued.len() as int));
    } else {
        assert(s.own_libs =~= s.own_libs.subrange(0, s.own_libs.len() as int));
        assert(s.queued =~= s.queued.subrange(0, s.queued.len() as int));
    }
}

/// Over a whole run of scans that succeed, each needed name met is
/// provided by the baseline cache, shipped under its own name, or found in
/// the build cache at a file that is queued.
pub proof fn closure_over_run(
    s: ResolverState,
    lists: Seq<Seq<Seq<char>>>,
    base: Set<Seq<char>>,
    build: Map<Seq<char>, Seq<char>>,
)
    requires
        run_steps(s, lists, base, build).is_ok(),
    ensures
        forall|k: int, i: int| 0 <= k < lists.len() && 0 <= i < lists[k].len() ==> {
            let d = #[trigger] lists[k][i];
            let t = state_of(run_steps(s, lists, base, build));
            base.contains(d) || t.own_libs.contains(d) || (build.contains_key(d) && t.queued.contains(build[d]))
        },
    decreases lists.len(),
{
    if lists.len() > 0 {
        let front = lists.drop_last();
        closure_over_run(s, front, base, build);
        let t0 = state_of(run_steps(s, front, base, build));
        let t = state_of(run_steps(s, lists, base, build));
        closure(t0, lists.last(), base, build);
        lemma_deps_step_grows(t0, lists.last(), base, build);
        assert forall|k: int, i: int| 0 <= k < lists.len() && 0 <= i < lists[k].len() implies {
            let d = #[trigger] lists[k][i];
            base.contains(d) || t.own_libs.contains(d) || (build.contains_key(d) && t.queued.contains(build[d]))
        } by {
            let d = lists[k][i];
            if k < lists.len() - 1 {
                assert(front[k][i] == d);
                if t0.own_libs.contains(d) {
                    let m = choose|m: int| 0 <= m < t0.own_libs.len() && t0.own_libs[m] == d;
                    assert(t.own_libs.subrange(0, t0.own_libs.len() as int)[m] == d);
                }
                if build.contains_key(d) && t0.queued.contains(build[d]) {
                    let m = choose|m: int| 0 <= m < t0.queued.len() && t0.queued[m] == build[d];
                    assert(t.queued.subrange(0, t0.queued.len() as int)[m] == build[d]);
                }
            } else {
                assert(lists.last()[i] == d);
            }
        }
    }
}

/// One step keeps what was queued and shipped: the lists only grow.
pub proof fn lemma_dep_step_grows(
    s: ResolverState,
    d: Seq<char>,
    base: Set<Seq<char>>,
    build: Map<Seq<char>, Seq<char>>,
)
    requires
        dep_step(s, d, base, build).is_ok(),
    ensures
        s.own_libs.len() <= state_of(dep_step(s, d, base, build)).own_libs.len(),
        s.queued.len() <= state_of(dep_step(s, d, base, build)).queued.len(),
        s.res.len() <= state_of(dep_step(s, d, base, build)).res.len(),
        s.own_libs == state_of(dep_step(s, d, base, build)).own_libs.subrange(0, s.own_libs.len() as int),
        s.queued == state_of(dep_step(s, d, base, build)).queued.subrange(0, s.queued.len() as int),
        s.res == state_of(dep_step(s, d, base, build)).res.subrange(0, s.res.len() as int),
{
    let t = state_of(dep_step(s, d, base, build));
    assert(s.own_libs =~= t.own_libs.subrange(0, s.own_libs.len() as int));
    assert(s.queued =~= t.queued.subrange(0, s.queued.len() as int));
    assert(s.res =~= t.res.subrange(0, s.res.len() as int));
}

/// A library found in the build cache is never a file that was queued
/// before, so never a seed: an entry that a step adds is either an alias of
/// a seed, recorded when the seed was added, or a file that was not queued.
pub proof fn seed_not_duplicated(
    s: ResolverState,
    d: Seq<char>,
    base: Set<Seq<char>>,
    build: Map<Seq<char>, Seq<char>>,
)
    requires
        dep_step(s, d, base, build).is_ok(),
    ensures
        ({
            let t = state_of(dep_step(s, d, base, build));
            t.res == s.res || (t.res.len() == s.res.len() + 1 && (lookup_extra(s.extra, d) == Some(t.res.last())
                || (!s.queued.contains(t.res.last().0) && t.res.last().1 == lib_name(d))))
        }),
{
}

/// A path is put on the work list at most once: a step that adds one adds
/// it to the queued paths too, where it was not before, so the queued paths
/// stay free of repeats.
pub proof fn queued_once(
    s: ResolverState,
    d: Seq<char>,
    base: Set<Seq<char>>,
    build: Map<Seq<char>, Seq<char>>,
)
    requires
        dep_step(s, d, base, build).is_ok(),
        s.queued.no_duplicates(),
    ensures
        ({
            let t = state_of(dep_step(s, d, base, build));
            &&& t.queued.no_duplicates()
            &&& (t.work == s.work && t.queued == s.queued) || (!s.queued.contains(t.work.last())
                && t.work == s.work.push(t.work.last()) && t.queued == s.queued.push(t.work.last()))
        }),
{
    let t = state_of(dep_step(s, d, base, build));
    if t.queued != s.queued {
        assert forall|i: int, j: int| 0 <= i < t.queued.len() && 0 <= j < t.queued.len() && i != j implies t.queued[i] != t.queued[j] by {
            if i == s.queued.len() {
                assert(s.queued[j] == t.queued[j]);
            } else if j == s.queued.len() {
                assert(s.queued[i] == t.queued[i]);
            }
        }
    }
}

/// Adding a seed queues its path at most once, as for a needed library.
pub proof fn seed_queued_once(
    s: ResolverState,
    loc: Seq<char>,
    name: Seq<char>,
    canon: Seq<Option<Seq<char>>>,
)
    requires
        s.queued.no_duplicates(),
    ensures
        ({
            let t = seed_step(s, loc, name, canon);
            &&& t.queued.no_duplicates()
            &&& (t.work == s.work && t.queued == s.queued) || (!s.queued.contains(loc) && t.work == s.work.push(loc)
                && t.queued == s.queued.push(loc))
        }),
{
    let t = seed_step(s, loc, name, canon);
    if !s.queued.contains(loc) {
        assert forall|i: int, j: int| 0 <= i < t.queued.len() && 0 <= j < t.queued.len() && i != j implies t.queued[i] != t.queued[j] by {
            if i == s.queued.len() {
                assert(s.queued[j] == t.queued[j]);
            } else if j == s.queued.len() {
                assert(s.queued[i] == t.queued[i]);
            }
        }
    }
}

/// Recording the other names of a library found in the build cache ships
/// only entries of that library's own file, each under the name
/// `lib/<alias>` of an alias whose probe resolved to the file; and after it
/// every such alias is shipped under its own name.
pub proof fn lib_aliases_share_file(
    s: ResolverState,
    p: Seq<char>,
    canon: Seq<Option<Seq<char>>>,
    k: nat,
)
    requires
        k <= canon.len(),
        k <= alias_names(base_name(p)).len(),
    ensures
        ({
            let t = lib_alias_step(s, p, canon, k);
            &&& s.res.len() <= t.res.len()
            &&& t.res.subrange(0, s.res.len() as int) == s.res
            &&& forall|i: int| s.res.len() <= i < t.res.len() ==> {
                let e = #[trigger] t.res[i];
                e.0 == p && exists|m: int| 0 <= m < k && canon[m] == Some(p) && e.1 == lib_name(alias_names(base_name(p))[m])
            }
            &&& forall|m: int| 0 <= m < k && canon[m] == Some(p) ==> t.own_libs.contains(#[trigger] alias_names(base_name(p))[m])
        }),
    decreases k,
{
    if k == 0 {
        assert(s.res.subrange(0, s.res.len() as int) =~= s.res);
    } else {
        lib_aliases_share_file(s, p, canon, (k - 1) as nat);
        let t0 = lib_alias_step(s, p, canon, (k - 1) as nat);
        let t = lib_alias_step(s, p, canon, k);
        let q = alias_names(base_name(p))[k - 1];
        if canon[k - 1] == Some(p) && !t0.own_libs.contains(q) {
            assert(t.res.subrange(0, s.res.len() as int) =~= t0.res.subrange(0, s.res.len() as int));
            assert forall|i: int| s.res.len() <= i < t.res.len() implies {
                let e = #[trigger] t.res[i];
                e.0 == p && exists|m: int| 0 <= m < k && canon[m] == Some(p) && e.1 == lib_name(alias_names(base_name(p))[m])
            } by {
                if i < t0.res.len() {
                    assert(t.res[i] == t0.res[i]);
                } else {
                    assert(canon[k - 1] == Some(p) && t.res[i].1 == lib_name(alias_names(base_name(p))[k - 1]));
                }
            }
            assert forall|m: int| 0 <= m < k && canon[m] == Some(p) implies t.own_libs.contains(#[trigger] alias_names(base_name(p))[m]) by {
                if m < k - 1 {
                    let j = choose|j: int| 0 <= j < t0.own_libs.len() && t0.own_libs[j] == alias_names(base_name(p))[m];
                    assert(t.own_libs[j] == t0.own_libs[j]);
                } else {
                    assert(t.own_libs.last() == q);
                }
            }
        }
    }
}

/// Every alias recorded for a seed ships the seed's own file, under the
/// seed's directory in the archive.
pub proof fn aliases_share_file(
    loc: Seq<char>,
    name: Seq<char>,
    canon: Seq<Option<Seq<char>>>,
    k: nat,
)
    requires
        k <= canon.len(),
        k <= alias_names(base_name(loc)).len(),
    ensures
        forall|i: int| 0 <= i < found_aliases(loc, name, canon, k).len() ==> {
            let a = #[trigger] found_aliases(loc, name, canon, k)[i];
            a.1 == (loc, join(dir_name(name), a.0))
        },
    decreases k,
{
    if k > 0 {
        aliases_share_file(loc, name, canon, (k - 1) as nat);
        let rest = found_aliases(loc, name, canon, (k - 1) as nat);
        assert forall|i: int| 0 <= i < found_aliases(loc, name, canon, k).len() implies {
            let a = #[trigger] found_aliases(loc, name, canon, k)[i];
            a.1 == (loc, join(dir_name(name), a.0))
        } by {
            if i < rest.len() {
                assert(found_aliases(loc, name, canon, k)[i] == rest[i]);
            }
        }
    }
}

/// The working state of a dependency resolution.
pub struct Resolver {
    work: Vec<String>,
    queued: Vec<String>,
    own_libs: Vec<String>,
    own_extra_libs: Vec<(String, FileEntry)>,
    res: Vec<FileEntry>,
    pending: Vec<String>,
}

impl View for Resolver {
    type V = ResolverState;

    closed spec fn view(&self) -> ResolverState {
        ResolverState {
            work: texts(self.work@),
            queued: texts(self.queued@),
            own_libs: texts(self.own_libs@),
            extra: extra_view(self.own_extra_libs@),
            res: entries(self.res@),
            pending: texts(self.pending@),
        }
    }
}

fn contains_text(v: &Vec<String>, s: &String) -> (r: bool)
    ensures
        r == texts(v@).contains(s@),
{
    let mut i: usize = 0;
    while i < v.len()
        invariant
            i <= v@.len(),
            forall|j: int| 0 <= j < i ==> v@[j]@ != s@,
        decreases v@.len() - i,
    {
        if v[i] == *s {
            assert(texts(v@)[i as int] == s@);
            return true;
        }
        i = i + 1;
    }
    proof {
        if texts(v@).contains(s@) {
            let j = choose|j: int| 0 <= j < texts(v@).len() && texts(v@)[j] == s@;
            assert(v@[j]@ == s@);
        }
    }
    false
}

/// The names under which the file called `f` may also be known.
fn alias_list(f: &str) -> (r: Vec<String>)
    ensures
        texts(r@) == alias_names(f@),
{
    let n = f.unicode_len();
    let mut r: Vec<String> = Vec::new();
    let mut k: usize = 0;
    while k < n
        invariant
            n == f@.len(),
            k <= n,
            texts(r@) == dot_prefixes(f@, k as nat),
        decreases n - k,
    {
        if f.get_char(k) == '.' {
            let p = String::from_str(f.substring_char(0, k));
            r.push(p);
            assert(texts(r@) =~= dot_prefixes(f@, (k + 1) as nat));
        } else {
            assert(texts(r@) =~= dot_prefixes(f@, (k + 1) as nat));
        }
        k = k + 1;
    }
    r.push(String::from_str(f));
    assert(f@.subrange(0, n as int) =~= f@);
    assert(texts(r@) =~= dot_prefixes(f@, (n + 1) as nat));
    r
}

/// The paths to probe for aliases of a seed at `location`; the caller
/// resolves each of them to its canonical form.
pub fn alias_probes(location: &String) -> (r: Vec<String>)
    ensures
        texts(r@) == probe_paths(location@),
{
    let dir = parent_name(location.as_str());
    let file = file_name(location.as_str());
    let names = alias_list(file.as_str());
    let mut r: Vec<String> = Vec::new();
    let mut i: usize = 0;
    while i < names.len()
        invariant
            i <= names@.len(),
            texts(names@) == alias_names(base_name(location@)),
            dir@ == dir_name(location@),
            texts(r@) =~= probe_paths(location@).subrange(0, i as int),
        decreases names@.len() - i,
    {
        let p = join_path(dir.as_str(), names[i].as_str());
        assert(names@[i as int]@ == texts(names@)[i as int]);
        assert(probe_paths(location@)[i as int] == join(dir@, names@[i as int]@));
        let ghost r0 = texts(r@);
        r.push(p);
        assert(texts(r@) =~= r0.push(p@));
        assert(texts(r@) =~= probe_paths(location@).subrange(0, i + 1));
        i = i + 1;
    }
    r
}

impl Resolver {
    /// A resolution with no seed yet.
    pub fn new() -> (r: Resolver)
        ensures
            r@.work.len() == 0,
            r@.queued.len() == 0,
            r@.own_libs.len() == 0,
            r@.extra.len() == 0,
            r@.res.len() == 0,
            r@.pending.len() == 0,
    {
        Resolver {
            work: Vec::new(),
            queued: Vec::new(),
            own_libs: Vec::new(),
            own_extra_libs: Vec::new(),
            res: Vec::new(),
            pending: Vec::new(),
        }
    }

    /// Adds a seed: a file to scan that is shipped already (or is not to be
    /// shipped). `canon[i]` is the canonical form of the `i`-th path of
    /// [`alias_probes`] for the seed's location, `None` where it has none.
    pub fn add_seed(&mut self, elf: &FileEntry, canon: &Vec<Option<String>>)
        requires
            canon@.len() == probe_paths(elf.location@).len(),
        ensures
            final(self)@ == seed_step(
                old(self)@,
                elf.location@,
                elf.name@,
                canon@.map_values(|c: Option<String>| match c {
                    Some(t) => Some(t@),
                    None => None,
                }),
            ),
    {
        let ghost cv = canon@.map_values(|c: Option<String>| match c {
            Some(t) => Some(t@),
            None => None,
        });
        if contains_text(&self.queued, &elf.location) {
            return;
        }
        let file = file_name(elf.location.as_str());
        let names = alias_list(file.as_str());
        let name_dir = parent_name(elf.name.as_str());
        let ghost extra0 = self@.extra;
        let mut i: usize = 0;
        while i < canon.len()
            invariant
                i <= canon@.len(),
                canon@.len() == names@.len(),
                texts(names@) == alias_names(base_name(elf.location@)),
                name_dir@ == dir_name(elf.name@),
                cv == canon@.map_values(|c: Option<String>| match c {
                    Some(t) => Some(t@),
                    None => None,
                }),
                self@.extra =~= extra0 + found_aliases(elf.location@, elf.name@, cv, i as nat),
                self@.work == old(self)@.work,
                self@.queued == old(self)@.queued,
                self@.own_libs == old(self)@.own_libs,
                self@.res == old(self)@.res,
                self@.pending == old(self)@.pending,
            decreases canon@.len() - i,
        {
            let hit = match &canon[i] {
                Some(c) => *c == elf.location,
                None => false,
            };
            assert(hit == (cv[i as int] == Some(elf.location@)));
            assert(names@[i as int]@ == texts(names@)[i as int]);
            let ghost x0 = self@.extra;
            let ghost d = alias_names(base_name(elf.location@))[i as int];
            if hit {
                let dep = names[i].clone();
                let entry = FileEntry {
                    name: join_path(name_dir.as_str(), dep.as_str()),
                    location: elf.location.clone(),
                };
                assert(dep@ == d);
                assert(entry@ == (elf.location@, join(dir_name(elf.name@), d)));
                self.own_extra_libs.push((dep, entry));
                assert(self@.extra =~= x0.push((d, (elf.location@, join(dir_name(elf.name@), d)))));
            }
            assert(self@.extra =~= extra0 + found_aliases(elf.location@, elf.name@, cv, (i + 1) as nat));
            i = i + 1;
        }
        let base = file_name(elf.name.as_str());
        self.own_libs.push(base);
        self.queued.push(elf.location.clone());
        self.work.push(elf.location.clone());
        assert(self@.work =~= old(self)@.work.push(elf.location@));
        assert(self@.queued =~= old(self)@.queued.push(elf.location@));
        assert(self@.own_libs =~= old(self)@.own_libs.push(base_name(elf.name@)));
    }

    fn lookup_extra(&self, d: &String) -> (r: Option<FileEntry>)
        ensures
            match r {
                Some(e) => lookup_extra(self@.extra, d@) == Some(e@),
                None => lookup_extra(self@.extra, d@).is_none(),
            },
    {
        let mut i: usize = self.own_extra_libs.len();
        assert(self@.extra.subrange(0, i as int) =~= self@.extra);
        while i > 0
            invariant
                i <= self.own_extra_libs@.len(),
                lookup_extra(self@.extra, d@) == lookup_extra(self@.extra.subrange(0, i as int), d@),
            decreases i,
        {
            assert(self@.extra.subrange(0, i as int).drop_last() =~= self@.extra.subrange(0, i - 1));
            if self.own_extra_libs[i - 1].0 == *d {
                return Some(self.own_extra_libs[i - 1].1.clone());
            }
            i = i - 1;
        }
        assert(self@.extra.subrange(0, 0).len() == 0);
        None
    }

    /// Meets each of the needed library names `deps` in turn: a name that the
    /// baseline cache holds, or that is shipped already, is passed over; an
    /// alias of a seed is shipped under its own name; any other is looked up
    /// in the build cache, and its file shipped under `lib/` and queued for
    /// scanning unless it was queued already.
    pub fn process(
        &mut self,
        deps: &Vec<String>,
        base: &ldcache_rs::Cache,
        build: &ldcache_rs::Cache,
    ) -> (r: Result<(), LdError>)
        ensures
            match r {
                Ok(()) => deps_step(old(self)@, texts(deps@), cache_names(*base), cache_first_paths(*build))
                    == Ok::<ResolverState, Seq<char>>(final(self)@),
                Err(LdError::MissingDependency(d)) => deps_step(
                    old(self)@,
                    texts(deps@),
                    cache_names(*base),
                    cache_first_paths(*build),
                ) == Err::<ResolverState, Seq<char>>(d@),
                Err(_) => false,
            },
    {
        let ghost bn = cache_names(*base);
        let ghost bp = cache_first_paths(*build);
        let mut i: usize = 0;
        while i < deps.len()
            invariant
                i <= deps@.len(),
                bn == cache_names(*base),
                bp == cache_first_paths(*build),
                deps_step(old(self)@, texts(deps@).subrange(0, i as int), bn, bp)
                    == Ok::<ResolverState, Seq<char>>(self@),
            decreases deps@.len() - i,
        {
            let ghost s0 = self@;
            assert(texts(deps@).subrange(0, i + 1).drop_last() =~= texts(deps@).subrange(0, i as int));
            assert(texts(deps@).subrange(0, i + 1).last() == deps@[i as int]@);
            let d = &deps[i];
            if cache_contains(base, d.as_str()) || contains_text(&self.own_libs, d) {
            } else {
                match self.lookup_extra(d) {
                    Some(e) => {
                        self.res.push(e);
                        self.own_libs.push(d.clone());
                        assert(self@.res =~= s0.res.push(e@));
                        assert(self@.own_libs =~= s0.own_libs.push(d@));
                    },
                    None => match cache_path(build, d.as_str()) {
                        Some(p) => {
                            if !contains_text(&self.queued, &p) {
                                proof {
                                    reveal_strlit("lib/");
                                }
                                let name = String::from_str("lib/").concat(d.as_str());
                                assert(name@ =~= lib_name(d@));
                                self.queued.push(p.clone());
                                self.res.push(FileEntry { name, location: p.clone() });
                                self.own_libs.push(d.clone());
                                self.pending.push(p.clone());
                                self.work.push(p);
                                assert(self@.res =~= s0.res.push((p@, lib_name(d@))));
                                assert(self@.own_libs =~= s0.own_libs.push(d@));
                                assert(self@.pending =~= s0.pending.push(p@));
                                assert(self@.queued =~= s0.queued.push(p@));
                                assert(self@.work =~= s0.work.push(p@));
                            }
                        },
                        None => {
                            proof {
                                lemma_err_persists(old(self)@, texts(deps@), (i + 1) as nat, bn, bp);
                            }
                            return Err(LdError::MissingDependency(d.clone()));
                        },
                    },
                }
            }
            i = i + 1;
        }
        assert(texts(deps@).subrange(0, deps@.len() as int) =~= texts(deps@));
        Ok(())
    }

    /// Takes the next library found in the build cache whose other names are
    /// still to be recorded; the caller resolves the paths of
    /// [`alias_probes`] for it and hands them to [`Resolver::add_lib_aliases`].
    pub fn next_pending(&mut self) -> (r: Option<String>)
        ensures
            old(self)@.pending.len() == 0 ==> r.is_none() && final(self)@ == old(self)@,
            old(self)@.pending.len() > 0 ==> r.is_some() && r.unwrap()@ == old(self)@.pending.last()
                && final(self)@ == (ResolverState { pending: old(self)@.pending.drop_last(), ..old(self)@ }),
    {
        let r = self.pending.pop();
        assert(self@.pending =~= old(self)@.pending.drop_last() || old(self)@.pending.len() == 0);
        r
    }

    /// Records the other names of the library file at `path`, found in the
    /// build cache: each alias name whose probe resolves to `path` itself
    /// (`canon[i]` is the canonical form of the `i`-th path of
    /// [`alias_probes`]) and that is not shipped yet is shipped as
    /// `lib/<name>`, from the same file.
    pub fn add_lib_aliases(&mut self, path: &String, canon: &Vec<Option<String>>)
        requires
            canon@.len() == probe_paths(path@).len(),
        ensures
            final(self)@ == lib_alias_step(old(self)@, path@, canon_view(canon@), canon@.len() as nat),
    {
        let ghost cv = canon_view(canon@);
        let file = file_name(path.as_str());
        let names = alias_list(file.as_str());
        let mut i: usize = 0;
        while i < canon.len()
            invariant
                i <= canon@.len(),
                canon@.len() == names@.len(),
                texts(names@) == alias_names(base_name(path@)),
                cv == canon_view(canon@),
                self@ == lib_alias_step(old(self)@, path@, cv, i as nat),
            decreases canon@.len() - i,
        {
            let hit = match &canon[i] {
                Some(c) => *c == *path,
                None => false,
            };
            assert(hit == (cv[i as int] == Some(path@)));
            assert(names@[i as int]@ == texts(names@)[i as int]);
            let ghost s0 = self@;
            if hit && !contains_text(&self.own_libs, &names[i]) {
                proof {
                    reveal_strlit("lib/");
                }
                let q = names[i].clone();
                let name = String::from_str("lib/").concat(q.as_str());
                assert(name@ =~= lib_name(q@));
                self.res.push(FileEntry { name, location: path.clone() });
                self.own_libs.push(q);
                assert(self@.res =~= s0.res.push((path@, lib_name(names@[i as int]@))));
                assert(self@.own_libs =~= s0.own_libs.push(names@[i as int]@));
            }
            assert(self@ == lib_alias_step(old(self)@, path@, cv, (i + 1) as nat));
            i = i + 1;
        }
    }

    /// Takes the next path to scan off the work list, latest first.
    pub fn next_path(&mut self) -> (r: Option<String>)
        ensures
            old(self)@.work.len() == 0 ==> r.is_none() && final(self)@ == old(self)@,
            old(self)@.work.len() > 0 ==> r.is_some() && r.unwrap()@ == old(self)@.work.last()
                && final(self)@ == (ResolverState { work: old(self)@.work.drop_last(), ..old(self)@ }),
    {
        let r = self.work.pop();
        assert(self@.work =~= old(self)@.work.drop_last() || old(self)@.work.len() == 0);
        r
    }

    /// Scans the bytes of a file taken from the work list. A file in another
    /// object format is passed over; an ELF image has its needed libraries
    /// processed as by [`Resolver::process`].
    pub fn scan(
        &mut self,
        bytes: &Vec<u8>,
        base: &ldcache_rs::Cache,
        build: &ldcache_rs::Cache,
    ) -> (r: Result<(), LdError>)
        ensures
            match elf_needed_of(bytes@) {
                None => r matches Err(LdError::Elf(_)) && final(self)@ == old(self)@,
                Some(None) => r matches Ok(()) && final(self)@ == old(self)@,
                Some(Some(ds)) => match r {
                    Ok(()) => deps_step(old(self)@, ds, cache_names(*base), cache_first_paths(*build))
                        == Ok::<ResolverState, Seq<char>>(final(self)@),
                    Err(LdError::MissingDependency(d)) => deps_step(
                        old(self)@,
                        ds,
                        cache_names(*base),
                        cache_first_paths(*build),
                    ) == Err::<ResolverState, Seq<char>>(d@),
                    Err(_) => false,
                },
            },
    {
        match read_needed(bytes) {
            Err(m) => Err(LdError::Elf(m)),
            Ok(None) => Ok(()),
            Ok(Some(deps)) => self.process(&deps, base, build),
        }
    }

    /// Whether no path is left to scan.
    pub fn is_done(&self) -> (r: bool)
        ensures
            r == (self@.work.len() == 0),
    {
        self.work.len() == 0
    }

    /// The entries found, in order of discovery.
    pub fn into_entries(self) -> (r: Vec<FileEntry>)
        ensures
            entries(r@) == self@.res,
    {
        self.res
    }
}

} // verus!
