//! Which configured repositories still need a clone, and how to clone them.

use vstd::prelude::*;
use crate::config::{
    Mode, RepoModel, ResolvedConfig, ResolvedRepo, contains_text, repo_models, same_text, texts,
};
use crate::invocation::{Invocation, InvocationModel, invocation_models, owned};

verus! {

/// The configuration file, which is never taken for a cloned repository.
pub open spec fn config_file() -> Seq<char> {
    "mlc.toml"@
}

/// Whether a directory `name` stands among the working directory's entries,
/// the configuration file left aside.
pub open spec fn on_disk(entries: Seq<Seq<char>>, name: Seq<char>) -> bool {
    name != config_file() && entries.contains(name)
}

/// The repositories, in configuration order, that have no directory yet.
pub open spec fn missing_model(repos: Seq<RepoModel>, entries: Seq<Seq<char>>) -> Seq<RepoModel> {
    repos.filter(|r: RepoModel| !on_disk(entries, r.name))
}

/// The runs that clone one repository.
///
/// A workspace gets a plain clone. A repository directory gets a clone
/// without checkout; then, inside it, the index is reset and only the
/// build description `PKGBUILD` is checked out.
pub open spec fn clone_model(mode: Mode, r: RepoModel) -> Seq<InvocationModel> {
    match mode {
        Mode::Workspace => seq![
            InvocationModel { dir: None, program: "git"@, args: seq!["clone"@, r.url, r.name] },
        ],
        Mode::Repository => seq![
            InvocationModel {
                dir: None,
                program: "git"@,
                args: seq!["clone"@, "--no-checkout"@, r.url, r.name],
            },
            InvocationModel { dir: Some(r.name), program: "git"@, args: seq!["reset"@] },
            InvocationModel {
                dir: Some(r.name),
                program: "git"@,
                args: seq!["checkout"@, "HEAD"@, "PKGBUILD"@],
            },
        ],
    }
}

/// The runs that clone each of `rs`, one repository after the other.
pub open spec fn clones_model(mode: Mode, rs: Seq<RepoModel>) -> Seq<InvocationModel>
    decreases rs.len(),
{
    if rs.len() == 0 {
        Seq::empty()
    } else {
        clones_model(mode, rs.drop_last()) + clone_model(mode, rs.last())
    }
}

impl ResolvedRepo {
    /// A copy of this repository.
    pub fn duplicate(&self) -> (r: ResolvedRepo)
        ensures
            r@ == self@,
    {
        ResolvedRepo { name: self.name.clone(), url: self.url.clone(), priority: self.priority }
    }
}

/// Whether `name` names a directory among `entries`, the configuration file aside.
pub fn is_on_disk(entries: &Vec<String>, name: &str) -> (r: bool)
    ensures
        r == on_disk(texts(entries@), name@),
{
    !same_text(name, "mlc.toml") && contains_text(entries, name)
}

/// The configured repositories that `entries`, the names in the working
/// directory, do not hold yet; in configuration order.
pub fn missing_repos(config: &ResolvedConfig, entries: &Vec<String>) -> (r: Vec<ResolvedRepo>)
    ensures
        repo_models(r@) == missing_model(repo_models(config.repo@), texts(entries@)),
{
    let ghost all = repo_models(config.repo@);
    let ghost ents = texts(entries@);
    let mut out: Vec<ResolvedRepo> = Vec::new();
    let mut i: usize = 0;
    proof {
        reveal(Seq::filter);
    }
    assert(all.take(0) =~= Seq::<RepoModel>::empty());
    assert(repo_models(out@) =~= Seq::<RepoModel>::empty());
    while i < config.repo.len()
        invariant
            i <= config.repo@.len(),
            all == repo_models(config.repo@),
            ents == texts(entries@),
            repo_models(out@) == missing_model(all.take(i as int), ents),
        decreases config.repo@.len() - i,
    {
        proof {
            reveal(Seq::filter);
        }
        assert(all.take(i + 1).drop_last() =~= all.take(i as int));
        assert(all.take(i + 1).last() == config.repo@[i as int]@);
        let repo = &config.repo[i];
        if !is_on_disk(entries, repo.name.as_str()) {
            let ghost before = out@;
            out.push(repo.duplicate());
            assert(out@.drop_last() =~= before);
            assert(repo_models(out@) =~= repo_models(before).push(out@.last()@));
        }
        i = i + 1;
    }
    assert(all.take(config.repo@.len() as int) =~= all);
    out
}

/// The runs that clone `repo` in `mode`.
pub fn clone_commands(mode: Mode, repo: &ResolvedRepo) -> (r: Vec<Invocation>)
    ensures
        invocation_models(r@) == clone_model(mode, repo@),
{
    let r = match mode {
        Mode::Workspace => vec![
            Invocation {
                dir: None,
                program: owned("git"),
                args: vec![owned("clone"), repo.url.clone(), repo.name.clone()],
            },
        ],
        Mode::Repository => vec![
            Invocation {
                dir: None,
                program: owned("git"),
                args: vec![owned("clone"), owned("--no-checkout"), repo.url.clone(), repo.name.clone()],
            },
            Invocation { dir: Some(repo.name.clone()), program: owned("git"), args: vec![owned("reset")] },
            Invocation {
                dir: Some(repo.name.clone()),
                program: owned("git"),
                args: vec![owned("checkout"), owned("HEAD"), owned("PKGBUILD")],
            },
        ],
    };
    assert(invocation_models(r@) =~= clone_model(mode, repo@)) by {
        let m = invocation_models(r@);
        let c = clone_model(mode, repo@);
        assert forall|k: int| 0 <= k < m.len() implies m[k] == c[k] by {
            assert(m[k].args =~= c[k].args);
        }
    }
    r
}

/// Reconciles the working directory with the configuration: the runs that
/// clone every repository that `entries` does not hold yet, in configuration
/// order. Nothing to run where everything is there.
pub fn reconcile(config: &ResolvedConfig, entries: &Vec<String>) -> (r: Vec<Invocation>)
    ensures
        invocation_models(r@) == clones_model(
            config.mode,
            missing_model(repo_models(config.repo@), texts(entries@)),
        ),
{
    let missing = missing_repos(config, entries);
    let ghost ms = repo_models(missing@);
    let mut out: Vec<Invocation> = Vec::new();
    let mut i: usize = 0;
    assert(ms.take(0) =~= Seq::<RepoModel>::empty());
    while i < missing.len()
        invariant
            i <= missing@.len(),
            ms == repo_models(missing@),
            invocation_models(out@) == clones_model(config.mode, ms.take(i as int)),
        decreases missing@.len() - i,
    {
        assert(ms.take(i + 1).drop_last() =~= ms.take(i as int));
        assert(ms.take(i + 1).last() == missing@[i as int]@);
        let mut step = clone_commands(config.mode, &missing[i]);
        let ghost before = out@;
        let ghost added = step@;
        out.append(&mut step);
        assert(invocation_models(out@) =~= invocation_models(before) + invocation_models(added));
        i = i + 1;
    }
    assert(ms.take(missing@.len() as int) =~= ms);
    out
}

/// The names of `rs`, in order.
pub open spec fn names_of(rs: Seq<RepoModel>) -> Seq<Seq<char>> {
    rs.map_values(|r: RepoModel| r.name)
}

/// Once the clones that reconciling asked for have made their directories,
/// reconciling again finds nothing missing and runs nothing.
pub proof fn lemma_reconcile_idempotent(mode: Mode, repos: Seq<RepoModel>, entries: Seq<Seq<char>>)
    requires
        forall|i: int| 0 <= i < repos.len() ==> #[trigger] repos[i].name != config_file(),
    ensures
        missing_model(repos, entries + names_of(missing_model(repos, entries))) == Seq::<
            RepoModel,
        >::empty(),
        clones_model(mode, missing_model(repos, entries + names_of(missing_model(repos, entries))))
            == Seq::<InvocationModel>::empty(),
{
    let first = missing_model(repos, entries);
    let after = entries + names_of(first);
    let pred = |r: RepoModel| !on_disk(entries, r.name);
    broadcast use vstd::seq_lib::group_filter_ensures;
    assert forall|i: int| 0 <= i < repos.len() implies on_disk(after, #[trigger] repos[i].name) by {
        let r = repos[i];
        if on_disk(entries, r.name) {
            let j = choose|j: int| 0 <= j < entries.len() && entries[j] == r.name;
            assert(after[j] == r.name);
        } else {
            assert(pred(repos[i]));
            assert(first.contains(r));
            let j = choose|j: int| 0 <= j < first.len() && first[j] == r;
            assert(after[entries.len() + j] == r.name);
        }
    }
    lemma_none_missing(repos, after);
}

proof fn lemma_none_missing(repos: Seq<RepoModel>, entries: Seq<Seq<char>>)
    requires
        forall|i: int| 0 <= i < repos.len() ==> on_disk(entries, #[trigger] repos[i].name),
    ensures
        missing_model(repos, entries) == Seq::<RepoModel>::empty(),
    decreases repos.len(),
{
    reveal(Seq::filter);
    if repos.len() > 0 {
        let prev = repos.drop_last();
        assert forall|i: int| 0 <= i < prev.len() implies on_disk(entries, #[trigger] prev[i].name) by {
            assert(prev[i] == repos[i]);
        }
        lemma_none_missing(prev, entries);
        assert(on_disk(entries, repos[repos.len() - 1].name));
    }
}

} // verus!
