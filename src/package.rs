//! Which packages a build request covers, and the runs that build one.

use vstd::prelude::*;
use crate::config::{Mode, ResolvedConfig, contains_text, repo_models, same_text, texts};
use crate::error::MlcError;
use crate::invocation::{Invocation, InvocationModel, invocation_models, owned};
use crate::reconcile::names_of;

verus! {

/// Where built artifacts are gathered, beside the package directories.
pub const OUT_DIR: &'static str = "out";

/// Position of the first requested name that is not configured, or the
/// request's length where every name is.
pub open spec fn first_unknown(names: Seq<Seq<char>>, req: Seq<Seq<char>>) -> int
    decreases req.len(),
{
    if req.len() == 0 {
        0
    } else if !names.contains(req[0]) {
        0
    } else {
        1 + first_unknown(names, req.skip(1))
    }
}

/// `names` without the excluded ones, in order.
pub open spec fn without(names: Seq<Seq<char>>, exclude: Seq<Seq<char>>) -> Seq<Seq<char>> {
    names.filter(|p: Seq<char>| !exclude.contains(p))
}

/// The packages a request builds, in order, and the error that ends it.
///
/// An empty request stands for every configured repository. Otherwise the
/// requested names are taken in order up to the first that is not
/// configured, which ends the batch with `UnknownPackage`; the names before
/// it are built. Excluded names are skipped either way.
pub open spec fn plan_model(
    mode: Mode,
    names: Seq<Seq<char>>,
    req: Seq<Seq<char>>,
    exclude: Seq<Seq<char>>,
) -> (Seq<Seq<char>>, Option<MlcError>) {
    if mode == Mode::Workspace {
        (Seq::empty(), Some(MlcError::BuildInWorkspace))
    } else if req.len() == 0 {
        (without(names, exclude), None)
    } else {
        let k = first_unknown(names, req);
        (
            without(req.take(k), exclude),
            if k < req.len() {
                Some(MlcError::UnknownPackage)
            } else {
                None
            },
        )
    }
}

/// The outcome of a build request: build `packages` in order, then stop
/// with `error` if there is one.
#[derive(Debug)]
pub struct BuildPlan {
    pub packages: Vec<String>,
    pub error: Option<MlcError>,
}

proof fn lemma_first_unknown(names: Seq<Seq<char>>, req: Seq<Seq<char>>, k: int)
    requires
        0 <= k <= req.len(),
        forall|j: int| 0 <= j < k ==> names.contains(#[trigger] req[j]),
        k == req.len() || !names.contains(req[k]),
    ensures
        first_unknown(names, req) == k,
    decreases k,
{
    if k > 0 {
        let rest = req.skip(1);
        assert forall|j: int| 0 <= j < k - 1 implies names.contains(#[trigger] rest[j]) by {
            assert(rest[j] == req[j + 1]);
        }
        lemma_first_unknown(names, rest, k - 1);
    }
}

/// Whether `name` is a configured repository.
pub fn is_configured(config: &ResolvedConfig, name: &str) -> (r: bool)
    ensures
        r == names_of(repo_models(config.repo@)).contains(name@),
{
    let ghost names = names_of(repo_models(config.repo@));
    let mut i: usize = 0;
    while i < config.repo.len()
        invariant
            i <= config.repo@.len(),
            names == names_of(repo_models(config.repo@)),
            forall|j: int| 0 <= j < i ==> config.repo@[j].name@ != name@,
        decreases config.repo@.len() - i,
    {
        if same_text(config.repo[i].name.as_str(), name) {
            assert(names[i as int] == name@);
            return true;
        }
        i = i + 1;
    }
    assert(!names.contains(name@)) by {
        if names.contains(name@) {
            let j = choose|j: int| 0 <= j < names.len() && names[j] == name@;
            assert(config.repo@[j].name@ == name@);
        }
    }
    false
}

/// Appends `name` to `out` unless it is excluded.
fn push_unless_excluded(out: &mut Vec<String>, name: &String, exclude: &Vec<String>)
    ensures
        texts(final(out)@) == if texts(exclude@).contains(name@) {
            texts(old(out)@)
        } else {
            texts(old(out)@).push(name@)
        },
{
    if !contains_text(exclude, name.as_str()) {
        let ghost before = out@;
        out.push(name.clone());
        assert(texts(out@) =~= texts(before).push(name@));
    }
}

/// Decides what a build request builds: see `plan_model`.
pub fn build_plan(config: &ResolvedConfig, requested: &Vec<String>, exclude: &Vec<String>) -> (r:
    BuildPlan)
    ensures
        (texts(r.packages@), r.error) == plan_model(
            config.mode,
            names_of(repo_models(config.repo@)),
            texts(requested@),
            texts(exclude@),
        ),
{
    let ghost names = names_of(repo_models(config.repo@));
    let ghost excl = texts(exclude@);
    let mut packages: Vec<String> = Vec::new();
    if config.mode == Mode::Workspace {
        assert(texts(packages@) =~= Seq::<Seq<char>>::empty());
        return BuildPlan { packages, error: Some(MlcError::BuildInWorkspace) };
    }
    proof {
        reveal(Seq::filter);
    }
    assert(texts(packages@) =~= Seq::<Seq<char>>::empty());
    if requested.len() == 0 {
        let mut i: usize = 0;
        assert(names.take(0) =~= Seq::<Seq<char>>::empty());
        while i < config.repo.len()
            invariant
                i <= config.repo@.len(),
                names == names_of(repo_models(config.repo@)),
                excl == texts(exclude@),
                texts(packages@) == without(names.take(i as int), excl),
            decreases config.repo@.len() - i,
        {
            proof {
                reveal(Seq::filter);
            }
            assert(names.take(i + 1).drop_last() =~= names.take(i as int));
            assert(names.take(i + 1).last() == config.repo@[i as int].name@);
            push_unless_excluded(&mut packages, &config.repo[i].name, exclude);
            i = i + 1;
        }
        assert(names.take(config.repo@.len() as int) =~= names);
        return BuildPlan { packages, error: None };
    }
    let ghost req = texts(requested@);
    let mut i: usize = 0;
    assert(req.take(0) =~= Seq::<Seq<char>>::empty());
    while i < requested.len()
        invariant
            i <= requested@.len(),
            names == names_of(repo_models(config.repo@)),
            excl == texts(exclude@),
            req == texts(requested@),
            req.len() > 0,
            config.mode != Mode::Workspace,
            forall|j: int| 0 <= j < i ==> names.contains(#[trigger] req[j]),
            texts(packages@) == without(req.take(i as int), excl),
        decreases requested@.len() - i,
    {
        proof {
            reveal(Seq::filter);
        }
        if !is_configured(config, requested[i].as_str()) {
            proof {
                lemma_first_unknown(names, req, i as int);
            }
            return BuildPlan { packages, error: Some(MlcError::UnknownPackage) };
        }
        assert(req.take(i + 1).drop_last() =~= req.take(i as int));
        assert(req.take(i + 1).last() == requested@[i as int]@);
        push_unless_excluded(&mut packages, &requested[i], exclude);
        i = i + 1;
    }
    proof {
        lemma_first_unknown(names, req, req.len() as int);
    }
    assert(req.take(req.len() as int) =~= req);
    BuildPlan { packages, error: None }
}

/// The runs that build package `pkg`, all inside its directory: checksums
/// regenerated if `regen`, a forced build that skips the check of upstream
/// signatures and asks nothing, signed if `sign`, and the copy of the
/// archives into the artifact directory.
pub open spec fn build_model(pkg: Seq<char>, regen: bool, sign: bool) -> Seq<InvocationModel> {
    let sums = InvocationModel { dir: Some(pkg), program: "updpkgsums"@, args: seq![] };
    let make = InvocationModel {
        dir: Some(pkg),
        program: "makepkg"@,
        args: if sign {
            seq!["-sf"@, "--skippgpcheck"@, "--sign"@, "--noconfirm"@]
        } else {
            seq!["-sf"@, "--skippgpcheck"@, "--noconfirm"@]
        },
    };
    let copy = InvocationModel {
        dir: Some(pkg),
        program: "bash"@,
        args: seq!["-c"@, "cp *.pkg.tar.zst* ../out/"@],
    };
    if regen {
        seq![sums, make, copy]
    } else {
        seq![make, copy]
    }
}

/// The runs that build `pkg`; `entries` are the names in the working
/// directory, which must hold the package's directory.
pub fn build(pkg: &str, entries: &Vec<String>, regen: bool, sign: bool) -> (r: Result<
    Vec<Invocation>,
    MlcError,
>)
    ensures
        match r {
            Ok(v) => texts(entries@).contains(pkg@) && invocation_models(v@) == build_model(
                pkg@,
                regen,
                sign,
            ),
            Err(e) => !texts(entries@).contains(pkg@) && e == MlcError::PackageDirNotFound,
        },
{
    if !contains_text(entries, pkg) {
        return Err(MlcError::PackageDirNotFound);
    }
    let make_args = if sign {
        vec![owned("-sf"), owned("--skippgpcheck"), owned("--sign"), owned("--noconfirm")]
    } else {
        vec![owned("-sf"), owned("--skippgpcheck"), owned("--noconfirm")]
    };
    let make = Invocation { dir: Some(owned(pkg)), program: owned("makepkg"), args: make_args };
    let copy = Invocation {
        dir: Some(owned(pkg)),
        program: owned("bash"),
        args: vec![owned("-c"), owned("cp *.pkg.tar.zst* ../out/")],
    };
    let r = if regen {
        let sums = Invocation { dir: Some(owned(pkg)), program: owned("updpkgsums"), args: Vec::new() };
        vec![sums, make, copy]
    } else {
        vec![make, copy]
    };
    assert(invocation_models(r@) =~= build_model(pkg@, regen, sign)) by {
        let m = invocation_models(r@);
        let c = build_model(pkg@, regen, sign);
        assert forall|k: int| 0 <= k < m.len() implies m[k] == c[k] by {
            assert(m[k].args =~= c[k].args);
        }
    }
    Ok(r)
}

/// Generating the package database needs repository mode.
pub fn check_repo_gen(config: &ResolvedConfig) -> (r: Result<(), MlcError>)
    ensures
        r == if config.mode == Mode::Workspace {
            Err(MlcError::BuildInWorkspace)
        } else {
            Ok::<(), MlcError>(())
        },
{
    if config.mode == Mode::Workspace {
        Err(MlcError::BuildInWorkspace)
    } else {
        Ok(())
    }
}

} // verus!
