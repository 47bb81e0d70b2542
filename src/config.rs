//! The configuration as loaded, and its expansion into resolved repositories.

use vstd::prelude::*;
use vstd::string::*;
use crate::error::MlcError;
use crate::spec_string::{parse_model, parse_spec, written_index, written_name};
use crate::text::{count_bang_chars, count_bangs, fill_placeholder, fill_template, remove_bangs, strip_bangs};

verus! {

/// How much of the pipeline a directory takes part in.
#[derive(Clone, Copy, Debug, PartialEq, Eq, Structural)]
pub enum Mode {
    /// Sources are cloned, nothing is built.
    Workspace,
    /// Sources are cloned, built, signed and published.
    Repository,
}

/// The mode that a configuration's `mode` text names, if any.
pub open spec fn mode_of(s: Seq<char>) -> Option<Mode> {
    if s == "workspace"@ {
        Some(Mode::Workspace)
    } else if s == "repository"@ {
        Some(Mode::Repository)
    } else {
        None
    }
}

/// The configuration file's contents, before expansion.
#[derive(Debug)]
pub struct RawConfig {
    pub mode: String,
    pub name: Option<String>,
    pub sign: bool,
    pub smart_pull: bool,
    /// URL templates, each holding the placeholder `%repo%`.
    pub urls: Vec<String>,
    /// Compact specifications `<index>::<name>`.
    pub repo: Vec<String>,
}

/// One repository, ready to clone and build.
#[derive(Debug)]
pub struct ResolvedRepo {
    /// Directory name and package key: the specification's name without markers.
    pub name: String,
    /// The addressed URL template with the name filled in.
    pub url: String,
    /// How many markers the specification's name held.
    pub priority: usize,
}

/// What a resolved repository stands for.
pub ghost struct RepoModel {
    pub name: Seq<char>,
    pub url: Seq<char>,
    pub priority: nat,
}

impl View for ResolvedRepo {
    type V = RepoModel;

    open spec fn view(&self) -> RepoModel {
        RepoModel { name: self.name@, url: self.url@, priority: self.priority as nat }
    }
}

/// The expanded configuration, held unchanged for the rest of a run.
#[derive(Debug)]
pub struct ResolvedConfig {
    pub mode: Mode,
    pub sign: bool,
    pub name: Option<String>,
    pub smart_pull: bool,
    /// In the order of the specifications.
    pub repo: Vec<ResolvedRepo>,
}

/// The text of each string, in order.
pub open spec fn texts(v: Seq<String>) -> Seq<Seq<char>> {
    v.map_values(|u: String| u@)
}

/// The model of each resolved repository, in order.
pub open spec fn repo_models(v: Seq<ResolvedRepo>) -> Seq<RepoModel> {
    v.map_values(|r: ResolvedRepo| r@)
}

/// The text of an optional string.
pub open spec fn opt_text(o: Option<String>) -> Option<Seq<char>> {
    match o {
        Some(s) => Some(s@),
        None => None,
    }
}

/// A usable directory name: not empty, and no path separator in it.
pub open spec fn valid_name(n: Seq<char>) -> bool {
    n.len() > 0 && !n.contains('/')
}

/// The repository that one specification expands to under `urls`.
pub open spec fn expand_spec(urls: Seq<Seq<char>>, s: Seq<char>) -> Result<RepoModel, MlcError> {
    match parse_model(s) {
        None => Err(MlcError::MalformedSpec),
        Some((i, raw)) => {
            if i < 1 || i > urls.len() {
                Err(MlcError::IndexOutOfRange)
            } else if !valid_name(strip_bangs(raw)) {
                Err(MlcError::MalformedSpec)
            } else {
                Ok(
                    RepoModel {
                        name: strip_bangs(raw),
                        url: fill_template(urls[i - 1], strip_bangs(raw)),
                        priority: count_bangs(raw),
                    },
                )
            }
        },
    }
}

/// Every specification expanded in order; the first failure, if any.
pub open spec fn expand_all(urls: Seq<Seq<char>>, specs: Seq<Seq<char>>) -> Result<
    Seq<RepoModel>,
    MlcError,
>
    decreases specs.len(),
{
    if specs.len() == 0 {
        Ok(Seq::empty())
    } else {
        match expand_all(urls, specs.drop_last()) {
            Err(e) => Err(e),
            Ok(rs) => match expand_spec(urls, specs.last()) {
                Err(e) => Err(e),
                Ok(r) => Ok(rs.push(r)),
            },
        }
    }
}

/// A whole configuration expanded: the mode is checked first.
pub open spec fn expand_model(mode: Seq<char>, urls: Seq<Seq<char>>, specs: Seq<Seq<char>>) -> Result<
    (Mode, Seq<RepoModel>),
    MlcError,
> {
    match mode_of(mode) {
        None => Err(MlcError::InvalidMode),
        Some(m) => match expand_all(urls, specs) {
            Err(e) => Err(e),
            Ok(rs) => Ok((m, rs)),
        },
    }
}

/// Whether `a` and `b` hold the same characters.
pub fn same_text(a: &str, b: &str) -> (r: bool)
    ensures
        r == (a@ == b@),
{
    let n = a.unicode_len();
    let m = b.unicode_len();
    if n != m {
        return false;
    }
    let mut i: usize = 0;
    while i < n
        invariant
            n == a@.len(),
            n == b@.len(),
            i <= n,
            forall|j: int| 0 <= j < i ==> a@[j] == b@[j],
        decreases n - i,
    {
        if a.get_char(i) != b.get_char(i) {
            return false;
        }
        i = i + 1;
    }
    assert(a@ =~= b@);
    true
}

/// Whether `v` holds the text `s`.
pub fn contains_text(v: &Vec<String>, s: &str) -> (r: bool)
    ensures
        r == texts(v@).contains(s@),
{
    let mut i: usize = 0;
    while i < v.len()
        invariant
            i <= v@.len(),
            forall|j: int| 0 <= j < i ==> v@[j]@ != s@,
        decreases v@.len() - i,
    {
        if same_text(v[i].as_str(), s) {
            assert(texts(v@)[i as int] == s@);
            return true;
        }
        i = i + 1;
    }
    assert(!texts(v@).contains(s@)) by {
        if texts(v@).contains(s@) {
            let j = choose|j: int| 0 <= j < texts(v@).len() && texts(v@)[j] == s@;
            assert(v@[j]@ == s@);
        }
    }
    false
}

/// Reads the `mode` field.
pub fn parse_mode(s: &str) -> (r: Result<Mode, MlcError>)
    ensures
        match mode_of(s@) {
            Some(m) => r == Ok::<Mode, MlcError>(m),
            None => r == Err::<Mode, MlcError>(MlcError::InvalidMode),
        },
{
    if same_text(s, "workspace") {
        Ok(Mode::Workspace)
    } else if same_text(s, "repository") {
        Ok(Mode::Repository)
    } else {
        Err(MlcError::InvalidMode)
    }
}

/// Whether `n` can name a repository directory.
pub fn is_valid_name(n: &str) -> (r: bool)
    ensures
        r == valid_name(n@),
{
    let len = n.unicode_len();
    if len == 0 {
        return false;
    }
    let mut i: usize = 0;
    while i < len
        invariant
            len == n@.len(),
            i <= len,
            forall|j: int| 0 <= j < i ==> n@[j] != '/',
        decreases len - i,
    {
        if n.get_char(i) == '/' {
            assert(n@.contains('/'));
            return false;
        }
        i = i + 1;
    }
    true
}

/// Expands one specification against the URL templates.
pub fn expand_repo(urls: &Vec<String>, spec: &str) -> (r: Result<ResolvedRepo, MlcError>)
    ensures
        match r {
            Ok(repo) => expand_spec(texts(urls@), spec@) == Ok::<RepoModel, MlcError>(repo@),
            Err(e) => expand_spec(texts(urls@), spec@) == Err::<RepoModel, MlcError>(e),
        },
{
    let split = parse_spec(spec)?;
    if split.index < 1 || split.index > urls.len() {
        return Err(MlcError::IndexOutOfRange);
    }
    let name = remove_bangs(split.name.as_str());
    if !is_valid_name(name.as_str()) {
        return Err(MlcError::MalformedSpec);
    }
    let url = fill_placeholder(urls[split.index - 1].as_str(), name.as_str());
    let priority = count_bang_chars(split.name.as_str());
    Ok(ResolvedRepo { name, url, priority })
}

proof fn lemma_expand_all_err(urls: Seq<Seq<char>>, specs: Seq<Seq<char>>, k: int, e: MlcError)
    requires
        0 <= k <= specs.len(),
        expand_all(urls, specs.take(k)) == Err::<Seq<RepoModel>, MlcError>(e),
    ensures
        expand_all(urls, specs) == Err::<Seq<RepoModel>, MlcError>(e),
    decreases specs.len() - k,
{
    if k == specs.len() {
        assert(specs.take(k) =~= specs);
    } else {
        assert(specs.take(k + 1).drop_last() =~= specs.take(k));
        lemma_expand_all_err(urls, specs, k + 1, e);
    }
}

fn copy_name(o: &Option<String>) -> (r: Option<String>)
    ensures
        opt_text(r) == opt_text(*o),
{
    match o {
        Some(s) => Some(s.clone()),
        None => None,
    }
}

/// Checks the mode, then expands every specification in order; fails on
/// the first one that does not expand.
pub fn expand(raw: &RawConfig) -> (r: Result<ResolvedConfig, MlcError>)
    ensures
        match r {
            Ok(c) => {
                &&& expand_model(raw.mode@, texts(raw.urls@), texts(raw.repo@)) == Ok::<
                    (Mode, Seq<RepoModel>),
                    MlcError,
                >((c.mode, repo_models(c.repo@)))
                &&& c.sign == raw.sign
                &&& c.smart_pull == raw.smart_pull
                &&& opt_text(c.name) == opt_text(raw.name)
            },
            Err(e) => expand_model(raw.mode@, texts(raw.urls@), texts(raw.repo@)) == Err::<
                (Mode, Seq<RepoModel>),
                MlcError,
            >(e),
        },
{
    let mode = parse_mode(raw.mode.as_str())?;
    let ghost urls = texts(raw.urls@);
    let ghost specs = texts(raw.repo@);
    let mut out: Vec<ResolvedRepo> = Vec::new();
    let n = raw.repo.len();
    let mut i: usize = 0;
    assert(specs.take(0) =~= Seq::<Seq<char>>::empty());
    assert(repo_models(out@) =~= Seq::<RepoModel>::empty());
    while i < n
        invariant
            n == raw.repo@.len(),
            i <= n,
            urls == texts(raw.urls@),
            specs == texts(raw.repo@),
            mode_of(raw.mode@) == Some(mode),
            expand_all(urls, specs.take(i as int)) == Ok::<Seq<RepoModel>, MlcError>(
                repo_models(out@),
            ),
        decreases n - i,
    {
        assert(specs.take(i + 1).drop_last() =~= specs.take(i as int));
        assert(specs.take(i + 1).last() == raw.repo@[i as int]@);
        match expand_repo(&raw.urls, raw.repo[i].as_str()) {
            Ok(repo) => {
                let ghost before = out@;
                out.push(repo);
                assert(out@.drop_last() =~= before);
                assert(repo_models(out@) =~= repo_models(before).push(out@.last()@));
            },
            Err(e) => {
                proof {
                    assert(expand_all(urls, specs.take(i + 1)) == Err::<Seq<RepoModel>, MlcError>(e));
                    lemma_expand_all_err(urls, specs, i + 1, e);

                }
                return Err(e);
            },
        }
        i = i + 1;
    }
    assert(specs.take(n as int) =~= specs);
    Ok(
        ResolvedConfig {
            mode,
            sign: raw.sign,
            name: copy_name(&raw.name),
            smart_pull: raw.smart_pull,
            repo: out,
        },
    )
}

/// Expands the loaded configuration; `None` stands for a directory that
/// holds no configuration file.
pub fn read_cfg(source: Option<&RawConfig>) -> (r: Result<ResolvedConfig, MlcError>)
    ensures
        source is None ==> r == Err::<ResolvedConfig, MlcError>(MlcError::ConfigNotFound),
        source matches Some(raw) ==> match r {
            Ok(c) => {
                &&& expand_model(raw.mode@, texts(raw.urls@), texts(raw.repo@)) == Ok::<
                    (Mode, Seq<RepoModel>),
                    MlcError,
                >((c.mode, repo_models(c.repo@)))
                &&& c.sign == raw.sign
                &&& c.smart_pull == raw.smart_pull
                &&& opt_text(c.name) == opt_text(raw.name)
            },
            Err(e) => expand_model(raw.mode@, texts(raw.urls@), texts(raw.repo@)) == Err::<
                (Mode, Seq<RepoModel>),
                MlcError,
            >(e),
        },
{
    match source {
        None => Err(MlcError::ConfigNotFound),
        Some(raw) => expand(raw),
    }
}

proof fn lemma_filter_split(s: Seq<char>)
    ensures
        strip_bangs(s).len() + count_bangs(s) == s.len(),
    decreases s.len(),
{
    reveal(Seq::filter);
    if s.len() > 0 {
        lemma_filter_split(s.drop_last());
    }
}

/// For a valid specification, the resolved name is the written name with
/// every `!` taken out, and the priority is the number of `!` taken out,
/// wherever they stood.
pub proof fn lemma_markers(urls: Seq<Seq<char>>, s: Seq<char>)
    requires
        parse_model(s) is Some,
        1 <= written_index(s) <= urls.len(),
        valid_name(strip_bangs(written_name(s))),
    ensures
        expand_spec(urls, s) is Ok,
        expand_spec(urls, s)->Ok_0.name == strip_bangs(written_name(s)),
        expand_spec(urls, s)->Ok_0.priority == count_bangs(written_name(s)),
        !expand_spec(urls, s)->Ok_0.name.contains('!'),
        expand_spec(urls, s)->Ok_0.name.len() + expand_spec(urls, s)->Ok_0.priority
            == written_name(s).len(),
{
    let n = written_name(s);
    broadcast use vstd::seq_lib::group_filter_ensures;

    assert forall|i: int| 0 <= i < strip_bangs(n).len() implies strip_bangs(n)[i] != '!' by {
        assert(!crate::text::is_bang(strip_bangs(n)[i]));
    }
    lemma_filter_split(n);
}

/// An index that addresses no URL template fails the expansion with
/// `IndexOutOfRange`, once the mode and the specifications before it are valid.
pub proof fn lemma_index_out_of_range(
    mode: Seq<char>,
    urls: Seq<Seq<char>>,
    specs: Seq<Seq<char>>,
    k: int,
)
    requires
        mode_of(mode) is Some,
        0 <= k < specs.len(),
        parse_model(specs[k]) is Some,
        written_index(specs[k]) < 1 || written_index(specs[k]) > urls.len(),
        forall|j: int| 0 <= j < k ==> expand_spec(urls, #[trigger] specs[j]) is Ok,
    ensures
        expand_model(mode, urls, specs) == Err::<(Mode, Seq<RepoModel>), MlcError>(
            MlcError::IndexOutOfRange,
        ),
{
    lemma_prefix_ok(urls, specs, k);
    assert(specs.take(k + 1).drop_last() =~= specs.take(k));
    assert(specs.take(k + 1).last() == specs[k]);
    lemma_expand_all_err(urls, specs, k + 1, MlcError::IndexOutOfRange);
}

proof fn lemma_prefix_ok(urls: Seq<Seq<char>>, specs: Seq<Seq<char>>, k: int)
    requires
        0 <= k <= specs.len(),
        forall|j: int| 0 <= j < k ==> expand_spec(urls, #[trigger] specs[j]) is Ok,
    ensures
        expand_all(urls, specs.take(k)) is Ok,
    decreases k,
{
    if k > 0 {
        lemma_prefix_ok(urls, specs, k - 1);
        assert(specs.take(k).drop_last() =~= specs.take(k - 1));
        assert(specs.take(k).last() == specs[k - 1]);
    }
}

/// An unknown mode fails the expansion with `InvalidMode`, whatever the
/// specifications hold: none of them is looked at.
pub proof fn lemma_invalid_mode(mode: Seq<char>, urls: Seq<Seq<char>>, specs: Seq<Seq<char>>)
    requires
        mode_of(mode) is None,
    ensures
        expand_model(mode, urls, specs) == Err::<(Mode, Seq<RepoModel>), MlcError>(
            MlcError::InvalidMode,
        ),
{
}

/// A successful expansion yields one repository per specification, in the
/// order of the specifications.
pub proof fn lemma_order_preserved(urls: Seq<Seq<char>>, specs: Seq<Seq<char>>)
    requires
        expand_all(urls, specs) is Ok,
    ensures
        expand_all(urls, specs)->Ok_0.len() == specs.len(),
        forall|i: int|
            0 <= i < specs.len() ==> expand_spec(urls, #[trigger] specs[i]) == Ok::<
                RepoModel,
                MlcError,
            >(expand_all(urls, specs)->Ok_0[i]),
    decreases specs.len(),
{
    if specs.len() > 0 {
        let prev = specs.drop_last();
        lemma_order_preserved(urls, prev);
        assert forall|i: int| 0 <= i < specs.len() implies expand_spec(urls, #[trigger] specs[i])
            == Ok::<RepoModel, MlcError>(expand_all(urls, specs)->Ok_0[i]) by {
            if i < specs.len() - 1 {
                assert(specs[i] == prev[i]);
            }
        }
    }
}

} // verus!
