//! Watch groups: which workflows a change of files sets off.

use crate::config::{Config, WatchGroup};
use crate::name_map::{ascending, lemma_precedes_irreflexive, precedes, NameMap, NameSet};
use crate::paths::{
    absolute, begins_with_dot, below, components, join, law_joined_paths_stand_below_their_base,
    normalize_path, normalized, path_join, same_path, strip_prefix,
};
use crate::text::{chars_of, same_text, texts};
use globset::{Glob, GlobSet, GlobSetBuilder};
use vstd::prelude::*;

verus! {

/// `globset::GlobSetBuilder`.
#[verifier::external_type_specification]
#[verifier::external_body]
pub struct ExGlobSetBuilder(globset::GlobSetBuilder);

/// `globset::GlobSet`.
#[verifier::external_type_specification]
#[verifier::external_body]
pub struct ExGlobSet(globset::GlobSet);

/// `globset::Error`.
#[verifier::external_type_specification]
#[verifier::external_body]
pub struct ExGlobError(globset::Error);

/// The patterns that have been added to a builder, in order.
pub uninterp spec fn builder_globs(builder: globset::GlobSetBuilder) -> Seq<Seq<char>>;

/// The patterns of a set, in order.
pub uninterp spec fn set_globs(set: globset::GlobSet) -> Seq<Seq<char>>;

/// Whether `globset::Glob::new` takes the pattern.
pub uninterp spec fn glob_is_valid(pattern: Seq<char>) -> bool;

/// Whether `globset::GlobSetBuilder::build` makes a set of the patterns.
pub uninterp spec fn globs_build(patterns: Seq<Seq<char>>) -> bool;

/// Whether a glob matches a path, as `globset` has it.
pub uninterp spec fn glob_matches(pattern: Seq<char>, path: Seq<char>) -> bool;

/// `globset::GlobSetBuilder::new`: a builder with no patterns.
#[verifier::external_body]
fn new_builder() -> (builder: GlobSetBuilder)
    ensures
        builder_globs(builder) == Seq::<Seq<char>>::empty(),
{
    GlobSetBuilder::new()
}

/// `globset::Glob::new` and `globset::GlobSetBuilder::add`: a valid pattern is added behind the
/// others, any other is refused and the builder stays as it was.
#[verifier::external_body]
fn add_glob(builder: &mut GlobSetBuilder, pattern: &str) -> (result: Result<(), globset::Error>)
    ensures
        result is Ok <==> glob_is_valid(pattern@),
        result is Ok ==> builder_globs(*final(builder)) == builder_globs(*old(builder)).push(pattern@),
        result is Err ==> builder_globs(*final(builder)) == builder_globs(*old(builder)),
{
    builder.add(Glob::new(pattern)?);
    Ok(())
}

/// `globset::GlobSetBuilder::build`: a set with the patterns of the builder, where they make one.
#[verifier::external_body]
fn build_set(builder: &GlobSetBuilder) -> (result: Result<GlobSet, globset::Error>)
    ensures
        match result {
            Ok(set) => globs_build(builder_globs(*builder)) && set_globs(set) == builder_globs(*builder),
            Err(_) => !globs_build(builder_globs(*builder)),
        },
{
    builder.build()
}

/// `globset::GlobSet::is_match`: whether any glob of the set matches the path.
#[verifier::external_body]
fn set_matches(set: &GlobSet, path: &str) -> (result: bool)
    ensures
        result == (exists|i: int|
            0 <= i < set_globs(*set).len() && glob_matches(#[trigger] set_globs(*set)[i], path@)),
{
    set.is_match(path)
}

/// Whether any of the globs matches a path.
pub open spec fn any_glob_matches(globs: Seq<Seq<char>>, path: Seq<char>) -> bool {
    exists|i: int| 0 <= i < globs.len() && glob_matches(#[trigger] globs[i], path)
}

/// Whether a character has a meaning of its own in a glob.
pub open spec fn is_glob_sign(c: char) -> bool {
    c == '*' || c == '?' || c == '[' || c == ']' || c == '{' || c == '}' || c == '\\'
}

/// Whether a watched path names a directory: it is literal and ends with a separator.
pub open spec fn names_directory(pattern: Seq<char>) -> bool {
    pattern.len() > 0 && pattern.last() == '/' && forall|i: int|
        0 <= i < pattern.len() ==> !is_glob_sign(#[trigger] pattern[i])
}

/// The glob of a watched path. A literal path that ends with a separator stands for everything
/// below that directory.
pub open spec fn watch_glob(pattern: Seq<char>) -> Seq<char> {
    if names_directory(pattern) {
        pattern + "**"@
    } else {
        pattern
    }
}

/// The glob of a watched path.
fn glob_of(pattern: &str) -> (glob: String)
    ensures
        glob@ == watch_glob(pattern@),
{
    let chars = chars_of(pattern);
    if chars.len() == 0 || chars[chars.len() - 1] != '/' {
        return pattern.to_owned();
    }
    let mut i: usize = 0;
    while i < chars.len()
        invariant
            i <= chars@.len(),
            chars@ == pattern@,
            forall|k: int| 0 <= k < i ==> !is_glob_sign(#[trigger] chars@[k]),
        decreases chars@.len() - i,
    {
        let c = chars[i];
        if c == '*' || c == '?' || c == '[' || c == ']' || c == '{' || c == '}' || c == '\\' {
            assert(is_glob_sign(pattern@[i as int]));
            return pattern.to_owned();
        }
        i = i + 1;
    }
    pattern.to_owned().concat("**")
}

/// The globs of watched paths.
pub open spec fn watch_globs(paths: Seq<String>) -> Seq<Seq<char>> {
    Seq::new(paths.len(), |i: int| watch_glob(paths[i]@))
}

/// Why a watch group cannot be compiled.
#[derive(Debug, Clone, PartialEq, Eq)]
pub enum WatchError {
    /// A path is not a valid glob.
    InvalidGlob { pattern: String, group: String },
    /// The globs do not make a set together.
    InvalidSet,
}

impl WatchError {
    /// The text of the error.
    pub fn message(&self) -> (text: String)
        ensures
            text@ == match *self {
                WatchError::InvalidGlob { pattern, group } => "invalid glob '"@ + pattern@
                    + "' in watch group '"@ + group@ + "'"@,
                WatchError::InvalidSet => "watch patterns cannot be compiled"@,
            },
    {
        match self {
            WatchError::InvalidGlob { pattern, group } => "invalid glob '".to_owned().concat(
                pattern.as_str(),
            ).concat("' in watch group '").concat(group.as_str()).concat("'"),
            WatchError::InvalidSet => "watch patterns cannot be compiled".to_owned(),
        }
    }
}

/// A watch group whose globs are ready to match.
#[derive(Debug)]
pub struct CompiledWatchGroup {
    pub workflow: String,
    matchers: GlobSet,
}

impl CompiledWatchGroup {
    /// The workflow of the group.
    pub closed spec fn target(&self) -> Seq<char> {
        self.workflow@
    }

    /// The globs of the group.
    pub closed spec fn globs(&self) -> Seq<Seq<char>> {
        set_globs(self.matchers)
    }

    /// Whether the group has a glob that matches a path.
    pub open spec fn covers(&self, relative_path: Seq<char>) -> bool {
        any_glob_matches(self.globs(), relative_path)
    }

    /// Whether the group has a glob that matches a path.
    pub fn matches(&self, relative_path: &str) -> (result: bool)
        ensures
            result == self.covers(relative_path@),
    {
        set_matches(&self.matchers, relative_path)
    }
}

/// The workflow of a watch group: its own, or the one of its name.
pub open spec fn group_workflow(group: WatchGroup, name: Seq<char>) -> Seq<char> {
    match group.workflow {
        Some(workflow) => workflow@,
        None => name,
    }
}

/// What compiling a watch group yields.
pub open spec fn is_compiled(
    group: WatchGroup,
    name: Seq<char>,
    result: Result<CompiledWatchGroup, WatchError>,
) -> bool {
    let globs = watch_globs(group.paths@);
    match result {
        Ok(compiled) => {
            &&& forall|i: int| 0 <= i < globs.len() ==> glob_is_valid(#[trigger] globs[i])
            &&& globs_build(globs)
            &&& compiled.target() == group_workflow(group, name)
            &&& compiled.globs() == globs
        },
        Err(WatchError::InvalidGlob { pattern, group: label }) => {
            &&& label@ == name
            &&& exists|i: int|
                0 <= i < globs.len() && !glob_is_valid(#[trigger] globs[i]) && pattern@
                    == group.paths@[i]@ && forall|k: int|
                    0 <= k < i ==> glob_is_valid(#[trigger] globs[k])
        },
        Err(WatchError::InvalidSet) => {
            &&& forall|i: int| 0 <= i < globs.len() ==> glob_is_valid(#[trigger] globs[i])
            &&& !globs_build(globs)
        },
    }
}

impl WatchGroup {
    /// The workflow of the group: its own, or `fallback`.
    pub fn workflow_name<'a>(&'a self, fallback: &'a str) -> (name: Option<&'a str>)
        ensures
            name matches Some(text) && text@ == group_workflow(*self, fallback@),
    {
        match &self.workflow {
            Some(workflow) => Some(workflow.as_str()),
            None => Some(fallback),
        }
    }

    /// The group with its globs ready to match. The first path that is not a valid glob refuses
    /// the group.
    pub fn compile(&self, name: &str) -> (result: Result<CompiledWatchGroup, WatchError>)
        ensures
            is_compiled(*self, name@, result),
    {
        let mut builder = new_builder();
        let ghost globs = watch_globs(self.paths@);
        let mut i: usize = 0;
        assert(globs.take(0) =~= Seq::empty());
        while i < self.paths.len()
            invariant
                i <= self.paths@.len(),
                globs == watch_globs(self.paths@),
                builder_globs(builder) == globs.take(i as int),
                forall|k: int| 0 <= k < i ==> glob_is_valid(#[trigger] globs[k]),
            decreases self.paths@.len() - i,
        {
            let glob = glob_of(self.paths[i].as_str());
            assert(globs[i as int] == glob@);
            assert(globs.take(i + 1) =~= globs.take(i as int).push(glob@));
            if add_glob(&mut builder, glob.as_str()).is_err() {
                return Err(
                    WatchError::InvalidGlob {
                        pattern: self.paths[i].clone(),
                        group: name.to_owned(),
                    },
                );
            }
            i = i + 1;
        }
        assert(globs.take(i as int) =~= globs);
        match build_set(&builder) {
            Ok(matchers) => {
                let workflow = match &self.workflow {
                    Some(workflow) => workflow.clone(),
                    None => name.to_owned(),
                };
                Ok(CompiledWatchGroup { workflow, matchers })
            },
            Err(_) => Err(WatchError::InvalidSet),
        }
    }
}

impl Config {
    /// The watch groups with their globs ready to match, in the order of their names. The first
    /// group that is refused refuses them all.
    pub fn compiled_watchers(&self) -> (result: Result<Vec<CompiledWatchGroup>, WatchError>)
        ensures
            match result {
                Ok(groups) => groups@.len() == self.watch.keys().len() && forall|i: int|
                    0 <= i < groups@.len() ==> is_compiled(
                        self.watch.values()[i],
                        self.watch.keys()[i],
                        Ok(#[trigger] groups@[i]),
                    ),
                Err(error) => exists|i: int|
                    0 <= i < self.watch.keys().len() && #[trigger] is_compiled(
                        self.watch.values()[i],
                        self.watch.keys()[i],
                        Err(error),
                    ) && forall|k: int|
                        0 <= k < i ==> compiles(self.watch.values()[k], #[trigger] self.watch.keys()[k]),
            },
    {
        let mut groups: Vec<CompiledWatchGroup> = Vec::new();
        let n: usize = self.watch.len();
        let mut i: usize = 0;
        while i < n
            invariant
                i <= n == self.watch.keys().len(),
                groups@.len() == i,
                forall|k: int|
                    0 <= k < i ==> is_compiled(
                        self.watch.values()[k],
                        self.watch.keys()[k],
                        Ok(#[trigger] groups@[k]),
                    ),
                forall|k: int|
                    0 <= k < i ==> compiles(self.watch.values()[k], #[trigger] self.watch.keys()[k]),
            decreases n - i,
        {
            match self.watch.value_at(i).compile(self.watch.key_at(i).as_str()) {
                Ok(group) => {
                    assert(compiles(self.watch.values()[i as int], self.watch.keys()[i as int]));
                    groups.push(group);
                },
                Err(error) => {
                    assert(is_compiled(
                        self.watch.values()[i as int],
                        self.watch.keys()[i as int],
                        Err(error),
                    ));
                    return Err(error);
                },
            }
            i = i + 1;
        }
        Ok(groups)
    }
}

/// Whether a watch group compiles.
pub open spec fn compiles(group: WatchGroup, name: Seq<char>) -> bool {
    exists|compiled: CompiledWatchGroup| #[trigger] is_compiled(group, name, Ok(compiled))
}

/// What kind of change a file event reports.
#[derive(Debug, Clone, Copy, PartialEq, Eq, Structural)]
pub enum FileEventKind {
    Any,
    Access,
    Create,
    Modify,
    Remove,
    Other,
}

/// A change of files.
#[derive(Debug, Clone)]
pub struct FileEvent {
    pub kind: FileEventKind,
    pub paths: Vec<String>,
}

/// Whether an event changes what a file holds or whether it is there.
pub open spec fn is_relevant(kind: FileEventKind) -> bool {
    kind == FileEventKind::Create || kind == FileEventKind::Modify || kind == FileEventKind::Remove
        || kind == FileEventKind::Any
}

/// Whether an event changes what a file holds or whether it is there.
pub fn is_relevant_event(kind: FileEventKind) -> (result: bool)
    ensures
        result == is_relevant(kind),
{
    match kind {
        FileEventKind::Create | FileEventKind::Modify | FileEventKind::Remove | FileEventKind::Any => true,
        FileEventKind::Access | FileEventKind::Other => false,
    }
}

/// The other name of an absolute root: below `/private`.
pub open spec fn private_root(root: Seq<char>) -> Seq<char> {
    path_join("/private"@, below(root, "/"@)->0)
}

/// A path of an event seen from the root, under the root's own name or under `/private`.
pub open spec fn relative_to(root: Seq<char>, path: Seq<char>) -> Option<Seq<char>> {
    if below(path, root) is Some {
        below(path, root)
    } else if below(root, "/"@) is Some {
        below(path, private_root(root))
    } else {
        None
    }
}

/// A path of an event seen from the root.
pub fn relativize_event_path(root: &str, path: &str) -> (relative: Option<String>)
    ensures
        match relative {
            Some(text) => relative_to(root@, path@) == Some(text@),
            None => relative_to(root@, path@) is None,
        },
{
    match strip_prefix(path, root) {
        Some(relative) => Some(relative),
        None => strip_private_prefix_variant(root, path),
    }
}

/// A path of an event seen from the root's other name below `/private`.
fn strip_private_prefix_variant(root: &str, path: &str) -> (relative: Option<String>)
    ensures
        match relative {
            Some(text) => below(root@, "/"@) is Some && below(path@, private_root(root@)) == Some(text@),
            None => below(root@, "/"@) is Some ==> below(path@, private_root(root@)) is None,
        },
{
    match strip_prefix(root, "/") {
        Some(rest) => {
            let other = join("/private", rest.as_str());
            strip_prefix(path, other.as_str())
        },
        None => None,
    }
}

/// Whether a path of an event is to be passed over.
pub open spec fn is_ignored(ignored: Option<String>, path: Seq<char>) -> bool {
    ignored matches Some(other) && components(other@) == components(path)
}

/// The paths seen from the root, in order, without those that lie elsewhere and those that are
/// to be passed over.
pub open spec fn path_relatives(root: Seq<char>, paths: Seq<String>, ignored: Option<String>) -> Seq<
    Seq<char>,
>
    decreases paths.len(),
{
    if paths.len() == 0 {
        Seq::empty()
    } else {
        let before = path_relatives(root, paths.drop_last(), ignored);
        let path = paths.last()@;
        if !is_ignored(ignored, path) && relative_to(root, path) is Some {
            before.push(relative_to(root, path)->0)
        } else {
            before
        }
    }
}

/// The paths of the relevant events seen from the root, in order.
pub open spec fn relatives(root: Seq<char>, events: Seq<FileEvent>, ignored: Option<String>) -> Seq<
    Seq<char>,
>
    decreases events.len(),
{
    if events.len() == 0 {
        Seq::empty()
    } else {
        let before = relatives(root, events.drop_last(), ignored);
        if is_relevant(events.last().kind) {
            before + path_relatives(root, events.last().paths@, ignored)
        } else {
            before
        }
    }
}

/// Whether a group of `workflow` covers a path.
pub open spec fn is_covered(
    groups: Seq<CompiledWatchGroup>,
    workflow: Seq<char>,
    relative: Seq<char>,
) -> bool {
    exists|g: int|
        0 <= g < groups.len() && (#[trigger] groups[g]).target() == workflow && groups[g].covers(relative)
}

/// Whether one of the paths sets off `workflow` with `file`.
pub open spec fn sets_off(
    groups: Seq<CompiledWatchGroup>,
    paths: Seq<Seq<char>>,
    workflow: Seq<char>,
    file: Seq<char>,
) -> bool {
    exists|i: int|
        0 <= i < paths.len() && is_covered(groups, workflow, #[trigger] paths[i]) && normalized(paths[i])
            == file
}

/// Whether one of the paths sets off `workflow`.
pub open spec fn is_set_off(
    groups: Seq<CompiledWatchGroup>,
    paths: Seq<Seq<char>>,
    workflow: Seq<char>,
) -> bool {
    exists|file: Seq<char>| #[trigger] sets_off(groups, paths, workflow, file)
}

/// Whether `grouped` holds the workflows that the paths set off, each with the files that did,
/// in order.
pub open spec fn is_grouped(
    groups: Seq<CompiledWatchGroup>,
    paths: Seq<Seq<char>>,
    grouped: NameMap<Vec<String>>,
) -> bool {
    &&& forall|workflow: Seq<char>| #[trigger]
        grouped@.contains_key(workflow) <==> is_set_off(groups, paths, workflow)
    &&& forall|workflow: Seq<char>| #[trigger]
        grouped@.contains_key(workflow) ==> ascending(texts(grouped@[workflow]@))
    &&& forall|workflow: Seq<char>, file: Seq<char>|
        grouped@.contains_key(workflow) ==> (#[trigger] texts(grouped@[workflow]@).contains(file)
            <==> sets_off(groups, paths, workflow, file))
}

fn push_relatives(root: &str, paths: &Vec<String>, ignored: &Option<String>, found: &mut Vec<String>)
    ensures
        texts(final(found)@) == texts(old(found)@) + path_relatives(root@, paths@, *ignored),
{
    let ghost before = texts(found@);
    let mut p: usize = 0;
    assert(before + path_relatives(root@, paths@.take(0), *ignored) =~= before);
    while p < paths.len()
        invariant
            p <= paths@.len(),
            texts(found@) == before + path_relatives(root@, paths@.take(p as int), *ignored),
        decreases paths@.len() - p,
    {
        let path = &paths[p];
        proof {
            let part = paths@.take(p + 1);
            assert(part.drop_last() =~= paths@.take(p as int));
            assert(part.last() == *path);
        }
        let passed_over = match ignored {
            Some(other) => same_path(other.as_str(), path.as_str()),
            None => false,
        };
        if !passed_over {
            if let Some(relative) = relativize_event_path(root, path.as_str()) {
                let ghost earlier = texts(found@);
                found.push(relative);
                assert(texts(found@) =~= earlier.push(relative@));
                assert(texts(found@) =~= before + path_relatives(root@, paths@.take(p + 1), *ignored));
            }
        }
        p = p + 1;
    }
    assert(paths@.take(p as int) =~= paths@);
}

/// The paths of the relevant events seen from the root, in order, without those of `ignored`.
pub fn relative_paths(root: &str, events: &Vec<FileEvent>, ignored: &Option<String>) -> (paths: Vec<String>)
    ensures
        texts(paths@) == relatives(root@, events@, *ignored),
{
    let mut paths: Vec<String> = Vec::new();
    let mut e: usize = 0;
    assert(texts(paths@) =~= relatives(root@, events@.take(0), *ignored));
    while e < events.len()
        invariant
            e <= events@.len(),
            texts(paths@) == relatives(root@, events@.take(e as int), *ignored),
        decreases events@.len() - e,
    {
        proof {
            let part = events@.take(e + 1);
            assert(part.drop_last() =~= events@.take(e as int));
            assert(part.last() == events@[e as int]);
        }
        if is_relevant_event(events[e].kind) {
            push_relatives(root, &events[e].paths, ignored, &mut paths);
        }
        e = e + 1;
    }
    assert(events@.take(e as int) =~= events@);
    paths
}

fn covered(groups: &Vec<CompiledWatchGroup>, workflow: &str, relative: &str) -> (result: bool)
    ensures
        result == is_covered(groups@, workflow@, relative@),
{
    let mut g: usize = 0;
    while g < groups.len()
        invariant
            g <= groups@.len(),
            forall|k: int|
                0 <= k < g ==> !((#[trigger] groups@[k]).target() == workflow@ && groups@[k].covers(
                    relative@,
                )),
        decreases groups@.len() - g,
    {
        if same_text(groups[g].workflow.as_str(), workflow) && groups[g].matches(relative) {
            assert(groups@[g as int].target() == workflow@);
            return true;
        }
        g = g + 1;
    }
    false
}

/// The files with which the paths set off a workflow.
fn files_of(groups: &Vec<CompiledWatchGroup>, paths: &Vec<String>, workflow: &str) -> (files: NameSet)
    ensures
        forall|file: Seq<char>| #[trigger]
            files@.contains(file) <==> sets_off(groups@, texts(paths@), workflow@, file),
{
    let mut files = NameSet::new();
    let ghost all = texts(paths@);
    let mut i: usize = 0;
    while i < paths.len()
        invariant
            i <= paths@.len(),
            all == texts(paths@),
            forall|file: Seq<char>| #[trigger]
                files@.contains(file) <==> exists|k: int|
                    0 <= k < i && is_covered(groups@, workflow@, #[trigger] all[k]) && normalized(all[k])
                        == file,
        decreases paths@.len() - i,
    {
        assert(all[i as int] == paths@[i as int]@);
        let ghost before = files@;
        if covered(groups, workflow, paths[i].as_str()) {
            let file = normalize_path(paths[i].as_str());
            files.insert(file);
            assert(files@ == before.insert(normalized(all[i as int])));
        }
        assert forall|file: Seq<char>| #[trigger] files@.contains(file) <==> exists|k: int|
            0 <= k < i + 1 && is_covered(groups@, workflow@, #[trigger] all[k]) && normalized(all[k])
                == file by {
            if before.contains(file) {
                let k = choose|k: int|
                    0 <= k < i && is_covered(groups@, workflow@, #[trigger] all[k]) && normalized(all[k])
                        == file;
                assert(is_covered(groups@, workflow@, all[k]));
            } else if exists|k: int|
                0 <= k < i + 1 && is_covered(groups@, workflow@, #[trigger] all[k]) && normalized(all[k])
                    == file {
                let k = choose|k: int|
                    0 <= k < i + 1 && is_covered(groups@, workflow@, #[trigger] all[k]) && normalized(
                        all[k],
                    ) == file;
                assert(k == i);
            }
        }
        i = i + 1;
    }
    files
}

/// The names of a set, in order.
fn listed(set: &NameSet) -> (names: Vec<String>)
    ensures
        texts(names@) == set.keys(),
        set.wf(),
{
    let mut names: Vec<String> = Vec::new();
    let n: usize = set.len();
    let mut i: usize = 0;
    while i < n
        invariant
            i <= n == set.keys().len(),
            names@.len() == i,
            forall|k: int| 0 <= k < i ==> (#[trigger] names@[k])@ == set.keys()[k],
        decreases n - i,
    {
        names.push(set.name_at(i).clone());
        i = i + 1;
    }
    assert(texts(names@) =~= set.keys());
    names
}

/// The workflows that the paths set off, each with the files that did, in order.
pub fn group_by_workflow(groups: &Vec<CompiledWatchGroup>, paths: &Vec<String>) -> (grouped: NameMap<
    Vec<String>,
>)
    ensures
        is_grouped(groups@, texts(paths@), grouped),
{
    let ghost all = texts(paths@);
    let mut grouped: NameMap<Vec<String>> = NameMap::new();
    let mut g: usize = 0;
    while g < groups.len()
        invariant
            g <= groups@.len(),
            all == texts(paths@),
            forall|workflow: Seq<char>| #[trigger]
                grouped@.contains_key(workflow) ==> is_set_off(groups@, all, workflow) && ascending(
                    texts(grouped@[workflow]@),
                ),
            forall|workflow: Seq<char>, file: Seq<char>|
                grouped@.contains_key(workflow) ==> (#[trigger] texts(grouped@[workflow]@).contains(
                    file,
                ) <==> sets_off(groups@, all, workflow, file)),
            forall|k: int|
                0 <= k < g && is_set_off(groups@, all, (#[trigger] groups@[k]).target())
                    ==> grouped@.contains_key(groups@[k].target()),
        decreases groups@.len() - g,
    {
        let workflow = &groups[g].workflow;
        let ghost before = grouped@;
        let files = files_of(groups, paths, workflow.as_str());
        let names = listed(&files);
        if names.len() > 0 {
            grouped.insert(workflow.clone(), names);
            proof {
                assert(texts(names@).len() == names@.len());
                assert(files.keys().contains(files.keys()[0]));
                assert(files@.contains(files.keys()[0]));
                assert(sets_off(groups@, all, workflow@, files.keys()[0]));
                assert forall|w: Seq<char>, file: Seq<char>|
                    grouped@.contains_key(w) implies (#[trigger] texts(grouped@[w]@).contains(file)
                    <==> sets_off(groups@, all, w, file)) by {
                    if w == workflow@ {
                        assert(files@.contains(file) <==> files.keys().contains(file));
                    } else {
                        assert(before.contains_key(w));
                        assert(texts(before[w]@).contains(file) <==> sets_off(groups@, all, w, file));
                    }
                }
            }
        } else {
            assert forall|file: Seq<char>| !sets_off(groups@, all, workflow@, file) by {
                assert(texts(names@).len() == 0);
                assert(files@.contains(file) <==> files.keys().contains(file));
            }
        }
        g = g + 1;
    }
    proof {
        assert forall|w: Seq<char>| #[trigger] grouped@.contains_key(w) <==> is_set_off(
            groups@,
            all,
            w,
        ) by {
            if is_set_off(groups@, all, w) {
                let file = choose|file: Seq<char>| #[trigger] sets_off(groups@, all, w, file);
                let i = choose|i: int|
                    0 <= i < all.len() && is_covered(groups@, w, #[trigger] all[i]) && normalized(all[i])
                        == file;
                let k = choose|k: int|
                    0 <= k < groups@.len() && (#[trigger] groups@[k]).target() == w && groups@[k].covers(
                        all[i],
                    );
                assert(is_set_off(groups@, all, groups@[k].target()));
            }
        }
    }
    grouped
}

/// The workflows that the events set off, each with the files that did, in order.
pub fn classify_events(root: &str, watch_groups: &Vec<CompiledWatchGroup>, events: &Vec<FileEvent>) -> (grouped:
    NameMap<Vec<String>>)
    ensures
        is_grouped(watch_groups@, relatives(root@, events@, None), grouped),
{
    group_by_workflow(watch_groups, &relative_paths(root, events, &None))
}

/// How long to wait before looking for more changes, in milliseconds.
pub const BATCH_POLL_MS: u64 = 25;

/// What comes of looking for changes of files.
#[derive(Debug)]
pub enum BatchInput {
    /// Files have changed.
    Event { event: FileEvent },
    /// Watching has failed.
    Failed { error: String },
    /// Nothing has changed.
    Empty,
    /// Nothing can come any more.
    Disconnected,
    /// Some time has been waited.
    Waited,
}

/// What to do next to complete a batch of changes.
#[derive(Debug)]
pub enum BatchStep {
    /// Wait until something comes.
    Receive,
    /// Look whether something has come.
    Poll,
    /// Wait for this time.
    Wait { ms: u64 },
    /// The batch is complete.
    Done { events: Vec<FileEvent> },
    /// The changes cannot be followed any more.
    Fail { error: String },
}

/// What comes with an input.
pub open spec fn brought(input: BatchInput) -> Seq<FileEvent> {
    match input {
        BatchInput::Event { event } => seq![event],
        _ => Seq::empty(),
    }
}

/// Whether a batch is complete: something has come, and then nothing more can or the time is up.
pub open spec fn is_complete(
    waiting: Seq<FileEvent>,
    debounce_ms: u64,
    input: BatchInput,
    elapsed_ms: u64,
) -> bool {
    match input {
        BatchInput::Event { .. } => elapsed_ms >= debounce_ms,
        BatchInput::Disconnected => waiting.len() > 0,
        BatchInput::Waited => waiting.len() > 0 && elapsed_ms >= debounce_ms,
        _ => false,
    }
}

/// What is left waiting after an input.
pub open spec fn waiting_after(
    waiting: Seq<FileEvent>,
    debounce_ms: u64,
    input: BatchInput,
    elapsed_ms: u64,
) -> Seq<FileEvent> {
    if is_complete(waiting, debounce_ms, input, elapsed_ms) {
        Seq::empty()
    } else {
        waiting + brought(input)
    }
}

/// Whether a step is the one to take after an input.
pub open spec fn is_batch_step(
    waiting: Seq<FileEvent>,
    debounce_ms: u64,
    input: BatchInput,
    elapsed_ms: u64,
    step: BatchStep,
) -> bool {
    if is_complete(waiting, debounce_ms, input, elapsed_ms) {
        step matches BatchStep::Done { events } && events@ == waiting + brought(input)
    } else {
        match input {
            BatchInput::Failed { error } => step matches BatchStep::Fail { error: e } && e@ == error@,
            BatchInput::Disconnected => step matches BatchStep::Fail { error } && error@
                == "watcher event channel disconnected"@,
            BatchInput::Event { .. } => step is Poll,
            BatchInput::Empty => if waiting.len() == 0 {
                step is Receive
            } else {
                step == (BatchStep::Wait { ms: BATCH_POLL_MS })
            },
            BatchInput::Waited => if waiting.len() == 0 {
                step is Receive
            } else {
                step is Poll
            },
        }
    }
}

/// The changes of files that come within a short time, and are taken in together.
#[derive(Debug)]
pub struct EventBatch {
    debounce_ms: u64,
    events: Vec<FileEvent>,
}

impl EventBatch {
    /// The changes that are waiting.
    pub closed spec fn waiting(&self) -> Seq<FileEvent> {
        self.events@
    }

    /// For how long changes are gathered after the first.
    pub closed spec fn window(&self) -> u64 {
        self.debounce_ms
    }

    /// Nothing is waiting.
    pub fn new(debounce_ms: u64) -> (batch: Self)
        ensures
            batch.waiting() == Seq::<FileEvent>::empty(),
            batch.window() == debounce_ms,
    {
        EventBatch { debounce_ms, events: Vec::new() }
    }

    /// Whether nothing is waiting.
    pub fn is_empty(&self) -> (empty: bool)
        ensures
            empty == (self.waiting().len() == 0),
    {
        self.events.len() == 0
    }

    /// Takes in what came of looking for changes, `elapsed_ms` after the first of them.
    pub fn take(&mut self, input: BatchInput, elapsed_ms: u64) -> (step: BatchStep)
        ensures
            final(self).window() == old(self).window(),
            final(self).waiting() == waiting_after(
                old(self).waiting(),
                old(self).window(),
                input,
                elapsed_ms,
            ),
            is_batch_step(old(self).waiting(), old(self).window(), input, elapsed_ms, step),
    {
        let ghost before = self.events@;
        assert(before + Seq::empty() =~= before);
        match input {
            BatchInput::Event { event } => {
                self.events.push(event);
                assert(before + brought(input) =~= self.events@);
                if elapsed_ms < self.debounce_ms {
                    BatchStep::Poll
                } else {
                    self.complete()
                }
            },
            BatchInput::Failed { error } => BatchStep::Fail { error },
            BatchInput::Empty => if self.events.len() == 0 {
                BatchStep::Receive
            } else {
                BatchStep::Wait { ms: BATCH_POLL_MS }
            },
            BatchInput::Disconnected => if self.events.len() == 0 {
                BatchStep::Fail { error: "watcher event channel disconnected".to_owned() }
            } else {
                self.complete()
            },
            BatchInput::Waited => if self.events.len() == 0 {
                BatchStep::Receive
            } else if elapsed_ms < self.debounce_ms {
                BatchStep::Poll
            } else {
                self.complete()
            },
        }
    }

    /// Hands out what is waiting.
    fn complete(&mut self) -> (step: BatchStep)
        ensures
            final(self).window() == old(self).window(),
            final(self).waiting() == Seq::<FileEvent>::empty(),
            step matches BatchStep::Done { events } && events@ == old(self).waiting(),
    {
        let mut events: Vec<FileEvent> = Vec::new();
        std::mem::swap(&mut self.events, &mut events);
        BatchStep::Done { events }
    }
}

/// No change is lost and none comes twice: what was waiting and what came is handed out or left
/// waiting, in its order.
pub proof fn law_batches_keep_every_change(
    waiting: Seq<FileEvent>,
    debounce_ms: u64,
    input: BatchInput,
    elapsed_ms: u64,
    step: BatchStep,
)
    requires
        is_batch_step(waiting, debounce_ms, input, elapsed_ms, step),
    ensures
        ({
            let handed = match step {
                BatchStep::Done { events } => events@,
                _ => Seq::empty(),
            };
            handed + waiting_after(waiting, debounce_ms, input, elapsed_ms) == waiting + brought(input)
        }),
{
    let all = waiting + brought(input);
    assert(all + Seq::<FileEvent>::empty() =~= all);
    assert(Seq::<FileEvent>::empty() + all =~= all);
}

/// A batch is complete as soon as the time for it is up.
pub proof fn law_batches_end_in_time(
    waiting: Seq<FileEvent>,
    debounce_ms: u64,
    input: BatchInput,
    elapsed_ms: u64,
    step: BatchStep,
)
    requires
        is_batch_step(waiting, debounce_ms, input, elapsed_ms, step),
        elapsed_ms >= debounce_ms,
        input is Event || (input is Waited && waiting.len() > 0),
    ensures
        step is Done,
{
}

/// A change below the root is told by its path seen from the root.
pub proof fn law_changes_are_seen_from_the_root(root: Seq<char>, path: Seq<char>)
    requires
        root.len() > 0,
        !absolute(path),
        !begins_with_dot(path),
    ensures
        relative_to(root, path_join(root, path)) is Some,
        normalized(relative_to(root, path_join(root, path))->0) == normalized(path),
{
    law_joined_paths_stand_below_their_base(root, path);
}

/// Changes of the session log alone set nothing off.
pub proof fn law_the_session_log_is_passed_over(
    root: Seq<char>,
    events: Seq<FileEvent>,
    log: String,
)
    requires
        forall|i: int, k: int|
            0 <= i < events.len() && 0 <= k < events[i].paths@.len() ==> components(
                #[trigger] events[i].paths@[k]@,
            ) == components(log@),
    ensures
        relatives(root, events, Some(log)) == Seq::<Seq<char>>::empty(),
    decreases events.len(),
{
    if events.len() > 0 {
        let before = events.drop_last();
        assert forall|i: int, k: int|
            0 <= i < before.len() && 0 <= k < before[i].paths@.len() implies components(
            #[trigger] before[i].paths@[k]@,
        ) == components(log@) by {
            assert(components(events[i].paths@[k]@) == components(log@));
        }
        law_the_session_log_is_passed_over(root, before, log);
        let n = events.len() - 1;
        let paths = events.last().paths@;
        assert forall|k: int| 0 <= k < paths.len() implies components((#[trigger] paths[k])@)
            == components(log@) by {
            assert(components(events[n].paths@[k]@) == components(log@));
        }
        lemma_passed_over(root, paths, log);
    }
}

proof fn lemma_passed_over(root: Seq<char>, paths: Seq<String>, log: String)
    requires
        forall|k: int|
            0 <= k < paths.len() ==> components((#[trigger] paths[k])@) == components(log@),
    ensures
        path_relatives(root, paths, Some(log)) == Seq::<Seq<char>>::empty(),
    decreases paths.len(),
{
    if paths.len() > 0 {
        assert(components(paths[paths.len() - 1]@) == components(log@));
        lemma_passed_over(root, paths.drop_last(), log);
    }
}

/// Whether a path of an event is told, seen from the root as `relative`.
spec fn is_told(
    root: Seq<char>,
    path: Seq<char>,
    ignored: Option<String>,
    relative: Seq<char>,
) -> bool {
    relative_to(root, path) == Some(relative) && !(ignored matches Some(log) && components(log@)
        == components(path))
}

proof fn lemma_path_relatives(
    root: Seq<char>,
    paths: Seq<String>,
    ignored: Option<String>,
    relative: Seq<char>,
)
    ensures
        path_relatives(root, paths, ignored).contains(relative) <==> exists|k: int|
            0 <= k < paths.len() && is_told(root, (#[trigger] paths[k])@, ignored, relative),
    decreases paths.len(),
{
    let all = path_relatives(root, paths, ignored);
    if paths.len() > 0 {
        let part = paths.drop_last();
        let before = path_relatives(root, part, ignored);
        lemma_path_relatives(root, part, ignored, relative);
        let n = paths.len() - 1;
        if before.contains(relative) {
            assert(all[before.index_of(relative)] == relative);
            let k = choose|k: int|
                0 <= k < part.len() && is_told(root, (#[trigger] part[k])@, ignored, relative);
            assert(is_told(root, paths[k]@, ignored, relative));
        }
        if is_told(root, paths[n]@, ignored, relative) {
            assert(all[all.len() - 1] == relative);
        }
        if all.contains(relative) && !before.contains(relative) {
            let k = all.index_of(relative);
            if k < before.len() {
                assert(before[k] == relative);
            }
            assert(is_told(root, paths[n]@, ignored, relative));
        }
        if exists|k: int|
            0 <= k < paths.len() && is_told(root, (#[trigger] paths[k])@, ignored, relative) {
            let k = choose|k: int|
                0 <= k < paths.len() && is_told(root, (#[trigger] paths[k])@, ignored, relative);
            if k < n {
                assert(is_told(root, part[k]@, ignored, relative));
            }
        }
    }
}

/// Whether an event has a path that is told, seen from the root as `relative`.
spec fn tells(
    root: Seq<char>,
    event: FileEvent,
    ignored: Option<String>,
    relative: Seq<char>,
) -> bool {
    is_relevant(event.kind) && exists|k: int|
        0 <= k < event.paths@.len() && is_told(
            root,
            (#[trigger] event.paths@[k])@,
            ignored,
            relative,
        )
}

proof fn lemma_relatives(
    root: Seq<char>,
    events: Seq<FileEvent>,
    ignored: Option<String>,
    relative: Seq<char>,
)
    ensures
        relatives(root, events, ignored).contains(relative) <==> exists|e: int|
            0 <= e < events.len() && tells(root, #[trigger] events[e], ignored, relative),
    decreases events.len(),
{
    let all = relatives(root, events, ignored);
    if events.len() > 0 {
        let part = events.drop_last();
        let before = relatives(root, part, ignored);
        lemma_relatives(root, part, ignored, relative);
        let n = events.len() - 1;
        let here = path_relatives(root, events[n].paths@, ignored);
        lemma_path_relatives(root, events[n].paths@, ignored, relative);
        if before.contains(relative) {
            assert(all[before.index_of(relative)] == relative);
            let e = choose|e: int|
                0 <= e < part.len() && tells(root, #[trigger] part[e], ignored, relative);
            assert(tells(root, events[e], ignored, relative));
        }
        if tells(root, events[n], ignored, relative) {
            assert(here.contains(relative));
            assert(all[before.len() + here.index_of(relative)] == relative);
        }
        if all.contains(relative) && !before.contains(relative) {
            let k = all.index_of(relative);
            if k < before.len() {
                assert(before[k] == relative);
            }
            assert(here[k - before.len()] == relative);
            assert(tells(root, events[n], ignored, relative));
        }
        if exists|e: int|
            0 <= e < events.len() && tells(root, #[trigger] events[e], ignored, relative) {
            let e = choose|e: int|
                0 <= e < events.len() && tells(root, #[trigger] events[e], ignored, relative);
            if e < n {
                assert(tells(root, part[e], ignored, relative));
            }
        }
    }
}

/// A file that was created, modified or removed, or changed in any way that is not known, sets off
/// the workflow of every group with a glob that matches its path seen from the root, and is told to
/// that workflow; unless it is the session log.
pub proof fn law_changed_files_set_off_their_workflow(
    groups: Seq<CompiledWatchGroup>,
    root: Seq<char>,
    events: Seq<FileEvent>,
    ignored: Option<String>,
    grouped: NameMap<Vec<String>>,
    e: int,
    k: int,
    g: int,
    glob: int,
    relative: Seq<char>,
)
    requires
        is_grouped(groups, relatives(root, events, ignored), grouped),
        0 <= e < events.len(),
        events[e].kind == FileEventKind::Create || events[e].kind == FileEventKind::Modify
            || events[e].kind == FileEventKind::Remove || events[e].kind == FileEventKind::Any,
        0 <= k < events[e].paths@.len(),
        relative_to(root, events[e].paths@[k]@) == Some(relative),
        ignored matches Some(log) ==> components(log@) != components(events[e].paths@[k]@),
        0 <= g < groups.len(),
        0 <= glob < groups[g].globs().len(),
        glob_matches(groups[g].globs()[glob], relative),
    ensures
        grouped@.contains_key(groups[g].target()),
        texts(grouped@[groups[g].target()]@).contains(normalized(relative)),
{
    let paths = relatives(root, events, ignored);
    let workflow = groups[g].target();
    assert(is_told(root, events[e].paths@[k]@, ignored, relative));
    assert(tells(root, events[e], ignored, relative));
    lemma_relatives(root, events, ignored, relative);
    assert(groups[g].covers(relative));
    assert(is_covered(groups, workflow, relative));
    assert(paths[paths.index_of(relative)] == relative);
    assert(sets_off(groups, paths, workflow, normalized(relative)));
    assert(is_set_off(groups, paths, workflow));
}

/// Only such a file is told to a workflow: whatever is told was created, modified, removed or
/// changed in a way that is not known, lies below the root, is not the session log, and is matched
/// by a glob of a group of that workflow. What was only read sets nothing off.
pub proof fn law_only_changed_files_set_off_a_workflow(
    groups: Seq<CompiledWatchGroup>,
    root: Seq<char>,
    events: Seq<FileEvent>,
    ignored: Option<String>,
    grouped: NameMap<Vec<String>>,
    workflow: Seq<char>,
    file: Seq<char>,
) -> (found: (int, int, int, int))
    requires
        is_grouped(groups, relatives(root, events, ignored), grouped),
        grouped@.contains_key(workflow),
        texts(grouped@[workflow]@).contains(file),
    ensures
        ({
            let (e, k, g, glob) = found;
            &&& 0 <= e < events.len()
            &&& events[e].kind != FileEventKind::Access && events[e].kind != FileEventKind::Other
            &&& 0 <= k < events[e].paths@.len()
            &&& relative_to(root, events[e].paths@[k]@) is Some
            &&& normalized(relative_to(root, events[e].paths@[k]@)->0) == file
            &&& ignored matches Some(log) ==> components(log@) != components(events[e].paths@[k]@)
            &&& 0 <= g < groups.len() && groups[g].target() == workflow
            &&& 0 <= glob < groups[g].globs().len()
            &&& glob_matches(
                groups[g].globs()[glob],
                relative_to(root, events[e].paths@[k]@)->0,
            )
        }),
{
    let paths = relatives(root, events, ignored);
    assert(sets_off(groups, paths, workflow, file));
    let i = choose|i: int|
        0 <= i < paths.len() && is_covered(groups, workflow, #[trigger] paths[i]) && normalized(paths[i])
            == file;
    let relative = paths[i];
    lemma_relatives(root, events, ignored, relative);
    let e = choose|e: int|
        0 <= e < events.len() && tells(root, #[trigger] events[e], ignored, relative);
    let k = choose|k: int|
        0 <= k < events[e].paths@.len() && is_told(
            root,
            (#[trigger] events[e].paths@[k])@,
            ignored,
            relative,
        );
    let g = choose|g: int|
        0 <= g < groups.len() && (#[trigger] groups[g]).target() == workflow && groups[g].covers(
            relative,
        );
    let globs = groups[g].globs();
    let glob = choose|j: int| 0 <= j < globs.len() && glob_matches(#[trigger] globs[j], relative);
    (e, k, g, glob)
}

/// Every workflow that is set off is told at least one file, and each file once, in order.
pub proof fn law_workflows_are_set_off_with_files(
    groups: Seq<CompiledWatchGroup>,
    paths: Seq<Seq<char>>,
    grouped: NameMap<Vec<String>>,
    workflow: Seq<char>,
)
    requires
        is_grouped(groups, paths, grouped),
        grouped@.contains_key(workflow),
    ensures
        grouped@[workflow]@.len() > 0,
        texts(grouped@[workflow]@).no_duplicates(),
{
    let files = texts(grouped@[workflow]@);
    let file = choose|file: Seq<char>| #[trigger] sets_off(groups, paths, workflow, file);
    assert(files.contains(file));
    assert forall|i: int, j: int| 0 <= i < j < files.len() implies files[i] != files[j] by {
        assert(precedes(files[i], files[j]));
        lemma_precedes_irreflexive(files[i]);
    }
}

/// The globs of a group are its paths, but that a literal path with a separator at its end stands
/// for everything below it. So a file below such a directory is matched as by that glob, and the
/// workflow is the one that is named, or the group's own name.
pub proof fn law_groups_match_by_their_paths(
    group: WatchGroup,
    name: Seq<char>,
    compiled: CompiledWatchGroup,
    i: int,
)
    requires
        is_compiled(group, name, Ok(compiled)),
        0 <= i < group.paths@.len(),
    ensures
        compiled.globs().len() == group.paths@.len(),
        group.workflow matches Some(workflow) ==> compiled.target() == workflow@,
        group.workflow is None ==> compiled.target() == name,
        ({
            let path = group.paths@[i]@;
            let literal = forall|k: int|
                0 <= k < path.len() ==> #[trigger] path[k] != '*' && path[k] != '?' && path[k] != '['
                    && path[k] != ']' && path[k] != '{' && path[k] != '}' && path[k] != '\\';
            compiled.globs()[i] == if path.len() > 0 && path[path.len() - 1] == '/' && literal {
                path + seq!['*', '*']
            } else {
                path
            }
        }),
{
    let path = group.paths@[i]@;
    reveal_strlit("**");
    assert("**"@ =~= seq!['*', '*']);
    assert(compiled.globs()[i] == watch_glob(path));
    let literal = forall|k: int|
        0 <= k < path.len() ==> #[trigger] path[k] != '*' && path[k] != '?' && path[k] != '[' && path[k]
            != ']' && path[k] != '{' && path[k] != '}' && path[k] != '\\';
    let plain = forall|k: int| 0 <= k < path.len() ==> !is_glob_sign(#[trigger] path[k]);
    assert(literal == plain);
}

/// A batch is complete with the first change that comes once its time is up, or when waiting ends
/// then, or at once when nothing more can come; before that changes are looked for. Without a change
/// the next one is waited for, however long that takes.
pub proof fn law_batches_wait_for_their_window(
    waiting: Seq<FileEvent>,
    debounce_ms: u64,
    input: BatchInput,
    elapsed_ms: u64,
    step: BatchStep,
)
    requires
        is_batch_step(waiting, debounce_ms, input, elapsed_ms, step),
    ensures
        input matches BatchInput::Event { event } ==> {
            &&& elapsed_ms < debounce_ms ==> step is Poll
            &&& elapsed_ms >= debounce_ms ==> (step matches BatchStep::Done { events } && events@
                == waiting.push(event))
        },
        input is Waited ==> {
            &&& waiting.len() == 0 ==> step is Receive
            &&& waiting.len() > 0 && elapsed_ms < debounce_ms ==> step is Poll
            &&& waiting.len() > 0 && elapsed_ms >= debounce_ms ==> (step matches BatchStep::Done {
                events,
            } && events@ == waiting)
        },
        input is Empty ==> {
            &&& waiting.len() == 0 ==> step is Receive
            &&& waiting.len() > 0 ==> (step matches BatchStep::Wait { ms } && 0 < ms && ms <= 50)
        },
        input is Disconnected ==> {
            &&& waiting.len() == 0 ==> step is Fail
            &&& waiting.len() > 0 ==> (step matches BatchStep::Done { events } && events@ == waiting)
        },
        input matches BatchInput::Failed { error } ==> (step matches BatchStep::Fail { error: told }
            && told@ == error@),
{
    assert(waiting + Seq::<FileEvent>::empty() =~= waiting);
    if let BatchInput::Event { event } = input {
        assert(waiting + seq![event] =~= waiting.push(event));
    }
}

} // verus!
