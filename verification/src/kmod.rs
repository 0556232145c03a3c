//! Which kernel modules to load, from which files, and in which order.

use crate::path;
use crate::search::{MatchRule, ModuleSearch};
use crate::text;
use crate::xz;
use crate::zst;
use vstd::prelude::*;
use vstd::slice::slice_subrange;

verus! {

/// The number of the error with which the kernel says that a module is loaded
/// already.
pub const EEXIST: i32 = 17;

/// The names of the modules that were loaded, kept so that no module file is
/// read and decompressed twice.
pub struct LoadedModules {
    names: Vec<String>,
}

impl View for LoadedModules {
    type V = Set<Seq<char>>;

    closed spec fn view(&self) -> Set<Seq<char>> {
        self.names.deep_view().to_set()
    }
}

impl LoadedModules {
    /// No module is loaded.
    pub fn new() -> (r: LoadedModules)
        ensures
            r@ == Set::<Seq<char>>::empty(),
    {
        let r = LoadedModules { names: Vec::new() };
        assert(r@ =~= Set::<Seq<char>>::empty());
        r
    }

    /// Whether the module was loaded.
    pub fn contains(&self, name: &str) -> (r: bool)
        ensures
            r == self@.contains(name@),
    {
        let ghost all = self.names.deep_view();
        let mut i: usize = 0;
        while i < self.names.len()
            invariant
                i <= self.names.len(),
                all == self.names.deep_view(),
                forall|k: int| 0 <= k < i ==> #[trigger] all[k] != name@,
            decreases self.names.len() - i,
        {
            if text::same(self.names[i].as_str(), name) {
                assert(all[i as int] == name@);
                assert(all.contains(name@));
                return true;
            }
            assert(all[i as int] != name@);
            i += 1;
        }
        assert(!all.contains(name@));
        false
    }

    /// Notes that the module was loaded.
    pub fn insert(&mut self, name: &str)
        ensures
            final(self)@ == old(self)@.insert(name@),
    {
        let ghost all = self.names.deep_view();
        if !self.contains(name) {
            self.names.push(name.to_owned());
            assert(self.names.deep_view() =~= all.push(name@));
            assert(all.push(name@).to_set() =~= all.to_set().insert(name@)) by {
                assert(all.push(name@)[all.len() as int] == name@);
                assert forall|x: Seq<char>| all.to_set().insert(name@).contains(x) implies all.push(
                    name@,
                ).to_set().contains(x) by {
                    if all.contains(x) {
                        let k = choose|k: int| 0 <= k < all.len() && all[k] == x;
                        assert(all.push(name@)[k] == x);
                    }
                }
            }
        } else {
            assert(self@.insert(name@) =~= self@);
        }
    }
}

/// The release name that `uname` gave, empty where it gave none.
pub fn get_kernel_release(uname: Option<String>) -> (r: String)
    ensures
        r@ == (match uname {
            Some(release) => release@,
            None => seq![],
        }),
{
    match uname {
        Some(release) => release,
        None => String::new(),
    }
}

/// The directory that holds the modules of a kernel release.
pub open spec fn modules_dir_of(release: Seq<char>) -> Seq<char> {
    path::joined_path("/lib/modules"@, release)
}

/// The directory that holds the modules of a kernel release.
pub fn modules_dir(release: &str) -> (r: String)
    ensures
        r@ == modules_dir_of(release@),
{
    path::join("/lib/modules", release)
}

/// The file that lists the dependencies of a kernel release's modules.
pub fn dependency_file(release: &str) -> (r: String)
    ensures
        r@ == path::joined_path(modules_dir_of(release@), "modules.dep"@),
{
    path::join(modules_dir(release).as_str(), "modules.dep")
}

/// The file that lists the aliases of a kernel release's modules.
pub fn alias_file(release: &str) -> (r: String)
    ensures
        r@ == path::joined_path(modules_dir_of(release@), "modules.alias"@),
{
    path::join(modules_dir(release).as_str(), "modules.alias")
}

/// A module to load and the file that holds it.
pub struct ModuleTarget {
    pub name: String,
    pub path: String,
}

/// A module's name and the path of its file.
pub type TargetView = (Seq<char>, Seq<char>);

impl DeepView for ModuleTarget {
    type V = TargetView;

    open spec fn deep_view(&self) -> TargetView {
        (self.name@, self.path@)
    }
}

/// The path in front of the colon in a line of `modules.dep`.
pub open spec fn line_path(line: Seq<char>) -> Seq<char> {
    text::trimmed(text::pieces(line, ':')[0])
}

/// The module that a path names, if it names a file.
pub open spec fn module_of(file_path: Seq<char>) -> Option<Seq<char>> {
    match path::file_of(file_path) {
        Some(file) => Some(path::stem_of(file)),
        None => None,
    }
}

/// The paths behind the colon in a line of `modules.dep`.
pub open spec fn line_dependencies(line: Seq<char>) -> Seq<Seq<char>> {
    let parts = text::pieces(line, ':');
    if parts.len() > 1 {
        text::words(parts[1])
    } else {
        seq![]
    }
}

/// The first line that is about the module `name`.
pub open spec fn line_about(lines: Seq<Seq<char>>, name: Seq<char>) -> Option<Seq<char>>
    decreases lines.len(),
{
    if lines.len() == 0 {
        None
    } else if module_of(line_path(lines[0])) == Some(name) {
        Some(lines[0])
    } else {
        line_about(lines.skip(1), name)
    }
}

/// A dependency as it is loaded: under the name of its file, from the modules'
/// directory.
pub open spec fn dependency_target(dir: Seq<char>, dep: Seq<char>) -> TargetView {
    let full = path::joined_path(dir, dep);
    (
        match module_of(full) {
            Some(name) => name,
            None => seq![],
        },
        full,
    )
}

/// What a line of `modules.dep` says to load, first to last: the dependencies
/// from the right end of the line to the left, then the module itself.
pub open spec fn line_targets(dir: Seq<char>, line: Seq<char>, name: Seq<char>) -> Seq<TargetView> {
    line_dependencies(line).reverse().map_values(|dep: Seq<char>| dependency_target(dir, dep)).push(
        (name, path::joined_path(dir, line_path(line))),
    )
}

/// How a module is to be loaded.
pub enum LoadPlan {
    /// It is loaded already.
    Nothing,
    /// Nothing is known of its dependencies: search its file and load that.
    Search,
    /// Load these, first to last, each unless it is loaded already.
    Targets(Vec<ModuleTarget>),
}

/// How to load the module `name` of the kernel `release`, with `dependencies`
/// for the text of the release's `modules.dep`, if it could be read.
pub open spec fn plan_of(
    name: Seq<char>,
    release: Seq<char>,
    dependencies: Option<Seq<char>>,
) -> Option<Seq<TargetView>> {
    if release.len() == 0 {
        None
    } else {
        match dependencies {
            None => None,
            Some(content) => match line_about(text::text_lines(content), name) {
                None => None,
                Some(line) => Some(line_targets(modules_dir_of(release), line, name)),
            },
        }
    }
}

/// The module that a path names, if it names a file.
fn module_name(file_path: &str) -> (r: Option<String>)
    ensures
        (match r {
            Some(name) => module_of(file_path@) == Some(name@),
            None => module_of(file_path@) is None,
        }),
{
    match path::file_name(file_path) {
        Some(file) => Some(text::until(file.as_str(), '.')),
        None => None,
    }
}

/// What a line of `modules.dep` says to load, first to last.
fn targets_of_line(dir: &str, line: &str, name: &str) -> (r: Vec<ModuleTarget>)
    ensures
        r.deep_view() == line_targets(dir@, line@, name@),
{
    let parts = text::split(line, ':');
    proof {
        text::lemma_pieces_nonempty(line@, ':');
        assert(parts.deep_view()[0] == parts[0]@);
    }
    let own = text::trim(parts[0].as_str());
    let deps: Vec<String> = if parts.len() > 1 {
        assert(parts.deep_view()[1] == parts[1]@);
        text::split_whitespace(parts[1].as_str())
    } else {
        Vec::new()
    };
    let ghost all = deps.deep_view();
    assert(all =~= line_dependencies(line@));
    let ghost f = |dep: Seq<char>| dependency_target(dir@, dep);
    let mut out: Vec<ModuleTarget> = Vec::new();
    let mut i: usize = deps.len();
    while i > 0
        invariant
            i <= deps.len(),
            all == deps.deep_view(),
            f == (|dep: Seq<char>| dependency_target(dir@, dep)),
            out.deep_view() == all.skip(i as int).reverse().map_values(f),
        decreases i,
    {
        let ghost before = out.deep_view();
        let ghost rest = all.skip(i as int);
        i -= 1;
        let full = path::join(dir, deps[i].as_str());
        let dep_name = match module_name(full.as_str()) {
            Some(n) => n,
            None => String::new(),
        };
        let target = ModuleTarget { name: dep_name, path: full };
        proof {
            assert(deps[i as int]@ == all[i as int]);
            assert(target.deep_view().0 =~= dependency_target(dir@, all[i as int]).0);
            assert(target.deep_view() == f(all[i as int]));
        }
        out.push(target);
        proof {
            assert(out.deep_view() =~= before.push(target.deep_view()));
            assert(all.skip(i as int).reverse() =~= rest.reverse().push(all[i as int]));
            assert(out.deep_view() =~= all.skip(i as int).reverse().map_values(f));
        }
    }
    let ghost before = out.deep_view();
    let itself = ModuleTarget { name: name.to_owned(), path: path::join(dir, own.as_str()) };
    out.push(itself);
    proof {
        assert(all.skip(0) =~= all);
        assert(out.deep_view() =~= before.push(itself.deep_view()));
        assert(out.deep_view() =~= line_targets(dir@, line@, name@));
    }
    out
}

/// How to load a module together with what it depends on. `release` is the
/// kernel release, `dependencies` the text of its `modules.dep` where that file
/// exists and could be read.
pub fn load_module_with_dependencies(
    name: &str,
    release: &str,
    dependencies: Option<&str>,
    loaded: &LoadedModules,
) -> (r: LoadPlan)
    ensures
        loaded@.contains(name@) <==> r is Nothing,
        !loaded@.contains(name@) ==> (match plan_of(
            name@,
            release@,
            match dependencies {
                Some(content) => Some(content@),
                None => None,
            },
        ) {
            Some(targets) => r matches LoadPlan::Targets(v) && v.deep_view() == targets,
            None => r is Search,
        }),
{
    if loaded.contains(name) {
        return LoadPlan::Nothing;
    }
    if text::to_chars(release).len() == 0 {
        return LoadPlan::Search;
    }
    let content = match dependencies {
        Some(content) => content,
        None => {
            return LoadPlan::Search;
        },
    };
    let lines = text::lines(content);
    let ghost all = lines.deep_view();
    let mut i: usize = 0;
    assert(all.skip(0) =~= all);
    while i < lines.len()
        invariant
            i <= lines.len(),
            all == lines.deep_view(),
            !loaded@.contains(name@),
            release@.len() > 0,
            dependencies matches Some(c) && c@ == content@,
            all == text::text_lines(content@),
            line_about(all, name@) == line_about(all.skip(i as int), name@),
        decreases lines.len() - i,
    {
        let ghost rest = all.skip(i as int);
        let parts = text::split(lines[i].as_str(), ':');
        proof {
            assert(lines[i as int]@ == all[i as int]);
            text::lemma_pieces_nonempty(all[i as int], ':');
            assert(parts.deep_view()[0] == parts[0]@);
            assert(rest[0] == all[i as int]);
            assert(rest.skip(1) =~= all.skip(i + 1));
        }
        let own = text::trim(parts[0].as_str());
        let found = match module_name(own.as_str()) {
            Some(module) => text::same(module.as_str(), name),
            None => false,
        };
        if found {
            let dir = modules_dir(release);
            return LoadPlan::Targets(targets_of_line(dir.as_str(), lines[i].as_str(), name));
        }
        i += 1;
    }
    assert(all.skip(i as int).len() == 0);
    LoadPlan::Search
}

/// A run through the modules of a plan. The caller loads what it is told to and
/// reports how that went.
pub struct LoadSession {
    targets: Vec<ModuleTarget>,
    next: usize,
}

impl LoadSession {
    /// The modules that were not looked at yet.
    pub closed spec fn remaining(&self) -> Seq<TargetView> {
        self.targets.deep_view().skip(self.next as int)
    }

    /// Whether the run is within its plan.
    pub closed spec fn wf(&self) -> bool {
        self.next <= self.targets.len()
    }

    /// A run that has all of `targets` before it.
    pub fn new(targets: Vec<ModuleTarget>) -> (r: LoadSession)
        ensures
            r.wf(),
            r.remaining() == targets.deep_view(),
    {
        let ghost all = targets.deep_view();
        let r = LoadSession { targets, next: 0 };
        assert(all.skip(0) =~= all);
        r
    }

    /// The next module that is not loaded yet; those that are get passed over.
    pub fn next_target(&mut self, loaded: &LoadedModules) -> (r: Option<ModuleTarget>)
        requires
            old(self).wf(),
        ensures
            final(self).wf(),
            ({
                let rest = after_loaded(old(self).remaining(), loaded@);
                match r {
                    Some(target) => {
                        &&& rest.len() > 0
                        &&& target.deep_view() == rest[0]
                        &&& final(self).remaining() == rest.skip(1)
                    },
                    None => rest.len() == 0 && final(self).remaining() == rest,
                }
            }),
    {
        let ghost all = self.targets.deep_view();
        let ghost rest = after_loaded(self.remaining(), loaded@);
        while self.next < self.targets.len()
            invariant
                self.next <= self.targets.len(),
                all == self.targets.deep_view(),
                after_loaded(all.skip(self.next as int), loaded@) == rest,
                rest == after_loaded(old(self).remaining(), loaded@),
            decreases self.targets.len() - self.next,
        {
            let i: usize = self.next;
            proof {
                let left = all.skip(i as int);
                assert(left[0] == self.targets[i as int].deep_view());
                assert(left.skip(1) =~= all.skip(i + 1));
            }
            self.next = i + 1;
            if !loaded.contains(self.targets[i].name.as_str()) {
                proof {
                    assert(rest == all.skip(i as int));
                    assert(self.remaining() =~= rest.skip(1));
                }
                return Some(
                    ModuleTarget {
                        name: self.targets[i].name.as_str().to_owned(),
                        path: self.targets[i].path.as_str().to_owned(),
                    },
                );
            }
        }
        proof {
            assert(all.skip(self.next as int).len() == 0);
            assert(self.remaining() =~= rest);
        }
        None
    }
}

/// `targets` from the first on that is not loaded.
pub open spec fn after_loaded(targets: Seq<TargetView>, loaded: Set<Seq<char>>) -> Seq<TargetView>
    decreases targets.len(),
{
    if targets.len() > 0 && loaded.contains(targets[0].0) {
        after_loaded(targets.skip(1), loaded)
    } else {
        targets
    }
}

/// Notes how the loading of a module went.
pub fn record_load(loaded: &mut LoadedModules, name: &str, succeeded: bool)
    ensures
        final(loaded)@ == if succeeded {
            old(loaded)@.insert(name@)
        } else {
            old(loaded)@
        },
{
    if succeeded {
        loaded.insert(name);
    }
}

/// What a run through `targets` tries to load, first to last, and which modules
/// are loaded after it, where `outcomes` says of each attempt whether it
/// succeeded.
pub open spec fn session(
    targets: Seq<TargetView>,
    loaded: Set<Seq<char>>,
    outcomes: Seq<bool>,
) -> (Seq<TargetView>, Set<Seq<char>>)
    decreases targets.len(),
    via session_decreases
{
    let rest = after_loaded(targets, loaded);
    if rest.len() == 0 {
        (seq![], loaded)
    } else {
        let then = if outcomes[0] {
            loaded.insert(rest[0].0)
        } else {
            loaded
        };
        let (requested, result) = session(rest.skip(1), then, outcomes.skip(1));
        (seq![rest[0]] + requested, result)
    }
}

#[via_fn]
proof fn session_decreases(
    targets: Seq<TargetView>,
    loaded: Set<Seq<char>>,
    outcomes: Seq<bool>,
) {
    lemma_after_loaded(targets, loaded);
}

proof fn lemma_after_loaded(targets: Seq<TargetView>, loaded: Set<Seq<char>>)
    ensures
        ({
            let rest = after_loaded(targets, loaded);
            &&& rest.len() <= targets.len()
            &&& rest.len() > 0 ==> !loaded.contains(rest[0].0)
            &&& forall|t: TargetView| #[trigger]
                targets.contains(t) ==> loaded.contains(t.0) || rest.contains(t)
            &&& forall|t: TargetView| #[trigger] rest.contains(t) ==> targets.contains(t)
        }),
    decreases targets.len(),
{
    if targets.len() > 0 && loaded.contains(targets[0].0) {
        let tail = targets.skip(1);
        lemma_after_loaded(tail, loaded);
        let rest = after_loaded(targets, loaded);
        assert forall|t: TargetView| #[trigger] targets.contains(t) implies loaded.contains(t.0)
            || rest.contains(t) by {
            let k = choose|k: int| 0 <= k < targets.len() && targets[k] == t;
            if k > 0 {
                assert(tail[k - 1] == t);
                assert(tail.contains(t));
            }
        }
        assert forall|t: TargetView| #[trigger] rest.contains(t) implies targets.contains(t) by {
            assert(tail.contains(t));
            let k = choose|k: int| 0 <= k < tail.len() && tail[k] == t;
            assert(targets[k + 1] == t);
        }
    }
}

/// Whether one of the attempts to load a module of this name succeeded.
pub open spec fn was_loaded(
    requested: Seq<TargetView>,
    outcomes: Seq<bool>,
    name: Seq<char>,
) -> bool {
    exists|i: int| 0 <= i < requested.len() && outcomes[i] && #[trigger] requested[i].0 == name
}

/// Whether one of the attempts to load this target failed.
pub open spec fn has_failed(
    requested: Seq<TargetView>,
    outcomes: Seq<bool>,
    target: TargetView,
) -> bool {
    exists|i: int| 0 <= i < requested.len() && !outcomes[i] && #[trigger] requested[i] == target
}

/// However each attempt goes: a run never tries a module that is loaded, be it
/// from before or by an earlier attempt; a module is noted as loaded exactly when
/// it was before or an attempt to load it succeeded; and no target is forgotten:
/// its module is loaded afterwards, or the attempt to load it failed.
pub proof fn law_session_loads_each_module_once(
    targets: Seq<TargetView>,
    loaded: Set<Seq<char>>,
    outcomes: Seq<bool>,
)
    requires
        outcomes.len() >= targets.len(),
    ensures
        ({
            let (requested, result) = session(targets, loaded, outcomes);
            &&& requested.len() <= targets.len()
            &&& forall|i: int|
                0 <= i < requested.len() ==> targets.contains(#[trigger] requested[i])
                    && !loaded.contains(requested[i].0)
            &&& forall|i: int, j: int|
                0 <= i < j < requested.len() && outcomes[i] ==> (#[trigger] requested[i]).0 != (
                #[trigger] requested[j]).0
            &&& forall|name: Seq<char>| #[trigger]
                result.contains(name) <==> loaded.contains(name) || was_loaded(
                    requested,
                    outcomes,
                    name,
                )
            &&& forall|t: TargetView| #[trigger]
                targets.contains(t) ==> result.contains(t.0) || has_failed(requested, outcomes, t)
        }),
    decreases targets.len(),
{
    lemma_after_loaded(targets, loaded);
    let rest = after_loaded(targets, loaded);
    let (requested, result) = session(targets, loaded, outcomes);
    if rest.len() > 0 {
        let next = if outcomes[0] {
            loaded.insert(rest[0].0)
        } else {
            loaded
        };
        let tail = rest.skip(1);
        let later = outcomes.skip(1);
        law_session_loads_each_module_once(tail, next, later);
        let (more, end) = session(tail, next, later);
        assert(requested == seq![rest[0]] + more);
        assert(requested[0] == rest[0]);
        assert forall|i: int| 0 <= i < more.len() implies #[trigger] more[i] == requested[i + 1]
            && later[i] == outcomes[i + 1] by {}
        assert forall|i: int| 0 <= i < requested.len() implies targets.contains(
            #[trigger] requested[i],
        ) && !loaded.contains(requested[i].0) by {
            if i == 0 {
                assert(rest.contains(rest[0]));
            } else {
                assert(requested[i] == more[i - 1]);
                assert(tail.contains(more[i - 1]));
                let k = choose|k: int| 0 <= k < tail.len() && tail[k] == more[i - 1];
                assert(rest[k + 1] == more[i - 1]);
                assert(rest.contains(more[i - 1]));
            }
        }
        assert forall|i: int, j: int| 0 <= i < j < requested.len() && outcomes[i] implies (
        #[trigger] requested[i]).0 != (#[trigger] requested[j]).0 by {
            assert(requested[j] == more[j - 1]);
            if i == 0 {
                assert(next.contains(requested[0].0));
            } else {
                assert(requested[i] == more[i - 1]);
            }
        }
        assert forall|name: Seq<char>| #[trigger] result.contains(name) <==> loaded.contains(name)
            || was_loaded(requested, outcomes, name) by {
            if was_loaded(more, later, name) {
                let i = choose|i: int|
                    0 <= i < more.len() && later[i] && #[trigger] more[i].0 == name;
                assert(requested[i + 1].0 == name && outcomes[i + 1]);
            }
            if was_loaded(requested, outcomes, name) {
                let i = choose|i: int|
                    0 <= i < requested.len() && outcomes[i] && #[trigger] requested[i].0 == name;
                if i > 0 {
                    assert(more[i - 1].0 == name && later[i - 1]);
                }
            }
            if outcomes[0] {
                assert(was_loaded(requested, outcomes, requested[0].0));
            }
        }
        assert forall|t: TargetView| #[trigger] targets.contains(t) implies result.contains(t.0)
            || has_failed(requested, outcomes, t) by {
            if !loaded.contains(t.0) {
                assert(rest.contains(t));
                let k = choose|k: int| 0 <= k < rest.len() && rest[k] == t;
                if k == 0 {
                    assert(requested[0] == t);
                } else {
                    assert(tail[k - 1] == t);
                    assert(tail.contains(t));
                    if has_failed(more, later, t) {
                        let i = choose|i: int|
                            0 <= i < more.len() && !later[i] && #[trigger] more[i] == t;
                        assert(requested[i + 1] == t && !outcomes[i + 1]);
                    }
                }
            }
        }
    } else {
        assert forall|name: Seq<char>| #[trigger] result.contains(name) <==> loaded.contains(name)
            || was_loaded(requested, outcomes, name) by {}
    }
}

/// The module itself is loaded after everything it depends on, and the
/// dependencies are loaded from the right end of the line to the left.
pub proof fn law_dependencies_come_first(dir: Seq<char>, line: Seq<char>, name: Seq<char>)
    ensures
        ({
            let targets = line_targets(dir, line, name);
            let deps = line_dependencies(line);
            &&& targets.len() == deps.len() + 1
            &&& targets.last() == (name, path::joined_path(dir, line_path(line)))
            &&& forall|i: int|
                0 <= i < deps.len() ==> #[trigger] targets[i] == dependency_target(
                    dir,
                    deps[deps.len() - 1 - i],
                )
        }),
{
}

/// `n` attempts that all succeed.
pub open spec fn successes(n: nat) -> Seq<bool> {
    Seq::new(n, |i: int| true)
}

/// What is tried to load a module, first to last, and which modules are loaded
/// after it, where the dependencies list the module and every attempt succeeds. A
/// module that they do not list is no matter of this: its file is searched, and
/// it is not noted as loaded.
pub open spec fn load_one(
    name: Seq<char>,
    release: Seq<char>,
    dependencies: Option<Seq<char>>,
    loaded: Set<Seq<char>>,
) -> (Seq<TargetView>, Set<Seq<char>>) {
    match plan_of(name, release, dependencies) {
        Some(targets) => if loaded.contains(name) {
            (seq![], loaded)
        } else {
            session(targets, loaded, successes(targets.len()))
        },
        None => (seq![], loaded),
    }
}

/// What is tried to load all modules of a list, one after the other, and which
/// modules are loaded after it, where every attempt succeeds.
pub open spec fn load_all(
    names: Seq<Seq<char>>,
    release: Seq<char>,
    dependencies: Option<Seq<char>>,
    loaded: Set<Seq<char>>,
) -> (Seq<TargetView>, Set<Seq<char>>)
    decreases names.len(),
{
    if names.len() == 0 {
        (seq![], loaded)
    } else {
        let (first, then) = load_one(names[0], release, dependencies, loaded);
        let (rest, result) = load_all(names.skip(1), release, dependencies, then);
        (first + rest, result)
    }
}

/// Whether a run tries no module that is loaded and none twice, and what it tries
/// is what is loaded afterwards besides what was before.
pub open spec fn loads_once(
    requested: Seq<TargetView>,
    loaded: Set<Seq<char>>,
    result: Set<Seq<char>>,
) -> bool {
    &&& forall|i: int| 0 <= i < requested.len() ==> !loaded.contains(#[trigger] requested[i].0)
    &&& forall|i: int, j: int|
        0 <= i < j < requested.len() ==> (#[trigger] requested[i]).0 != (#[trigger] requested[j]).0
    &&& forall|name: Seq<char>| #[trigger]
        result.contains(name) <==> loaded.contains(name) || was_loaded(
            requested,
            successes(requested.len()),
            name,
        )
}

proof fn lemma_load_one(
    name: Seq<char>,
    release: Seq<char>,
    dependencies: Option<Seq<char>>,
    loaded: Set<Seq<char>>,
)
    ensures
        ({
            let (requested, result) = load_one(name, release, dependencies, loaded);
            &&& loads_once(requested, loaded, result)
            &&& plan_of(name, release, dependencies) is Some ==> result.contains(name)
        }),
{
    let (requested, result) = load_one(name, release, dependencies, loaded);
    if let Some(targets) = plan_of(name, release, dependencies) {
        if !loaded.contains(name) {
            let all = successes(targets.len());
            law_session_loads_each_module_once(targets, loaded, all);
            let own = targets.last();
            assert(targets[targets.len() - 1] == own && own.0 == name);
            assert(targets.contains(own));
            assert(!has_failed(requested, all, own));
            assert forall|n: Seq<char>|
                was_loaded(requested, all, n) == #[trigger] was_loaded(
                    requested,
                    successes(requested.len()),
                    n,
                ) by {
                if was_loaded(requested, all, n) {
                    let i = choose|i: int|
                        0 <= i < requested.len() && all[i] && #[trigger] requested[i].0 == n;
                    assert(successes(requested.len())[i] && requested[i].0 == n);
                }
                if was_loaded(requested, successes(requested.len()), n) {
                    let i = choose|i: int|
                        0 <= i < requested.len() && successes(requested.len())[i]
                            && #[trigger] requested[i].0 == n;
                    assert(all[i] && requested[i].0 == n);
                }
            }
        }
    }
}

/// Where the dependencies list every module of a list and every load succeeds, all
/// of them are loaded afterwards, no module that is loaded was tried and none
/// twice, and to load the list once more loads nothing.
pub proof fn law_modules_of_list_are_loaded_once(
    names: Seq<Seq<char>>,
    release: Seq<char>,
    dependencies: Option<Seq<char>>,
    loaded: Set<Seq<char>>,
)
    requires
        forall|i: int|
            0 <= i < names.len() ==> plan_of(#[trigger] names[i], release, dependencies) is Some,
    ensures
        ({
            let (requested, result) = load_all(names, release, dependencies, loaded);
            &&& loads_once(requested, loaded, result)
            &&& forall|i: int| 0 <= i < names.len() ==> result.contains(#[trigger] names[i])
            &&& load_all(names, release, dependencies, result) == (Seq::<TargetView>::empty(), result)
        }),
    decreases names.len(),
{
    let (requested, result) = load_all(names, release, dependencies, loaded);
    if names.len() > 0 {
        let tail = names.skip(1);
        let (first, then) = load_one(names[0], release, dependencies, loaded);
        let (rest, end) = load_all(tail, release, dependencies, then);
        lemma_load_one(names[0], release, dependencies, loaded);
        assert forall|i: int| 0 <= i < tail.len() implies plan_of(
            #[trigger] tail[i],
            release,
            dependencies,
        ) is Some by {
            assert(tail[i] == names[i + 1]);
        }
        law_modules_of_list_are_loaded_once(tail, release, dependencies, then);
        assert(requested == first + rest && result == end);
        lemma_one_after_the_other(first, rest, loaded, then, result);
        assert forall|i: int| 0 <= i < names.len() implies result.contains(#[trigger] names[i]) by {
            if i > 0 {
                assert(tail[i - 1] == names[i]);
            }
        }
        let (again, kept) = load_one(names[0], release, dependencies, result);
        assert(again == Seq::<TargetView>::empty() && kept == result);
        assert(load_all(tail, release, dependencies, result) == (
            Seq::<TargetView>::empty(),
            result,
        ));
        assert(Seq::<TargetView>::empty() + Seq::<TargetView>::empty() =~= Seq::<
            TargetView,
        >::empty());
    } else {
        assert(!exists|name: Seq<char>| was_loaded(requested, successes(0), name));
    }
}

proof fn lemma_one_after_the_other(
    first: Seq<TargetView>,
    rest: Seq<TargetView>,
    loaded: Set<Seq<char>>,
    then: Set<Seq<char>>,
    result: Set<Seq<char>>,
)
    requires
        loads_once(first, loaded, then),
        loads_once(rest, then, result),
    ensures
        loads_once(first + rest, loaded, result),
        then.subset_of(result),
{
    let both = first + rest;
    let n = first.len() as int;
    assert forall|i: int| 0 <= i < both.len() implies !loaded.contains(
        #[trigger] both[i].0,
    ) && (i >= n ==> !then.contains(both[i].0)) by {
        if i >= n {
            assert(both[i] == rest[i - n]);
        }
    }
    assert forall|i: int| 0 <= i < n implies then.contains(#[trigger] both[i].0) by {
        assert(first[i] == both[i] && successes(first.len())[i]);
        assert(was_loaded(first, successes(first.len()), first[i].0));
    }
    assert forall|i: int, j: int| 0 <= i < j < both.len() implies (#[trigger] both[i]).0 != (
    #[trigger] both[j]).0 by {
        if i >= n {
            assert(both[i] == rest[i - n] && both[j] == rest[j - n]);
        }
    }
    assert forall|name: Seq<char>| #[trigger] result.contains(name) <==> loaded.contains(name)
        || was_loaded(both, successes(both.len()), name) by {
        if was_loaded(first, successes(first.len()), name) {
            let i = choose|i: int|
                0 <= i < first.len() && successes(first.len())[i] && #[trigger] first[i].0 == name;
            assert(both[i].0 == name && successes(both.len())[i]);
        }
        if was_loaded(rest, successes(rest.len()), name) {
            let i = choose|i: int|
                0 <= i < rest.len() && successes(rest.len())[i] && #[trigger] rest[i].0 == name;
            assert(both[i + n].0 == name && successes(both.len())[i + n]);
        }
        if was_loaded(both, successes(both.len()), name) {
            let i = choose|i: int|
                0 <= i < both.len() && successes(both.len())[i] && #[trigger] both[i].0 == name;
            if i < n {
                assert(first[i].0 == name && successes(first.len())[i]);
            } else {
                assert(rest[i - n].0 == name && successes(rest.len())[i - n]);
            }
        }
        assert(then.contains(name) <==> loaded.contains(name) || was_loaded(
            first,
            successes(first.len()),
            name,
        ));
    }
}

/// The search for the file of a module, and the directory at whose listing it
/// starts: nothing where the kernel release is not known.
pub fn find_module_file(name: &str, release: &str) -> (r: Option<(String, ModuleSearch)>)
    ensures
        r is None <==> release@.len() == 0,
        r matches Some((dir, search)) ==> {
            &&& dir@ == modules_dir_of(release@)
            &&& search.pending() == Seq::<crate::search::EntryView>::empty()
            &&& search.base() == name@ + ".ko"@
            &&& search.match_rule() == MatchRule::Stem
        },
{
    if text::to_chars(release).len() == 0 {
        return None;
    }
    Some((modules_dir(release), ModuleSearch::new(text::joined(name, ".ko"), MatchRule::Stem)))
}

/// Whether the kernel holds the module after `init_module`, which gave the
/// error `errno`, if any: a module that was there before is no failure.
pub fn module_is_in(errno: Option<i32>) -> (r: bool)
    ensures
        r == (errno is None || errno == Some(EEXIST)),
        r <==> (errno matches Some(e) ==> e == 17),
{
    match errno {
        None => true,
        Some(e) => e == EEXIST,
    }
}

/// The modules that the router needs, in the order in which they are loaded.
pub open spec fn required_modules() -> Seq<Seq<char>> {
    seq![
        "virtio_net"@,
        "virtio_pci"@,
        "virtio_mmio"@,
        "nft_masq"@,
        "nft_chain_nat"@,
        "nft_ct"@,
    ]
}

/// The modules that the router needs, in the order in which they are loaded,
/// each with what it depends on.
pub fn load_required_modules() -> (r: Vec<String>)
    ensures
        r.deep_view() == required_modules(),
{
    let r = vec![
        "virtio_net".to_owned(),
        "virtio_pci".to_owned(),
        "virtio_mmio".to_owned(),
        "nft_masq".to_owned(),
        "nft_chain_nat".to_owned(),
        "nft_ct".to_owned(),
    ];
    assert(r.deep_view() =~= required_modules());
    r
}

/// Where the dependencies list every module that the router needs and every load
/// succeeds, all of them are loaded afterwards, no module was loaded twice, and to
/// load them once more loads nothing.
pub proof fn law_required_modules_are_loaded_once(
    release: Seq<char>,
    dependencies: Option<Seq<char>>,
    loaded: Set<Seq<char>>,
)
    requires
        forall|i: int|
            0 <= i < required_modules().len() ==> plan_of(
                #[trigger] required_modules()[i],
                release,
                dependencies,
            ) is Some,
    ensures
        ({
            let (requested, result) = load_all(required_modules(), release, dependencies, loaded);
            &&& forall|i: int|
                0 <= i < required_modules().len() ==> result.contains(
                    #[trigger] required_modules()[i],
                )
            &&& loads_once(requested, loaded, result)
            &&& load_all(required_modules(), release, dependencies, result) == (
                Seq::<TargetView>::empty(),
                result,
            )
        }),
{
    law_modules_of_list_are_loaded_once(required_modules(), release, dependencies, loaded);
}

/// The module name among the arguments behind the program's own: what follows
/// `--`, or the first that is neither an option nor the word `modprobe`.
pub open spec fn named_module(args: Seq<Seq<char>>) -> Option<Seq<char>>
    decreases args.len(),
{
    if args.len() == 0 {
        None
    } else if args[0] == "--"@ {
        if args.len() > 1 {
            Some(args[1])
        } else {
            None
        }
    } else if !(args[0].len() > 0 && args[0][0] == '-') && args[0] != "modprobe"@ {
        Some(args[0])
    } else {
        named_module(args.skip(1))
    }
}

/// The module that a command line asks for; the program comes first in it.
pub open spec fn requested_module(args: Seq<Seq<char>>) -> Option<Seq<char>> {
    if args.len() == 0 {
        None
    } else {
        named_module(args.skip(1))
    }
}

/// The name of the module that a command line asks for. `args[0]` is the
/// program.
pub fn parse_args_for_mod_name(args: &[String]) -> (r: Option<String>)
    ensures
        (match r {
            Some(name) => requested_module(args.deep_view()) == Some(name@),
            None => requested_module(args.deep_view()) is None,
        }),
{
    let ghost all = args.deep_view();
    assert(all.len() == args.len());
    if args.len() == 0 {
        return None;
    }
    let mut i: usize = 1;
    while i < args.len()
        invariant
            1 <= i <= args.len(),
            all == args.deep_view(),
            all.len() == args.len(),
            named_module(all.skip(1)) == named_module(all.skip(i as int)),
        decreases args.len() - i,
    {
        let ghost rest = all.skip(i as int);
        let arg = args[i].as_str();
        proof {
            assert(rest[0] == arg@);
            assert(rest.skip(1) =~= all.skip(i + 1));
        }
        if text::same(arg, "--") {
            if i + 1 < args.len() {
                assert(rest[1] == args[i + 1]@);
                return Some(args[i + 1].as_str().to_owned());
            }
            return None;
        }
        let chars = text::to_chars(arg);
        let is_option = chars.len() > 0 && chars[0] == '-';
        if !is_option && !text::same(arg, "modprobe") {
            return Some(arg.to_owned());
        }
        i += 1;
    }
    assert(all.skip(i as int).len() == 0);
    None
}

/// Whether `input` matches `pattern`, in which `*` stands for any characters and
/// `?` for any one.
pub open spec fn glob(pattern: Seq<char>, input: Seq<char>) -> bool
    decreases pattern.len(),
{
    if pattern.len() == 0 {
        input.len() == 0
    } else if pattern[0] == '*' {
        exists|i: int| 0 <= i <= input.len() && glob(pattern.skip(1), #[trigger] input.skip(i))
    } else {
        input.len() > 0 && (pattern[0] == '?' || pattern[0] == input[0]) && glob(
            pattern.skip(1),
            input.skip(1),
        )
    }
}

/// Whether `input` matches `pattern`, in which `*` stands for any characters and
/// `?` for any one.
pub fn wildcard_match(pattern: &[char], input: &[char]) -> (r: bool)
    ensures
        r == glob(pattern@, input@),
    decreases pattern@.len(),
{
    if pattern.len() == 0 {
        return input.len() == 0;
    }
    let rest = slice_subrange(pattern, 1, pattern.len());
    assert(rest@ =~= pattern@.skip(1));
    if pattern[0] == '*' {
        if pattern.len() == 1 {
            proof {
                let n = input@.len() as int;
                assert(input@.skip(n).len() == 0);
                assert(glob(pattern@.skip(1), input@.skip(n)));
            }
            return true;
        }
        let mut i: usize = 0;
        while i < input.len()
            invariant
                i <= input.len(),
                pattern@.len() > 0,
                rest@ == pattern@.skip(1),
                pattern@[0] == '*',
                forall|k: int| 0 <= k < i ==> !glob(rest@, #[trigger] input@.skip(k)),
            decreases input.len() - i,
        {
            let tail = slice_subrange(input, i, input.len());
            assert(tail@ =~= input@.skip(i as int));
            if wildcard_match(rest, tail) {
                return true;
            }
            i += 1;
        }
        let tail = slice_subrange(input, i, input.len());
        assert(tail@ =~= input@.skip(i as int));
        return wildcard_match(rest, tail);
    }
    if input.len() == 0 {
        return false;
    }
    if pattern[0] == '?' || pattern[0] == input[0] {
        let tail = slice_subrange(input, 1, input.len());
        assert(tail@ =~= input@.skip(1));
        return wildcard_match(rest, tail);
    }
    false
}

/// A pattern without `*` and `?` matches itself and nothing else.
pub proof fn law_plain_pattern_matches_itself(pattern: Seq<char>, input: Seq<char>)
    requires
        forall|i: int| 0 <= i < pattern.len() ==> #[trigger] pattern[i] != '*' && pattern[i] != '?',
    ensures
        glob(pattern, input) <==> pattern == input,
    decreases pattern.len(),
{
    if pattern.len() == 0 {
        assert(input.len() == 0 ==> input =~= pattern);
    } else if input.len() > 0 {
        law_plain_pattern_matches_itself(pattern.skip(1), input.skip(1));
        if pattern[0] == input[0] && pattern.skip(1) == input.skip(1) {
            assert(pattern =~= seq![pattern[0]] + pattern.skip(1));
            assert(input =~= seq![input[0]] + input.skip(1));
        }
    }
}

/// A lone `*` matches everything.
pub proof fn law_star_matches_all(input: Seq<char>)
    ensures
        glob(seq!['*'], input),
{
    let n = input.len() as int;
    assert(input.skip(n).len() == 0);
    assert(glob(seq!['*'].skip(1), input.skip(n)));
}

/// What stands for what in a pattern. A `*` in front of a pattern matches any
/// characters, however many and whatever they are: the whole matches exactly
/// where what follows the `*` matches some suffix of the input. A `?` matches any
/// one character, any other character itself, and nothing at all matches only
/// the empty input.
pub proof fn law_wildcards(first: char, rest: Seq<char>, input: Seq<char>)
    ensures
        glob(seq!['*'] + rest, input) <==> exists|dropped: Seq<char>, kept: Seq<char>|
            input == #[trigger] (dropped + kept) && glob(rest, kept),
        glob(seq!['?'] + rest, input) <==> exists|c: char, kept: Seq<char>|
            input == #[trigger] (seq![c] + kept) && glob(rest, kept),
        first != '*' && first != '?' ==> (glob(seq![first] + rest, input) <==> exists|
            kept: Seq<char>,
        |
            input == #[trigger] (seq![first] + kept) && glob(rest, kept)),
        glob(seq![], input) <==> input == Seq::<char>::empty(),
{
    let star = seq!['*'] + rest;
    let one = seq!['?'] + rest;
    let plain = seq![first] + rest;
    assert(star.skip(1) =~= rest && one.skip(1) =~= rest && plain.skip(1) =~= rest);
    if glob(star, input) {
        let i = choose|i: int| 0 <= i <= input.len() && glob(rest, #[trigger] input.skip(i));
        assert(input =~= input.take(i) + input.skip(i));
    }
    if exists|dropped: Seq<char>, kept: Seq<char>|
        input == #[trigger] (dropped + kept) && glob(rest, kept) {
        let (dropped, kept) = choose|dropped: Seq<char>, kept: Seq<char>|
            input == #[trigger] (dropped + kept) && glob(rest, kept);
        assert(input.skip(dropped.len() as int) =~= kept);
        assert(glob(star, input));
    }
    if input.len() > 0 {
        assert(input =~= seq![input[0]] + input.skip(1));
    } else {
        assert(input =~= Seq::<char>::empty());
    }
    assert forall|c: char, kept: Seq<char>| input == #[trigger] (seq![c] + kept) implies input[0]
        == c && input.skip(1) == kept && input.len() > 0 by {
        assert(input.skip(1) =~= kept);
    }
    assert(glob(one, input) <==> input.len() > 0 && glob(rest, input.skip(1)));
}

/// What a pattern matches is matched by `*` and that pattern whatever stands in
/// front of it.
pub proof fn law_star_passes_over_anything(
    pattern: Seq<char>,
    before: Seq<char>,
    input: Seq<char>,
)
    requires
        glob(pattern, input),
    ensures
        glob(seq!['*'] + pattern, before + input),
{
    law_wildcards('*', pattern, before + input);
}

/// A pattern of two parts matches what the first part and then the second match,
/// and nothing else.
pub proof fn law_parts_of_pattern_match_parts(
    first: Seq<char>,
    second: Seq<char>,
    input: Seq<char>,
)
    ensures
        glob(first + second, input) <==> exists|a: Seq<char>, b: Seq<char>|
            input == #[trigger] (a + b) && glob(first, a) && glob(second, b),
    decreases first.len(),
{
    if first.len() == 0 {
        assert(first + second =~= second);
        assert(input =~= Seq::<char>::empty() + input);
        assert forall|a: Seq<char>, b: Seq<char>|
            input == #[trigger] (a + b) && glob(first, a) && glob(second, b) implies glob(
            second,
            input,
        ) by {
            assert(a + b =~= b);
        }
    } else {
        let c = first[0];
        let rest = first.skip(1);
        assert(first =~= seq![c] + rest);
        assert(first + second =~= seq![c] + (rest + second));
        law_wildcards(c, rest + second, input);
        if glob(first + second, input) {
            let (d, kept) = lemma_split_first(c, rest + second, input);
            law_parts_of_pattern_match_parts(rest, second, kept);
            let (a, b) = choose|a: Seq<char>, b: Seq<char>|
                kept == #[trigger] (a + b) && glob(rest, a) && glob(second, b);
            assert(input =~= (d + a) + b);
            lemma_join_first(c, rest, d, a);
        }
        assert forall|a: Seq<char>, b: Seq<char>|
            input == #[trigger] (a + b) && glob(first, a) && glob(second, b) implies glob(
            first + second,
            input,
        ) by {
            let (d, kept) = lemma_split_first(c, rest, a);
            assert(input =~= d + (kept + b));
            law_parts_of_pattern_match_parts(rest, second, kept + b);
            assert(glob(rest + second, kept + b));
            lemma_join_first(c, rest + second, d, kept + b);
        }
    }
}

proof fn lemma_split_first(c: char, rest: Seq<char>, input: Seq<char>) -> (r: (
    Seq<char>,
    Seq<char>,
))
    requires
        glob(seq![c] + rest, input),
    ensures
        input == r.0 + r.1,
        glob(rest, r.1),
        c != '*' ==> r.0.len() == 1,
        c != '*' && c != '?' ==> r.0 == seq![c],
{
    law_wildcards(c, rest, input);
    if c == '*' {
        choose|dropped: Seq<char>, kept: Seq<char>|
            input == #[trigger] (dropped + kept) && glob(rest, kept)
    } else if c == '?' {
        let (d, kept) = choose|d: char, kept: Seq<char>|
            input == #[trigger] (seq![d] + kept) && glob(rest, kept);
        (seq![d], kept)
    } else {
        let kept = choose|kept: Seq<char>|
            input == #[trigger] (seq![c] + kept) && glob(rest, kept);
        (seq![c], kept)
    }
}

proof fn lemma_join_first(c: char, rest: Seq<char>, d: Seq<char>, kept: Seq<char>)
    requires
        glob(rest, kept),
        c != '*' ==> d.len() == 1,
        c != '*' && c != '?' ==> d == seq![c],
    ensures
        glob(seq![c] + rest, d + kept),
{
    law_wildcards(c, rest, d + kept);
    if c == '?' {
        assert(d =~= seq![d[0]]);
    }
}

/// The module for which a line of `modules.alias` gives `name` as an alias.
pub open spec fn alias_target(line: Seq<char>, name: Seq<char>) -> Option<Seq<char>> {
    let parts = text::words(line);
    if parts.len() >= 3 && parts[0] == "alias"@ && glob(parts[1], name) {
        Some(parts[2])
    } else {
        None
    }
}

/// The module that the first matching line gives for `name`: the name itself
/// where none does.
pub open spec fn resolved(lines: Seq<Seq<char>>, name: Seq<char>) -> Seq<char>
    decreases lines.len(),
{
    if lines.len() == 0 {
        name
    } else {
        match alias_target(lines[0], name) {
            Some(module) => module,
            None => resolved(lines.skip(1), name),
        }
    }
}

/// A name that no line gives as an alias stands for itself, and of several lines
/// that do, the first counts.
pub proof fn law_first_alias_counts(
    before: Seq<Seq<char>>,
    line: Seq<char>,
    after: Seq<Seq<char>>,
    name: Seq<char>,
)
    requires
        forall|i: int| 0 <= i < before.len() ==> alias_target(#[trigger] before[i], name) is None,
    ensures
        resolved(before, name) == name,
        alias_target(line, name) matches Some(module) ==> resolved(
            before.push(line) + after,
            name,
        ) == module,
    decreases before.len(),
{
    let lines = before.push(line) + after;
    if before.len() > 0 {
        law_first_alias_counts(before.skip(1), line, after, name);
        assert(lines[0] == before[0]);
        assert(lines.skip(1) =~= before.skip(1).push(line) + after);
    } else {
        assert(lines[0] == line);
    }
}

/// The module that `name` stands for. `aliases` is the text of the kernel
/// release's `modules.alias` where that file exists and could be read.
pub open spec fn resolved_name(
    name: Seq<char>,
    release: Seq<char>,
    aliases: Option<Seq<char>>,
) -> Seq<char> {
    match aliases {
        Some(content) => if release.len() == 0 {
            name
        } else {
            resolved(text::text_lines(content), name)
        },
        None => name,
    }
}

/// The module that an alias, or a module's own name, stands for.
pub fn resolve_alias(name: &str, release: &str, aliases: Option<&str>) -> (r: String)
    ensures
        r@ == resolved_name(
            name@,
            release@,
            match aliases {
                Some(content) => Some(content@),
                None => None,
            },
        ),
{
    if text::to_chars(release).len() == 0 {
        return name.to_owned();
    }
    let content = match aliases {
        Some(content) => content,
        None => {
            return name.to_owned();
        },
    };
    let input = text::to_chars(name);
    let lines = text::lines(content);
    let ghost all = lines.deep_view();
    let mut i: usize = 0;
    assert(all.skip(0) =~= all);
    while i < lines.len()
        invariant
            i <= lines.len(),
            input@ == name@,
            all == lines.deep_view(),
            release@.len() > 0,
            aliases matches Some(c) && c@ == content@,
            all == text::text_lines(content@),
            resolved(all, name@) == resolved(all.skip(i as int), name@),
        decreases lines.len() - i,
    {
        let ghost rest = all.skip(i as int);
        let parts = text::split_whitespace(lines[i].as_str());
        let ghost line_words = parts.deep_view();
        proof {
            assert(rest[0] == lines[i as int]@);
            assert(rest.skip(1) =~= all.skip(i + 1));
            assert(line_words.len() == parts.len());
        }
        if parts.len() >= 3 {
            proof {
                assert(line_words[0] == parts[0]@);
                assert(line_words[1] == parts[1]@);
                assert(line_words[2] == parts[2]@);
            }
            if text::same(parts[0].as_str(), "alias") {
                let pattern = text::to_chars(parts[1].as_str());
                if wildcard_match(pattern.as_slice(), input.as_slice()) {
                    return parts[2].as_str().to_owned();
                }
            }
        }
        i += 1;
    }
    assert(all.skip(i as int).len() == 0);
    name.to_owned()
}

/// Why a request to load a module cannot be served.
#[derive(Clone, Copy, Debug, PartialEq, Eq, Structural)]
pub enum ModprobeError {
    /// The command line names no module.
    MissingModuleName,
}

impl ModprobeError {
    /// The error in words.
    pub fn message(&self) -> (r: String)
        ensures
            r@ == "Missing module name"@,
    {
        "Missing module name".to_owned()
    }
}

/// The module that a `modprobe` command line asks to load, with aliases
/// resolved; the caller loads it with what it depends on.
pub fn run_as_modprobe(
    args: &[String],
    release: &str,
    aliases: Option<&str>,
) -> (r: Result<String, ModprobeError>)
    ensures
        (match requested_module(args.deep_view()) {
            Some(raw) => r matches Ok(name) && name@ == resolved_name(
                raw,
                release@,
                match aliases {
                    Some(content) => Some(content@),
                    None => None,
                },
            ),
            None => r == Err::<String, ModprobeError>(ModprobeError::MissingModuleName),
        }),
{
    match parse_args_for_mod_name(args) {
        Some(raw) => Ok(resolve_alias(raw.as_str(), release, aliases)),
        None => Err(ModprobeError::MissingModuleName),
    }
}

/// What `lzma_rs` makes of an `.xz` file: its content, if it is a valid one.
pub uninterp spec fn xz_content(data: Seq<u8>) -> Option<Seq<u8>>;

/// What `flate2` makes of a `.gz` file: its content, if it is a valid one.
pub uninterp spec fn gz_content(data: Seq<u8>) -> Option<Seq<u8>>;

/// What `ruzstd` makes of a `.zst` file: the content of all its frames, if they are
/// valid ones.
pub uninterp spec fn zst_content(data: Seq<u8>) -> Option<Seq<u8>>;

/// `lzma_rs::xz_decompress` on the whole of `data`. What it returns is a function
/// of `data` alone; the words of an error are not stated. Once it has read and
/// checked the blocks and an index that lists their sizes, it adds one to the
/// size in the footer behind that index without a check. So data that may hold a
/// footer where that overflows is left out; whether one is read there depends on
/// what the blocks hold.
#[verifier::external_body]
fn xz_decompress(data: &[u8]) -> (r: Result<Vec<u8>, String>)
    requires
        !xz::overflows(data@),
    ensures
        xz_content(data@) == (match r {
            Ok(content) => Some(content@),
            Err(_) => None,
        }),
{
    let mut decompressed = Vec::new();
    let mut cursor = std::io::Cursor::new(data);
    match lzma_rs::xz_decompress(&mut cursor, &mut decompressed) {
        Ok(()) => Ok(decompressed),
        Err(e) => Err(e.to_string()),
    }
}

/// `flate2::read::GzDecoder`, read to its end on the whole of `data`. What it
/// returns is a function of `data` alone; the words of an error are not stated.
#[verifier::external_body]
fn gz_decompress(data: &[u8]) -> (r: Result<Vec<u8>, String>)
    ensures
        gz_content(data@) == (match r {
            Ok(content) => Some(content@),
            Err(_) => None,
        }),
{
    let mut decompressed = Vec::new();
    let mut decoder = flate2::read::GzDecoder::new(data);
    match std::io::Read::read_to_end(&mut decoder, &mut decompressed) {
        Ok(_) => Ok(decompressed),
        Err(e) => Err(e.to_string()),
    }
}

/// Why a `.zst` file was not unpacked.
enum ZstFailure {
    /// The content does not fit the room that was made for it.
    TooSmall,
    /// The file is not a valid one; the error in words.
    Invalid(String),
}

/// `ruzstd::decoding::FrameDecoder::decode_all_to_vec` on the whole of `data`, into
/// a new vector with room for `capacity` octets. The method fills that room and
/// never grows the vector. What the frames hold is a function of `data` alone; the
/// words of an error are not stated. The crate adds up in 32 bits what the
/// sequences of a block put out and checks the sum, so no block may hold more
/// sequences than can be added up whatever they are. A block that holds more may
/// put out little all the same; that shows only when it is decoded.
#[verifier::external_body]
fn zst_decode(data: &[u8], capacity: usize) -> (r: Result<Vec<u8>, ZstFailure>)
    requires
        zst::is_light(data@),
        capacity <= isize::MAX,
    ensures
        r matches Ok(content) ==> zst_content(data@) == Some(content@),
        r matches Err(ZstFailure::Invalid(_)) ==> zst_content(data@) is None,
        r matches Err(ZstFailure::TooSmall) ==> zst_content(data@) matches Some(c) ==> c.len()
            > capacity,
{
    let mut decompressed = Vec::with_capacity(capacity);
    let mut decoder = ruzstd::decoding::FrameDecoder::new();
    match decoder.decode_all_to_vec(data, &mut decompressed) {
        Ok(()) => Ok(decompressed),
        Err(ruzstd::decoding::errors::FrameDecoderError::TargetTooSmall) => {
            Err(ZstFailure::TooSmall)
        },
        Err(e) => Err(ZstFailure::Invalid(e.to_string())),
    }
}

/// The room for the content of a `.zst` file that is made at first.
const FIRST_CAPACITY: usize = 65_536;

/// The content of a `.zst` file. Where it does not fit the room that was made for
/// it, more is made, up to what a vector can have.
fn zst_decompress(data: &[u8]) -> (r: Result<Vec<u8>, String>)
    requires
        zst::is_light(data@),
    ensures
        r matches Ok(content) ==> zst_content(data@) == Some(content@),
        r is Err ==> (zst_content(data@) matches Some(c) ==> c.len() > isize::MAX),
{
    let most: usize = isize::MAX as usize;
    let mut capacity: usize = FIRST_CAPACITY;
    loop
        invariant
            zst::is_light(data@),
            most == isize::MAX,
            0 < capacity <= most,
        decreases most - capacity,
    {
        match zst_decode(data, capacity) {
            Ok(content) => {
                return Ok(content);
            },
            Err(ZstFailure::Invalid(words)) => {
                return Err(words);
            },
            Err(ZstFailure::TooSmall) => {
                if capacity == most {
                    return Err("Content too large".to_owned());
                }
                capacity =
                if capacity <= most / 2 {
                    2 * capacity
                } else {
                    most
                };
            },
        }
    }
}

/// How the content of a module file is packed.
#[derive(Clone, Copy, Debug, PartialEq, Eq, Structural)]
pub enum Packing {
    Xz,
    Gz,
    Zst,
    Plain,
}

/// The packing that a file's extension tells.
pub open spec fn packing_of(file_path: Seq<char>) -> Packing {
    let ext = match path::file_of(file_path) {
        Some(file) => path::extension_of(file),
        None => seq![],
    };
    if ext == "xz"@ {
        Packing::Xz
    } else if ext == "gz"@ {
        Packing::Gz
    } else if ext == "zst"@ {
        Packing::Zst
    } else {
        Packing::Plain
    }
}

/// The packing that a file's extension tells.
pub fn packing(file_path: &str) -> (r: Packing)
    ensures
        r == packing_of(file_path@),
{
    let ext = path::extension(file_path);
    if text::same(ext.as_str(), "xz") {
        Packing::Xz
    } else if text::same(ext.as_str(), "gz") {
        Packing::Gz
    } else if text::same(ext.as_str(), "zst") {
        Packing::Zst
    } else {
        Packing::Plain
    }
}

/// Whether a module file can be unpacked as its extension tells. An `.xz` file
/// whose size field overflows cannot, nor can a `.zst` file with a block of too
/// many sequences; they are not to be handed to `decompress_module`.
pub open spec fn is_unpackable(data: Seq<u8>, file_path: Seq<char>) -> bool {
    match packing_of(file_path) {
        Packing::Xz => !xz::overflows(data),
        Packing::Zst => zst::is_light(data),
        _ => true,
    }
}

/// Whether a module file can be unpacked as its extension tells.
pub fn can_be_unpacked(data: &[u8], file_path: &str) -> (r: bool)
    ensures
        r == is_unpackable(data@, file_path@),
{
    match packing(file_path) {
        Packing::Xz => !xz::has_overflowing_footer(data),
        Packing::Zst => zst::holds_light_blocks(data),
        _ => true,
    }
}

/// The content of a module file, unpacked as its extension tells, if it is a
/// valid one.
pub open spec fn module_content(data: Seq<u8>, file_path: Seq<char>) -> Option<Seq<u8>> {
    match packing_of(file_path) {
        Packing::Xz => xz_content(data),
        Packing::Gz => gz_content(data),
        Packing::Zst => zst_content(data),
        Packing::Plain => Some(data),
    }
}

/// The content of a module file, unpacked as its extension tells; the error is
/// that of the decompressor. Content that no vector can hold is an error too.
pub fn decompress_module(data: &[u8], file_path: &str) -> (r: Result<Vec<u8>, String>)
    requires
        is_unpackable(data@, file_path@),
    ensures
        r matches Ok(content) ==> module_content(data@, file_path@) == Some(content@),
        r is Err ==> (module_content(data@, file_path@) matches Some(content) ==> packing_of(
            file_path@,
        ) == Packing::Zst && content.len() > isize::MAX),
{
    match packing(file_path) {
        Packing::Xz => xz_decompress(data),
        Packing::Gz => gz_decompress(data),
        Packing::Zst => zst_decompress(data),
        Packing::Plain => {
            let mut out: Vec<u8> = Vec::new();
            out.extend_from_slice(data);
            assert(out@ =~= data@);
            Ok(out)
        },
    }
}

/// What a line of `modules.dep` says: the path in front of the first colon, without
/// the white space around it, and the words behind that colon up to the next. A line
/// without a colon lists no dependency.
pub proof fn law_colon_parts_dependency_line(
    own: Seq<char>,
    listed: Seq<char>,
    rest: Seq<char>,
)
    requires
        !own.contains(':'),
        !listed.contains(':'),
    ensures
        line_path(own) == text::trimmed(own),
        line_dependencies(own) == Seq::<Seq<char>>::empty(),
        line_path(own + seq![':'] + listed) == text::trimmed(own),
        line_dependencies(own + seq![':'] + listed) == text::words(listed),
        line_path(own + seq![':'] + listed + seq![':'] + rest) == text::trimmed(own),
        line_dependencies(own + seq![':'] + listed + seq![':'] + rest) == text::words(listed),
{
    text::law_text_is_cut_at_each(own, listed, ':');
    text::law_text_is_cut_at_each(listed, rest, ':');
    text::law_text_is_cut_at_each(own, listed + seq![':'] + rest, ':');
    let long = own + seq![':'] + listed + seq![':'] + rest;
    assert(long =~= own + seq![':'] + (listed + seq![':'] + rest));
    assert(text::pieces(own + seq![':'] + listed, ':') =~= seq![own, listed]);
    let parts = text::pieces(long, ':');
    assert(parts =~= seq![own] + (seq![listed] + text::pieces(rest, ':')));
    assert(parts[0] == own && parts[1] == listed && parts.len() > 1);
}

/// Which module a path names: the name of its file up to the first dot, whatever
/// directory it is in.
pub proof fn law_file_is_named_after_module(
    dir: Seq<char>,
    module: Seq<char>,
    ending: Seq<char>,
)
    requires
        module.len() > 0,
        !module.contains('.'),
        !module.contains('/'),
        !ending.contains('/'),
    ensures
        module_of(module + seq!['.'] + ending) == Some(module),
        module_of(dir + seq!['/'] + (module + seq!['.'] + ending)) == Some(module),
        module_of(module) == Some(module),
        module_of(dir + seq!['/'] + module) == Some(module),
{
    let file = module + seq!['.'] + ending;
    assert(!file.contains('/')) by {
        if file.contains('/') {
            let k = choose|k: int| 0 <= k < file.len() && file[k] == '/';
            if k < module.len() {
                assert(module.contains(module[k]));
            } else if k > module.len() {
                assert(ending.contains(ending[k - module.len() - 1]));
            }
        }
    }
    assert(file[0] == module[0] && module.contains(module[0]));
    assert(seq!['.'][0] == '.' && seq!['.', '.'][0] == '.');
    path::law_last_component_names_file(dir, file);
    path::law_last_component_names_file(dir, module);
    path::law_dots_part_file_name(module, ending, Seq::empty());
}

/// A dependency is loaded under the name of its module, from the directory of the
/// modules.
pub proof fn law_dependency_is_loaded_from_directory(
    dir: Seq<char>,
    sub: Seq<char>,
    module: Seq<char>,
    ending: Seq<char>,
)
    requires
        dir.len() > 0,
        dir.last() != '/',
        sub.len() > 0,
        sub[0] != '/',
        module.len() > 0,
        !module.contains('.'),
        !module.contains('/'),
        !ending.contains('/'),
    ensures
        ({
            let file = module + seq!['.'] + ending;
            &&& dependency_target(dir, sub + seq!['/'] + file) == (
                module,
                dir + seq!['/'] + (sub + seq!['/'] + file),
            )
            &&& dependency_target(dir, file) == (module, dir + seq!['/'] + file)
        }),
{
    let file = module + seq!['.'] + ending;
    let dep = sub + seq!['/'] + file;
    assert(dep[0] == sub[0]);
    assert(file[0] == module[0] && module.contains(module[0]));
    path::law_path_is_seen_from_directory(dir, dep);
    path::law_path_is_seen_from_directory(dir, file);
    assert(dir + seq!['/'] + dep =~= dir + seq!['/'] + sub + seq!['/'] + file);
    law_file_is_named_after_module(dir + seq!['/'] + sub, module, ending);
    law_file_is_named_after_module(dir, module, ending);
}

/// Of several lines about a module the first counts, and lines about others do not.
pub proof fn law_first_line_counts(
    before: Seq<Seq<char>>,
    line: Seq<char>,
    after: Seq<Seq<char>>,
    name: Seq<char>,
)
    requires
        forall|i: int|
            0 <= i < before.len() ==> module_of(line_path(#[trigger] before[i])) != Some(name),
    ensures
        line_about(before, name) is None,
        module_of(line_path(line)) == Some(name) ==> line_about(before.push(line) + after, name)
            == Some(line),
    decreases before.len(),
{
    let lines = before.push(line) + after;
    if before.len() > 0 {
        let tail = before.skip(1);
        assert forall|i: int| 0 <= i < tail.len() implies module_of(line_path(#[trigger] tail[i]))
            != Some(name) by {
            assert(tail[i] == before[i + 1]);
        }
        assert(module_of(line_path(before[0])) != Some(name));
        law_first_line_counts(tail, line, after, name);
        assert(lines[0] == before[0]);
        assert(lines.skip(1) =~= tail.push(line) + after);
    } else {
        assert(lines[0] == line);
    }
}

/// What is loaded for a module that the dependencies list: what its line lists, from
/// the right end to the left, then the module itself, all from the directory of the
/// release under `/lib/modules`, or from the release itself where that is a path from
/// the root. A module that they do not list has no plan, nor has any where the
/// release is not known or the dependencies could not be read.
pub proof fn law_plan_follows_dependencies(
    name: Seq<char>,
    release: Seq<char>,
    content: Seq<char>,
)
    ensures
        plan_of(name, Seq::empty(), Some(content)) is None,
        plan_of(name, release, None) is None,
        release.len() > 0 ==> (match line_about(text::text_lines(content), name) {
            None => plan_of(name, release, Some(content)) is None,
            Some(line) => plan_of(name, release, Some(content)) matches Some(targets) && {
                let dir = if release[0] == '/' {
                    release
                } else {
                    "/lib/modules"@ + seq!['/'] + release
                };
                let deps = line_dependencies(line);
                &&& targets.len() == deps.len() + 1
                &&& targets.last() == (name, path::joined_path(dir, line_path(line)))
                &&& forall|i: int|
                    0 <= i < deps.len() ==> #[trigger] targets[i] == dependency_target(
                        dir,
                        deps[deps.len() - 1 - i],
                    )
            },
        }),
{
    reveal_strlit("/lib/modules");
    path::law_path_is_seen_from_directory("/lib/modules"@, release);
    if let Some(line) = line_about(text::text_lines(content), name) {
        law_dependencies_come_first(modules_dir_of(release), line, name);
    }
}

/// What comes next in a run: the first target that is not loaded, and then those
/// behind it; nothing where all are loaded.
pub proof fn law_loaded_targets_are_passed_over(
    before: Seq<TargetView>,
    target: TargetView,
    after: Seq<TargetView>,
    loaded: Set<Seq<char>>,
)
    requires
        forall|i: int| 0 <= i < before.len() ==> loaded.contains((#[trigger] before[i]).0),
        !loaded.contains(target.0),
    ensures
        after_loaded(before, loaded) == Seq::<TargetView>::empty(),
        after_loaded(before.push(target) + after, loaded) == seq![target] + after,
    decreases before.len(),
{
    let all = before.push(target) + after;
    if before.len() > 0 {
        let tail = before.skip(1);
        assert forall|i: int| 0 <= i < tail.len() implies loaded.contains(
            (#[trigger] tail[i]).0,
        ) by {
            assert(tail[i] == before[i + 1]);
        }
        assert(loaded.contains(before[0].0));
        law_loaded_targets_are_passed_over(tail, target, after, loaded);
        assert(all[0] == before[0]);
        assert(all.skip(1) =~= tail.push(target) + after);
    } else {
        assert(before =~= Seq::<TargetView>::empty());
        assert(all =~= seq![target] + after);
        assert(all[0] == target);
    }
}

/// A run goes through its targets one by one: one that is loaded is passed over; any
/// other is tried, and counts as loaded from then on exactly where that succeeded.
pub proof fn law_session_goes_one_by_one(
    target: TargetView,
    rest: Seq<TargetView>,
    loaded: Set<Seq<char>>,
    succeeded: bool,
    outcomes: Seq<bool>,
)
    ensures
        session(Seq::empty(), loaded, outcomes) == (Seq::<TargetView>::empty(), loaded),
        loaded.contains(target.0) ==> session(seq![target] + rest, loaded, outcomes) == session(
            rest,
            loaded,
            outcomes,
        ),
        !loaded.contains(target.0) ==> {
            let then = if succeeded {
                loaded.insert(target.0)
            } else {
                loaded
            };
            let (requested, result) = session(rest, then, outcomes);
            session(seq![target] + rest, loaded, seq![succeeded] + outcomes) == (
                seq![target] + requested,
                result,
            )
        },
{
    let all = seq![target] + rest;
    assert(all[0] == target && all.skip(1) =~= rest);
    assert((seq![succeeded] + outcomes).skip(1) =~= outcomes);
    assert((seq![succeeded] + outcomes)[0] == succeeded);
    assert(after_loaded(Seq::<TargetView>::empty(), loaded) == Seq::<TargetView>::empty());
    if loaded.contains(target.0) {
        assert(after_loaded(all, loaded) == after_loaded(rest, loaded));
    } else {
        assert(after_loaded(all, loaded) == all);
    }
}

/// Which argument names the module. Options, which start with a dash, and the word
/// `modprobe` are passed over; the first other argument is the name. Two dashes end
/// the options: the argument behind them is the name, whatever it is, and there is
/// none where they come last.
pub proof fn law_first_plain_argument_is_module(
    passed: Seq<Seq<char>>,
    arg: Seq<char>,
    rest: Seq<Seq<char>>,
    program: Seq<char>,
)
    requires
        forall|i: int|
            0 <= i < passed.len() ==> #[trigger] passed[i] == "modprobe"@ || (passed[i].len() > 0
                && passed[i][0] == '-' && passed[i] != "--"@),
    ensures
        requested_module(Seq::empty()) is None,
        requested_module(seq![program] + passed) is None,
        arg != "modprobe"@ && !(arg.len() > 0 && arg[0] == '-') ==> requested_module(
            seq![program] + (passed.push(arg) + rest),
        ) == Some(arg),
        requested_module(seq![program] + (passed.push("--"@).push(arg) + rest)) == Some(arg),
        requested_module(seq![program] + passed.push("--"@)) is None,
{
    lemma_named_module(passed, arg, rest);
    assert((seq![program] + passed).skip(1) =~= passed);
    let plain = passed.push(arg) + rest;
    assert((seq![program] + plain).skip(1) =~= plain);
    let marked = passed.push("--"@).push(arg) + rest;
    assert((seq![program] + marked).skip(1) =~= marked);
    let cut = passed.push("--"@);
    assert((seq![program] + cut).skip(1) =~= cut);
}

proof fn lemma_named_module(passed: Seq<Seq<char>>, arg: Seq<char>, rest: Seq<Seq<char>>)
    requires
        forall|i: int|
            0 <= i < passed.len() ==> #[trigger] passed[i] == "modprobe"@ || (passed[i].len() > 0
                && passed[i][0] == '-' && passed[i] != "--"@),
    ensures
        named_module(passed) is None,
        arg != "modprobe"@ && !(arg.len() > 0 && arg[0] == '-') ==> named_module(
            passed.push(arg) + rest,
        ) == Some(arg),
        named_module(passed.push("--"@).push(arg) + rest) == Some(arg),
        named_module(passed.push("--"@)) is None,
    decreases passed.len(),
{
    reveal_strlit("--");
    reveal_strlit("modprobe");
    let plain = passed.push(arg) + rest;
    let marked = passed.push("--"@).push(arg) + rest;
    let cut = passed.push("--"@);
    if passed.len() > 0 {
        let tail = passed.skip(1);
        assert forall|i: int| 0 <= i < tail.len() implies #[trigger] tail[i] == "modprobe"@ || (
        tail[i].len() > 0 && tail[i][0] == '-' && tail[i] != "--"@) by {
            assert(tail[i] == passed[i + 1]);
        }
        assert(passed[0] != "--"@) by {
            assert("modprobe"@[0] != "--"@[0]);
        }
        lemma_named_module(tail, arg, rest);
        assert(plain[0] == passed[0] && marked[0] == passed[0] && cut[0] == passed[0]);
        assert(plain.skip(1) =~= tail.push(arg) + rest);
        assert(marked.skip(1) =~= tail.push("--"@).push(arg) + rest);
        assert(cut.skip(1) =~= tail.push("--"@));
    } else {
        assert(plain[0] == arg && marked[0] == "--"@ && marked[1] == arg && cut[0] == "--"@);
        if arg == "--"@ {
            assert(arg[0] == '-');
        }
    }
}

/// What a line of `modules.alias` says: where its first word is `alias`, the third
/// word is the module for every name that the second matches. Lines of other words,
/// or of fewer than three, say nothing.
pub proof fn law_alias_line_maps_pattern(
    pattern: Seq<char>,
    module: Seq<char>,
    rest: Seq<char>,
    word: Seq<char>,
    name: Seq<char>,
)
    requires
        text::is_word(pattern),
        text::is_word(module),
        text::is_word(word),
    ensures
        ({
            let tail = pattern + seq![' '] + (module + seq![' '] + rest);
            &&& alias_target("alias"@ + seq![' '] + tail, name) == (if glob(pattern, name) {
                Some(module)
            } else {
                None
            })
            &&& word != "alias"@ ==> alias_target(word + seq![' '] + tail, name) is None
            &&& alias_target(word + seq![' '] + pattern, name) is None
        }),
        ({
            let words = text::words(rest);
            &&& words.len() < 3 ==> alias_target(rest, name) is None
            &&& words.len() >= 3 && words[0] != "alias"@ ==> alias_target(rest, name) is None
            &&& words.len() >= 3 && words[0] == "alias"@ && !glob(words[1], name) ==> alias_target(
                rest,
                name,
            ) is None
            &&& words.len() >= 3 && words[0] == "alias"@ && glob(words[1], name) ==> alias_target(
                rest,
                name,
            ) == Some(words[2])
        }),
{
    let alias = "alias"@;
    reveal_strlit("alias");
    assert(text::is_word(alias));
    let end = module + seq![' '] + rest;
    let tail = pattern + seq![' '] + end;
    text::law_words_stand_between_spaces(module, ' ', rest);
    text::law_words_stand_between_spaces(pattern, ' ', end);
    text::law_words_stand_between_spaces(alias, ' ', tail);
    text::law_words_stand_between_spaces(word, ' ', tail);
    text::law_words_stand_between_spaces(word, ' ', pattern);
    assert(text::words(tail) =~= seq![pattern, module] + text::words(rest));
    assert(text::words(alias + seq![' '] + tail) =~= seq![alias, pattern, module] + text::words(
        rest,
    ));
    assert(text::words(word + seq![' '] + tail) =~= seq![word, pattern, module] + text::words(rest));
    assert(text::words(word + seq![' '] + pattern) =~= seq![word, pattern]);
}

/// Which module a name stands for: the one that the lines of the aliases give for
/// it, or the name itself where the release is not known or the aliases could not
/// be read.
pub proof fn law_name_is_looked_up_in_aliases(
    name: Seq<char>,
    release: Seq<char>,
    content: Seq<char>,
)
    ensures
        resolved_name(name, release, None) == name,
        resolved_name(name, Seq::empty(), Some(content)) == name,
        release.len() > 0 ==> resolved_name(name, release, Some(content)) == resolved(
            text::text_lines(content),
            name,
        ),
{
}

/// How a module file is packed: as the ending behind the last dot of its name says,
/// `xz`, `gz` or `zst`; a file with another ending is not packed, and its content is
/// the file as it is. What the directory is called has no bearing on it.
pub proof fn law_ending_tells_packing(
    data: Seq<u8>,
    dir: Seq<char>,
    module: Seq<char>,
    ending: Seq<char>,
)
    requires
        module.len() > 0,
        !module.contains('/'),
        !module.contains('.'),
        !ending.contains('/'),
        !ending.contains('.'),
    ensures
        ({
            let path = dir + seq!['/'] + (module + seq!['.', 'k', 'o', '.'] + ending);
            &&& ending == "xz"@ ==> packing_of(path) is Xz && module_content(data, path)
                == xz_content(data) && (is_unpackable(data, path) <==> !xz::overflows(data))
            &&& ending == "gz"@ ==> packing_of(path) is Gz && module_content(data, path)
                == gz_content(data)
            &&& ending == "zst"@ ==> packing_of(path) is Zst && module_content(data, path)
                == zst_content(data) && (is_unpackable(data, path) <==> zst::is_light(data))
            &&& ending != "xz"@ && ending != "gz"@ && ending != "zst"@ ==> packing_of(path) is Plain
                && module_content(data, path) == Some(data) && is_unpackable(data, path)
        }),
        ({
            let path = dir + seq!['/'] + (module + seq!['.'] + ending);
            &&& ending == "xz"@ ==> packing_of(path) is Xz
            &&& ending == "gz"@ ==> packing_of(path) is Gz && is_unpackable(data, path)
            &&& ending == "zst"@ ==> packing_of(path) is Zst
            &&& ending != "xz"@ && ending != "gz"@ && ending != "zst"@ ==> module_content(data, path)
                == Some(data)
        }),
{
    reveal_strlit("xz");
    reveal_strlit("gz");
    reveal_strlit("zst");
    assert("xz"@[0] != "gz"@[0] && "xz"@.len() != "zst"@.len() && "gz"@.len() != "zst"@.len());
    let middle = seq!['k', 'o'];
    let long = module + seq!['.', 'k', 'o', '.'] + ending;
    let short = module + seq!['.'] + ending;
    assert(long =~= module + seq!['.'] + middle + seq!['.'] + ending);
    lemma_no_slash(module, seq!['.', 'k', 'o', '.'], ending);
    lemma_no_slash(module, seq!['.'], ending);
    assert(module.contains(module[0]));
    assert(long[0] == module[0] && short[0] == module[0]);
    assert(seq!['.'][0] == '.' && seq!['.', '.'][0] == '.');
    path::law_last_component_names_file(dir, long);
    path::law_last_component_names_file(dir, short);
    path::law_dots_part_file_name(module, middle, ending);
}

proof fn lemma_no_slash(a: Seq<char>, b: Seq<char>, c: Seq<char>)
    requires
        !a.contains('/'),
        !b.contains('/'),
        !c.contains('/'),
    ensures
        !(a + b + c).contains('/'),
{
    let all = a + b + c;
    if all.contains('/') {
        let k = choose|k: int| 0 <= k < all.len() && all[k] == '/';
        if k < a.len() {
            assert(a.contains(a[k]));
        } else if k < a.len() + b.len() {
            assert(b.contains(b[k - a.len()]));
        } else {
            assert(c.contains(c[k - a.len() - b.len()]));
        }
    }
}

/// How any module file is packed: by the ending of the file that its path names,
/// and not at all where the path names no file. The module is named after that file
/// up to its first dot.
pub proof fn law_file_tells_packing_and_module(data: Seq<u8>, file_path: Seq<char>)
    ensures
        path::file_of(file_path) is None ==> packing_of(file_path) is Plain && module_of(
            file_path,
        ) is None,
        path::file_of(file_path) matches Some(file) ==> {
            let ending = path::extension_of(file);
            &&& packing_of(file_path) is Xz <==> ending == "xz"@
            &&& packing_of(file_path) is Gz <==> ending == "gz"@
            &&& packing_of(file_path) is Zst <==> ending == "zst"@
            &&& module_of(file_path) == Some(path::stem_of(file))
        },
        packing_of(file_path) is Plain ==> module_content(data, file_path) == Some(data),
        packing_of(file_path) is Xz ==> module_content(data, file_path) == xz_content(data),
        packing_of(file_path) is Gz ==> module_content(data, file_path) == gz_content(data),
        packing_of(file_path) is Zst ==> module_content(data, file_path) == zst_content(data),
{
    reveal_strlit("xz");
    reveal_strlit("gz");
    reveal_strlit("zst");
    assert("xz"@[0] != "gz"@[0] && "xz"@.len() != "zst"@.len() && "gz"@.len() != "zst"@.len());
    assert("xz"@.len() > 0 && "gz"@.len() > 0 && "zst"@.len() > 0);
}

/// The modules that the router needs: those of the network devices first, then
/// those of the packet filter.
pub proof fn law_needed_modules_come_in_order()
    ensures
        ({
            let modules = required_modules();
            &&& modules.len() == 6
            &&& modules[0] == "virtio_net"@ && modules[1] == "virtio_pci"@
            &&& modules[2] == "virtio_mmio"@ && modules[3] == "nft_masq"@
            &&& modules[4] == "nft_chain_nat"@ && modules[5] == "nft_ct"@
        }),
{
}

/// The content of a target is its module's name and the path of its file.
pub proof fn law_content_is_of_target(target: ModuleTarget)
    ensures
        target.deep_view().0 == target.name@,
        target.deep_view().1 == target.path@,
{
}

} // verus!
