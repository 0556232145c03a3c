//! Depth-first search for a kernel module file in a directory tree.
//!
//! The search holds no handle on the file system. It says which directory to
//! list next and takes the listing back, so every entry it looks at was read by
//! the caller.

use crate::path;
use crate::text;
use vstd::prelude::*;

verus! {

/// An entry of a directory listing. `id` is the caller's own mark for the path;
/// `name` is the file name where it is valid text.
pub struct DirEntry {
    pub id: usize,
    pub is_dir: bool,
    pub name: Option<String>,
}

/// What a search knows of an entry: its mark, whether it is a directory, and
/// its name.
pub type EntryView = (usize, bool, Option<Seq<char>>);

impl DeepView for DirEntry {
    type V = EntryView;

    open spec fn deep_view(&self) -> EntryView {
        (
            self.id,
            self.is_dir,
            match self.name {
                Some(name) => Some(name@),
                None => None,
            },
        )
    }
}

/// How a file name is held against the name that is searched for.
#[derive(Clone, Copy, Debug, PartialEq, Eq, Structural)]
pub enum MatchRule {
    /// The two names agree up to their first dots.
    Stem,
    /// The names are the same, but for an ending of a compressed file.
    Archive,
}

/// Whether `file` is a file that a search for `base` looks for.
pub open spec fn name_matches(rule: MatchRule, file: Seq<char>, base: Seq<char>) -> bool {
    match rule {
        MatchRule::Stem => path::stem_of(file) == path::stem_of(base),
        MatchRule::Archive => {
            ||| file == base
            ||| file == base + ".xz"@
            ||| file == base + ".gz"@
            ||| file == base + ".zst"@
        },
    }
}

/// Whether the entry is a file that a search for `base` looks for.
pub open spec fn entry_matches(rule: MatchRule, entry: EntryView, base: Seq<char>) -> bool {
    !entry.1 && (entry.2 matches Some(name) && name_matches(rule, name, base))
}

/// What a search wants next.
#[derive(Clone, Copy, Debug, PartialEq, Eq, Structural)]
pub enum SearchStep {
    /// List the directory with this mark, and enter it.
    Descend(usize),
    /// The file with this mark is the one.
    Found(usize),
    /// There is no such file.
    NotFound,
}

/// What a search wants next with `pending` still to be looked at, and what then
/// is pending.
pub open spec fn search_step(
    pending: Seq<EntryView>,
    rule: MatchRule,
    base: Seq<char>,
) -> (SearchStep, Seq<EntryView>)
    decreases pending.len(),
{
    if pending.len() == 0 {
        (SearchStep::NotFound, pending)
    } else if pending[0].1 {
        (SearchStep::Descend(pending[0].0), pending.skip(1))
    } else if entry_matches(rule, pending[0], base) {
        (SearchStep::Found(pending[0].0), pending.skip(1))
    } else {
        search_step(pending.skip(1), rule, base)
    }
}

/// A search under way.
pub struct ModuleSearch {
    stack: Vec<DirEntry>,
    base_name: String,
    rule: MatchRule,
}

impl ModuleSearch {
    /// The entries that are still to be looked at, next first.
    pub closed spec fn pending(&self) -> Seq<EntryView> {
        self.stack.deep_view().reverse()
    }

    /// The name that is searched for.
    pub closed spec fn base(&self) -> Seq<char> {
        self.base_name@
    }

    /// How names are compared.
    pub closed spec fn match_rule(&self) -> MatchRule {
        self.rule
    }

    /// A search for `base_name` among the entries of its top directory.
    pub fn new(base_name: String, rule: MatchRule) -> (r: ModuleSearch)
        ensures
            r.pending() == Seq::<EntryView>::empty(),
            r.base() == base_name@,
            r.match_rule() == rule,
    {
        let r = ModuleSearch { stack: Vec::new(), base_name, rule };
        assert(r.pending() =~= Seq::<EntryView>::empty());
        r
    }

    /// Puts the entries of a directory before all that is pending.
    pub fn enter(&mut self, listing: Vec<DirEntry>)
        ensures
            final(self).pending() == listing.deep_view() + old(self).pending(),
            final(self).base() == old(self).base(),
            final(self).match_rule() == old(self).match_rule(),
    {
        let ghost all = listing.deep_view();
        let ghost before = self.pending();
        let mut rest = listing;
        assert(all.skip(rest.len() as int) + before =~= before);
        while rest.len() > 0
            invariant
                rest.len() <= all.len(),
                rest.deep_view() == all.take(rest.len() as int),
                self.pending() == all.skip(rest.len() as int) + before,
                self.base() == old(self).base(),
                self.match_rule() == old(self).match_rule(),
            decreases rest.len(),
        {
            let ghost n = rest.len() as int;
            let ghost stack = self.stack.deep_view();
            let ghost held = rest.deep_view();
            let popped = rest.pop();
            match popped {
                Some(entry) => {
                    self.stack.push(entry);
                    proof {
                        assert(entry.deep_view() == held[n - 1]);
                        assert(rest.deep_view() =~= held.drop_last());
                        assert(rest.deep_view() =~= all.take(n - 1));
                        assert(self.stack.deep_view() =~= stack.push(entry.deep_view()));
                        assert(self.pending() =~= seq![all[n - 1]] + (all.skip(n) + before));
                        assert(self.pending() =~= all.skip(n - 1) + before);
                    }
                },
                None => {},
            }
        }
        assert(all.skip(0) =~= all);
    }

    /// Looks at entries until one is a directory or the file that is searched
    /// for.
    pub fn step(&mut self) -> (r: SearchStep)
        ensures
            (r, final(self).pending()) == search_step(
                old(self).pending(),
                old(self).match_rule(),
                old(self).base(),
            ),
            final(self).base() == old(self).base(),
            final(self).match_rule() == old(self).match_rule(),
    {
        let ghost goal = search_step(self.pending(), self.match_rule(), self.base());
        while self.stack.len() > 0
            invariant
                goal == search_step(
                    old(self).pending(),
                    old(self).match_rule(),
                    old(self).base(),
                ),
                search_step(self.pending(), self.match_rule(), self.base()) == goal,
                self.base() == old(self).base(),
                self.match_rule() == old(self).match_rule(),
            decreases self.stack.len(),
        {
            let ghost before = self.pending();
            let ghost stack = self.stack.deep_view();
            let popped = self.stack.pop();
            match popped {
                Some(entry) => {
                    proof {
                        assert(self.stack.deep_view() =~= stack.drop_last());
                        assert(before[0] == entry.deep_view());
                        assert(self.pending() =~= before.skip(1));
                    }
                    if entry.is_dir {
                        return SearchStep::Descend(entry.id);
                    }
                    match entry.name {
                        Some(name) => {
                            if matches_name(self.rule, name.as_str(), self.base_name.as_str()) {
                                return SearchStep::Found(entry.id);
                            }
                        },
                        None => {},
                    }
                },
                None => {},
            }
        }
        assert(self.pending().len() == 0);
        SearchStep::NotFound
    }
}

/// Whether `file` is a file that a search for `base` looks for.
pub fn matches_name(rule: MatchRule, file: &str, base: &str) -> (r: bool)
    ensures
        r == name_matches(rule, file@, base@),
{
    match rule {
        MatchRule::Stem => {
            let a = text::until(file, '.');
            let b = text::until(base, '.');
            text::same(a.as_str(), b.as_str())
        },
        MatchRule::Archive => {
            text::same(file, base) || text::same(file, text::joined(base, ".xz").as_str())
                || text::same(file, text::joined(base, ".gz").as_str()) || text::same(
                file,
                text::joined(base, ".zst").as_str(),
            )
        },
    }
}

/// A directory tree as a listing of it shows it. A directory that cannot be
/// read has no children.
pub enum Tree {
    File { id: usize, name: Option<Seq<char>> },
    Dir { id: usize, name: Option<Seq<char>>, children: Seq<Tree> },
}

impl Tree {
    /// The tree's top as an entry of its parent's listing.
    pub open spec fn entry(self) -> EntryView {
        match self {
            Tree::File { id, name } => (id, false, name),
            Tree::Dir { id, name, .. } => (id, true, name),
        }
    }
}

/// The entries of a listing.
pub open spec fn entries(forest: Seq<Tree>) -> Seq<EntryView> {
    forest.map_values(|t: Tree| t.entry())
}

/// The first file, in depth-first order, that a search for `base` looks for.
pub open spec fn first_match(forest: Seq<Tree>, rule: MatchRule, base: Seq<char>) -> Option<usize>
    decreases forest,
{
    if forest.len() == 0 {
        None
    } else {
        match forest[0] {
            Tree::File { id, name } => if entry_matches(rule, (id, false, name), base) {
                Some(id)
            } else {
                first_match(forest.subrange(1, forest.len() as int), rule, base)
            },
            Tree::Dir { children, .. } => match first_match(children, rule, base) {
                Some(id) => Some(id),
                None => first_match(forest.subrange(1, forest.len() as int), rule, base),
            },
        }
    }
}

/// A match in the first of two forests is found before any in the second.
proof fn lemma_first_match_concat(a: Seq<Tree>, b: Seq<Tree>, rule: MatchRule, base: Seq<char>)
    ensures
        first_match(a + b, rule, base) == (match first_match(a, rule, base) {
            Some(id) => Some(id),
            None => first_match(b, rule, base),
        }),
    decreases a.len(),
{
    if a.len() == 0 {
        assert(a + b =~= b);
    } else {
        let rest = a.subrange(1, a.len() as int);
        lemma_first_match_concat(rest, b, rule, base);
        assert((a + b)[0] == a[0]);
        assert((a + b).subrange(1, (a + b).len() as int) =~= rest + b);
    }
}

/// The search finds exactly what a depth-first walk of the tree finds. With the
/// top entries of `forest` pending, a step that gives up means that the walk
/// finds nothing; a step that names a file names the file the walk finds; and
/// a step that asks for a directory leaves, once that directory's children are
/// entered, a forest in which the walk finds the same as before.
pub proof fn law_search_walks_depth_first(forest: Seq<Tree>, rule: MatchRule, base: Seq<char>)
    ensures
        (match search_step(entries(forest), rule, base) {
            (SearchStep::NotFound, _) => first_match(forest, rule, base) is None,
            (SearchStep::Found(id), _) => first_match(forest, rule, base) == Some(id),
            (SearchStep::Descend(id), rest) => exists|k: int|
                #![trigger forest[k]]
                0 <= k < forest.len() && (forest[k] matches Tree::Dir { id: dir, children, .. }
                    && dir == id && rest == entries(forest.skip(k + 1)) && first_match(
                    forest,
                    rule,
                    base,
                ) == first_match(children + forest.skip(k + 1), rule, base)),
        }),
    decreases forest.len(),
{
    if forest.len() > 0 {
        let tail = forest.subrange(1, forest.len() as int);
        assert(entries(forest)[0] == forest[0].entry());
        assert(entries(forest).skip(1) =~= entries(tail));
        match forest[0] {
            Tree::File { id, name } => {
                if !entry_matches(rule, (id, false, name), base) {
                    law_search_walks_depth_first(tail, rule, base);
                    match search_step(entries(tail), rule, base) {
                        (SearchStep::Descend(d), rest) => {
                            let k = choose|k: int|
                                #![trigger tail[k]]
                                0 <= k < tail.len() && (tail[k] matches Tree::Dir {
                                    id: dir,
                                    children,
                                    ..
                                } && dir == d && rest == entries(tail.skip(k + 1)) && first_match(
                                    tail,
                                    rule,
                                    base,
                                ) == first_match(children + tail.skip(k + 1), rule, base));
                            assert(forest[k + 1] == tail[k]);
                            assert(forest.skip(k + 2) =~= tail.skip(k + 1));
                        },
                        _ => {},
                    }
                }
            },
            Tree::Dir { id, children, .. } => {
                assert(forest.skip(1) =~= tail);
                lemma_first_match_concat(children, tail, rule, base);
                assert(forest[0] is Dir);
            },
        }
    }
}

/// Which file names a search takes. By stem, the names have to agree up to their
/// first dots, whatever follows. By archive, the file has to have the name that is
/// searched for, with nothing behind it or `.xz`, `.gz` or `.zst`.
pub proof fn law_names_are_compared(
    a: Seq<char>,
    x: Seq<char>,
    b: Seq<char>,
    y: Seq<char>,
    file: Seq<char>,
    base: Seq<char>,
)
    requires
        !a.contains('.'),
        !b.contains('.'),
    ensures
        name_matches(MatchRule::Stem, a + seq!['.'] + x, b + seq!['.'] + y) <==> a == b,
        name_matches(MatchRule::Stem, a, b + seq!['.'] + y) <==> a == b,
        name_matches(MatchRule::Stem, a + seq!['.'] + x, b) <==> a == b,
        name_matches(MatchRule::Archive, file, base) <==> file == base || file == base + seq![
            '.',
            'x',
            'z',
        ] || file == base + seq!['.', 'g', 'z'] || file == base + seq!['.', 'z', 's', 't'],
{
    text::law_text_before_first(a, x, '.');
    text::law_text_before_first(b, y, '.');
    reveal_strlit(".xz");
    reveal_strlit(".gz");
    reveal_strlit(".zst");
    assert(".xz"@ =~= seq!['.', 'x', 'z']);
    assert(".gz"@ =~= seq!['.', 'g', 'z']);
    assert(".zst"@ =~= seq!['.', 'z', 's', 't']);
}

/// What a step of a search comes to: it passes over the files that are not the one,
/// among them those without a valid name, and stops at the first entry that is a
/// directory or the file. All behind that entry stays pending, and where there is
/// no such entry the search has failed.
pub proof fn law_search_stops_at_first(
    passed: Seq<EntryView>,
    entry: EntryView,
    rest: Seq<EntryView>,
    rule: MatchRule,
    base: Seq<char>,
)
    requires
        forall|i: int|
            0 <= i < passed.len() ==> !(#[trigger] passed[i]).1 && (passed[i].2 matches Some(name)
                ==> !name_matches(rule, name, base)),
    ensures
        search_step(passed, rule, base).0 is NotFound,
        ({
            let (step, pending) = search_step(passed.push(entry) + rest, rule, base);
            &&& entry.1 ==> step == SearchStep::Descend(entry.0) && pending == rest
            &&& !entry.1 && (entry.2 matches Some(name) && name_matches(rule, name, base)) ==> step
                == SearchStep::Found(entry.0) && pending == rest
        }),
    decreases passed.len(),
{
    let all = passed.push(entry) + rest;
    if passed.len() > 0 {
        assert(!passed[0].1);
        let tail = passed.skip(1);
        assert forall|i: int| 0 <= i < tail.len() implies !(#[trigger] tail[i]).1 && (
        tail[i].2 matches Some(name) ==> !name_matches(rule, name, base)) by {
            assert(tail[i] == passed[i + 1]);
        }
        law_search_stops_at_first(tail, entry, rest, rule, base);
        assert(all[0] == passed[0]);
        assert(all.skip(1) =~= tail.push(entry) + rest);
    } else {
        assert(all[0] == entry);
        assert(all.skip(1) =~= rest);
    }
}

} // verus!
