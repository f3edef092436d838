//! The search for folders of a given name, wherever they lie: a walk that
//! needs no manifest. The search decides which directory is looked at next
//! and what is made of it; measuring and listing directories are the
//! caller's.

use vstd::prelude::*;
use crate::path::{join_path, joined};
use crate::text::{chars_of, same_text, slice_of, string_texts};

verus! {

/// A folder that the search found.
#[derive(Clone, Debug)]
pub struct Folder {
    pub path: String,
    /// The bytes in the folder, where they could be counted.
    pub size: Option<usize>,
    /// Whether the folder is being deleted, and is not to be shown.
    pub deleting: bool,
}

/// A folder as plain values.
pub struct FolderView {
    pub path: Seq<char>,
    pub size: Option<usize>,
    pub deleting: bool,
}

impl View for Folder {
    type V = FolderView;

    open spec fn view(&self) -> FolderView {
        FolderView { path: self.path@, size: self.size, deleting: self.deleting }
    }
}

/// The folders of a list as plain values.
pub open spec fn folder_views(folders: Seq<Folder>) -> Seq<FolderView> {
    folders.map_values(|f: Folder| f@)
}

/// What is made of a directory that the search comes by.
#[derive(Debug, Clone, Copy, PartialEq, Eq, Structural)]
pub enum Visit {
    /// It is passed over, with all that is under it.
    Skip,
    /// It is a folder of the wanted name: it is recorded, and the search
    /// does not go into it.
    Record,
    /// The search goes into it.
    Descend,
}

/// What the caller is to do next.
#[derive(Debug, Clone)]
pub enum Step {
    /// Count the bytes in the folder at `path`, and report them.
    Measure { path: String },
    /// Report the names of the directories in the directory at `path`:
    /// none where it is no directory or cannot be read.
    List { path: String },
    /// Nothing: the search is over.
    Done,
}

/// A step as plain values.
pub enum StepView {
    Measure { path: Seq<char> },
    List { path: Seq<char> },
    Done,
}

impl View for Step {
    type V = StepView;

    open spec fn view(&self) -> StepView {
        match self {
            Step::Measure { path } => StepView::Measure { path: path@ },
            Step::List { path } => StepView::List { path: path@ },
            Step::Done => StepView::Done,
        }
    }
}

/// A directory that the search has yet to look at.
struct Entry {
    path: String,
    depth: usize,
}

/// A directory and its depth as plain values.
pub struct EntryView {
    pub path: Seq<char>,
    pub depth: nat,
}

/// What the search waits for.
enum Awaiting {
    Nothing,
    Size(Entry),
    Children(Entry),
}

/// What the search waits for, as plain values.
pub enum AwaitingView {
    Nothing,
    /// The size of the folder that was found.
    Size(EntryView),
    /// The entries of the directory that the search goes into.
    Children(EntryView),
}

/// A search in progress.
pub struct FolderSearch {
    target: String,
    ignored: Vec<String>,
    stack: Vec<Entry>,
    awaiting: Awaiting,
    folders: Vec<Folder>,
}

/// A search as plain values.
pub struct SearchView {
    /// The name of the folders that are looked for.
    pub target: Seq<char>,
    /// The names of the directories that are passed over.
    pub ignored: Seq<Seq<char>>,
    /// The directories yet to be looked at, the next one last.
    pub stack: Seq<EntryView>,
    pub awaiting: AwaitingView,
    /// The folders found so far.
    pub folders: Seq<FolderView>,
}

/// How deep the search goes: a directory at this depth is not gone into.
pub open spec fn max_depth() -> nat {
    10
}

/// Whether a character separates the names of a path: the slash and the
/// backslash do.
pub open spec fn is_separator(c: char) -> bool {
    c == '/' || c == '\\'
}

/// Whether no character of `s` is a separator.
pub open spec fn separator_free(s: Seq<char>) -> bool {
    forall|k: int| 0 <= k < s.len() ==> !is_separator(#[trigger] s[k])
}

/// The name of the folder at `path`: what follows its last separator.
pub open spec fn folder_name(path: Seq<char>) -> Seq<char>
    decreases path.len(),
{
    if path.len() == 0 || is_separator(path.last()) {
        Seq::empty()
    } else {
        folder_name(path.drop_last()).push(path.last())
    }
}

/// Whether `name` stands in `path` at position `i` as a component: from a
/// separator or the beginning to a separator or the end.
pub open spec fn component_at(path: Seq<char>, name: Seq<char>, i: int) -> bool {
    &&& 0 <= i && i + name.len() <= path.len()
    &&& path.subrange(i, i + name.len()) == name
    &&& separator_free(name)
    &&& i == 0 || is_separator(path[i - 1])
    &&& i + name.len() == path.len() || is_separator(path[i + name.len()])
}

/// Whether `name` is one of the components of `path`.
pub open spec fn has_component(path: Seq<char>, name: Seq<char>) -> bool {
    exists|i: int| component_at(path, name, i)
}

/// Whether none of the `ignored` names is a component of `path`.
pub open spec fn clear_of(path: Seq<char>, ignored: Seq<Seq<char>>) -> bool {
    forall|j: int, i: int|
        0 <= j < ignored.len() ==> !#[trigger] component_at(path, ignored[j], i)
}

/// Whether none of the `ignored` names is a component of `path` other
/// than the last.
pub open spec fn clear_above(path: Seq<char>, ignored: Seq<Seq<char>>) -> bool {
    forall|j: int, i: int|
        0 <= j < ignored.len() && #[trigger] component_at(path, ignored[j], i) ==> i
            + ignored[j].len() == path.len()
}

/// What is made of the directory at `path`, `depth` levels below the start
/// of the search: one with an ignored name is passed over, whatever its
/// name is otherwise; one of the wanted name is recorded; any other is
/// gone into, unless it lies at the greatest depth.
pub open spec fn decision(
    path: Seq<char>,
    depth: nat,
    target: Seq<char>,
    ignored: Seq<Seq<char>>,
) -> Visit {
    if ignored.contains(folder_name(path)) {
        Visit::Skip
    } else if folder_name(path) == target {
        Visit::Record
    } else if depth < max_depth() {
        Visit::Descend
    } else {
        Visit::Skip
    }
}

/// The stack with the entries `names` of the directory `parent` on it, the
/// first of them on top, so that it is looked at next.
pub open spec fn pushed(stack: Seq<EntryView>, parent: EntryView, names: Seq<Seq<char>>) -> Seq<
    EntryView,
>
    decreases names.len(),
{
    if names.len() == 0 {
        stack
    } else {
        pushed(stack, parent, names.drop_first()).push(
            EntryView { path: joined(parent.path, names[0]), depth: parent.depth + 1 },
        )
    }
}

impl SearchView {
    /// The search at its start.
    pub open spec fn start(
        start_path: Seq<char>,
        target: Seq<char>,
        ignored: Seq<Seq<char>>,
    ) -> SearchView {
        SearchView {
            target,
            ignored,
            stack: seq![EntryView { path: start_path, depth: 0 }],
            awaiting: AwaitingView::Nothing,
            folders: Seq::empty(),
        }
    }

    /// The search after its next step, and the step: the directories on
    /// top of the stack that are passed over are dropped, and the first
    /// that is not is recorded or gone into. With nothing left, the search
    /// is over.
    pub open spec fn advance(self) -> (SearchView, StepView)
        decreases self.stack.len(),
    {
        if self.stack.len() == 0 {
            (SearchView { awaiting: AwaitingView::Nothing, ..self }, StepView::Done)
        } else {
            let top = self.stack.last();
            let rest = SearchView { stack: self.stack.drop_last(), ..self };
            match decision(top.path, top.depth, self.target, self.ignored) {
                Visit::Skip => rest.advance(),
                Visit::Record => (
                    SearchView { awaiting: AwaitingView::Size(top), ..rest },
                    StepView::Measure { path: top.path },
                ),
                Visit::Descend => (
                    SearchView { awaiting: AwaitingView::Children(top), ..rest },
                    StepView::List { path: top.path },
                ),
            }
        }
    }

    /// The search after the size of the folder that it found was reported:
    /// the folder is recorded. Nothing is recorded where no size is awaited.
    pub open spec fn measured(self, size: Option<usize>) -> SearchView {
        match self.awaiting {
            AwaitingView::Size(entry) => SearchView {
                awaiting: AwaitingView::Nothing,
                folders: self.folders.push(FolderView { path: entry.path, size, deleting: false }),
                ..self
            },
            _ => SearchView { awaiting: AwaitingView::Nothing, ..self },
        }
    }

    /// The search after the entries of the directory that it goes into
    /// were reported: they are put on the stack. Nothing is where no
    /// entries are awaited.
    pub open spec fn listed(self, names: Seq<Seq<char>>) -> SearchView {
        match self.awaiting {
            AwaitingView::Children(entry) => if entry.depth < max_depth() {
                SearchView {
                    awaiting: AwaitingView::Nothing,
                    stack: pushed(self.stack, entry, names),
                    ..self
                }
            } else {
                SearchView { awaiting: AwaitingView::Nothing, ..self }
            },
            _ => SearchView { awaiting: AwaitingView::Nothing, ..self },
        }
    }

    /// No directory that is yet to be looked at, and no folder whose size
    /// is awaited, lies deeper than the search goes; a directory whose
    /// entries are awaited lies above that depth.
    pub open spec fn shallow(self) -> bool {
        &&& forall|k: int|
            0 <= k < self.stack.len() ==> (#[trigger] self.stack[k]).depth <= max_depth()
        &&& self.awaiting matches AwaitingView::Size(e) ==> e.depth <= max_depth()
        &&& self.awaiting matches AwaitingView::Children(e) ==> e.depth < max_depth()
    }

    /// No ignored name is a component of the path of a folder that was
    /// found or of the directory that is being looked at, nor a component
    /// other than the last of a path that is yet to be looked at.
    pub open spec fn clean(self) -> bool {
        &&& forall|k: int|
            0 <= k < self.folders.len() ==> clear_of(
                (#[trigger] self.folders[k]).path,
                self.ignored,
            )
        &&& forall|k: int|
            0 <= k < self.stack.len() ==> clear_above(
                (#[trigger] self.stack[k]).path,
                self.ignored,
            )
        &&& self.awaiting matches AwaitingView::Size(e) ==> clear_of(e.path, self.ignored)
        &&& self.awaiting matches AwaitingView::Children(e) ==> clear_of(e.path, self.ignored)
    }
}

/// A component at the end of a path is the name of its folder.
pub proof fn lemma_last_component(path: Seq<char>, name: Seq<char>, i: int)
    requires
        component_at(path, name, i),
        i + name.len() == path.len(),
    ensures
        folder_name(path) == name,
    decreases name.len(),
{
    if name.len() == 0 {
        if path.len() > 0 {
            assert(is_separator(path[i - 1]));
        }
        assert(folder_name(path) =~= name);
    } else {
        let p = path.drop_last();
        let n = name.drop_last();
        assert(path.last() == name.last()) by {
            assert(path.subrange(i, i + name.len())[name.len() - 1] == name[name.len() - 1]);
        }
        assert(!is_separator(name[name.len() - 1]));
        assert(p.subrange(i, i + n.len()) =~= n) by {
            assert forall|k: int| 0 <= k < n.len() implies p.subrange(i, i + n.len())[k]
                == n[k] by {
                assert(path.subrange(i, i + name.len())[k] == name[k]);
            }
        }
        assert(separator_free(n)) by {
            assert forall|k: int| 0 <= k < n.len() implies !is_separator(#[trigger] n[k]) by {
                assert(n[k] == name[k]);
            }
        }
        assert(component_at(p, n, i));
        lemma_last_component(p, n, i);
        assert(folder_name(path) =~= name);
    }
}

/// A path whose folder name is not ignored, and which has no ignored name
/// above it, has no ignored name at all.
pub proof fn lemma_clear_of(path: Seq<char>, ignored: Seq<Seq<char>>)
    requires
        clear_above(path, ignored),
        !ignored.contains(folder_name(path)),
    ensures
        clear_of(path, ignored),
{
    assert forall|j: int, i: int| 0 <= j < ignored.len() implies !#[trigger] component_at(
        path,
        ignored[j],
        i,
    ) by {
        if component_at(path, ignored[j], i) {
            lemma_last_component(path, ignored[j], i);
            assert(ignored.contains(ignored[j]));
        }
    }
}

/// An entry with a name free of separators, under a directory whose path
/// has no ignored component, has an ignored component at most at its end.
pub proof fn lemma_clear_above_child(parent: Seq<char>, name: Seq<char>, ignored: Seq<Seq<char>>)
    requires
        clear_of(parent, ignored),
        separator_free(name),
    ensures
        clear_above(joined(parent, name), ignored),
{
    let child = joined(parent, name);
    if name.len() > 0 {
        assert(!is_separator(name[0]));
    }
    assert forall|j: int, i: int|
        0 <= j < ignored.len() && #[trigger] component_at(child, ignored[j], i) implies i
        + ignored[j].len() == child.len() by {
        let n = ignored[j];
        if i + n.len() < child.len() {
            let e = i + n.len();
            assert(is_separator(child[e]));
            if parent.len() == 0 || parent.last() == '/' {
                assert(child =~= parent + name);
                if e >= parent.len() {
                    assert(child[e] == name[e - parent.len()]);
                }
                assert(e < parent.len());
            } else {
                assert(child =~= parent + seq!['/'] + name);
                if e > parent.len() {
                    assert(child[e] == name[e - parent.len() - 1]);
                }
                assert(e <= parent.len());
            }
            assert(parent.subrange(i, i + n.len()) =~= child.subrange(i, i + n.len()));
            if i > 0 {
                assert(parent[i - 1] == child[i - 1]);
            }
            if e < parent.len() {
                assert(parent[e] == child[e]);
            }
            assert(component_at(parent, n, i));
        }
    }
}

/// Putting the entries of a clean directory on the stack keeps the stack
/// free of ignored names above the last.
pub proof fn lemma_pushed_clear(
    stack: Seq<EntryView>,
    parent: EntryView,
    names: Seq<Seq<char>>,
    ignored: Seq<Seq<char>>,
)
    requires
        clear_of(parent.path, ignored),
        forall|k: int| 0 <= k < stack.len() ==> clear_above((#[trigger] stack[k]).path, ignored),
        forall|k: int| 0 <= k < names.len() ==> separator_free(#[trigger] names[k]),
    ensures
        forall|k: int|
            0 <= k < pushed(stack, parent, names).len() ==> clear_above(
                (#[trigger] pushed(stack, parent, names)[k]).path,
                ignored,
            ),
    decreases names.len(),
{
    if names.len() > 0 {
        let rest = names.drop_first();
        assert forall|k: int| 0 <= k < rest.len() implies separator_free(#[trigger] rest[k]) by {
            assert(rest[k] == names[k + 1]);
        }
        lemma_pushed_clear(stack, parent, rest, ignored);
        lemma_clear_above_child(parent.path, names[0], ignored);
        let inner = pushed(stack, parent, rest);
        let all = pushed(stack, parent, names);
        assert forall|k: int| 0 <= k < all.len() implies clear_above(
            (#[trigger] all[k]).path,
            ignored,
        ) by {
            if k < inner.len() {
                assert(all[k] == inner[k]);
            }
        }
    }
}

/// The stack of a search keeps within the depth that the search goes to
/// when the entries of a directory above that depth are put on it.
pub proof fn lemma_pushed_shallow(stack: Seq<EntryView>, parent: EntryView, names: Seq<Seq<char>>)
    requires
        parent.depth < max_depth(),
        forall|k: int| 0 <= k < stack.len() ==> (#[trigger] stack[k]).depth <= max_depth(),
    ensures
        forall|k: int|
            0 <= k < pushed(stack, parent, names).len() ==> (#[trigger] pushed(
                stack,
                parent,
                names,
            )[k]).depth <= max_depth(),
    decreases names.len(),
{
    if names.len() > 0 {
        lemma_pushed_shallow(stack, parent, names.drop_first());
        let inner = pushed(stack, parent, names.drop_first());
        let all = pushed(stack, parent, names);
        assert forall|k: int| 0 <= k < all.len() implies (#[trigger] all[k]).depth
            <= max_depth() by {
            if k < inner.len() {
                assert(all[k] == inner[k]);
            }
        }
    }
}

/// A step of a search within its depth leaves it within its depth.
pub proof fn lemma_advance_shallow(s: SearchView)
    requires
        s.shallow(),
    ensures
        s.advance().0.shallow(),
    decreases s.stack.len(),
{
    if s.stack.len() > 0 {
        let top = s.stack.last();
        let rest = SearchView { stack: s.stack.drop_last(), ..s };
        assert forall|k: int| 0 <= k < rest.stack.len() implies (#[trigger] rest.stack[k]).depth
            <= max_depth() by {
            assert(rest.stack[k] == s.stack[k]);
        }
        match decision(top.path, top.depth, s.target, s.ignored) {
            Visit::Skip => {
                let r = SearchView { awaiting: AwaitingView::Nothing, ..rest };
                lemma_advance_same(rest, r);
                lemma_advance_shallow(r);
            },
            _ => {},
        }
    }
}

/// The law of the depth: a search begins within its depth and stays
/// within it, whatever is reported to it. So no directory is looked at, and
/// no folder found, deeper than ten levels below the start, and no
/// directory at the tenth level is gone into.
pub proof fn lemma_search_stays_shallow(
    s: SearchView,
    size: Option<usize>,
    names: Seq<Seq<char>>,
    start_path: Seq<char>,
)
    requires
        s.shallow(),
    ensures
        SearchView::start(start_path, s.target, s.ignored).shallow(),
        s.advance().0.shallow(),
        s.measured(size).shallow(),
        s.listed(names).shallow(),
{
    lemma_advance_shallow(s);
    match s.awaiting {
        AwaitingView::Children(entry) => {
            if entry.depth < max_depth() {
                lemma_pushed_shallow(s.stack, entry, names);
            }
        },
        _ => {},
    }
}

/// A step of a clean search leaves it clean.
pub proof fn lemma_advance_clean(s: SearchView)
    requires
        s.clean(),
    ensures
        s.advance().0.clean(),
        s.advance().0.folders == s.folders,
        s.advance().0.ignored == s.ignored,
        s.advance().0.target == s.target,
    decreases s.stack.len(),
{
    if s.stack.len() > 0 {
        let top = s.stack.last();
        let rest = SearchView { stack: s.stack.drop_last(), ..s };
        assert forall|k: int| 0 <= k < rest.stack.len() implies clear_above(
            (#[trigger] rest.stack[k]).path,
            s.ignored,
        ) by {
            assert(rest.stack[k] == s.stack[k]);
        }
        match decision(top.path, top.depth, s.target, s.ignored) {
            Visit::Skip => {
                let r = SearchView { awaiting: AwaitingView::Nothing, ..rest };
                assert(r.clean());
                lemma_advance_same(rest, r);
                lemma_advance_clean(r);
            },
            _ => {
                lemma_clear_of(top.path, s.ignored);
            },
        }
    }
}

/// The next step does not depend on what the search waited for.
pub proof fn lemma_advance_same(a: SearchView, b: SearchView)
    requires
        a.stack == b.stack,
        a.target == b.target,
        a.ignored == b.ignored,
        a.folders == b.folders,
    ensures
        a.advance() == b.advance(),
    decreases a.stack.len(),
{
    if a.stack.len() > 0 {
        let ra = SearchView { stack: a.stack.drop_last(), ..a };
        let rb = SearchView { stack: b.stack.drop_last(), ..b };
        lemma_advance_same(ra, rb);
    }
}

/// The law of the search: as long as the names that are reported hold no
/// separator, a search that is clean stays clean. A search is clean at its
/// start where no ignored name is a component of the start path other
/// than its last; and in a clean search no folder that was found has an
/// ignored name among the components of its path.
pub proof fn lemma_search_stays_clean(
    s: SearchView,
    size: Option<usize>,
    names: Seq<Seq<char>>,
)
    requires
        s.clean(),
        forall|k: int| 0 <= k < names.len() ==> separator_free(#[trigger] names[k]),
    ensures
        s.advance().0.clean(),
        s.measured(size).clean(),
        s.listed(names).clean(),
        forall|k: int|
            0 <= k < s.folders.len() ==> clear_of((#[trigger] s.folders[k]).path, s.ignored),
{
    lemma_advance_clean(s);
    match s.awaiting {
        AwaitingView::Children(entry) => {
            lemma_pushed_clear(s.stack, entry, names, s.ignored);
        },
        _ => {},
    }
    let m = s.measured(size);
    assert forall|k: int| 0 <= k < m.folders.len() implies clear_of(
        (#[trigger] m.folders[k]).path,
        m.ignored,
    ) by {
        if k < s.folders.len() {
            assert(m.folders[k] == s.folders[k]);
        }
    }
}

/// Whether `c` separates the names of a path.
pub fn is_path_separator(c: char) -> (r: bool)
    ensures
        r == is_separator(c),
{
    c == '/' || c == '\\'
}

/// The name of the folder at `path`.
pub fn folder_name_of(path: &str) -> (name: Vec<char>)
    ensures
        name@ == folder_name(path@),
{
    let p = chars_of(path);
    let mut k: usize = p.len();
    assert(p@.subrange(k as int, p@.len() as int) =~= Seq::<char>::empty());
    assert(p@.take(k as int) =~= p@);
    while k > 0 && !is_path_separator(p[k - 1])
        invariant
            k <= p.len(),
            p@ == path@,
            folder_name(p@) == folder_name(p@.take(k as int)) + p@.subrange(
                k as int,
                p@.len() as int,
            ),
        decreases k,
    {
        proof {
            let t = p@.take(k as int);
            assert(t.drop_last() =~= p@.take(k as int - 1));
            assert(t.last() == p@[k as int - 1]);
            assert(folder_name(t.drop_last()).push(t.last()) + p@.subrange(
                k as int,
                p@.len() as int,
            ) =~= folder_name(t.drop_last()) + p@.subrange(k as int - 1, p@.len() as int));
        }
        k = k - 1;
    }
    proof {
        let t = p@.take(k as int);
        assert(folder_name(t) =~= Seq::<char>::empty());
        assert(Seq::<char>::empty() + p@.subrange(k as int, p@.len() as int) =~= p@.subrange(
            k as int,
            p@.len() as int,
        ));
    }
    slice_of(&p, k, p.len())
}

/// Whether `name` is one of the names of the list.
pub fn is_listed(name: &Vec<char>, list: &Vec<String>) -> (r: bool)
    ensures
        r == string_texts(list@).contains(name@),
{
    let mut k: usize = 0;
    while k < list.len()
        invariant
            k <= list.len(),
            forall|i: int| 0 <= i < k ==> string_texts(list@)[i] != name@,
        decreases list.len() - k,
    {
        let other = chars_of(list[k].as_str());
        if same_text(name, &other) {
            assert(string_texts(list@)[k as int] == name@);
            return true;
        }
        k = k + 1;
    }
    false
}

/// What is made of the directory at `path`, `depth` levels below the start
/// of the search.
pub fn visit_decision(path: &str, depth: usize, target_folder: &str, ignored_folders: &Vec<
    String,
>) -> (visit: Visit)
    ensures
        visit == decision(path@, depth as nat, target_folder@, string_texts(ignored_folders@)),
{
    let name = folder_name_of(path);
    let target = chars_of(target_folder);
    if is_listed(&name, ignored_folders) {
        Visit::Skip
    } else if same_text(&name, &target) {
        Visit::Record
    } else if depth < 10 {
        Visit::Descend
    } else {
        Visit::Skip
    }
}

impl View for Entry {
    type V = EntryView;

    closed spec fn view(&self) -> EntryView {
        EntryView { path: self.path@, depth: self.depth as nat }
    }
}

impl View for Awaiting {
    type V = AwaitingView;

    closed spec fn view(&self) -> AwaitingView {
        match self {
            Awaiting::Nothing => AwaitingView::Nothing,
            Awaiting::Size(e) => AwaitingView::Size(e@),
            Awaiting::Children(e) => AwaitingView::Children(e@),
        }
    }
}

impl View for FolderSearch {
    type V = SearchView;

    closed spec fn view(&self) -> SearchView {
        SearchView {
            target: self.target@,
            ignored: string_texts(self.ignored@),
            stack: self.stack@.map_values(|e: Entry| e@),
            awaiting: self.awaiting@,
            folders: folder_views(self.folders@),
        }
    }
}

impl FolderSearch {
    /// A search for the folders named `target_folder` at and under
    /// `start_path`, which passes over the directories with one of the
    /// names `ignored_folders`.
    pub fn new(start_path: &str, target_folder: &str, ignored_folders: &Vec<String>) -> (search:
        FolderSearch)
        ensures
            search@ == SearchView::start(
                start_path@,
                target_folder@,
                string_texts(ignored_folders@),
            ),
            clear_above(start_path@, string_texts(ignored_folders@)) ==> search@.clean(),
            search@.shallow(),
    {
        let mut ignored: Vec<String> = Vec::new();
        let mut k: usize = 0;
        assert(string_texts(ignored@) =~= string_texts(ignored_folders@).take(0));
        while k < ignored_folders.len()
            invariant
                k <= ignored_folders.len(),
                string_texts(ignored@) == string_texts(ignored_folders@).take(k as int),
            decreases ignored_folders.len() - k,
        {
            let ghost before = string_texts(ignored@);
            ignored.push(ignored_folders[k].clone());
            assert(string_texts(ignored@) =~= before.push(ignored_folders@[k as int]@));
            k = k + 1;
            assert(string_texts(ignored@) =~= string_texts(ignored_folders@).take(k as int));
        }
        assert(string_texts(ignored_folders@).take(k as int) =~= string_texts(ignored_folders@));
        let mut stack: Vec<Entry> = Vec::new();
        stack.push(Entry { path: start_path.to_owned(), depth: 0 });
        let search = FolderSearch {
            target: target_folder.to_owned(),
            ignored,
            stack,
            awaiting: Awaiting::Nothing,
            folders: Vec::new(),
        };
        proof {
            assert(search@.stack =~= seq![EntryView { path: start_path@, depth: 0 }]);
            assert(search@.folders =~= Seq::<FolderView>::empty());
        }
        search
    }

    /// The folders found so far, in the order in which they were found.
    pub fn folders(&self) -> (folders: &Vec<Folder>)
        ensures
            folder_views(folders@) == self@.folders,
            self@.clean() ==> forall|k: int|
                0 <= k < folders@.len() ==> clear_of((#[trigger] folders@[k]).path@, self@.ignored),
    {
        proof {
            assert forall|k: int| 0 <= k < self.folders@.len() && self@.clean() implies clear_of(
                (#[trigger] self.folders@[k]).path@,
                self@.ignored,
            ) by {
                assert(self@.folders[k].path == self.folders@[k].path@);
            }
        }
        &self.folders
    }

    /// Ends the search: the folders that were found.
    pub fn into_folders(self) -> (folders: Vec<Folder>)
        ensures
            folder_views(folders@) == self@.folders,
            self@.clean() ==> forall|k: int|
                0 <= k < folders@.len() ==> clear_of((#[trigger] folders@[k]).path@, self@.ignored),
    {
        proof {
            assert forall|k: int| 0 <= k < self.folders@.len() && self@.clean() implies clear_of(
                (#[trigger] self.folders@[k]).path@,
                self@.ignored,
            ) by {
                assert(self@.folders[k].path == self.folders@[k].path@);
            }
        }
        self.folders
    }

    /// Takes the next step of the search, and says what the caller is to
    /// do for it.
    pub fn next_step(&mut self) -> (step: Step)
        ensures
            (final(self)@, step@) == old(self)@.advance(),
            old(self)@.clean() ==> final(self)@.clean(),
            old(self)@.shallow() ==> final(self)@.shallow(),
    {
        proof {
            if old(self)@.shallow() {
                lemma_advance_shallow(old(self)@);
            }
            lemma_advance_same(
                old(self)@,
                SearchView { awaiting: AwaitingView::Nothing, ..old(self)@ },
            );
            if old(self)@.clean() {
                lemma_advance_clean(old(self)@);
            }
        }
        self.awaiting = Awaiting::Nothing;
        let mut step = Step::Done;
        loop
            invariant_except_break
                self@.advance() == old(self)@.advance(),
                self.awaiting is Nothing,
            ensures
                (self@, step@) == old(self)@.advance(),
            decreases self.stack.len(),
        {
            let ghost before = self@;
            match self.stack.pop() {
                None => {
                    assert(before.stack.len() == 0);
                    step = Step::Done;
                    break;
                },
                Some(entry) => {
                    proof {
                        assert(before.stack.last() == entry@);
                        assert(self@.stack =~= before.stack.drop_last());
                    }
                    let visit = visit_decision(
                        entry.path.as_str(),
                        entry.depth,
                        self.target.as_str(),
                        &self.ignored,
                    );
                    match visit {
                        Visit::Skip => {},
                        Visit::Record => {
                            step = Step::Measure { path: entry.path.clone() };
                            self.awaiting = Awaiting::Size(entry);
                            break;
                        },
                        Visit::Descend => {
                            step = Step::List { path: entry.path.clone() };
                            self.awaiting = Awaiting::Children(entry);
                            break;
                        },
                    }
                },
            }
        }
        step
    }

    /// Records the folder that was found, with its size where it could be
    /// counted.
    pub fn measured(&mut self, size: Option<usize>)
        ensures
            final(self)@ == old(self)@.measured(size),
            old(self)@.clean() ==> final(self)@.clean(),
            old(self)@.shallow() ==> final(self)@.shallow(),
    {
        proof {
            if old(self)@.clean() {
                lemma_search_stays_clean(old(self)@, size, Seq::empty());
            }
        }
        let mut awaiting = Awaiting::Nothing;
        std::mem::swap(&mut awaiting, &mut self.awaiting);
        match awaiting {
            Awaiting::Size(entry) => {
                let ghost before = folder_views(self.folders@);
                self.folders.push(Folder { path: entry.path, size, deleting: false });
                assert(folder_views(self.folders@) =~= before.push(
                    FolderView { path: entry@.path, size, deleting: false },
                ));
            },
            _ => {},
        }
    }

    /// Puts the directories in the directory that the search goes into on
    /// its list, by their names, in their order.
    pub fn listed(&mut self, names: Vec<String>)
        ensures
            final(self)@ == old(self)@.listed(string_texts(names@)),
            old(self)@.clean() && (forall|k: int|
                0 <= k < names@.len() ==> separator_free(#[trigger] names@[k]@))
                ==> final(self)@.clean(),
            old(self)@.shallow() ==> final(self)@.shallow(),
    {
        proof {
            if old(self)@.shallow() {
                lemma_search_stays_shallow(old(self)@, None, string_texts(names@), Seq::empty());
            }
            if old(self)@.clean() && (forall|k: int|
                0 <= k < names@.len() ==> separator_free(#[trigger] names@[k]@)) {
                assert forall|k: int| 0 <= k < string_texts(names@).len() implies separator_free(
                    #[trigger] string_texts(names@)[k],
                ) by {
                    assert(string_texts(names@)[k] == names@[k]@);
                }
                lemma_search_stays_clean(old(self)@, None, string_texts(names@));
            }
        }
        let mut awaiting = Awaiting::Nothing;
        std::mem::swap(&mut awaiting, &mut self.awaiting);
        match awaiting {
            Awaiting::Children(entry) => {
                if entry.depth < 10 {
                    let ghost start = self@.stack;
                    let ghost all = string_texts(names@);
                    let mut k: usize = names.len();
                    assert(all.skip(k as int) =~= Seq::<Seq<char>>::empty());
                    while k > 0
                        invariant
                            k <= names.len(),
                            all == string_texts(names@),
                            entry.depth < 10,
                            self@.stack == pushed(start, entry@, all.skip(k as int)),
                            self@.target == old(self)@.target,
                            self@.ignored == old(self)@.ignored,
                            self@.folders == old(self)@.folders,
                            self@.awaiting == AwaitingView::Nothing,
                        decreases k,
                    {
                        k = k - 1;
                        let ghost before = self@.stack;
                        let child = Entry {
                            path: join_path(entry.path.as_str(), names[k].as_str()),
                            depth: entry.depth + 1,
                        };
                        self.stack.push(child);
                        proof {
                            assert(all.skip(k as int).drop_first() =~= all.skip(k as int + 1));
                            assert(all.skip(k as int)[0] == names@[k as int]@);
                            assert(self@.stack =~= before.push(child@));
                        }
                    }
                    assert(all.skip(0) =~= all);
                }
            },
            _ => {},
        }
    }
}

/// An entry of a folder, for the count of its bytes.
#[derive(Debug, Clone, Copy, PartialEq, Eq, Structural)]
pub enum FolderEntry {
    /// A regular file of this size.
    File(usize),
    /// A directory with this many bytes in it, and `None` where they could
    /// not be counted.
    Directory(Option<usize>),
    /// A symbolic link, or anything else: it counts nothing.
    Other,
}

/// What an entry adds to the bytes of its folder.
pub open spec fn entry_size(entry: FolderEntry) -> nat {
    match entry {
        FolderEntry::File(n) => n as nat,
        FolderEntry::Directory(Some(n)) => n as nat,
        _ => 0,
    }
}

/// The bytes in a folder with these entries.
pub open spec fn folder_size(entries: Seq<FolderEntry>) -> nat
    decreases entries.len(),
{
    if entries.len() == 0 {
        0
    } else {
        folder_size(entries.drop_last()) + entry_size(entries.last())
    }
}

/// The first entries of a folder never hold more than all of them.
pub proof fn lemma_folder_size_grows(entries: Seq<FolderEntry>, k: int)
    requires
        0 <= k <= entries.len(),
    ensures
        folder_size(entries.take(k)) <= folder_size(entries),
    decreases entries.len() - k,
{
    if k < entries.len() {
        lemma_folder_size_grows(entries, k + 1);
        assert(entries.take(k + 1).drop_last() =~= entries.take(k));
    } else {
        assert(entries.take(k) =~= entries);
    }
}

/// The bytes in a folder from its entries: the sizes of its regular files
/// and of its directories. Symbolic links count nothing, and neither does
/// a directory whose bytes could not be counted. `None` where the count
/// does not fit a machine word.
pub fn calculate_folder_size(entries: &Vec<FolderEntry>) -> (total: Option<usize>)
    ensures
        total is Some <==> folder_size(entries@) <= usize::MAX,
        total is Some ==> total->0 == folder_size(entries@),
{
    let mut total: usize = 0;
    let mut k: usize = 0;
    assert(entries@.take(0) =~= Seq::<FolderEntry>::empty());
    while k < entries.len()
        invariant
            k <= entries.len(),
            total == folder_size(entries@.take(k as int)),
        decreases entries.len() - k,
    {
        proof {
            assert(entries@.take(k as int + 1).drop_last() =~= entries@.take(k as int));
            lemma_folder_size_grows(entries@, k as int + 1);
        }
        let n: usize = match entries[k] {
            FolderEntry::File(n) => n,
            FolderEntry::Directory(Some(n)) => n,
            _ => 0,
        };
        if n > usize::MAX - total {
            return None;
        }
        total = total + n;
        k = k + 1;
    }
    assert(entries@.take(k as int) =~= entries@);
    Some(total)
}

} // verus!
