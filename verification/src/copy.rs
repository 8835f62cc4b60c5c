//! Copying a directory with all that is in it, one operation at a time.

use vstd::prelude::*;
use vstd::string::*;

use crate::slot::{join_path, joined_path};
use crate::text::{concat, concat3};

verus! {

/// One entry of a directory.
#[derive(Debug, PartialEq, Eq)]
pub struct DirEntry {
    /// The bytes of its name.
    pub raw_name: Vec<u8>,
    /// Its name as it is shown.
    pub shown: String,
    /// Whether what is shown is its name exactly: whether its name is valid Unicode.
    pub is_utf8: bool,
    /// Whether it is a directory.
    pub is_dir: bool,
}

/// The content of a `DirEntry`.
pub ghost struct EntryView {
    pub raw_name: Seq<u8>,
    pub shown: Seq<char>,
    pub is_utf8: bool,
    pub is_dir: bool,
}

impl DeepView for DirEntry {
    type V = EntryView;

    open spec fn deep_view(&self) -> EntryView {
        EntryView {
            raw_name: self.raw_name@,
            shown: self.shown@,
            is_utf8: self.is_utf8,
            is_dir: self.is_dir,
        }
    }
}

/// One entry of a listing, or why it could not be read.
pub open spec fn listed(item: Result<DirEntry, String>) -> Result<EntryView, Seq<char>> {
    match item {
        Ok(entry) => Ok(entry.deep_view()),
        Err(e) => Err(e@),
    }
}

/// Something that is still to be copied.
#[derive(Debug, PartialEq, Eq)]
pub enum Task {
    /// A directory, with all that is in it.
    Dir { from: String, to: String },
    /// A file, from one directory to another.
    File { from: String, to: String, raw_name: Vec<u8>, shown: String },
    /// An entry that could not be read.
    Unreadable(String),
}

/// The content of a `Task`.
pub ghost enum TaskView {
    /// A directory, with all that is in it.
    Dir { from: Seq<char>, to: Seq<char> },
    /// A file, from one directory to another.
    File { from: Seq<char>, to: Seq<char>, raw_name: Seq<u8>, shown: Seq<char> },
    /// An entry that could not be read.
    Unreadable(Seq<char>),
}

impl DeepView for Task {
    type V = TaskView;

    open spec fn deep_view(&self) -> TaskView {
        match self {
            Task::Dir { from, to } => TaskView::Dir { from: from@, to: to@ },
            Task::File { from, to, raw_name, shown } => TaskView::File {
                from: from@,
                to: to@,
                raw_name: raw_name@,
                shown: shown@,
            },
            Task::Unreadable(e) => TaskView::Unreadable(e@),
        }
    }
}

/// What is to be done next.
#[derive(Debug, PartialEq, Eq)]
pub enum CopyAction<'a> {
    /// Create a directory and the directories above it.
    CreateDirAll(&'a str),
    /// List a directory.
    ReadDir(&'a str),
    /// Copy the file of that name from one directory to another.
    CopyFile { from: &'a str, to: &'a str, raw_name: &'a Vec<u8> },
    /// Nothing more: the copy has ended.
    Finished(Result<(), String>),
}

/// The content of a `CopyAction`; a copy that ended well has no failure.
pub ghost enum CopyActionView {
    CreateDirAll(Seq<char>),
    ReadDir(Seq<char>),
    CopyFile { from: Seq<char>, to: Seq<char>, raw_name: Seq<u8> },
    Finished(Option<Seq<char>>),
}

impl<'a> DeepView for CopyAction<'a> {
    type V = CopyActionView;

    open spec fn deep_view(&self) -> CopyActionView {
        match self {
            CopyAction::CreateDirAll(path) => CopyActionView::CreateDirAll(path@),
            CopyAction::ReadDir(path) => CopyActionView::ReadDir(path@),
            CopyAction::CopyFile { from, to, raw_name } => CopyActionView::CopyFile {
                from: from@,
                to: to@,
                raw_name: raw_name@,
            },
            CopyAction::Finished(Ok(_)) => CopyActionView::Finished(None),
            CopyAction::Finished(Err(e)) => CopyActionView::Finished(Some(e@)),
        }
    }
}

/// What came back from the last action.
#[derive(Debug, PartialEq, Eq)]
pub enum CopyEvent {
    /// It was done.
    Done,
    /// It failed, in the words of the system.
    Failed(String),
    /// The entries of the directory that was listed.
    Entries(Vec<Result<DirEntry, String>>),
}

/// The content of a `CopyEvent`.
pub ghost enum CopyEventView {
    Done,
    Failed(Seq<char>),
    Entries(Seq<Result<EntryView, Seq<char>>>),
}

impl DeepView for CopyEvent {
    type V = CopyEventView;

    open spec fn deep_view(&self) -> CopyEventView {
        match self {
            CopyEvent::Done => CopyEventView::Done,
            CopyEvent::Failed(e) => CopyEventView::Failed(e@),
            CopyEvent::Entries(items) => CopyEventView::Entries(
                items@.map_values(|item: Result<DirEntry, String>| listed(item)),
            ),
        }
    }
}

/// Where a copy stands.
pub ghost struct CopyView {
    /// What is still to be copied, in order.
    pub todo: Seq<TaskView>,
    /// Whether the target of the directory that comes next has been created.
    pub created: bool,
    /// The error that the copy has ended with.
    pub failure: Option<Seq<char>>,
}

/// A copy that has ended with an error.
pub open spec fn copy_failed(e: Seq<char>) -> CopyView {
    CopyView { todo: Seq::empty(), created: false, failure: Some(e) }
}

/// A copy that turns to what is still to be copied.
pub open spec fn copy_of(todo: Seq<TaskView>) -> CopyView {
    if todo.len() > 0 && todo.first() is Unreadable {
        copy_failed("Failed to read entry: "@ + todo.first()->Unreadable_0)
    } else {
        CopyView { todo, created: false, failure: None }
    }
}

/// The path of a directory below `base`; a name that is not valid Unicode gives none.
pub open spec fn path_below(base: Seq<char>, entry: EntryView) -> Seq<char> {
    if entry.is_utf8 {
        joined_path(base, entry.shown)
    } else {
        Seq::empty()
    }
}

/// What an entry of the directory `from` asks for when it is copied to `to`.
pub open spec fn task_for(
    from: Seq<char>,
    to: Seq<char>,
    item: Result<EntryView, Seq<char>>,
) -> TaskView {
    match item {
        Err(e) => TaskView::Unreadable(e),
        Ok(entry) => if entry.is_dir {
            TaskView::Dir { from: path_below(from, entry), to: path_below(to, entry) }
        } else {
            TaskView::File { from, to, raw_name: entry.raw_name, shown: entry.shown }
        },
    }
}

/// What the entries of the directory `from` ask for when they are copied to `to`.
pub open spec fn tasks_for(
    from: Seq<char>,
    to: Seq<char>,
    items: Seq<Result<EntryView, Seq<char>>>,
) -> Seq<TaskView> {
    items.map_values(|item: Result<EntryView, Seq<char>>| task_for(from, to, item))
}

/// What a copy does next.
pub open spec fn copy_action_of(copy: CopyView) -> CopyActionView {
    if copy.todo.len() == 0 {
        CopyActionView::Finished(copy.failure)
    } else {
        match copy.todo.first() {
            TaskView::Dir { from, to } => if copy.created {
                CopyActionView::ReadDir(from)
            } else {
                CopyActionView::CreateDirAll(to)
            },
            TaskView::File { from, to, raw_name, shown } => CopyActionView::CopyFile {
                from,
                to,
                raw_name,
            },
            TaskView::Unreadable(e) => CopyActionView::Finished(
                Some("Failed to read entry: "@ + e),
            ),
        }
    }
}

/// Where a copy stands once `event` has come back. The first failure ends it.
pub open spec fn copy_after(copy: CopyView, event: CopyEventView) -> CopyView {
    let rest = copy.todo.drop_first();
    if copy.todo.len() == 0 {
        copy
    } else {
        match (copy.todo.first(), event) {
            (TaskView::Unreadable(_), _) => copy,
            (TaskView::File { from, to, raw_name, shown }, CopyEventView::Failed(e)) => {
                copy_failed("Failed to copy file "@ + joined_path(from, shown) + ": "@ + e)
            },
            (TaskView::File { .. }, _) => copy_of(rest),
            (TaskView::Dir { from, to }, CopyEventView::Failed(e)) => if copy.created {
                copy_failed("Failed to read src dir "@ + from + ": "@ + e)
            } else {
                copy_failed("Failed to create dir "@ + to + ": "@ + e)
            },
            (TaskView::Dir { from, to }, CopyEventView::Entries(items)) => if copy.created {
                copy_of(tasks_for(from, to, items) + rest)
            } else {
                CopyView { created: true, ..copy }
            },
            (TaskView::Dir { .. }, CopyEventView::Done) => if copy.created {
                copy_of(rest)
            } else {
                CopyView { created: true, ..copy }
            },
        }
    }
}

/// The copy of a directory that is being carried out.
#[derive(Debug, PartialEq, Eq)]
pub struct TreeCopy {
    todo: Vec<Task>,
    created: bool,
    failure: Option<String>,
}

impl TreeCopy {
    /// Where the copy stands.
    pub closed spec fn position(&self) -> CopyView {
        CopyView {
            todo: self.todo.deep_view(),
            created: self.created,
            failure: self.failure.deep_view(),
        }
    }

    /// A copy that has ended with an error.
    fn failed(e: String) -> (r: TreeCopy)
        ensures
            r.position() == copy_failed(e@),
    {
        let r = TreeCopy { todo: Vec::new(), created: false, failure: Some(e) };
        assert(r.todo.deep_view() =~= Seq::empty());
        r
    }

    /// A copy that turns to what is still to be copied.
    fn of(todo: Vec<Task>) -> (r: TreeCopy)
        ensures
            r.position() == copy_of(todo.deep_view()),
    {
        if todo.len() > 0 {
            assert(todo.deep_view().first() == todo[0].deep_view());
            if let Task::Unreadable(e) = &todo[0] {
                return TreeCopy::failed(concat("Failed to read entry: ", e.as_str()));
            }
        }
        TreeCopy { todo, created: false, failure: None }
    }

    /// What is to be done next.
    pub fn action(&self) -> (r: CopyAction<'_>)
        ensures
            r.deep_view() == copy_action_of(self.position()),
    {
        if self.todo.len() == 0 {
            return match &self.failure {
                Some(e) => CopyAction::Finished(Err(e.clone())),
                None => CopyAction::Finished(Ok(())),
            };
        }
        assert(self.position().todo.first() == self.todo[0].deep_view());
        match &self.todo[0] {
            Task::Dir { from, to } => if self.created {
                CopyAction::ReadDir(from.as_str())
            } else {
                CopyAction::CreateDirAll(to.as_str())
            },
            Task::File { from, to, raw_name, shown: _ } => CopyAction::CopyFile {
                from: from.as_str(),
                to: to.as_str(),
                raw_name,
            },
            Task::Unreadable(e) => CopyAction::Finished(
                Err(concat("Failed to read entry: ", e.as_str())),
            ),
        }
    }

    /// Takes in what came back from the last action.
    pub fn advance(self, event: CopyEvent) -> (r: TreeCopy)
        ensures
            r.position() == copy_after(self.position(), event.deep_view()),
    {
        if self.todo.len() == 0 {
            return self;
        }
        let ghost before = self.position();
        let mut rest = self.todo;
        let task = rest.remove(0);
        proof {
            assert(before.todo.first() == task.deep_view());
            assert(rest.deep_view() =~= before.todo.drop_first());
        }
        match task {
            Task::Unreadable(e) => {
                rest.insert(0, Task::Unreadable(e));
                let r = TreeCopy { todo: rest, created: self.created, failure: self.failure };
                assert(r.todo.deep_view() =~= before.todo);
                r
            },
            Task::File { from, to: _, raw_name: _, shown } => match event {
                CopyEvent::Failed(e) => {
                    let path = join_path(from.as_str(), shown.as_str());
                    let mut text = concat3("Failed to copy file ", path.as_str(), ": ");
                    text.append(e.as_str());
                    TreeCopy::failed(text)
                },
                _ => TreeCopy::of(rest),
            },
            Task::Dir { from, to } => match event {
                CopyEvent::Failed(e) => {
                    let mut text = if self.created {
                        concat3("Failed to read src dir ", from.as_str(), ": ")
                    } else {
                        concat3("Failed to create dir ", to.as_str(), ": ")
                    };
                    text.append(e.as_str());
                    TreeCopy::failed(text)
                },
                CopyEvent::Entries(items) => {
                    if self.created {
                        let mut todo = tasks(from.as_str(), to.as_str(), items);
                        let ghost first = todo.deep_view();
                        todo.append(&mut rest);
                        assert(todo.deep_view() =~= first + before.todo.drop_first());
                        TreeCopy::of(todo)
                    } else {
                        rest.insert(0, Task::Dir { from, to });
                        let r = TreeCopy { todo: rest, created: true, failure: self.failure };
                        assert(r.todo.deep_view() =~= before.todo);
                        r
                    }
                },
                CopyEvent::Done => {
                    if self.created {
                        TreeCopy::of(rest)
                    } else {
                        rest.insert(0, Task::Dir { from, to });
                        let r = TreeCopy { todo: rest, created: true, failure: self.failure };
                        assert(r.todo.deep_view() =~= before.todo);
                        r
                    }
                },
            },
        }
    }
}

/// The path of a directory below `base`; a name that is not valid Unicode gives none.
fn subdirectory(base: &str, entry: &DirEntry) -> (r: String)
    ensures
        r@ == path_below(base@, entry.deep_view()),
{
    if entry.is_utf8 {
        join_path(base, entry.shown.as_str())
    } else {
        String::new()
    }
}

/// What the entries of the directory `from` ask for when they are copied to `to`.
fn tasks(from: &str, to: &str, items: Vec<Result<DirEntry, String>>) -> (r: Vec<Task>)
    ensures
        r.deep_view() == tasks_for(
            from@,
            to@,
            items@.map_values(|item: Result<DirEntry, String>| listed(item)),
        ),
{
    let ghost all = tasks_for(
        from@,
        to@,
        items@.map_values(|item: Result<DirEntry, String>| listed(item)),
    );
    let ghost given = items@;
    let mut rest = items;
    let mut r: Vec<Task> = Vec::new();
    while rest.len() > 0
        invariant
            all == tasks_for(
                from@,
                to@,
                given.map_values(|item: Result<DirEntry, String>| listed(item)),
            ),
            rest.len() + r.len() == given.len(),
            rest@ == given.skip(r.len() as int),
            r.deep_view() == all.take(r.len() as int),
        decreases rest.len(),
    {
        let ghost n = r.len() as int;
        let item = rest.remove(0);
        proof {
            assert(item == given[n]);
            assert(rest@ =~= given.skip(n + 1));
            assert(all[n] == task_for(from@, to@, listed(item)));
        }
        let task = match item {
            Err(e) => Task::Unreadable(e),
            Ok(entry) => if entry.is_dir {
                Task::Dir { from: subdirectory(from, &entry), to: subdirectory(to, &entry) }
            } else {
                Task::File {
                    from: from.to_string(),
                    to: to.to_string(),
                    raw_name: entry.raw_name,
                    shown: entry.shown,
                }
            },
        };
        assert(task.deep_view() == all[n]);
        r.push(task);
        assert(r.deep_view() =~= all.take(n + 1));
    }
    assert(all.take(r.len() as int) =~= all);
    r
}

/// Starts to copy the directory `src` with all that is in it to `dst`.
pub fn copy_dir_recursive(src: &str, dst: &str) -> (r: TreeCopy)
    ensures
        r.position() == copy_of(seq![TaskView::Dir { from: src@, to: dst@ }]),
{
    let todo = vec![Task::Dir { from: src.to_string(), to: dst.to_string() }];
    assert(todo.deep_view() =~= seq![TaskView::Dir { from: src@, to: dst@ }]);
    TreeCopy::of(todo)
}

/// A part of a directory tree.
pub ghost enum Node {
    File(EntryView),
    Dir(EntryView, Seq<Node>),
}

/// The entry that a listing shows for a part of a tree.
pub open spec fn entry_of(node: Node) -> EntryView {
    match node {
        Node::File(entry) => EntryView { is_dir: false, ..entry },
        Node::Dir(entry, _) => EntryView { is_dir: true, ..entry },
    }
}

/// The listing of a directory with the given parts.
pub open spec fn listing_of(nodes: Seq<Node>) -> Seq<Result<EntryView, Seq<char>>> {
    nodes.map_values(|n: Node| Ok::<EntryView, Seq<char>>(entry_of(n)))
}

/// What copying a directory takes: create its target, list it, copy its parts.
pub open spec fn tree_actions(from: Seq<char>, to: Seq<char>, nodes: Seq<Node>) -> Seq<
    CopyActionView,
>
    decreases nodes, 1int,
{
    seq![CopyActionView::CreateDirAll(to), CopyActionView::ReadDir(from)] + parts_actions(
        from,
        to,
        nodes,
    )
}

/// What copying the parts of a directory takes: each file goes to the directory of the
/// same place below the target, each directory is copied in the same way.
pub open spec fn parts_actions(from: Seq<char>, to: Seq<char>, nodes: Seq<Node>) -> Seq<
    CopyActionView,
>
    decreases nodes, 0int,
{
    if nodes.len() == 0 {
        Seq::empty()
    } else {
        (match nodes.first() {
            Node::File(entry) => seq![
                CopyActionView::CopyFile { from, to, raw_name: entry.raw_name },
            ],
            Node::Dir(entry, inner) => tree_actions(
                path_below(from, entry),
                path_below(to, entry),
                inner,
            ),
        }) + parts_actions(from, to, nodes.drop_first())
    }
}

/// What comes back when a directory is copied and nothing fails.
pub open spec fn tree_events(nodes: Seq<Node>) -> Seq<CopyEventView>
    decreases nodes, 1int,
{
    seq![CopyEventView::Done, CopyEventView::Entries(listing_of(nodes))] + parts_events(nodes)
}

/// What comes back when the parts of a directory are copied and nothing fails.
pub open spec fn parts_events(nodes: Seq<Node>) -> Seq<CopyEventView>
    decreases nodes, 0int,
{
    if nodes.len() == 0 {
        Seq::empty()
    } else {
        (match nodes.first() {
            Node::File(_) => seq![CopyEventView::Done],
            Node::Dir(_, inner) => tree_events(inner),
        }) + parts_events(nodes.drop_first())
    }
}

/// Where a copy stands once all of `events` have come back, one after the other.
pub open spec fn copy_after_all(copy: CopyView, events: Seq<CopyEventView>) -> CopyView
    decreases events.len(),
{
    if events.len() == 0 {
        copy
    } else {
        copy_after_all(copy_after(copy, events.first()), events.drop_first())
    }
}

/// What a copy does while `events` come back, one for each action.
pub open spec fn copy_actions(copy: CopyView, events: Seq<CopyEventView>) -> Seq<CopyActionView>
    decreases events.len(),
{
    if events.len() == 0 {
        Seq::empty()
    } else {
        seq![copy_action_of(copy)] + copy_actions(
            copy_after(copy, events.first()),
            events.drop_first(),
        )
    }
}

proof fn lemma_copy_splits(copy: CopyView, a: Seq<CopyEventView>, b: Seq<CopyEventView>)
    ensures
        copy_after_all(copy, a + b) == copy_after_all(copy_after_all(copy, a), b),
        copy_actions(copy, a + b) == copy_actions(copy, a) + copy_actions(
            copy_after_all(copy, a),
            b,
        ),
    decreases a.len(),
{
    if a.len() == 0 {
        assert(a + b =~= b);
        assert(copy_actions(copy, a) + copy_actions(copy, b) =~= copy_actions(copy, b));
    } else {
        assert((a + b).drop_first() =~= a.drop_first() + b);
        assert((a + b).first() == a.first());
        lemma_copy_splits(copy_after(copy, a.first()), a.drop_first(), b);
        assert(copy_actions(copy, a + b) =~= copy_actions(copy, a) + copy_actions(
            copy_after_all(copy, a),
            b,
        ));
    }
}

proof fn lemma_tree(from: Seq<char>, to: Seq<char>, nodes: Seq<Node>, rest: Seq<TaskView>)
    ensures
        ({
            let copy = copy_of(seq![TaskView::Dir { from, to }] + rest);
            &&& copy_after_all(copy, tree_events(nodes)) == copy_of(rest)
            &&& copy_actions(copy, tree_events(nodes)) == tree_actions(from, to, nodes)
        }),
    decreases nodes, 1int,
{
    let copy = copy_of(seq![TaskView::Dir { from, to }] + rest);
    let two = seq![CopyEventView::Done, CopyEventView::Entries(listing_of(nodes))];
    assert(copy.todo.first() == (TaskView::Dir { from, to }));
    assert(copy.todo.drop_first() =~= rest);
    let created = copy_after(copy, two[0]);
    assert(created == CopyView { created: true, ..copy });
    let listed = copy_after(created, two[1]);
    assert(listed == copy_of(tasks_for(from, to, listing_of(nodes)) + rest));
    assert(two.drop_first() =~= seq![two[1]]);
    assert(two.drop_first().drop_first() =~= Seq::empty());
    reveal_with_fuel(copy_after_all, 3);
    reveal_with_fuel(copy_actions, 3);
    assert(copy_after_all(copy, two) == listed);
    assert(copy_actions(copy, two) =~= seq![
        CopyActionView::CreateDirAll(to),
        CopyActionView::ReadDir(from),
    ]);
    lemma_copy_splits(copy, two, parts_events(nodes));
    lemma_parts(from, to, nodes, rest);
}

proof fn lemma_parts(from: Seq<char>, to: Seq<char>, nodes: Seq<Node>, rest: Seq<TaskView>)
    ensures
        ({
            let copy = copy_of(tasks_for(from, to, listing_of(nodes)) + rest);
            &&& copy_after_all(copy, parts_events(nodes)) == copy_of(rest)
            &&& copy_actions(copy, parts_events(nodes)) == parts_actions(from, to, nodes)
        }),
    decreases nodes, 0int,
{
    let all = tasks_for(from, to, listing_of(nodes)) + rest;
    let copy = copy_of(all);
    if nodes.len() == 0 {
        assert(all =~= rest);
    } else {
        let node = nodes.first();
        let task = task_for(from, to, Ok(entry_of(node)));
        let more = tasks_for(from, to, listing_of(nodes.drop_first())) + rest;
        assert(all =~= seq![task] + more);
        assert(all.first() == task);
        lemma_parts(from, to, nodes.drop_first(), rest);
        match node {
            Node::File(entry) => {
                let one = seq![CopyEventView::Done];
                assert(all.drop_first() =~= more);
                assert(one.drop_first() =~= Seq::empty());
                reveal_with_fuel(copy_after_all, 2);
                reveal_with_fuel(copy_actions, 2);
                assert(copy_after_all(copy, one) == copy_of(more));
                assert(copy_actions(copy, one) =~= seq![
                    CopyActionView::CopyFile { from, to, raw_name: entry.raw_name },
                ]);
                lemma_copy_splits(copy, one, parts_events(nodes.drop_first()));
            },
            Node::Dir(entry, inner) => {
                lemma_tree(path_below(from, entry), path_below(to, entry), inner, more);
                lemma_copy_splits(copy, tree_events(inner), parts_events(nodes.drop_first()));
            },
        }
    }
}

/// A copy during which nothing fails takes exactly what copying the tree takes, in that
/// order, and ends well: it creates every directory before anything goes into it, and
/// copies every file once. A directory whose name is not valid Unicode is listed and
/// created at the empty path.
pub proof fn copy_reproduces_tree(from: Seq<char>, to: Seq<char>, nodes: Seq<Node>)
    ensures
        ({
            let start = copy_of(seq![TaskView::Dir { from, to }]);
            &&& copy_actions(start, tree_events(nodes)) == tree_actions(from, to, nodes)
            &&& copy_action_of(copy_after_all(start, tree_events(nodes)))
                == CopyActionView::Finished(None)
        }),
{
    lemma_tree(from, to, nodes, Seq::empty());
    assert(seq![TaskView::Dir { from, to }] + Seq::<TaskView>::empty() =~= seq![
        TaskView::Dir { from, to },
    ]);
}

/// A failure ends a copy at once: nothing is done after it, and the error names what
/// failed.
pub proof fn failure_ends_copy(copy: CopyView, e: Seq<char>, later: Seq<CopyEventView>)
    requires
        !(copy_action_of(copy) is Finished),
    ensures
        ({
            let after = copy_after(copy, CopyEventView::Failed(e));
            &&& copy_action_of(copy_after_all(after, later)) == CopyActionView::Finished(
                after.failure,
            )
            &&& after.failure == Some(
                match copy_action_of(copy) {
                    CopyActionView::CreateDirAll(to) => "Failed to create dir "@ + to + ": "@ + e,
                    CopyActionView::ReadDir(from) => "Failed to read src dir "@ + from + ": "@ + e,
                    _ => "Failed to copy file "@ + joined_path(
                        copy.todo.first()->File_from,
                        copy.todo.first()->shown,
                    ) + ": "@ + e,
                },
            )
        }),
{
    let after = copy_after(copy, CopyEventView::Failed(e));
    lemma_ended_stays(after, later);
}

proof fn lemma_ended_stays(copy: CopyView, later: Seq<CopyEventView>)
    requires
        copy.todo.len() == 0,
    ensures
        copy_after_all(copy, later) == copy,
    decreases later.len(),
{
    if later.len() > 0 {
        lemma_ended_stays(copy, later.drop_first());
    }
}

proof fn lemma_action_at(copy: CopyView, events: Seq<CopyEventView>, k: int)
    requires
        0 <= k < events.len(),
    ensures
        copy_actions(copy, events).len() == events.len(),
        copy_actions(copy, events)[k] == copy_action_of(copy_after_all(copy, events.take(k))),
    decreases events.len(),
{
    let next = copy_after(copy, events.first());
    let later = events.drop_first();
    if later.len() > 0 {
        lemma_action_at(
            next,
            later,
            if k > 0 {
                k - 1
            } else {
                0
            },
        );
    } else {
        assert(copy_actions(next, later) =~= Seq::empty());
    }
    if k > 0 {
        assert(events.take(k).drop_first() =~= later.take(k - 1));
        assert(events.take(k).first() == events.first());
    }
}

proof fn lemma_tree_goes_on(from: Seq<char>, to: Seq<char>, nodes: Seq<Node>)
    ensures
        forall|i: int|
            0 <= i < tree_actions(from, to, nodes).len() ==> !(#[trigger] tree_actions(
                from,
                to,
                nodes,
            )[i] is Finished),
    decreases nodes, 1int,
{
    lemma_parts_go_on(from, to, nodes);
}

proof fn lemma_parts_go_on(from: Seq<char>, to: Seq<char>, nodes: Seq<Node>)
    ensures
        forall|i: int|
            0 <= i < parts_actions(from, to, nodes).len() ==> !(#[trigger] parts_actions(
                from,
                to,
                nodes,
            )[i] is Finished),
    decreases nodes, 0int,
{
    if nodes.len() > 0 {
        lemma_parts_go_on(from, to, nodes.drop_first());
        if let Node::Dir(entry, inner) = nodes.first() {
            assert(nodes.first() == nodes[0]);
            lemma_tree_goes_on(path_below(from, entry), path_below(to, entry), inner);
        }
    }
}

/// Whether each of `events` tells the tree, in the order in which a copy asks for it, or
/// a failure.
pub open spec fn tells_tree_or_failure(events: Seq<CopyEventView>, nodes: Seq<Node>) -> bool {
    forall|j: int|
        0 <= j < events.len() && j < tree_events(nodes).len() ==> #[trigger] events[j]
            == tree_events(nodes)[j] || events[j] is Failed
}

/// A copy that ends well has met no failure, whatever might have failed on the way: it
/// has been told the whole tree, has taken exactly what copying the tree takes, and has
/// done nothing after that.
pub proof fn finished_copy_is_complete(
    from: Seq<char>,
    to: Seq<char>,
    nodes: Seq<Node>,
    events: Seq<CopyEventView>,
)
    requires
        tells_tree_or_failure(events, nodes),
        copy_action_of(copy_after_all(copy_of(seq![TaskView::Dir { from, to }]), events))
            == CopyActionView::Finished(None),
    ensures
        ({
            let actions = copy_actions(copy_of(seq![TaskView::Dir { from, to }]), events);
            let n = tree_events(nodes).len() as int;
            &&& n <= events.len()
            &&& events.take(n) == tree_events(nodes)
            &&& actions.take(n) == tree_actions(from, to, nodes)
            &&& forall|j: int|
                n <= j < actions.len() ==> #[trigger] actions[j] == CopyActionView::Finished(None)
        }),
{
    let start = copy_of(seq![TaskView::Dir { from, to }]);
    let all = tree_events(nodes);
    let n = all.len() as int;
    copy_reproduces_tree(from, to, nodes);
    if events.len() < n {
        lemma_told_so_far(from, to, nodes, events, events.len() as int);
        assert(events.take(events.len() as int) =~= events);
        lemma_goes_on(from, to, nodes, events.len() as int);
        assert(false);
    }
    lemma_told_so_far(from, to, nodes, events, n);
    assert(all.take(n) =~= all);
    let rest = events.skip(n);
    let ended = copy_after_all(start, all);
    assert(events =~= all + rest);
    lemma_copy_splits(start, all, rest);
    lemma_tree(from, to, nodes, Seq::empty());
    assert(seq![TaskView::Dir { from, to }] + Seq::<TaskView>::empty() =~= seq![
        TaskView::Dir { from, to },
    ]);
    assert(ended.todo.len() == 0);
    let actions = copy_actions(start, events);
    lemma_action_at(start, all, 0);
    assert(actions.take(n) =~= tree_actions(from, to, nodes));
    assert forall|j: int| n <= j < actions.len() implies #[trigger] actions[j]
        == CopyActionView::Finished(None) by {
        lemma_action_at(start, events, 0);
        lemma_action_at(ended, rest, j - n);
        lemma_ended_stays(ended, rest.take(j - n));
    }
}

/// Before its end a copy that is told the tree has something to do.
proof fn lemma_goes_on(from: Seq<char>, to: Seq<char>, nodes: Seq<Node>, k: int)
    requires
        0 <= k < tree_events(nodes).len(),
    ensures
        !(copy_action_of(
            copy_after_all(
                copy_of(seq![TaskView::Dir { from, to }]),
                tree_events(nodes).take(k),
            ),
        ) is Finished),
{
    let start = copy_of(seq![TaskView::Dir { from, to }]);
    copy_reproduces_tree(from, to, nodes);
    lemma_tree_goes_on(from, to, nodes);
    lemma_action_at(start, tree_events(nodes), k);
}

proof fn lemma_told_so_far(
    from: Seq<char>,
    to: Seq<char>,
    nodes: Seq<Node>,
    events: Seq<CopyEventView>,
    k: int,
)
    requires
        tells_tree_or_failure(events, nodes),
        copy_action_of(copy_after_all(copy_of(seq![TaskView::Dir { from, to }]), events))
            == CopyActionView::Finished(None),
        0 <= k <= events.len(),
        k <= tree_events(nodes).len(),
    ensures
        events.take(k) == tree_events(nodes).take(k),
    decreases k,
{
    let start = copy_of(seq![TaskView::Dir { from, to }]);
    let all = tree_events(nodes);
    if k > 0 {
        let last = k - 1;
        lemma_told_so_far(from, to, nodes, events, last);
        if events[last] is Failed {
            let before = copy_after_all(start, events.take(last));
            let e = events[last]->Failed_0;
            let one = seq![events[last]];
            let later = events.skip(k);
            lemma_goes_on(from, to, nodes, last);
            failure_ends_copy(before, e, later);
            assert(events =~= events.take(last) + (one + later));
            lemma_copy_splits(start, events.take(last), one + later);
            assert((one + later).drop_first() =~= later);
            assert((one + later).first() == events[last]);
            assert(false);
        }
        assert(events[last] == all[last]);
        assert(events.take(k) =~= all.take(k));
    } else {
        assert(events.take(k) =~= all.take(k));
    }
}

/// Whether all directories of a tree have names that are valid Unicode.
pub open spec fn has_unicode_names(nodes: Seq<Node>) -> bool
    decreases nodes,
{
    forall|i: int|
        #![trigger nodes[i]]
        0 <= i < nodes.len() ==> match nodes[i] {
            Node::File(_) => true,
            Node::Dir(entry, inner) => entry.is_utf8 && has_unicode_names(inner),
        }
}

/// The path that `names` lead to from the directory `base`.
pub open spec fn path_along(base: Seq<char>, names: Seq<Seq<char>>) -> Seq<char>
    decreases names.len(),
{
    if names.len() == 0 {
        base
    } else {
        path_along(joined_path(base, names.first()), names.drop_first())
    }
}

/// Whether `names` lead from `from` to `a` and from `to` to `b`.
pub open spec fn leads_to(
    from: Seq<char>,
    to: Seq<char>,
    names: Seq<Seq<char>>,
    a: Seq<char>,
    b: Seq<char>,
) -> bool {
    a == path_along(from, names) && b == path_along(to, names)
}

/// Whether the tree has a file named `raw_name` in the directory that `names`, each
/// valid Unicode, lead to.
pub open spec fn has_file(nodes: Seq<Node>, names: Seq<Seq<char>>, raw_name: Seq<u8>) -> bool
    decreases names.len(),
{
    exists|i: int|
        #![trigger nodes[i]]
        0 <= i < nodes.len() && match nodes[i] {
            Node::File(entry) => names.len() == 0 && entry.raw_name == raw_name,
            Node::Dir(entry, inner) => names.len() > 0 && entry.is_utf8 && entry.shown
                == names.first() && has_file(inner, names.drop_first(), raw_name),
        }
}

/// Whether the tree has a file named `raw_name` whose place below `from` is the directory
/// `a`, and whose place below `to` is the directory `b`.
pub open spec fn in_same_place(
    from: Seq<char>,
    to: Seq<char>,
    nodes: Seq<Node>,
    a: Seq<char>,
    b: Seq<char>,
    raw_name: Seq<u8>,
) -> bool {
    exists|names: Seq<Seq<char>>|
        #[trigger] leads_to(from, to, names, a, b) && has_file(nodes, names, raw_name)
}

/// Whether every file that `actions` copy is one of the tree and goes from its place
/// below `from` to the same place below `to`.
pub open spec fn keep_places(
    from: Seq<char>,
    to: Seq<char>,
    nodes: Seq<Node>,
    actions: Seq<CopyActionView>,
) -> bool {
    forall|i: int|
        0 <= i < actions.len() ==> (#[trigger] actions[i] matches CopyActionView::CopyFile {
            from: a,
            to: b,
            raw_name,
        } ==> in_same_place(from, to, nodes, a, b, raw_name))
}

/// In a tree whose directories have names that are valid Unicode, whatever is copied is
/// a file of the tree, and goes to the same place below the target.
pub proof fn files_keep_their_place(from: Seq<char>, to: Seq<char>, nodes: Seq<Node>)
    requires
        has_unicode_names(nodes),
    ensures
        keep_places(from, to, nodes, tree_actions(from, to, nodes)),
    decreases nodes, 1int,
{
    lemma_parts_keep_their_place(from, to, nodes);
}

/// What copying one part of a directory takes.
spec fn part_actions(from: Seq<char>, to: Seq<char>, node: Node) -> Seq<CopyActionView> {
    match node {
        Node::File(entry) => seq![
            CopyActionView::CopyFile { from, to, raw_name: entry.raw_name },
        ],
        Node::Dir(entry, inner) => tree_actions(
            path_below(from, entry),
            path_below(to, entry),
            inner,
        ),
    }
}

proof fn lemma_parts_keep_their_place(from: Seq<char>, to: Seq<char>, nodes: Seq<Node>)
    requires
        has_unicode_names(nodes),
    ensures
        keep_places(from, to, nodes, parts_actions(from, to, nodes)),
    decreases nodes, 0int,
{
    if nodes.len() > 0 {
        let later = nodes.drop_first();
        assert forall|i: int| #![trigger later[i]] 0 <= i < later.len() implies match later[i] {
            Node::File(_) => true,
            Node::Dir(entry, inner) => entry.is_utf8 && has_unicode_names(inner),
        } by {
            assert(later[i] == nodes[i + 1]);
        }
        assert(has_unicode_names(later));
        lemma_parts_keep_their_place(from, to, later);
        assert(nodes.first() == nodes[0]);
        let all = parts_actions(from, to, nodes);
        let rest = parts_actions(from, to, later);
        let first = part_actions(from, to, nodes.first());
        if let Node::Dir(entry, inner) = nodes.first() {
            files_keep_their_place(path_below(from, entry), path_below(to, entry), inner);
        }
        assert forall|i: int| 0 <= i < all.len() implies (#[trigger] all[i]
            matches CopyActionView::CopyFile { from: x, to: y, raw_name }
            ==> in_same_place(from, to, nodes, x, y, raw_name)) by {
            if let CopyActionView::CopyFile { from: x, to: y, raw_name } = all[i] {
                if i >= first.len() {
                    assert(all[i] == rest[i - first.len()]);
                    let names = choose|names: Seq<Seq<char>>|
                        #[trigger] leads_to(from, to, names, x, y) && has_file(
                            later,
                            names,
                            raw_name,
                        );
                    lemma_has_file_later(nodes, names, raw_name);
                } else {
                    assert(all[i] == first[i]);
                    lemma_first_keeps_its_place(from, to, nodes, first, i);
                }
            }
        }
    }
}

proof fn lemma_first_keeps_its_place(
    from: Seq<char>,
    to: Seq<char>,
    nodes: Seq<Node>,
    first: Seq<CopyActionView>,
    i: int,
)
    requires
        nodes.len() > 0,
        0 <= i < first.len(),
        first[i] is CopyFile,
        match nodes[0] {
            Node::File(entry) => first == seq![
                CopyActionView::CopyFile { from, to, raw_name: entry.raw_name },
            ],
            Node::Dir(entry, inner) => entry.is_utf8 && keep_places(
                path_below(from, entry),
                path_below(to, entry),
                inner,
                first,
            ),
        },
    ensures
        in_same_place(
            from,
            to,
            nodes,
            first[i]->CopyFile_from,
            first[i]->CopyFile_to,
            first[i]->raw_name,
        ),
{
    let x = first[i]->CopyFile_from;
    let y = first[i]->CopyFile_to;
    let raw_name = first[i]->raw_name;
    match nodes[0] {
        Node::File(entry) => {
            let here = Seq::<Seq<char>>::empty();
            assert(leads_to(from, to, here, x, y));
            assert(has_file(nodes, here, raw_name));
        },
        Node::Dir(entry, inner) => {
            let a = path_below(from, entry);
            let b = path_below(to, entry);
            assert(in_same_place(a, b, inner, x, y, raw_name));
            let names = choose|names: Seq<Seq<char>>|
                #[trigger] leads_to(a, b, names, x, y) && has_file(inner, names, raw_name);
            let more = seq![entry.shown] + names;
            assert(more.drop_first() =~= names);
            assert(more.first() == entry.shown);
            assert(leads_to(from, to, more, x, y));
            assert(has_file(nodes, more, raw_name));
        },
    }
}

proof fn lemma_has_file_later(nodes: Seq<Node>, names: Seq<Seq<char>>, raw_name: Seq<u8>)
    requires
        nodes.len() > 0,
        has_file(nodes.drop_first(), names, raw_name),
    ensures
        has_file(nodes, names, raw_name),
{
    let later = nodes.drop_first();
    let i = choose|i: int|
        #![trigger later[i]]
        0 <= i < later.len() && match later[i] {
            Node::File(entry) => names.len() == 0 && entry.raw_name == raw_name,
            Node::Dir(entry, inner) => names.len() > 0 && entry.is_utf8 && entry.shown
                == names.first() && has_file(inner, names.drop_first(), raw_name),
        };
    assert(nodes[i + 1] == later[i]);
}

/// Every file of a tree whose place is reached by names that are valid Unicode is copied,
/// from its place below the source to the same place below the target.
pub proof fn every_file_is_copied(
    from: Seq<char>,
    to: Seq<char>,
    nodes: Seq<Node>,
    names: Seq<Seq<char>>,
    raw_name: Seq<u8>,
)
    requires
        has_file(nodes, names, raw_name),
    ensures
        tree_actions(from, to, nodes).contains(
            CopyActionView::CopyFile {
                from: path_along(from, names),
                to: path_along(to, names),
                raw_name,
            },
        ),
    decreases names.len(),
{
    let copied = CopyActionView::CopyFile {
        from: path_along(from, names),
        to: path_along(to, names),
        raw_name,
    };
    let k = choose|k: int|
        #![trigger nodes[k]]
        0 <= k < nodes.len() && match nodes[k] {
            Node::File(entry) => names.len() == 0 && entry.raw_name == raw_name,
            Node::Dir(entry, inner) => names.len() > 0 && entry.is_utf8 && entry.shown
                == names.first() && has_file(inner, names.drop_first(), raw_name),
        };
    let part = part_actions(from, to, nodes[k]);
    match nodes[k] {
        Node::File(entry) => {
            assert(part[0] == copied);
        },
        Node::Dir(entry, inner) => {
            every_file_is_copied(
                path_below(from, entry),
                path_below(to, entry),
                inner,
                names.drop_first(),
                raw_name,
            );
        },
    }
    assert(part.contains(copied));
    lemma_part_is_taken(from, to, nodes, k, copied);
    let parts = parts_actions(from, to, nodes);
    let j = choose|j: int| 0 <= j < parts.len() && parts[j] == copied;
    assert(tree_actions(from, to, nodes)[j + 2] == copied);
}

proof fn lemma_part_is_taken(
    from: Seq<char>,
    to: Seq<char>,
    nodes: Seq<Node>,
    k: int,
    action: CopyActionView,
)
    requires
        0 <= k < nodes.len(),
        part_actions(from, to, nodes[k]).contains(action),
    ensures
        parts_actions(from, to, nodes).contains(action),
    decreases k,
{
    let all = parts_actions(from, to, nodes);
    let first = part_actions(from, to, nodes.first());
    let rest = parts_actions(from, to, nodes.drop_first());
    assert(all == first + rest);
    if k == 0 {
        let j = choose|j: int| 0 <= j < first.len() && first[j] == action;
        assert(all[j] == action);
    } else {
        assert(nodes.drop_first()[k - 1] == nodes[k]);
        lemma_part_is_taken(from, to, nodes.drop_first(), k - 1, action);
        let j = choose|j: int| 0 <= j < rest.len() && rest[j] == action;
        assert(all[first.len() + j] == action);
    }
}

/// An entry shows in its view unchanged, and so does what comes back from a listing.
pub proof fn entries_show_their_parts(entry: DirEntry, e: String)
    ensures
        entry.deep_view().raw_name == entry.raw_name@,
        entry.deep_view().shown == entry.shown@,
        entry.deep_view().is_utf8 == entry.is_utf8,
        entry.deep_view().is_dir == entry.is_dir,
        listed(Ok(entry)) == Ok::<EntryView, Seq<char>>(entry.deep_view()),
        listed(Err(e)) == Err::<EntryView, Seq<char>>(e@),
{
}

/// What is asked for during a copy, and what comes back, show in their views unchanged.
pub proof fn copy_actions_and_events_show_their_parts(action: CopyAction<'_>, event: CopyEvent)
    ensures
        match action {
            CopyAction::CreateDirAll(path) => action.deep_view() == CopyActionView::CreateDirAll(
                path@,
            ),
            CopyAction::ReadDir(path) => action.deep_view() == CopyActionView::ReadDir(path@),
            CopyAction::CopyFile { from, to, raw_name } => action.deep_view() == (
            CopyActionView::CopyFile { from: from@, to: to@, raw_name: raw_name@ }),
            CopyAction::Finished(Ok(_)) => action.deep_view() == CopyActionView::Finished(None),
            CopyAction::Finished(Err(e)) => action.deep_view() == CopyActionView::Finished(
                Some(e@),
            ),
        },
        match event {
            CopyEvent::Done => event.deep_view() == CopyEventView::Done,
            CopyEvent::Failed(e) => event.deep_view() == CopyEventView::Failed(e@),
            CopyEvent::Entries(items) => event.deep_view() == CopyEventView::Entries(
                Seq::new(items@.len(), |i: int| listed(items@[i])),
            ),
        },
{
    if let CopyEvent::Entries(items) = event {
        assert(event.deep_view()->Entries_0 =~= Seq::new(
            items@.len(),
            |i: int| listed(items@[i]),
        ));
    }
}

/// What an entry of a directory asks for: a directory to be copied below the target under
/// its name, a file to be copied from the one directory to the other.
pub proof fn entries_are_copied_below_the_target(
    from: Seq<char>,
    to: Seq<char>,
    entry: EntryView,
    e: Seq<char>,
)
    ensures
        entry.is_dir && entry.is_utf8 ==> task_for(from, to, Ok(entry)) == (TaskView::Dir {
            from: joined_path(from, entry.shown),
            to: joined_path(to, entry.shown),
        }),
        entry.is_dir && !entry.is_utf8 ==> task_for(from, to, Ok(entry)) == (TaskView::Dir {
            from: Seq::empty(),
            to: Seq::empty(),
        }),
        !entry.is_dir ==> task_for(from, to, Ok(entry)) == (TaskView::File {
            from,
            to,
            raw_name: entry.raw_name,
            shown: entry.shown,
        }),
        task_for(from, to, Err(e)) == TaskView::Unreadable(e),
{
}

/// Every entry of a listing asks for something, in the order of the listing.
pub proof fn every_entry_is_a_task(
    from: Seq<char>,
    to: Seq<char>,
    items: Seq<Result<EntryView, Seq<char>>>,
    i: int,
)
    requires
        0 <= i < items.len(),
    ensures
        tasks_for(from, to, items).len() == items.len(),
        tasks_for(from, to, items)[i] == task_for(from, to, items[i]),
{
}

/// A copy turns to its tasks in order; one that stands at an entry that could not be read
/// has failed.
pub proof fn unreadable_entries_end_a_copy(todo: Seq<TaskView>, e: Seq<char>)
    ensures
        copy_of(seq![TaskView::Unreadable(e)] + todo) == (CopyView {
            todo: Seq::empty(),
            created: false,
            failure: Some("Failed to read entry: "@ + e),
        }),
        todo.len() == 0 || !(todo[0] is Unreadable) ==> copy_of(todo) == (CopyView {
            todo,
            created: false,
            failure: None,
        }),
{
    assert((seq![TaskView::Unreadable(e)] + todo).first() == TaskView::Unreadable(e));
}

/// How a copy goes on: the target of a directory is created before the directory is
/// listed, its entries come before what else is to be copied, and each file is copied
/// once.
pub proof fn copies_go_task_by_task(
    from: Seq<char>,
    to: Seq<char>,
    raw_name: Seq<u8>,
    shown: Seq<char>,
    rest: Seq<TaskView>,
    items: Seq<Result<EntryView, Seq<char>>>,
    failure: Option<Seq<char>>,
)
    ensures
        ({
            let dir = seq![TaskView::Dir { from, to }] + rest;
            let start = CopyView { todo: dir, created: false, failure };
            let created = CopyView { todo: dir, created: true, failure };
            &&& copy_action_of(start) == CopyActionView::CreateDirAll(to)
            &&& copy_after(start, CopyEventView::Done) == created
            &&& copy_action_of(created) == CopyActionView::ReadDir(from)
            &&& copy_after(created, CopyEventView::Entries(items)) == copy_of(
                tasks_for(from, to, items) + rest,
            )
        }),
        ({
            let file = seq![TaskView::File { from, to, raw_name, shown }] + rest;
            let at_file = CopyView { todo: file, created: false, failure };
            &&& copy_action_of(at_file) == (CopyActionView::CopyFile { from, to, raw_name })
            &&& copy_after(at_file, CopyEventView::Done) == copy_of(rest)
        }),
        copy_action_of(CopyView { todo: Seq::empty(), created: false, failure })
            == CopyActionView::Finished(failure),
{
    let dir = seq![TaskView::Dir { from, to }] + rest;
    let file = seq![TaskView::File { from, to, raw_name, shown }] + rest;
    assert(dir.first() == (TaskView::Dir { from, to }));
    assert(dir.drop_first() =~= rest);
    assert(file.first() == (TaskView::File { from, to, raw_name, shown }));
    assert(file.drop_first() =~= rest);
}

/// What fails ends a copy with an error that names it: the target that could not be
/// created, the directory that could not be listed, the file that could not be copied.
pub proof fn failed_copies_name_what_failed(
    from: Seq<char>,
    to: Seq<char>,
    raw_name: Seq<u8>,
    shown: Seq<char>,
    rest: Seq<TaskView>,
    e: Seq<char>,
)
    ensures
        ({
            let dir = seq![TaskView::Dir { from, to }] + rest;
            let file = seq![TaskView::File { from, to, raw_name, shown }] + rest;
            let failed = CopyEventView::Failed(e);
            &&& copy_action_of(
                copy_after(CopyView { todo: dir, created: false, failure: None }, failed),
            ) == CopyActionView::Finished(Some("Failed to create dir "@ + to + ": "@ + e))
            &&& copy_action_of(
                copy_after(CopyView { todo: dir, created: true, failure: None }, failed),
            ) == CopyActionView::Finished(Some("Failed to read src dir "@ + from + ": "@ + e))
            &&& copy_action_of(
                copy_after(CopyView { todo: file, created: false, failure: None }, failed),
            ) == CopyActionView::Finished(
                Some("Failed to copy file "@ + joined_path(from, shown) + ": "@ + e),
            )
        }),
{
    let dir = seq![TaskView::Dir { from, to }] + rest;
    let file = seq![TaskView::File { from, to, raw_name, shown }] + rest;
    assert(dir.first() == (TaskView::Dir { from, to }));
    assert(file.first() == (TaskView::File { from, to, raw_name, shown }));
}

/// Copying a directory takes creating its target, listing it, and copying its parts one
/// after the other: nothing less and nothing more.
pub proof fn trees_are_copied_part_by_part(
    from: Seq<char>,
    to: Seq<char>,
    file: EntryView,
    dir: EntryView,
    inner: Seq<Node>,
    nodes: Seq<Node>,
)
    ensures
        tree_actions(from, to, nodes) == seq![
            CopyActionView::CreateDirAll(to),
            CopyActionView::ReadDir(from),
        ] + parts_actions(from, to, nodes),
        parts_actions(from, to, Seq::empty()) == Seq::<CopyActionView>::empty(),
        parts_actions(from, to, seq![Node::File(file)] + nodes) == seq![
            CopyActionView::CopyFile { from, to, raw_name: file.raw_name },
        ] + parts_actions(from, to, nodes),
        dir.is_utf8 ==> parts_actions(from, to, seq![Node::Dir(dir, inner)] + nodes)
            == tree_actions(joined_path(from, dir.shown), joined_path(to, dir.shown), inner)
            + parts_actions(from, to, nodes),
{
    let a = seq![Node::File(file)] + nodes;
    let b = seq![Node::Dir(dir, inner)] + nodes;
    assert(a.drop_first() =~= nodes && a.first() == Node::File(file));
    assert(b.drop_first() =~= nodes && b.first() == Node::Dir(dir, inner));
}

/// What a copy is told of a tree: that a directory has been created, then its entries,
/// then of its parts one after the other.
pub proof fn trees_are_told_part_by_part(
    file: EntryView,
    dir: EntryView,
    inner: Seq<Node>,
    nodes: Seq<Node>,
)
    ensures
        tree_events(nodes) == seq![
            CopyEventView::Done,
            CopyEventView::Entries(listing_of(nodes)),
        ] + parts_events(nodes),
        parts_events(Seq::empty()) == Seq::<CopyEventView>::empty(),
        parts_events(seq![Node::File(file)] + nodes) == seq![CopyEventView::Done] + parts_events(
            nodes,
        ),
        parts_events(seq![Node::Dir(dir, inner)] + nodes) == tree_events(inner) + parts_events(
            nodes,
        ),
        listing_of(Seq::empty()) == Seq::<Result<EntryView, Seq<char>>>::empty(),
        listing_of(seq![Node::File(file)] + nodes) == seq![
            Ok::<EntryView, Seq<char>>(EntryView { is_dir: false, ..file }),
        ] + listing_of(nodes),
        listing_of(seq![Node::Dir(dir, inner)] + nodes) == seq![
            Ok::<EntryView, Seq<char>>(EntryView { is_dir: true, ..dir }),
        ] + listing_of(nodes),
{
    let a = seq![Node::File(file)] + nodes;
    let b = seq![Node::Dir(dir, inner)] + nodes;
    assert(a.drop_first() =~= nodes && a.first() == Node::File(file));
    assert(b.drop_first() =~= nodes && b.first() == Node::Dir(dir, inner));
}

} // verus!
