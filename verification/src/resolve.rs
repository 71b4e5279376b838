//! The file resolver: from the paths that the user named, and from what a
//! traversal of each of them met, to the ordered list of files to read.
//!
//! The traversal itself is the caller's work. It hands over, for each path,
//! the events of the traversal in the order in which they came: an entry
//! with its kind, or a failure with its reason.

use vstd::prelude::*;
use crate::error::{GrepError, GrepErrorView};
use crate::text::{is_sentinel, sentinel};

verus! {

/// What kind of thing a traversal met.
#[derive(Debug, Clone, Copy, PartialEq, Eq, Structural)]
pub enum EntryKind {
    /// A regular file.
    File,
    /// A directory.
    Directory,
    /// Anything else, such as a symbolic link that is not followed.
    Other,
}

/// One step of the traversal of a path.
#[derive(Debug, PartialEq, Eq)]
pub enum WalkEvent {
    /// The traversal met the entry at `path`.
    Entry { path: String, kind: EntryKind },
    /// The traversal could not go on somewhere, for the given reason.
    Failure { reason: String },
}

/// The mathematical content of a [`WalkEvent`].
pub enum WalkEventView {
    Entry { path: Seq<char>, kind: EntryKind },
    Failure { reason: Seq<char> },
}

impl View for WalkEvent {
    type V = WalkEventView;

    open spec fn view(&self) -> WalkEventView {
        match self {
            WalkEvent::Entry { path, kind } => WalkEventView::Entry { path: path@, kind: *kind },
            WalkEvent::Failure { reason } => WalkEventView::Failure { reason: reason@ },
        }
    }
}

/// A path that the user named, with the events of its traversal. The
/// events of the path that stands for standard input are never looked at.
#[derive(Debug, PartialEq, Eq)]
pub struct Walk {
    pub path: String,
    pub events: Vec<WalkEvent>,
}

/// The mathematical content of a [`Walk`].
pub struct WalkView {
    pub path: Seq<char>,
    pub events: Seq<WalkEventView>,
}

impl View for Walk {
    type V = WalkView;

    open spec fn view(&self) -> WalkView {
        WalkView { path: self.path@, events: self.events@.map_values(|event: WalkEvent| event@) }
    }
}

/// A resolved path: a file to read, or why there is none.
pub type Resolved = Result<Seq<char>, GrepErrorView>;

/// The content of one result of the resolver.
pub open spec fn resolved_view(result: Result<String, GrepError>) -> Resolved {
    match result {
        Ok(path) => Ok(path@),
        Err(error) => Err(error@),
    }
}

/// The content of a list of results of the resolver.
pub open spec fn results_view(results: Seq<Result<String, GrepError>>) -> Seq<Resolved> {
    results.map_values(|result: Result<String, GrepError>| resolved_view(result))
}

/// Whether the traversal of a path ends with `event`: a directory that may
/// not be descended into ends it.
pub open spec fn halts(event: WalkEventView, recursive: bool) -> bool {
    !recursive && event matches WalkEventView::Entry { kind: EntryKind::Directory, .. }
}

/// What one event adds to the results for `path`. A failure is reported
/// under the path that the user named; a regular file is a result under its
/// own path; a directory is an error unless directories are descended into,
/// and then it is passed over, like any entry of another kind.
pub open spec fn event_results(path: Seq<char>, recursive: bool, event: WalkEventView) -> Seq<
    Resolved,
> {
    match event {
        WalkEventView::Failure { reason } => seq![
            Err(GrepErrorView::Inaccessible { path, reason }),
        ],
        WalkEventView::Entry { path: found, kind } => match kind {
            EntryKind::File => seq![Ok(found)],
            EntryKind::Directory => if recursive {
                Seq::empty()
            } else {
                seq![Err(GrepErrorView::IsDirectory { path })]
            },
            EntryKind::Other => Seq::empty(),
        },
    }
}

/// The results for a path whose traversal gave `events`: what each event
/// adds, in order, up to and including the first event that ends the
/// traversal.
pub open spec fn walk_results(path: Seq<char>, recursive: bool, events: Seq<WalkEventView>) -> Seq<
    Resolved,
>
    decreases events.len(),
{
    if events.len() == 0 {
        Seq::empty()
    } else if halts(events[0], recursive) {
        event_results(path, recursive, events[0])
    } else {
        event_results(path, recursive, events[0]) + walk_results(
            path,
            recursive,
            events.drop_first(),
        )
    }
}

/// The results for one path that the user named: the path itself if it
/// stands for standard input, and else what its traversal gives.
pub open spec fn path_results(walk: WalkView, recursive: bool) -> Seq<Resolved> {
    if walk.path == sentinel() {
        seq![Ok(walk.path)]
    } else {
        walk_results(walk.path, recursive, walk.events)
    }
}

/// The results for all paths: those of each path, one path after the other.
pub open spec fn all_results(walks: Seq<WalkView>, recursive: bool) -> Seq<Resolved>
    decreases walks.len(),
{
    if walks.len() == 0 {
        Seq::empty()
    } else {
        path_results(walks[0], recursive) + all_results(walks.drop_first(), recursive)
    }
}

/// The paths do not interact: the results for a list of paths are those
/// for its front part followed by those for its back part, whatever either
/// holds.
pub proof fn lemma_results_of_concatenation(
    front: Seq<WalkView>,
    back: Seq<WalkView>,
    recursive: bool,
)
    ensures
        all_results(front + back, recursive) == all_results(front, recursive) + all_results(
            back,
            recursive,
        ),
    decreases front.len(),
{
    if front.len() == 0 {
        assert(front + back =~= back);
        assert(all_results(front, recursive) + all_results(back, recursive) =~= all_results(
            back,
            recursive,
        ));
    } else {
        lemma_results_of_concatenation(front.drop_first(), back, recursive);
        assert((front + back).drop_first() =~= front.drop_first() + back);
        assert(all_results(front + back, recursive) =~= all_results(front, recursive)
            + all_results(back, recursive));
    }
}

/// The results for a single path are those of that path.
pub proof fn lemma_results_of_one_path(walk: WalkView, recursive: bool)
    ensures
        all_results(seq![walk], recursive) == path_results(walk, recursive),
{
    assert(seq![walk].drop_first() =~= Seq::<WalkView>::empty());
    assert(all_results(seq![walk].drop_first(), recursive) =~= Seq::<Resolved>::empty());
    assert(all_results(seq![walk], recursive) =~= path_results(walk, recursive));
}

/// A path whose traversal meets one regular file, under that same path,
/// resolves to exactly one result: that path.
pub proof fn lemma_regular_file_resolves_to_itself(path: Seq<char>, recursive: bool)
    ensures
        all_results(
            seq![
                WalkView {
                    path,
                    events: seq![WalkEventView::Entry { path, kind: EntryKind::File }],
                },
            ],
            recursive,
        ) == seq![Ok::<Seq<char>, GrepErrorView>(path)],
{
    let events = seq![WalkEventView::Entry { path, kind: EntryKind::File }];
    lemma_results_of_one_path(WalkView { path, events }, recursive);
    assert(events.drop_first() =~= Seq::<WalkEventView>::empty());
    assert(walk_results(path, recursive, events.drop_first()) =~= Seq::<Resolved>::empty());
    assert(walk_results(path, recursive, events) =~= seq![Ok::<Seq<char>, GrepErrorView>(path)]);
}

/// When directories are not descended into, a path whose traversal meets a
/// directory first resolves to exactly one result, whatever the traversal
/// would meet next: the error whose message is the path followed by
/// ` is a directory`.
pub proof fn lemma_directory_is_refused(path: Seq<char>, events: Seq<WalkEventView>)
    requires
        path != sentinel(),
        events.len() > 0,
        events[0] matches WalkEventView::Entry { kind: EntryKind::Directory, .. },
    ensures
        all_results(seq![WalkView { path, events }], false) == seq![
            Err::<Seq<char>, GrepErrorView>(GrepErrorView::IsDirectory { path }),
        ],
        (GrepErrorView::IsDirectory { path }).message() == path + " is a directory"@,
{
    lemma_results_of_one_path(WalkView { path, events }, false);
}

/// What a traversal gives that meets only the regular files `files`, when
/// directories are descended into: one result for each file, in order.
pub proof fn lemma_files_resolve_to_themselves(
    path: Seq<char>,
    recursive: bool,
    files: Seq<Seq<char>>,
)
    ensures
        walk_results(
            path,
            recursive,
            files.map_values(
                |file: Seq<char>| WalkEventView::Entry { path: file, kind: EntryKind::File },
            ),
        ) == files.map_values(|file: Seq<char>| Ok::<Seq<char>, GrepErrorView>(file)),
    decreases files.len(),
{
    let entry = |file: Seq<char>| WalkEventView::Entry { path: file, kind: EntryKind::File };
    let found = |file: Seq<char>| Ok::<Seq<char>, GrepErrorView>(file);
    if files.len() == 0 {
        assert(walk_results(path, recursive, files.map_values(entry)) =~= files.map_values(found));
    } else {
        lemma_files_resolve_to_themselves(path, recursive, files.drop_first());
        assert(files.map_values(entry).drop_first() =~= files.drop_first().map_values(entry));
        assert(seq![found(files[0])] + files.drop_first().map_values(found) =~= files.map_values(
            found,
        ));
    }
}

/// When directories are descended into, a path that names a directory
/// holding the regular files `files` resolves to exactly one result for
/// each of them, in the order in which the traversal met them, and to no
/// result for the directory itself. The paths named before and after it
/// keep their own results, which stand before and after these.
pub proof fn lemma_directory_yields_its_files(
    before: Seq<WalkView>,
    path: Seq<char>,
    directory: Seq<char>,
    files: Seq<Seq<char>>,
    after: Seq<WalkView>,
)
    requires
        path != sentinel(),
    ensures
        all_results(
            before + seq![
                WalkView {
                    path,
                    events: seq![
                        WalkEventView::Entry { path: directory, kind: EntryKind::Directory },
                    ] + files.map_values(
                        |file: Seq<char>|
                            WalkEventView::Entry { path: file, kind: EntryKind::File },
                    ),
                },
            ] + after,
            true,
        ) == all_results(before, true) + files.map_values(
            |file: Seq<char>| Ok::<Seq<char>, GrepErrorView>(file),
        ) + all_results(after, true),
        files.map_values(|file: Seq<char>| Ok::<Seq<char>, GrepErrorView>(file)).len()
            == files.len(),
{
    let entries = files.map_values(
        |file: Seq<char>| WalkEventView::Entry { path: file, kind: EntryKind::File },
    );
    let events = seq![WalkEventView::Entry { path: directory, kind: EntryKind::Directory }]
        + entries;
    let walk = WalkView { path, events };
    lemma_results_of_concatenation(before + seq![walk], after, true);
    lemma_results_of_concatenation(before, seq![walk], true);
    lemma_results_of_one_path(walk, true);
    lemma_files_resolve_to_themselves(path, true, files);
    assert(events.drop_first() =~= entries);
    assert(walk_results(path, true, events) =~= walk_results(path, true, entries));
}

/// A path that cannot be reached, so that its traversal gives a single
/// failure, resolves to exactly one result, and that result is an error.
pub proof fn lemma_missing_path_is_one_error(
    path: Seq<char>,
    reason: Seq<char>,
    recursive: bool,
)
    requires
        path != sentinel(),
    ensures
        all_results(
            seq![WalkView { path, events: seq![WalkEventView::Failure { reason }] }],
            recursive,
        ) == seq![
            Err::<Seq<char>, GrepErrorView>(GrepErrorView::Inaccessible { path, reason }),
        ],
{
    let events = seq![WalkEventView::Failure { reason }];
    lemma_results_of_one_path(WalkView { path, events }, recursive);
    assert(events.drop_first() =~= Seq::<WalkEventView>::empty());
    assert(walk_results(path, recursive, events.drop_first()) =~= Seq::<Resolved>::empty());
    assert(walk_results(path, recursive, events) =~= seq![
        Err::<Seq<char>, GrepErrorView>(GrepErrorView::Inaccessible { path, reason }),
    ]);
}

/// Tells whether the traversal of a path ends with `event`, so that the
/// caller need not go on with it.
pub fn ends_walk(event: &WalkEvent, recursive: bool) -> (ends: bool)
    ensures
        ends == halts(event@, recursive),
{
    match event {
        WalkEvent::Entry { kind: EntryKind::Directory, .. } => !recursive,
        _ => false,
    }
}

/// Adds to `results` what `event` gives for `path`.
pub fn resolve_event(
    path: &str,
    recursive: bool,
    event: &WalkEvent,
    results: &mut Vec<Result<String, GrepError>>,
)
    ensures
        results_view(final(results)@) == results_view(old(results)@) + event_results(
            path@,
            recursive,
            event@,
        ),
{
    let ghost before = results_view(results@);
    match event {
        WalkEvent::Failure { reason } => {
            results.push(
                Err(GrepError::Inaccessible { path: path.to_owned(), reason: reason.clone() }),
            );
        },
        WalkEvent::Entry { path: found, kind } => match kind {
            EntryKind::File => {
                results.push(Ok(found.clone()));
            },
            EntryKind::Directory => {
                if !recursive {
                    results.push(Err(GrepError::IsDirectory { path: path.to_owned() }));
                }
            },
            EntryKind::Other => {},
        },
    }
    assert(results_view(results@) =~= before + event_results(path@, recursive, event@));
}

/// Adds to `results` the results for the path of `walk`.
pub fn resolve_walk(walk: &Walk, recursive: bool, results: &mut Vec<Result<String, GrepError>>)
    ensures
        results_view(final(results)@) == results_view(old(results)@) + path_results(
            walk@,
            recursive,
        ),
{
    let ghost before = results_view(results@);
    if is_sentinel(walk.path.as_str()) {
        results.push(Ok(walk.path.clone()));
        assert(results_view(results@) =~= before + path_results(walk@, recursive));
        return ;
    }
    let ghost events = walk@.events;
    let mut at: usize = 0;
    assert(events.skip(0) =~= events);
    assert(before + Seq::<Resolved>::empty() =~= before);
    let ghost mut done: Seq<Resolved> = Seq::empty();
    while at < walk.events.len()
        invariant
            at <= walk.events.len(),
            events == walk@.events,
            events.len() == walk.events.len(),
            walk.path@ != sentinel(),
            before == results_view(old(results)@),
            results_view(results@) == before + done,
            walk_results(walk.path@, recursive, events) == done + walk_results(
                walk.path@,
                recursive,
                events.skip(at as int),
            ),
        decreases walk.events.len() - at,
    {
        let event = &walk.events[at];
        proof {
            assert(events.skip(at as int)[0] == event@);
            assert(events.skip(at as int).drop_first() =~= events.skip(at + 1));
        }
        let ghost added = event_results(walk.path@, recursive, event@);
        resolve_event(walk.path.as_str(), recursive, event, results);
        proof {
            assert(before + done + added =~= before + (done + added));
        }
        if ends_walk(event, recursive) {
            proof {
                assert(walk_results(walk.path@, recursive, events) =~= done + added);
                assert(path_results(walk@, recursive) == done + added);
            }
            return ;
        }
        proof {
            assert(done + (added + walk_results(walk.path@, recursive, events.skip(at + 1)))
                =~= (done + added) + walk_results(walk.path@, recursive, events.skip(at + 1)));
            done = done + added;
        }
        at += 1;
    }
    assert(done + Seq::<Resolved>::empty() =~= done);
}

/// The file resolver. For each path, in the order given: the path itself if
/// it stands for standard input; else one result for each regular file that
/// its traversal met, one error for each failure of the traversal, and, if
/// directories are not descended into, one error for the first directory
/// met, which ends the results for that path.
pub fn find_files(walks: &[Walk], recursive: bool) -> (results: Vec<Result<String, GrepError>>)
    ensures
        results_view(results@) == all_results(
            walks@.map_values(|walk: Walk| walk@),
            recursive,
        ),
{
    let mut results: Vec<Result<String, GrepError>> = Vec::new();
    let ghost views = walks@.map_values(|walk: Walk| walk@);
    let mut at: usize = 0;
    assert(views.skip(0) =~= views);
    assert(results_view(results@) =~= Seq::<Resolved>::empty());
    while at < walks.len()
        invariant
            at <= walks.len(),
            views == walks@.map_values(|walk: Walk| walk@),
            all_results(views, recursive) == results_view(results@) + all_results(
                views.skip(at as int),
                recursive,
            ),
        decreases walks.len() - at,
    {
        let ghost before = results_view(results@);
        proof {
            assert(views.skip(at as int)[0] == walks@[at as int]@);
            assert(views.skip(at as int).drop_first() =~= views.skip(at + 1));
        }
        resolve_walk(&walks[at], recursive, &mut results);
        proof {
            let added = path_results(walks@[at as int]@, recursive);
            let rest = all_results(views.skip(at + 1), recursive);
            assert(before + (added + rest) =~= (before + added) + rest);
        }
        at += 1;
    }
    assert(results_view(results@) + Seq::<Resolved>::empty() =~= results_view(results@));
    results
}

} // verus!
