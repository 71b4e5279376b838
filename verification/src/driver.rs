//! The driver: what is written, and to which channel, for each resolved
//! path, once the caller has tried to read it.
//!
//! Reading and writing are the caller's work. For each result of the
//! resolver the caller makes a [`Candidate`], asks [`report`] what to write
//! for it, and writes that before it goes on to the next.

use vstd::prelude::*;
use crate::config::{Config, ConfigView};
use crate::error::{GrepError, GrepErrorView};
use crate::lines::{find_lines, selected, text_lines};
use crate::resolve::{resolved_view, results_view, Resolved};
use crate::text::{decimal, join, to_decimal};

verus! {

/// A result of the resolver, together with what reading the file gave.
#[derive(Debug, PartialEq, Eq)]
pub enum Candidate {
    /// The path did not resolve to a file.
    Unresolved(GrepError),
    /// The file could not be opened or read, for the given reason.
    Unreadable { path: String, reason: String },
    /// The file was read; `content` holds its bytes.
    Readable { path: String, content: Vec<u8> },
}

/// The mathematical content of a [`Candidate`].
pub enum CandidateView {
    Unresolved(GrepErrorView),
    Unreadable { path: Seq<char>, reason: Seq<char> },
    Readable { path: Seq<char>, content: Seq<u8> },
}

impl View for Candidate {
    type V = CandidateView;

    open spec fn view(&self) -> CandidateView {
        match self {
            Candidate::Unresolved(error) => CandidateView::Unresolved(error@),
            Candidate::Unreadable { path, reason } => CandidateView::Unreadable {
                path: path@,
                reason: reason@,
            },
            Candidate::Readable { path, content } => CandidateView::Readable {
                path: path@,
                content: content@,
            },
        }
    }
}

/// What is written for one candidate.
#[derive(Debug, PartialEq, Eq)]
pub enum Emission {
    /// Pieces of text for the output channel, each written as it stands.
    Output(Vec<String>),
    /// One line for the error channel.
    Diagnostic(String),
}

/// The mathematical content of an [`Emission`].
pub enum EmissionView {
    Output(Seq<Seq<char>>),
    Diagnostic(Seq<char>),
}

impl View for Emission {
    type V = EmissionView;

    open spec fn view(&self) -> EmissionView {
        match self {
            Emission::Output(pieces) => EmissionView::Output(pieces.deep_view()),
            Emission::Diagnostic(line) => EmissionView::Diagnostic(line@),
        }
    }
}

/// How many of the results name a file to read.
pub open spec fn successes(results: Seq<Resolved>) -> nat {
    results.filter(|result: Resolved| result is Ok).len()
}

/// What stands in front of each piece of output for the file at `path`: the
/// path and a colon when several files are searched, and else nothing.
pub open spec fn prefix(path: Seq<char>, many_files: bool) -> Seq<char> {
    if many_files {
        path + ":"@
    } else {
        Seq::empty()
    }
}

/// The output for one file whose selected lines are `kept`: their number on
/// a line of its own when only counts are asked for, and else each line as
/// it was read; in both cases behind the prefix.
pub open spec fn rendered(
    path: Seq<char>,
    kept: Seq<Seq<char>>,
    count: bool,
    many_files: bool,
) -> Seq<Seq<char>> {
    if count {
        seq![prefix(path, many_files) + decimal(kept.len()) + "\n"@]
    } else {
        kept.map_values(|line: Seq<char>| prefix(path, many_files) + line)
    }
}

/// What is written for one candidate: the message of the error if the path
/// did not resolve, the path and the reason if the file could not be read,
/// and else the output for the lines that the pattern selects.
pub open spec fn reported(
    config: ConfigView,
    candidate: CandidateView,
    many_files: bool,
) -> EmissionView {
    match candidate {
        CandidateView::Unresolved(error) => EmissionView::Diagnostic(error.message()),
        CandidateView::Unreadable { path, reason } => EmissionView::Diagnostic(
            (GrepErrorView::Inaccessible { path, reason }).message(),
        ),
        CandidateView::Readable { path, content } => EmissionView::Output(
            rendered(
                path,
                selected(text_lines(content), config.pattern, config.invert_match),
                config.count,
                many_files,
            ),
        ),
    }
}

/// The result of the resolver that a candidate was made from.
pub open spec fn resolved_of(candidate: CandidateView) -> Resolved {
    match candidate {
        CandidateView::Unresolved(error) => Err(error),
        CandidateView::Unreadable { path, .. } => Ok(path),
        CandidateView::Readable { path, .. } => Ok(path),
    }
}

/// Whether several files are searched: whether more than one candidate
/// comes from a path that resolved to a file, read or not.
pub open spec fn several(candidates: Seq<CandidateView>) -> bool {
    successes(candidates.map_values(|candidate: CandidateView| resolved_of(candidate))) > 1
}

/// What a whole run writes: for each candidate, in order, what is written
/// for it, with the prefix in front of all output or of none.
pub open spec fn ran(config: ConfigView, candidates: Seq<CandidateView>) -> Seq<EmissionView> {
    candidates.map_values(
        |candidate: CandidateView| reported(config, candidate, several(candidates)),
    )
}

/// The content of a list of emissions.
pub open spec fn emissions_view(emissions: Seq<Emission>) -> Seq<EmissionView> {
    emissions.map_values(|emission: Emission| emission@)
}

/// The content of a list of candidates.
pub open spec fn candidates_view(candidates: Seq<Candidate>) -> Seq<CandidateView> {
    candidates.map_values(|candidate: Candidate| candidate@)
}

/// Tells whether several files are searched, that is, whether more than one
/// of the results of the resolver names a file.
pub fn many_files(resolved: &[Result<String, GrepError>]) -> (many: bool)
    ensures
        many == (successes(results_view(resolved@)) > 1),
{
    let ghost is_file = |result: Resolved| result is Ok;
    let ghost views = results_view(resolved@);
    let mut found: usize = 0;
    let mut at: usize = 0;
    proof {
        reveal(Seq::filter);
        assert(views.take(0) =~= Seq::<Resolved>::empty());
    }
    while at < resolved.len()
        invariant
            at <= resolved.len(),
            found <= at,
            is_file == |result: Resolved| result is Ok,
            views == results_view(resolved@),
            found == views.take(at as int).filter(is_file).len(),
        decreases resolved.len() - at,
    {
        proof {
            reveal(Seq::filter);
            let next = views.take(at + 1);
            assert(next.drop_last() =~= views.take(at as int));
            assert(next.last() == resolved_view(resolved@[at as int]));
        }
        if resolved[at].is_ok() {
            found += 1;
        }
        at += 1;
    }
    assert(views.take(resolved.len() as int) =~= views);
    found > 1
}

/// Renders the output for one file.
pub fn render(path: &str, kept: &Vec<String>, count: bool, many_files: bool) -> (pieces: Vec<
    String,
>)
    ensures
        pieces.deep_view() == rendered(path@, kept.deep_view(), count, many_files),
{
    let lead = if many_files {
        join(path, ":")
    } else {
        String::new()
    };
    assert(lead@ == prefix(path@, many_files));
    let mut pieces: Vec<String> = Vec::new();
    if count {
        let number = to_decimal(kept.len());
        let counted = join(lead.as_str(), number.as_str());
        pieces.push(join(counted.as_str(), "\n"));
        assert(pieces.deep_view() =~= rendered(path@, kept.deep_view(), count, many_files));
        return pieces;
    }
    let mut at: usize = 0;
    while at < kept.len()
        invariant
            at <= kept.len(),
            lead@ == prefix(path@, many_files),
            pieces.len() == at,
            forall|i: int| 0 <= i < at ==> #[trigger] pieces[i]@ == lead@ + kept[i]@,
        decreases kept.len() - at,
    {
        pieces.push(join(lead.as_str(), kept[at].as_str()));
        at += 1;
    }
    assert(pieces.deep_view() =~= rendered(path@, kept.deep_view(), count, many_files));
    pieces
}

/// Decides what is written for one candidate, given whether several files
/// are searched.
pub fn report(config: &Config, candidate: &Candidate, many_files: bool) -> (emission: Emission)
    ensures
        emission@ == reported(config@, candidate@, many_files),
{
    match candidate {
        Candidate::Unresolved(error) => Emission::Diagnostic(error.message()),
        Candidate::Unreadable { path, reason } => {
            let start = join(path.as_str(), ": ");
            Emission::Diagnostic(join(start.as_str(), reason.as_str()))
        },
        Candidate::Readable { path, content } => {
            let kept = find_lines(content.as_slice(), &config.pattern, config.invert_match);
            Emission::Output(render(path.as_str(), &kept, config.count, many_files))
        },
    }
}

/// Tells whether more than one candidate comes from a path that resolved to
/// a file.
fn several_resolved(candidates: &[Candidate]) -> (many: bool)
    ensures
        many == several(candidates_view(candidates@)),
{
    let ghost is_file = |result: Resolved| result is Ok;
    let ghost origins = candidates_view(candidates@).map_values(
        |candidate: CandidateView| resolved_of(candidate),
    );
    let mut found: usize = 0;
    let mut at: usize = 0;
    proof {
        reveal(Seq::filter);
        assert(origins.take(0) =~= Seq::<Resolved>::empty());
    }
    while at < candidates.len()
        invariant
            at <= candidates.len(),
            found <= at,
            is_file == |result: Resolved| result is Ok,
            origins == candidates_view(candidates@).map_values(
                |candidate: CandidateView| resolved_of(candidate),
            ),
            found == origins.take(at as int).filter(is_file).len(),
        decreases candidates.len() - at,
    {
        proof {
            reveal(Seq::filter);
            let next = origins.take(at + 1);
            assert(next.drop_last() =~= origins.take(at as int));
            assert(next.last() == resolved_of(candidates@[at as int]@));
        }
        match &candidates[at] {
            Candidate::Unresolved(_) => {},
            _ => {
                found += 1;
            },
        }
        at += 1;
    }
    assert(origins.take(candidates.len() as int) =~= origins);
    found > 1
}

/// The driver, on candidates gathered beforehand: one emission for each
/// candidate, in order. Output is prefixed with the path of its file if
/// more than one path resolved to a file, and then all of it is.
pub fn run(config: &Config, candidates: &[Candidate]) -> (emissions: Vec<Emission>)
    ensures
        emissions_view(emissions@) == ran(config@, candidates_view(candidates@)),
{
    let many = several_resolved(candidates);
    let mut emissions: Vec<Emission> = Vec::new();
    let mut at: usize = 0;
    while at < candidates.len()
        invariant
            at <= candidates.len(),
            many == several(candidates_view(candidates@)),
            emissions.len() == at,
            forall|i: int|
                0 <= i < at ==> #[trigger] emissions[i]@ == reported(
                    config@,
                    candidates[i]@,
                    many,
                ),
        decreases candidates.len() - at,
    {
        emissions.push(report(config, &candidates[at], many));
        at += 1;
    }
    assert(emissions_view(emissions@) =~= ran(config@, candidates_view(candidates@)));
    emissions
}

/// The output for one file without any prefix.
pub open spec fn unprefixed(kept: Seq<Seq<char>>, count: bool) -> Seq<Seq<char>> {
    if count {
        seq![decimal(kept.len()) + "\n"@]
    } else {
        kept
    }
}

/// Where only counts are asked for, the number written for a file is the
/// number of pieces that would be written for it otherwise: one for each
/// selected line.
pub proof fn lemma_count_is_number_of_lines(
    path: Seq<char>,
    kept: Seq<Seq<char>>,
    many_files: bool,
)
    ensures
        rendered(path, kept, false, many_files).len() == kept.len(),
        rendered(path, kept, true, many_files) == seq![
            prefix(path, many_files) + decimal(rendered(path, kept, false, many_files).len())
                + "\n"@,
        ],
{
}

/// All output of a run is prefixed or none is. When at most one path
/// resolved to a file, each piece written for a file stands as it is. When
/// two or more did, whether or not other paths failed to resolve, each piece
/// written for a file has the path of that file and a colon in front.
pub proof fn lemma_prefix_when_several_files(
    config: ConfigView,
    candidates: Seq<CandidateView>,
    at: int,
)
    requires
        0 <= at < candidates.len(),
        candidates[at] is Readable,
    ensures
        ({
            let path = candidates[at]->Readable_path;
            let kept = selected(
                text_lines(candidates[at]->Readable_content),
                config.pattern,
                config.invert_match,
            );
            let plain = unprefixed(kept, config.count);
            &&& ran(config, candidates).len() == candidates.len()
            &&& ran(config, candidates)[at] matches EmissionView::Output(pieces)
            &&& pieces.len() == plain.len()
            &&& !several(candidates) ==> pieces == plain
            &&& several(candidates) ==> forall|i: int|
                0 <= i < pieces.len() ==> #[trigger] pieces[i] == path + ":"@ + plain[i]
        }),
{
    let path = candidates[at]->Readable_path;
    let kept = selected(
        text_lines(candidates[at]->Readable_content),
        config.pattern,
        config.invert_match,
    );
    let plain = unprefixed(kept, config.count);
    let pieces = rendered(path, kept, config.count, several(candidates));
    assert(ran(config, candidates)[at] == EmissionView::Output(pieces));
    if !several(candidates) {
        assert(pieces =~= plain) by {
            assert forall|i: int| 0 <= i < pieces.len() implies pieces[i] =~= plain[i] by {}
        }
    } else {
        assert forall|i: int| 0 <= i < pieces.len() implies #[trigger] pieces[i] == path + ":"@
            + plain[i] by {
            assert(pieces[i] =~= path + ":"@ + plain[i]);
        }
    }
}

} // verus!
