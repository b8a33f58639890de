//! The table of converted documents, and the barrier that fills it.
//!
//! Each conversion job reports one [`Completion`]. The [`Collector`] takes
//! them in whatever order they arrive, is the only writer of the table, and
//! hands the table out once every job has reported and none has failed.

use crate::error::{build_error, BuildError, BuildErrorKind, BuildErrorView};
use crate::text::owned;
use vstd::hash_map::StringHashMap;
use vstd::prelude::*;

verus! {

/// The converted documents, by the whole path of their source: a hash map
/// that is written once per path.
pub struct ResultMap {
    table: StringHashMap<String>,
}

impl ResultMap {
    /// The table as a map from path to converted text.
    pub closed spec fn view(&self) -> Map<Seq<char>, Seq<char>> {
        self.table@.map_values(|v: String| v@)
    }

    /// The empty table.
    pub fn new() -> (r: Self)
        ensures
            r@ == Map::<Seq<char>, Seq<char>>::empty(),
    {
        let r = ResultMap { table: StringHashMap::new() };
        assert(r@ =~= Map::<Seq<char>, Seq<char>>::empty());
        r
    }

    /// Writes the converted text of the document at `path`, which the table
    /// must not hold yet: an entry, once written, is never replaced.
    pub fn insert(&mut self, path: String, content: String)
        requires
            !old(self)@.contains_key(path@),
        ensures
            final(self)@ == old(self)@.insert(path@, content@),
    {
        let ghost before = self.table@;
        let ghost key = path@;
        let ghost text = content;
        self.table.insert(path, content);
        assert(self.table@.map_values(|v: String| v@) =~= before.map_values(|v: String| v@).insert(
            key,
            text@,
        ));
    }

    /// The converted text of the document at `path`, if the table has it.
    pub fn get(&self, path: &String) -> (r: Option<&String>)
        ensures
            match r {
                Some(c) => self@.contains_key(path@) && self@[path@] == c@,
                None => !self@.contains_key(path@),
            },
    {
        self.table.get(path.as_str())
    }

    /// Whether the table has the document at `path`.
    pub fn contains_key(&self, path: &String) -> (r: bool)
        ensures
            r == self@.contains_key(path@),
    {
        self.table.contains_key(path.as_str())
    }
}

/// The report of one conversion job: the source and what came of it.
#[derive(Debug, PartialEq, Eq)]
pub struct Completion {
    /// The whole path of the source document.
    pub path: String,
    /// The converted text, or the message of the failure.
    pub outcome: Result<String, String>,
}

/// The mathematical value of a [`Completion`].
pub ghost struct CompletionView {
    pub path: Seq<char>,
    pub outcome: Result<Seq<char>, Seq<char>>,
}

impl Completion {
    pub open spec fn view(&self) -> CompletionView {
        CompletionView {
            path: self.path@,
            outcome: match self.outcome {
                Ok(c) => Ok(c@),
                Err(m) => Err(m@),
            },
        }
    }
}

/// The values of a run of completions, one for one.
pub open spec fn completion_views(cs: Seq<Completion>) -> Seq<CompletionView> {
    cs.map_values(|c: Completion| c@)
}

/// The state of the barrier: how many reports are outstanding, what has been
/// written, and the first thing that went wrong.
pub ghost struct CollectorView {
    pub remaining: nat,
    pub outputs: Map<Seq<char>, Seq<char>>,
    pub failure: Option<BuildErrorView>,
}

/// The error for a report that the barrier cannot place, with the reason.
pub open spec fn misplaced(path: Seq<char>, reason: Seq<char>) -> BuildErrorView {
    build_error(BuildErrorKind::InternalConsistency, path, reason)
}

/// The barrier that waits for `expected` reports.
pub open spec fn spec_start(expected: nat) -> CollectorView {
    CollectorView { remaining: expected, outputs: Map::empty(), failure: None }
}

/// What is wrong with the report `c` in the state `st`, if anything: it is one
/// too many, it tells of a failed conversion, or its document was reported
/// before.
pub open spec fn spec_problem(st: CollectorView, c: CompletionView) -> Option<BuildErrorView> {
    if st.remaining == 0 {
        Some(misplaced(c.path, "a result arrived that no job was submitted for"@))
    } else {
        match c.outcome {
            Err(message) => Some(build_error(BuildErrorKind::Conversion, c.path, message)),
            Ok(_) => if st.outputs.contains_key(c.path) {
                Some(misplaced(c.path, "a second result arrived for one document"@))
            } else {
                None
            },
        }
    }
}

/// The state after the report `c`. A report with nothing wrong is written to
/// the table; one with a problem is not, and the first problem is kept.
pub open spec fn spec_record(st: CollectorView, c: CompletionView) -> CollectorView {
    let problem = spec_problem(st, c);
    CollectorView {
        remaining: if st.remaining > 0 {
            (st.remaining - 1) as nat
        } else {
            0
        },
        outputs: match c.outcome {
            Ok(content) => if problem is None {
                st.outputs.insert(c.path, content)
            } else {
                st.outputs
            },
            Err(_) => st.outputs,
        },
        failure: if st.failure is Some {
            st.failure
        } else {
            problem
        },
    }
}

/// The state after the reports `cs`, taken in order.
pub open spec fn spec_record_all(st: CollectorView, cs: Seq<CompletionView>) -> CollectorView
    decreases cs.len(),
{
    if cs.len() == 0 {
        st
    } else {
        spec_record(spec_record_all(st, cs.drop_last()), cs.last())
    }
}

/// What the barrier hands out: the first problem, if there was one; an error
/// if reports are outstanding; else the table.
pub open spec fn spec_finish(st: CollectorView) -> Result<Map<Seq<char>, Seq<char>>, BuildErrorView> {
    match st.failure {
        Some(e) => Err(e),
        None => if st.remaining > 0 {
            Err(misplaced(Seq::empty(), "results are outstanding"@))
        } else {
            Ok(st.outputs)
        },
    }
}

/// What a barrier for `expected` jobs makes of the reports `cs`.
pub open spec fn spec_collect(expected: nat, cs: Seq<CompletionView>) -> Result<
    Map<Seq<char>, Seq<char>>,
    BuildErrorView,
> {
    spec_finish(spec_record_all(spec_start(expected), cs))
}

/// The collection barrier: the single writer of the result table.
pub struct Collector {
    remaining: usize,
    outputs: ResultMap,
    failure: Option<BuildError>,
}

impl Collector {
    /// The state of the barrier.
    pub closed spec fn view(&self) -> CollectorView {
        CollectorView {
            remaining: self.remaining as nat,
            outputs: self.outputs@,
            failure: match self.failure {
                Some(e) => Some(e@),
                None => None,
            },
        }
    }

    /// A barrier that waits for `expected` reports.
    pub fn new(expected: usize) -> (r: Self)
        ensures
            r@ == spec_start(expected as nat),
    {
        Collector { remaining: expected, outputs: ResultMap::new(), failure: None }
    }

    /// Whether every job has reported.
    pub fn is_complete(&self) -> (r: bool)
        ensures
            r == (self@.remaining == 0),
    {
        self.remaining == 0
    }

    /// Takes one report.
    pub fn record(&mut self, c: Completion)
        ensures
            final(self)@ == spec_record(old(self)@, c@),
    {
        let Completion { path, outcome } = c;
        let mut problem: Option<BuildError> = None;
        if self.remaining == 0 {
            problem = Some(
                BuildError::new(
                    BuildErrorKind::InternalConsistency,
                    &path,
                    &owned("a result arrived that no job was submitted for"),
                ),
            );
        } else {
            self.remaining = self.remaining - 1;
            match &outcome {
                Err(message) => {
                    problem = Some(BuildError::new(BuildErrorKind::Conversion, &path, message));
                },
                Ok(_) => {
                    if self.outputs.contains_key(&path) {
                        problem = Some(
                            BuildError::new(
                                BuildErrorKind::InternalConsistency,
                                &path,
                                &owned("a second result arrived for one document"),
                            ),
                        );
                    }
                },
            }
        }
        match problem {
            None => {
                match outcome {
                    Ok(content) => {
                        self.outputs.insert(path, content);
                    },
                    Err(_) => {},
                }
            },
            Some(e) => {
                if self.failure.is_none() {
                    self.failure = Some(e);
                }
            },
        }
    }

    /// Ends the barrier: the table, or why there is none.
    pub fn finish(self) -> (r: Result<ResultMap, BuildError>)
        ensures
            match r {
                Ok(m) => spec_finish(self@) == Ok::<Map<Seq<char>, Seq<char>>, BuildErrorView>(m@),
                Err(e) => spec_finish(self@) == Err::<Map<Seq<char>, Seq<char>>, BuildErrorView>(
                    e@,
                ),
            },
    {
        let Collector { remaining, outputs, failure } = self;
        match failure {
            Some(e) => Err(e),
            None => {
                if remaining > 0 {
                    Err(
                        BuildError::new(
                            BuildErrorKind::InternalConsistency,
                            &String::new(),
                            &owned("results are outstanding"),
                        ),
                    )
                } else {
                    Ok(outputs)
                }
            },
        }
    }
}

/// Runs the barrier for `expected` jobs over the reports `completions`, in the
/// order in which they arrived.
pub fn collect(expected: usize, completions: Vec<Completion>) -> (r: Result<ResultMap, BuildError>)
    ensures
        match r {
            Ok(m) => spec_collect(expected as nat, completion_views(completions@)) == Ok::<
                Map<Seq<char>, Seq<char>>,
                BuildErrorView,
            >(m@),
            Err(e) => spec_collect(expected as nat, completion_views(completions@)) == Err::<
                Map<Seq<char>, Seq<char>>,
                BuildErrorView,
            >(e@),
        },
{
    let ghost start = spec_start(expected as nat);
    let mut collector = Collector::new(expected);
    for c in it: completions
        invariant
            start == spec_start(expected as nat),
            it.seq() == completions@,
            collector@ == spec_record_all(start, completion_views(it.seq().take(it.index() as int))),
    {
        proof {
            let done = completion_views(it.seq().take(it.index() as int));
            let grown = completion_views(it.seq().take(it.index() + 1));
            assert(grown.drop_last() =~= done);
            assert(grown.last() == c@);
        }
        collector.record(c);
    }
    proof {
        assert(completions@.take(completions@.len() as int) =~= completions@);
    }
    collector.finish()
}

} // verus!
