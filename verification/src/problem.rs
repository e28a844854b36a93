//! The error value of the crate: a message and, where there is one, what caused it.
use crate::text::{self, cat3};
use vstd::prelude::*;
use vstd::string::*;

verus! {

#[derive(Debug, Clone)]
pub struct Problem {
    pub message: String,
    pub cause: Option<String>,
}

/// The texts that a [`Problem`] holds.
pub struct Report {
    pub message: Seq<char>,
    pub cause: Option<Seq<char>>,
}

/// A report with a message and no cause.
pub open spec fn plain(message: Seq<char>) -> Report {
    Report { message, cause: None }
}

/// The report of an outcome that is a failure.
pub open spec fn failure<T>(outcome: Result<T, Problem>) -> Option<Report> {
    match outcome {
        Ok(_) => None,
        Err(problem) => Some(problem@),
    }
}

impl View for Problem {
    type V = Report;

    open spec fn view(&self) -> Report {
        Report { message: self.message@, cause: text::text_of(self.cause) }
    }
}

impl Problem {
    pub fn new(message: String) -> (problem: Problem)
        ensures
            problem@ == plain(message@),
    {
        Problem { message, cause: None }
    }

    pub fn caused_by(message: String, cause: String) -> (problem: Problem)
        ensures
            problem@ == (Report { message: message@, cause: Some(cause@) }),
    {
        Problem { message, cause: Some(cause) }
    }
}

impl Problem {
    /// The same problem once more.
    pub fn duplicate(&self) -> (problem: Problem)
        ensures
            problem@ == self@,
    {
        let cause = match &self.cause {
            Some(cause) => Some(cause.clone()),
            None => None,
        };
        Problem { message: self.message.clone(), cause }
    }

    /// The problem as the cause of another one.
    pub fn within(self, message: String) -> (problem: Problem)
        ensures
            problem@ == inside(message@, self@),
    {
        let cause = match self.cause {
            None => self.message,
            Some(cause) => cat3(self.message.as_str(), ": ", cause.as_str()),
        };
        Problem { message, cause: Some(cause) }
    }
}

/// A report that was caused by another one.
pub open spec fn inside(message: Seq<char>, inner: Report) -> Report {
    Report {
        message,
        cause: Some(
            match inner.cause {
                None => inner.message,
                Some(cause) => inner.message + ": "@ + cause,
            },
        ),
    }
}

/// The first report of a row of findings.
pub open spec fn first_problem(findings: Seq<Option<Report>>) -> Option<Report>
    decreases findings.len(),
{
    if findings.len() == 0 {
        None
    } else if findings[0] is Some {
        findings[0]
    } else {
        first_problem(findings.drop_first())
    }
}

/// The first report of a row of findings is the one that nothing but empty findings stand
/// before.
pub proof fn lemma_first_problem(findings: Seq<Option<Report>>, i: int)
    requires
        0 <= i < findings.len(),
        findings[i] is Some,
        forall|k: int| 0 <= k < i ==> (#[trigger] findings[k]) is None,
    ensures
        first_problem(findings) == findings[i],
    decreases i,
{
    if i > 0 {
        lemma_first_problem(findings.drop_first(), i - 1);
    }
}

/// A row of findings has a first report exactly when one of the findings is a report.
pub proof fn lemma_no_problem(findings: Seq<Option<Report>>)
    ensures
        first_problem(findings) is None <==> forall|k: int|
            0 <= k < findings.len() ==> (#[trigger] findings[k]) is None,
    decreases findings.len(),
{
    if findings.len() > 0 {
        let rest = findings.drop_first();
        lemma_no_problem(rest);
        if first_problem(findings) is None {
            assert forall|k: int| 0 <= k < findings.len() implies (#[trigger] findings[k])
                is None by {
                if k > 0 {
                    assert(rest[k - 1] == findings[k]);
                }
            }
        }
    }
}

} // verus!
