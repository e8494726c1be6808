use vstd::prelude::*;

use crate::data_entry::{DataEntry, Term};
use crate::reference::{Reference, ZidParseError};

verus! {

/// What went wrong, possibly wrapped in human-readable steps.
#[derive(Debug, PartialEq)]
pub enum EvaluationErrorKind {
    LowLevelNotAMap,
    LowLevelNotAnArray,
    LowLevelNotAString,
    /// A required key is absent.
    MissingKey(Reference),
    /// A text is not an identifier.
    ParseZID(ZidParseError),
    /// The validation of a test returned false on this result.
    TestSuiteFailed(DataEntry),
    /// A built-in or a code path that is not supported.
    Unimplemented(String),
    /// The type tag found, and the one expected.
    WrongType(Reference, Reference),
    /// The result that a test produced, and what failed afterwards.
    TestResultInfo(DataEntry, Box<EvaluationErrorKind>),
    /// A step of the evaluation, and what failed inside it.
    Previous(String, Box<EvaluationErrorKind>),
}

/// An error kind with its explanatory steps taken away and its terms read as
/// mathematical values.
pub ghost enum Fault {
    NotAMap,
    NotAnArray,
    NotAString,
    MissingKey(Reference),
    ParseZid(ZidParseError),
    TestSuiteFailed(Term),
    Unimplemented(Seq<char>),
    WrongType(Reference, Reference),
    TestResultInfo(Term, Box<Fault>),
}

/// What a computation of a term came to: the term, or the fault under the
/// error.
pub open spec fn outcome(r: Result<DataEntry, EvaluationError>) -> Result<Term, Fault> {
    match r {
        Ok(d) => Ok(d@),
        Err(e) => Err(e.fault()),
    }
}

impl EvaluationErrorKind {
    /// The fault at the bottom of the chain of steps.
    pub open spec fn fault(&self) -> Fault
        decreases self,
    {
        match self {
            EvaluationErrorKind::LowLevelNotAMap => Fault::NotAMap,
            EvaluationErrorKind::LowLevelNotAnArray => Fault::NotAnArray,
            EvaluationErrorKind::LowLevelNotAString => Fault::NotAString,
            EvaluationErrorKind::MissingKey(id) => Fault::MissingKey(*id),
            EvaluationErrorKind::ParseZID(e) => Fault::ParseZid(*e),
            EvaluationErrorKind::TestSuiteFailed(d) => Fault::TestSuiteFailed(d@),
            EvaluationErrorKind::Unimplemented(s) => Fault::Unimplemented(s@),
            EvaluationErrorKind::WrongType(a, b) => Fault::WrongType(*a, *b),
            EvaluationErrorKind::TestResultInfo(d, inner) => Fault::TestResultInfo(
                d@,
                Box::new(inner.fault()),
            ),
            EvaluationErrorKind::Previous(_, inner) => inner.fault(),
        }
    }

    /// Wraps the error in a step described by `message`.
    pub fn trace(self, message: String) -> (r: Self)
        ensures
            r.fault() == self.fault(),
            r == EvaluationErrorKind::Previous(message, Box::new(self)),
    {
        EvaluationErrorKind::Previous(message, Box::new(self))
    }

    /// Wraps the error in a step described by `message`.
    pub fn trace_str(self, message: &str) -> (r: Self)
        ensures
            r.fault() == self.fault(),
            r matches EvaluationErrorKind::Previous(m, inner) && m@ == message@ && *inner == self,
    {
        self.trace(String::from_str(message))
    }
}

/// A step of the path through nested terms at which an error was met.
#[derive(Debug, PartialEq)]
pub enum TraceInfo {
    Reference(Reference),
    InsideMap(Reference),
    InsideArray(usize),
    ProcessingResult(DataEntry),
    InsideInput(String),
}

impl TraceInfo {
    pub fn should_start_new_section_before(&self) -> (r: bool)
        ensures
            r == (self is Reference || self is InsideInput),
    {
        match self {
            TraceInfo::Reference(_) => true,
            TraceInfo::InsideInput(_) => true,
            _ => false,
        }
    }

    pub fn should_start_new_section_after(&self) -> (r: bool)
        ensures
            r == self is ProcessingResult,
    {
        match self {
            TraceInfo::ProcessingResult(_) => true,
            _ => false,
        }
    }
}

/// An error with the path, innermost step first, on which it was met.
#[derive(Debug)]
pub struct EvaluationError {
    pub root_kind: EvaluationErrorKind,
    /// Frames are added by the lower level first, so their order is the
    /// reverse of the top-down view.
    pub frames: Vec<TraceInfo>,
}

impl EvaluationError {
    pub open spec fn fault(&self) -> Fault {
        self.root_kind.fault()
    }

    /// The error kind underneath the frames.
    pub fn source(&self) -> (r: Option<&EvaluationErrorKind>)
        ensures
            r == Some(&self.root_kind),
    {
        Some(&self.root_kind)
    }

    pub fn new(root_kind: EvaluationErrorKind) -> (r: Self)
        ensures
            r.root_kind == root_kind,
            r.frames@ == Seq::<TraceInfo>::empty(),
    {
        EvaluationError { root_kind, frames: Vec::new() }
    }

    pub fn add_frame_constructor(self, frame: TraceInfo) -> (r: Self)
        ensures
            r.root_kind == self.root_kind,
            r.frames@ == self.frames@.push(frame),
    {
        let mut e = self;
        e.add_frame(frame);
        e
    }

    pub fn add_frame(&mut self, frame: TraceInfo)
        ensures
            final(self).root_kind == old(self).root_kind,
            final(self).frames@ == old(self).frames@.push(frame),
    {
        self.frames.push(frame);
    }

    /// Runs `f`; on an error, adds the frame that `frame_provider` makes.
    pub fn run_with_frame_fun<T, FP: FnOnce() -> Result<T, Self>, FF: FnOnce() -> TraceInfo>(
        frame_provider: FF,
        f: FP,
    ) -> (r: Result<T, Self>)
        requires
            f.requires(()),
            frame_provider.requires(()),
        ensures
            r matches Ok(v) ==> f.ensures((), Ok::<T, Self>(v)),
            r matches Err(e) ==> exists|e0: Self, fr: TraceInfo|
                f.ensures((), Err::<T, Self>(e0)) && frame_provider.ensures((), fr)
                    && e.root_kind == e0.root_kind && e.frames@ == e0.frames@.push(fr),
    {
        match f() {
            Ok(v) => Ok(v),
            Err(e) => Err(e.add_frame_constructor(frame_provider())),
        }
    }

    /// Runs `f`; on an error, adds `frame`.
    pub fn run_with_frame<T, F: FnOnce() -> Result<T, Self>>(frame: TraceInfo, f: F) -> (r: Result<
        T,
        Self,
    >)
        requires
            f.requires(()),
        ensures
            r matches Ok(v) ==> f.ensures((), Ok::<T, Self>(v)),
            r matches Err(e) ==> exists|e0: Self|
                f.ensures((), Err::<T, Self>(e0)) && e.root_kind == e0.root_kind && e.frames@
                    == e0.frames@.push(frame),
    {
        match f() {
            Ok(v) => Ok(v),
            Err(e) => Err(e.add_frame_constructor(frame)),
        }
    }

    /// Runs `f`; on an error, adds the frames that `frames_provider` makes,
    /// which come top-down and are added in reverse.
    pub fn run_with_frame_fun_multiple<
        T,
        FP: FnOnce() -> Result<T, Self>,
        FF: FnOnce() -> Vec<TraceInfo>,
    >(frames_provider: FF, f: FP) -> (r: Result<T, Self>)
        requires
            f.requires(()),
            frames_provider.requires(()),
        ensures
            r matches Ok(v) ==> f.ensures((), Ok::<T, Self>(v)),
            r matches Err(e) ==> exists|e0: Self, fs: Vec<TraceInfo>|
                f.ensures((), Err::<T, Self>(e0)) && frames_provider.ensures((), fs)
                    && e.root_kind == e0.root_kind && e.frames@ == e0.frames@ + fs@.reverse(),
    {
        match f() {
            Ok(v) => Ok(v),
            Err(e) => {
                let mut e = e;
                let ghost e0 = e;
                let mut frames = frames_provider();
                let ghost fs = frames;
                let ghost start = e.frames@;
                let ghost all = frames@;
                while frames.len() > 0
                    invariant
                        e.root_kind == e0.root_kind,
                        start == e0.frames@,
                        all == fs@,
                        frames.len() <= all.len(),
                        frames@ == all.subrange(0, frames.len() as int),
                        e.frames@ == start + all.subrange(frames.len() as int, all.len() as int).reverse(),
                    decreases frames.len(),
                {
                    let ghost n = frames.len();
                    let fr = frames.pop().unwrap();
                    proof {
                        assert(all.subrange(n - 1, all.len() as int).reverse() == all.subrange(
                            n as int,
                            all.len() as int,
                        ).reverse().push(all[n - 1]));
                        assert(frames@ == all.subrange(0, n - 1));
                    }
                    e.add_frame(fr);
                }
                proof {
                    assert(all.subrange(0, all.len() as int) == all);
                    assert(e.root_kind == e0.root_kind && e.frames@ == e0.frames@ + fs@.reverse());
                }
                Err(e)
            },
        }
    }
}

impl From<EvaluationErrorKind> for EvaluationError {
    fn from(value: EvaluationErrorKind) -> (r: Self) {
        EvaluationError { root_kind: value, frames: Vec::new() }
    }
}

impl vstd::std_specs::convert::FromSpecImpl<EvaluationErrorKind> for EvaluationError {
    open spec fn obeys_from_spec() -> bool {
        false
    }

    open spec fn from_spec(v: EvaluationErrorKind) -> Self {
        arbitrary()
    }
}

} // verus!
