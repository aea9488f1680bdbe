//! The opener's policy: launch a mark's target with its application, and fall
//! back to the platform's default handler when that fails or none is set.
//! The caller performs each launch and reports how it went.

use vstd::prelude::*;
use crate::mark::{SchWiMark, StoreError, texts};
use crate::store::Store;

verus! {

/// A step of opening a mark, as mathematical values.
pub ghost enum StepModel {
    WithApplication { application: Seq<char>, target: Seq<char> },
    WithDefault { target: Seq<char>, earlier: Option<Seq<char>> },
    Opened,
    Failed { causes: Seq<Seq<char>> },
}

/// What to do next when opening a mark.
pub enum OpenStep {
    /// Launch `target` with `application`.
    WithApplication { application: String, target: String },
    /// Launch `target` with the platform's default handler; `earlier` is why
    /// the mark's application failed, when it was tried first.
    WithDefault { target: String, earlier: Option<String> },
    /// The target was launched.
    Opened,
    /// Every launch failed, for these causes, in the order they came.
    Failed { causes: Vec<String> },
}

pub open spec fn option_text(o: Option<String>) -> Option<Seq<char>> {
    match o {
        Some(s) => Some(s@),
        None => None,
    }
}

impl View for OpenStep {
    type V = StepModel;

    open spec fn view(&self) -> StepModel {
        match self {
            OpenStep::WithApplication { application, target } => StepModel::WithApplication {
                application: application@,
                target: target@,
            },
            OpenStep::WithDefault { target, earlier } => StepModel::WithDefault {
                target: target@,
                earlier: option_text(*earlier),
            },
            OpenStep::Opened => StepModel::Opened,
            OpenStep::Failed { causes } => StepModel::Failed { causes: texts(causes@) },
        }
    }
}

/// The first step for a mark with this target and application.
pub open spec fn plan_of(url: Seq<char>, application: Seq<char>) -> StepModel {
    if application.len() == 0 {
        StepModel::WithDefault { target: url, earlier: None }
    } else {
        StepModel::WithApplication { application, target: url }
    }
}

/// The step after a launch: `failure` is `None` when it succeeded, else its cause.
pub open spec fn next_of(step: StepModel, failure: Option<Seq<char>>) -> StepModel {
    match step {
        StepModel::WithApplication { application, target } => match failure {
            None => StepModel::Opened,
            Some(e) => StepModel::WithDefault { target, earlier: Some(e) },
        },
        StepModel::WithDefault { target, earlier } => match failure {
            None => StepModel::Opened,
            Some(e) => StepModel::Failed {
                causes: match earlier {
                    Some(e0) => seq![e0, e],
                    None => seq![e],
                },
            },
        },
        _ => step,
    }
}

pub open spec fn failure_of(outcome: Result<(), String>) -> Option<Seq<char>> {
    match outcome {
        Ok(_) => None,
        Err(e) => Some(e@),
    }
}

pub open spec fn is_final(step: StepModel) -> bool {
    step is Opened || step is Failed
}

/// The first step of opening `mark`: its application when it has one, else
/// the default handler.
pub fn open_plan(mark: &SchWiMark) -> (r: OpenStep)
    ensures
        r@ == plan_of(mark.url@, mark.application@),
{
    if mark.application.as_str().is_empty() {
        OpenStep::WithDefault { target: mark.url.clone(), earlier: None }
    } else {
        OpenStep::WithApplication { application: mark.application.clone(), target: mark.url.clone() }
    }
}

/// The step that follows `step`, given how its launch went.
pub fn after_attempt(step: OpenStep, outcome: Result<(), String>) -> (r: OpenStep)
    ensures
        r@ == next_of(step@, failure_of(outcome)),
{
    match step {
        OpenStep::WithApplication { application, target } => match outcome {
            Ok(_) => OpenStep::Opened,
            Err(e) => OpenStep::WithDefault { target, earlier: Some(e) },
        },
        OpenStep::WithDefault { target, earlier } => match outcome {
            Ok(_) => OpenStep::Opened,
            Err(e) => {
                let mut causes: Vec<String> = Vec::new();
                match earlier {
                    Some(e0) => {
                        causes.push(e0);
                    },
                    None => {},
                }
                causes.push(e);
                let ghost c = texts(causes@);
                assert(c =~= match option_text(earlier) {
                    Some(x) => seq![x, e@],
                    None => seq![e@],
                });
                OpenStep::Failed { causes }
            },
        },
        other => other,
    }
}

/// The first step of opening the mark `id` of the store; `NotFound` when
/// there is no such mark.
pub fn open_mark(store: &Store, id: i64) -> (r: Result<OpenStep, StoreError>)
    requires
        store@.wf(),
    ensures
        store@.lookup(id as int) is None ==> r == Err::<OpenStep, StoreError>(StoreError::NotFound),
        store@.lookup(id as int) matches Some(m) ==> r matches Ok(step) && step@ == plan_of(
            m.url,
            m.application,
        ),
{
    match store.get_mark(id) {
        Ok(p) => Ok(open_plan(&p.0)),
        Err(e) => Err(e),
    }
}

/// A mark whose application fails is opened with the default handler, which
/// is launched exactly once, right after that failure: whatever that launch
/// gives, opening is then over, and when it fails too both causes are kept,
/// the application's first.
pub proof fn law_fallback_once(
    url: Seq<char>,
    application: Seq<char>,
    first: Seq<char>,
    second: Option<Seq<char>>,
    later: Option<Seq<char>>,
)
    requires
        application.len() > 0,
    ensures
        plan_of(url, application) == (StepModel::WithApplication { application, target: url }),
        next_of(plan_of(url, application), Some(first)) == (StepModel::WithDefault {
            target: url,
            earlier: Some(first),
        }),
        is_final(next_of(next_of(plan_of(url, application), Some(first)), second)),
        next_of(next_of(next_of(plan_of(url, application), Some(first)), second), later) == next_of(
            next_of(plan_of(url, application), Some(first)),
            second,
        ),
        second matches Some(e) ==> next_of(next_of(plan_of(url, application), Some(first)), second)
            == (StepModel::Failed { causes: seq![first, e] }),
{
}

/// A mark without an application is opened with the default handler alone:
/// one launch, and its failure is final.
pub proof fn law_default_only(url: Seq<char>, first: Option<Seq<char>>, later: Option<Seq<char>>)
    ensures
        plan_of(url, Seq::empty()) == (StepModel::WithDefault { target: url, earlier: None }),
        is_final(next_of(plan_of(url, Seq::empty()), first)),
        next_of(next_of(plan_of(url, Seq::empty()), first), later) == next_of(
            plan_of(url, Seq::empty()),
            first,
        ),
{
}

} // verus!
