//! The one error type every rule answers with.

use vstd::prelude::*;

use crate::calendar::{Day, Moment};

verus! {

/// A figure a refusal carries, for the client to word in the reader's language.
#[derive(Debug, Clone, PartialEq, Eq)]
pub enum Var {
    Int(i64),
    At(Moment),
    On(Day),
    Text(String),
    Texts(Vec<String>),
    Bool(bool),
    /// There is none.
    Nothing,
}

/// What a [`Var`] says.
pub enum VarView {
    Int(int),
    At(int),
    On(int),
    Text(Seq<char>),
    Texts(Seq<Seq<char>>),
    Bool(bool),
    Nothing,
}

impl View for Var {
    type V = VarView;

    open spec fn view(&self) -> VarView {
        match self {
            Var::Int(n) => VarView::Int(*n as int),
            Var::At(t) => VarView::At(*t as int),
            Var::On(d) => VarView::On(*d as int),
            Var::Text(t) => VarView::Text(t@),
            Var::Texts(ts) => VarView::Texts(Seq::new(ts@.len(), |i: int| ts@[i]@)),
            Var::Bool(b) => VarView::Bool(*b),
            Var::Nothing => VarView::Nothing,
        }
    }
}

/// What a refusal's figures say, each under its name.
pub open spec fn vars_view(vars: Seq<(&'static str, Var)>) -> Seq<(Seq<char>, VarView)> {
    Seq::new(vars.len(), |i: int| (vars[i].0@, vars[i].1@))
}

/// Why a request was turned down. The text is what the caller is shown.
#[derive(Debug, Clone, PartialEq, Eq)]
pub enum AppError {
    NotFound(String),
    Forbidden(String),
    BadRequest(String),
    Conflict(String),
    Unauthorized(String),
    Internal,
    /// A refusal with its own HTTP status and machine-readable code.
    Coded { status: u16, code: &'static str, reason: String },
    /// The same, with the figures the client words it from.
    CodedVars {
        status: u16,
        code: &'static str,
        reason: String,
        vars: Vec<(&'static str, Var)>,
    },
    /// A refusal by a business rule, with its machine-readable code.
    Refused { code: &'static str, reason: String },
}

/// What an [`AppError`] says, with its texts as character sequences.
#[verifier::ext_equal]
pub enum ErrorView {
    NotFound(Seq<char>),
    Forbidden(Seq<char>),
    BadRequest(Seq<char>),
    Conflict(Seq<char>),
    Unauthorized(Seq<char>),
    Internal,
    Coded { status: int, code: Seq<char>, reason: Seq<char> },
    CodedVars {
        status: int,
        code: Seq<char>,
        reason: Seq<char>,
        vars: Seq<(Seq<char>, VarView)>,
    },
    Refused { code: Seq<char>, reason: Seq<char> },
}

impl View for AppError {
    type V = ErrorView;

    open spec fn view(&self) -> ErrorView {
        match self {
            AppError::NotFound(t) => ErrorView::NotFound(t@),
            AppError::Forbidden(t) => ErrorView::Forbidden(t@),
            AppError::BadRequest(t) => ErrorView::BadRequest(t@),
            AppError::Conflict(t) => ErrorView::Conflict(t@),
            AppError::Unauthorized(t) => ErrorView::Unauthorized(t@),
            AppError::Internal => ErrorView::Internal,
            AppError::Coded { status, code, reason } => ErrorView::Coded {
                status: *status as int,
                code: code@,
                reason: reason@,
            },
            AppError::CodedVars { status, code, reason, vars } => ErrorView::CodedVars {
                status: *status as int,
                code: code@,
                reason: reason@,
                vars: vars_view(vars@),
            },
            AppError::Refused { code, reason } => ErrorView::Refused {
                code: code@,
                reason: reason@,
            },
        }
    }
}

/// A result with its error read through [`ErrorView`].
pub open spec fn outcome<T>(r: Result<T, AppError>) -> Result<T, ErrorView> {
    match r {
        Ok(v) => Ok(v),
        Err(e) => Err(e@),
    }
}

/// A value, unless something refuses it.
pub open spec fn unless<T>(refusal: Option<ErrorView>, value: T) -> Result<T, ErrorView> {
    match refusal {
        Some(e) => Err(e),
        None => Ok(value),
    }
}

/// The first of two refusals.
pub open spec fn either(a: Option<ErrorView>, b: Option<ErrorView>) -> Option<ErrorView> {
    match a {
        Some(e) => Some(e),
        None => b,
    }
}

/// What a check refuses for, if it does.
pub open spec fn refusal<T>(r: Result<T, AppError>) -> Option<ErrorView> {
    match r {
        Ok(_) => None,
        Err(e) => Some(e@),
    }
}

/// Refused where the condition holds.
pub open spec fn given(refuses: bool, e: ErrorView) -> Option<ErrorView> {
    if refuses {
        Some(e)
    } else {
        None
    }
}

/// A refusal with its own status and machine-readable code.
pub open spec fn coded_view(status: int, code: Seq<char>, reason: Seq<char>) -> ErrorView {
    ErrorView::Coded { status, code, reason }
}

pub fn not_found(reason: &str) -> (e: AppError)
    ensures
        e@ == ErrorView::NotFound(reason@),
{
    AppError::NotFound(reason.to_owned())
}

pub fn forbidden(reason: &str) -> (e: AppError)
    ensures
        e@ == ErrorView::Forbidden(reason@),
{
    AppError::Forbidden(reason.to_owned())
}

pub fn bad_request(reason: &str) -> (e: AppError)
    ensures
        e@ == ErrorView::BadRequest(reason@),
{
    AppError::BadRequest(reason.to_owned())
}

pub fn conflict(reason: &str) -> (e: AppError)
    ensures
        e@ == ErrorView::Conflict(reason@),
{
    AppError::Conflict(reason.to_owned())
}

pub fn unauthorized(reason: &str) -> (e: AppError)
    ensures
        e@ == ErrorView::Unauthorized(reason@),
{
    AppError::Unauthorized(reason.to_owned())
}

pub fn coded(status: u16, code: &'static str, reason: &str) -> (e: AppError)
    ensures
        e@ == (ErrorView::Coded { status: status as int, code: code@, reason: reason@ }),
{
    AppError::Coded { status, code, reason: reason.to_owned() }
}

/// A refusal with no figures.
pub fn coded_plain(status: u16, code: &'static str, reason: &str) -> (e: AppError)
    ensures
        e@ == (ErrorView::CodedVars {
            status: status as int,
            code: code@,
            reason: reason@,
            vars: Seq::empty(),
        }),
{
    let e: AppError = AppError::CodedVars {
        status,
        code,
        reason: reason.to_owned(),
        vars: Vec::new(),
    };
    assert(e@->CodedVars_vars =~= Seq::empty());
    e
}

/// A refusal with one figure.
pub fn coded_var(
    status: u16,
    code: &'static str,
    reason: &str,
    name: &'static str,
    var: Var,
) -> (e: AppError)
    ensures
        e@ == (ErrorView::CodedVars {
            status: status as int,
            code: code@,
            reason: reason@,
            vars: seq![(name@, var@)],
        }),
{
    let mut vars: Vec<(&'static str, Var)> = Vec::new();
    vars.push((name, var));
    let e: AppError = AppError::CodedVars { status, code, reason: reason.to_owned(), vars };
    assert(e@->CodedVars_vars =~= seq![(name@, var@)]);
    e
}

/// A refusal with two figures.
pub fn coded_var2(
    status: u16,
    code: &'static str,
    reason: &str,
    a: (&'static str, Var),
    b: (&'static str, Var),
) -> (e: AppError)
    ensures
        e@ == (ErrorView::CodedVars {
            status: status as int,
            code: code@,
            reason: reason@,
            vars: seq![(a.0@, a.1@), (b.0@, b.1@)],
        }),
{
    let ghost said = seq![(a.0@, a.1@), (b.0@, b.1@)];
    let mut vars: Vec<(&'static str, Var)> = Vec::new();
    vars.push(a);
    vars.push(b);
    let e: AppError = AppError::CodedVars { status, code, reason: reason.to_owned(), vars };
    assert(e@->CodedVars_vars =~= said);
    e
}

/// A refusal with any number of figures.
pub fn coded_vars(
    status: u16,
    code: &'static str,
    reason: &str,
    vars: Vec<(&'static str, Var)>,
) -> (e: AppError)
    ensures
        e@ == (ErrorView::CodedVars {
            status: status as int,
            code: code@,
            reason: reason@,
            vars: vars_view(vars@),
        }),
{
    AppError::CodedVars { status, code, reason: reason.to_owned(), vars }
}

/// A refusal with its own status and code, and no figures.
pub open spec fn plain_view(status: int, code: Seq<char>, reason: Seq<char>) -> ErrorView {
    ErrorView::CodedVars { status, code, reason, vars: Seq::empty() }
}

pub fn refused(code: &'static str, reason: &str) -> (e: AppError)
    ensures
        e@ == (ErrorView::Refused { code: code@, reason: reason@ }),
{
    AppError::Refused { code, reason: reason.to_owned() }
}

/// Of two refusals the first is answered, and the second only where there is
/// none; a check that passed refuses nothing, and one that failed refuses with
/// what it says.
pub proof fn law_the_first_refusal_is_answered(
    a: Option<ErrorView>,
    b: Option<ErrorView>,
    r: Result<(), AppError>,
    refuses: bool,
    e: ErrorView,
)
    ensures
        a is Some ==> either(a, b) == a,
        a is None ==> either(a, b) == b,
        r is Ok ==> refusal(r) is None,
        r is Err ==> refusal(r) == Some(r->Err_0@),
        refuses ==> given(refuses, e) == Some(e),
        !refuses ==> given(refuses, e) is None,
{
}

} // verus!
