//! Compiler errors and how they are collected.
use vstd::prelude::*;
use crate::compiler::type_inference::TypeError;
use crate::utils::strings::{concat, decimal_digits, push_decimal, push_str};
use core::ops::Range;

verus! {

/// An error of the compiler.
#[derive(Debug)]
pub enum CompilerError {
    SerializationError,
    BigDecimalOutOfBoundsError,
    IntegerOutOfBoundsError,
    InvalidPlaceholderCount,
    /// More than 255 arguments.
    TooManyApplyArguments,
    NonStaticValue,
    UndeclaredVariable(String),
    InvalidRedeclaration(String),
    SubvariantNotFound(String, String),
    ScopePopError,
    InvalidSlotName(String),
    AssignmentToConst(String),
    AssignmentToImmutableReference(String),
    AssignmentToImmutableValue(String),
    OnceScopeUsedMultipleTimes,
    TypeError(TypeError),
}

/// The message of a compiler error.
pub open spec fn error_message(error: CompilerError) -> Seq<char> {
    match error {
        CompilerError::InvalidRedeclaration(name) => "Invalid redeclaration of "@ + name@,
        CompilerError::SubvariantNotFound(name, variant) => "Subvariant "@ + variant@
            + " does not exist for "@ + name@,
        CompilerError::SerializationError => "Serialization error"@,
        CompilerError::BigDecimalOutOfBoundsError => "BigDecimal out of bounds error"@,
        CompilerError::IntegerOutOfBoundsError => "Integer out of bounds error"@,
        CompilerError::InvalidPlaceholderCount => "Invalid placeholder count"@,
        CompilerError::NonStaticValue => "Encountered non-static value"@,
        CompilerError::UndeclaredVariable(name) => "Undeclared variable: "@ + name@,
        CompilerError::ScopePopError => "Could not pop scope, stack is empty"@,
        CompilerError::InvalidSlotName(name) => "Slot #"@ + name@ + " does not exist"@,
        CompilerError::AssignmentToConst(name) => "Cannot assign new value to const "@ + name@,
        CompilerError::OnceScopeUsedMultipleTimes =>
            "Scope cannot be used multiple times, set 'once' to false to use a scope multiple times"@,
        CompilerError::AssignmentToImmutableValue(name) => "Cannot assign to immutable value: "@
            + name@,
        CompilerError::AssignmentToImmutableReference(name) =>
            "Cannot assign to immutable reference: "@ + name@,
        CompilerError::TooManyApplyArguments => "Apply has too many arguments (max 255 allowed)"@,
        CompilerError::TypeError(_) => Seq::empty(),
    }
}

impl CompilerError {
    /// The message of the error; a type error is shown by the type error's own text, which
    /// this crate does not define.
    pub fn to_string(&self) -> (res: String)
        requires
            !(*self is TypeError),
        ensures
            res@ == error_message(*self),
    {
        match self {
            CompilerError::InvalidRedeclaration(name) => concat("Invalid redeclaration of ", name.as_str()),
            CompilerError::SubvariantNotFound(name, variant) => {
                let mut res = concat("Subvariant ", variant.as_str());
                push_str(&mut res, " does not exist for ");
                push_str(&mut res, name.as_str());
                res
            },
            CompilerError::SerializationError => "Serialization error".to_owned(),
            CompilerError::BigDecimalOutOfBoundsError => "BigDecimal out of bounds error".to_owned(),
            CompilerError::IntegerOutOfBoundsError => "Integer out of bounds error".to_owned(),
            CompilerError::InvalidPlaceholderCount => "Invalid placeholder count".to_owned(),
            CompilerError::NonStaticValue => "Encountered non-static value".to_owned(),
            CompilerError::UndeclaredVariable(name) => concat("Undeclared variable: ", name.as_str()),
            CompilerError::ScopePopError => "Could not pop scope, stack is empty".to_owned(),
            CompilerError::InvalidSlotName(name) => {
                let mut res = concat("Slot #", name.as_str());
                push_str(&mut res, " does not exist");
                res
            },
            CompilerError::AssignmentToConst(name) => concat(
                "Cannot assign new value to const ",
                name.as_str(),
            ),
            CompilerError::OnceScopeUsedMultipleTimes =>
                "Scope cannot be used multiple times, set 'once' to false to use a scope multiple times".to_owned(),
            CompilerError::AssignmentToImmutableValue(name) => concat(
                "Cannot assign to immutable value: ",
                name.as_str(),
            ),
            CompilerError::AssignmentToImmutableReference(name) => concat(
                "Cannot assign to immutable reference: ",
                name.as_str(),
            ),
            CompilerError::TooManyApplyArguments => "Apply has too many arguments (max 255 allowed)".to_owned(),
            CompilerError::TypeError(_) => String::new(),
        }
    }
}

/// A compiler error that can be linked to a span of the source code.
#[derive(Debug)]
pub struct SpannedCompilerError {
    pub error: CompilerError,
    pub span: Option<Range<usize>>,
}

/// The text of a spanned error: the message, then the span as `start..end` in parentheses, or
/// `(?)` without a span.
pub open spec fn spanned_message(error: SpannedCompilerError) -> Seq<char> {
    error_message(error.error) + " ("@ + match error.span {
        Some(span) => decimal_digits(span.start as nat) + ".."@ + decimal_digits(span.end as nat),
        None => "?"@,
    } + ")"@
}

/// The texts of `errors`, one per line.
pub open spec fn errors_message(errors: Seq<SpannedCompilerError>) -> Seq<char>
    decreases errors.len(),
{
    if errors.len() == 0 {
        Seq::empty()
    } else {
        errors_message(errors.drop_last()) + spanned_message(errors.last()) + seq!['\n']
    }
}

impl SpannedCompilerError {
    /// The text of the error (see `spanned_message`).
    pub fn to_string(&self) -> (res: String)
        requires
            !(self.error is TypeError),
        ensures
            res@ == spanned_message(*self),
    {
        let mut res = self.error.to_string();
        push_str(&mut res, " (");
        match &self.span {
            Some(span) => {
                push_decimal(&mut res, span.start);
                push_str(&mut res, "..");
                push_decimal(&mut res, span.end);
            },
            None => push_str(&mut res, "?"),
        }
        push_str(&mut res, ")");
        proof {
            reveal_strlit(" (");
            reveal_strlit("..");
            reveal_strlit("?");
            reveal_strlit(")");
        }
        assert(res@ =~= spanned_message(*self));
        res
    }

    /// An error at `span`.
    pub fn new_with_span(error: CompilerError, span: Range<usize>) -> (res: SpannedCompilerError)
        ensures
            res.error == error,
            res.span == Some(span),
    {
        SpannedCompilerError { error, span: Some(span) }
    }
}

impl From<TypeError> for CompilerError {
    fn from(error: TypeError) -> (res: Self) {
        CompilerError::TypeError(error)
    }
}

impl vstd::std_specs::convert::FromSpecImpl<TypeError> for CompilerError {
    open spec fn obeys_from_spec() -> bool {
        true
    }

    open spec fn from_spec(error: TypeError) -> Self {
        CompilerError::TypeError(error)
    }
}

impl From<CompilerError> for SpannedCompilerError {
    fn from(error: CompilerError) -> (res: Self) {
        SpannedCompilerError { error, span: None }
    }
}

impl vstd::std_specs::convert::FromSpecImpl<CompilerError> for SpannedCompilerError {
    open spec fn obeys_from_spec() -> bool {
        true
    }

    open spec fn from_spec(error: CompilerError) -> Self {
        SpannedCompilerError { error, span: None }
    }
}

/// All errors collected while compiling.
#[derive(Debug)]
pub struct DetailedCompilerErrors {
    pub errors: Vec<SpannedCompilerError>,
}

impl Default for DetailedCompilerErrors {
    fn default() -> (res: Self)
        ensures
            res.errors@ == Seq::<SpannedCompilerError>::empty(),
    {
        DetailedCompilerErrors::new()
    }
}

impl DetailedCompilerErrors {
    /// No errors.
    pub fn new() -> (res: Self)
        ensures
            res.errors@ == Seq::<SpannedCompilerError>::empty(),
    {
        DetailedCompilerErrors { errors: Vec::new() }
    }

    /// The texts of the errors, one per line.
    pub fn to_string(&self) -> (res: String)
        requires
            forall|i: int| 0 <= i < self.errors@.len() ==> !(#[trigger] self.errors@[i].error is TypeError),
        ensures
            res@ == errors_message(self.errors@),
    {
        let mut res = String::new();
        let mut i: usize = 0;
        while i < self.errors.len()
            invariant
                i <= self.errors@.len(),
                forall|k: int| 0 <= k < self.errors@.len() ==> !(#[trigger] self.errors@[k].error is TypeError),
                res@ == errors_message(self.errors@.subrange(0, i as int)),
            decreases self.errors@.len() - i,
        {
            let line = self.errors[i].to_string();
            push_str(&mut res, line.as_str());
            push_str(&mut res, "\n");
            proof {
                reveal_strlit("\n");
                let next = self.errors@.subrange(0, i + 1);
                assert(next.drop_last() =~= self.errors@.subrange(0, i as int));
            }
            i = i + 1;
        }
        assert(self.errors@.subrange(0, i as int) =~= self.errors@);
        res
    }

    /// Whether any error was collected.
    pub fn has_errors(&self) -> (b: bool)
        ensures
            b == (self.errors@.len() > 0),
    {
        self.errors.len() > 0
    }

    /// Moves all errors of `errors` to the end of this collection.
    pub fn append(&mut self, errors: DetailedCompilerErrors)
        ensures
            final(self).errors@ == old(self).errors@ + errors.errors@,
    {
        let mut errors = errors;
        self.errors.append(&mut errors.errors);
    }

    /// Records `error` at `span`.
    pub fn record_error_with_span(&mut self, error: CompilerError, span: Range<usize>)
        ensures
            final(self).errors@ == old(self).errors@.push(
                SpannedCompilerError { error, span: Some(span) },
            ),
    {
        self.record_error(SpannedCompilerError { error, span: Some(span) });
    }
}

/// An optional action that is only performed if a result was `Ok`.
pub enum MaybeAction<T> {
    /// The action is not performed.
    Skip,
    /// The action is performed with the value.
    Do(T),
}

/// Something that collects errors.
pub trait ErrorCollector<E> {
    /// The errors recorded so far, in order.
    spec fn recorded(&self) -> Seq<E>;

    /// Records `error` after the errors recorded so far.
    fn record_error(&mut self, error: E)
        ensures
            final(self).recorded() == old(self).recorded().push(error),
    ;
}

impl ErrorCollector<SpannedCompilerError> for DetailedCompilerErrors {
    open spec fn recorded(&self) -> Seq<SpannedCompilerError> {
        self.errors@
    }

    fn record_error(&mut self, error: SpannedCompilerError)
        ensures
            final(self).errors@ == old(self).errors@.push(error),
    {
        self.errors.push(error);
    }
}

/// Handles a result: `Ok(v)` gives `Ok(MaybeAction::Do(v))`; an error is recorded in the
/// collector, if there is one, giving `Ok(MaybeAction::Skip)`, and is passed on otherwise.
pub fn collect_or_pass_error<T, E, Collector: ErrorCollector<E>>(
    collected_errors: &mut Option<Collector>,
    result: Result<T, E>,
) -> (res: Result<MaybeAction<T>, E>)
    ensures
        match result {
            Ok(v) => res == Ok::<MaybeAction<T>, E>(MaybeAction::Do(v)) && *final(collected_errors)
                == *old(collected_errors),
            Err(e) => match *old(collected_errors) {
                Some(c) => {
                    &&& res == Ok::<MaybeAction<T>, E>(MaybeAction::Skip)
                    &&& (*final(collected_errors)) matches Some(f) && f.recorded() == c.recorded().push(e)
                },
                None => res == Err::<MaybeAction<T>, E>(e) && (*final(collected_errors)) is None,
            },
        },
{
    match result {
        Ok(v) => Ok(MaybeAction::Do(v)),
        Err(error) => {
            match collected_errors {
                Some(collector) => {
                    collector.record_error(error);
                    Ok(MaybeAction::Skip)
                },
                None => Err(error),
            }
        },
    }
}

} // verus!
