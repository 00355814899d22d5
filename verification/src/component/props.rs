//! Props: values that are given, defaulted or required, validators that
//! can be combined, and a builder that validates what it builds.
use vstd::prelude::*;
use crate::text::{decimal, push_decimal, push_str};

verus! {

/// What is wrong with some props.
#[derive(Debug)]
pub enum PropValidationError {
    /// A required property is missing.
    MissingRequired(String),
    /// A property has an invalid value.
    InvalidValue {
        /// Name of the property.
        name: String,
        /// Why the value is invalid.
        reason: String,
    },
    /// A property has the wrong type.
    TypeMismatch {
        /// Name of the property.
        name: String,
        /// Expected type.
        expected: String,
        /// Actual type.
        actual: String,
    },
    /// Several errors at once.
    Multiple(Vec<PropValidationError>),
}

/// The content of a validation error.
pub enum ErrorView {
    /// A required property is missing.
    MissingRequired(Seq<char>),
    /// A property has an invalid value: its name and why.
    InvalidValue(Seq<char>, Seq<char>),
    /// A property has the wrong type: its name, the expected and the
    /// actual type.
    TypeMismatch(Seq<char>, Seq<char>, Seq<char>),
    /// Several errors at once.
    Multiple(Seq<ErrorView>),
}

/// The content of an error.
pub open spec fn error_view(e: PropValidationError) -> ErrorView
    decreases e,
{
    match e {
        PropValidationError::MissingRequired(name) => ErrorView::MissingRequired(name@),
        PropValidationError::InvalidValue { name, reason } => ErrorView::InvalidValue(name@, reason@),
        PropValidationError::TypeMismatch { name, expected, actual } => ErrorView::TypeMismatch(
            name@,
            expected@,
            actual@,
        ),
        PropValidationError::Multiple(errors) => ErrorView::Multiple(
            error_views(errors@, errors@.len() as int),
        ),
    }
}

/// The contents of the first `k` errors.
pub open spec fn error_views(es: Seq<PropValidationError>, k: int) -> Seq<ErrorView>
    decreases es, k,
{
    if k <= 0 || k > es.len() {
        Seq::empty()
    } else {
        error_views(es, k - 1).push(error_view(es[k - 1]))
    }
}

impl View for PropValidationError {
    type V = ErrorView;

    open spec fn view(&self) -> ErrorView {
        error_view(*self)
    }
}

/// The content of a validation result.
pub open spec fn outcome_view(r: Result<(), PropValidationError>) -> Result<(), ErrorView> {
    match r {
        Ok(_) => Ok(()),
        Err(e) => Err(e@),
    }
}

/// The text describing an error.
pub open spec fn error_text(e: ErrorView) -> Seq<char>
    decreases e,
{
    match e {
        ErrorView::MissingRequired(name) => "Missing required property: "@ + name,
        ErrorView::InvalidValue(name, reason) => "Invalid value for property "@ + name + ": "@ + reason,
        ErrorView::TypeMismatch(name, expected, actual) => "Type mismatch for property "@ + name
            + ": expected "@ + expected + ", got "@ + actual,
        ErrorView::Multiple(errors) => "Multiple validation errors:\n"@ + numbered_lines(
            errors,
            errors.len() as int,
        ),
    }
}

/// The first `k` errors as numbered lines: two spaces, the number from 1,
/// a dot and a space, the error's text, a line break.
pub open spec fn numbered_lines(es: Seq<ErrorView>, k: int) -> Seq<char>
    decreases es, k,
{
    if k <= 0 || k > es.len() {
        Seq::empty()
    } else {
        numbered_lines(es, k - 1) + "  "@ + decimal(k as nat) + ". "@ + error_text(es[k - 1]) + "\n"@
    }
}

/// The contents of a list of errors, one by one.
pub proof fn lemma_error_views_prefix(es: Seq<PropValidationError>, k: int)
    requires
        0 <= k <= es.len(),
    ensures
        error_views(es, k).len() == k,
        forall|j: int| 0 <= j < k ==> error_views(es, k)[j] == error_view(#[trigger] es[j]),
    decreases k,
{
    if k > 0 {
        lemma_error_views_prefix(es, k - 1);
    }
}

impl PropValidationError {
    /// The text describing the error.
    pub fn to_message(&self) -> (r: String)
        ensures
            r@ == error_text(self@),
        decreases *self,
    {
        let mut m = String::new();
        match self {
            PropValidationError::MissingRequired(name) => {
                push_str(&mut m, "Missing required property: ");
                push_str(&mut m, name.as_str());
            },
            PropValidationError::InvalidValue { name, reason } => {
                push_str(&mut m, "Invalid value for property ");
                push_str(&mut m, name.as_str());
                push_str(&mut m, ": ");
                push_str(&mut m, reason.as_str());
            },
            PropValidationError::TypeMismatch { name, expected, actual } => {
                push_str(&mut m, "Type mismatch for property ");
                push_str(&mut m, name.as_str());
                push_str(&mut m, ": expected ");
                push_str(&mut m, expected.as_str());
                push_str(&mut m, ", got ");
                push_str(&mut m, actual.as_str());
            },
            PropValidationError::Multiple(errors) => {
                push_str(&mut m, "Multiple validation errors:\n");
                let ghost start = m@;
                let ghost vs = error_views(errors@, errors@.len() as int);
                proof {
                    lemma_error_views_prefix(errors@, errors@.len() as int);
                }
                let mut i: usize = 0;
                while i < errors.len()
                    invariant
                        i <= errors@.len(),
                        vs.len() == errors@.len(),
                        forall|j: int| 0 <= j < errors@.len() ==> vs[j] == error_view(#[trigger] errors@[j]),
                        m@ == start + numbered_lines(vs, i as int),
                        *self == PropValidationError::Multiple(*errors),
                    decreases errors@.len() - i,
                {
                    push_str(&mut m, "  ");
                    push_decimal(&mut m, (i + 1) as u64);
                    push_str(&mut m, ". ");
                    proof {
                        assert(decreases_to!(*errors => errors[i as int]));
                        assert(decreases_to!(*self => (*self)->Multiple_0));
                    }
                    let line = errors[i].to_message();
                    push_str(&mut m, line.as_str());
                    push_str(&mut m, "\n");
                    i = i + 1;
                    assert(m@ =~= start + numbered_lines(vs, i as int));
                }
            },
        }
        m
    }
}

/// Something that validates props of type `P`.
pub trait PropValidator<P> {
    /// What validating `props` gives.
    spec fn validation(&self, props: &P) -> Result<(), ErrorView>;

    /// Validates the props.
    fn validate(&self, props: &P) -> (r: Result<(), PropValidationError>)
        ensures
            outcome_view(r) == self.validation(props),
    ;
}

/// A property that is given, has a default made on demand, or is
/// required.
pub enum PropValue<T, F> {
    /// The value is given.
    Value(T),
    /// The value is not given; this makes the default.
    Default(F),
    /// The value is required but not given.
    Required,
}

impl<T: Clone, F: Fn() -> T> PropValue<T, F> {
    /// The value: a copy of the given one, the default made now, or an
    /// error when a required value is missing.
    pub fn get(&self) -> (r: Result<T, PropValidationError>)
        requires
            self matches PropValue::Default(f) ==> call_requires(f, ()),
        ensures
            match self {
                PropValue::Value(v) => r matches Ok(x) && cloned(*v, x),
                PropValue::Default(f) => r matches Ok(x) && call_ensures(*f, (), x),
                PropValue::Required => r matches Err(PropValidationError::MissingRequired(m))
                    && m@ == "Property is required"@,
            },
    {
        match self {
            PropValue::Value(v) => Ok(v.clone()),
            PropValue::Default(f) => Ok(f()),
            PropValue::Required => Err(PropValidationError::MissingRequired("Property is required".to_owned())),
        }
    }

    /// A given value.
    pub fn new(value: T) -> (r: Self)
        ensures
            r == PropValue::<T, F>::Value(value),
    {
        PropValue::Value(value)
    }

    /// A value with a default made on demand.
    pub fn new_default(default_fn: F) -> (r: Self)
        ensures
            r == PropValue::<T, F>::Default(default_fn),
    {
        PropValue::Default(default_fn)
    }

    /// A required value, not given yet.
    pub fn new_required() -> (r: Self)
        ensures
            r == PropValue::<T, F>::Required,
    {
        PropValue::Required
    }

    /// Gives the value.
    pub fn set(&mut self, value: T)
        ensures
            *final(self) == PropValue::<T, F>::Value(value),
    {
        *self = PropValue::Value(value);
    }

    /// Whether the value is given.
    pub fn is_set(&self) -> (r: bool)
        ensures
            r == (self is Value),
    {
        match self {
            PropValue::Value(_) => true,
            _ => false,
        }
    }
}

/// Builds props and validates them on completion.
#[verifier::reject_recursive_types(P)]
pub struct PropsBuilder<P> {
    props: P,
    validator: Vec<Box<dyn PropValidator<P>>>,
}

impl<P> PropsBuilder<P> {
    /// The props being built.
    pub closed spec fn spec_props(&self) -> P {
        self.props
    }

    /// The validator run on completion: none, or exactly one.
    pub closed spec fn spec_validator(&self) -> Seq<Box<dyn PropValidator<P>>> {
        self.validator@
    }

    /// At most one validator is kept.
    pub closed spec fn wf(&self) -> bool {
        self.spec_validator().len() <= 1
    }

    /// A builder of the given props, with no validator.
    pub fn new(props: P) -> (r: Self)
        ensures
            r.wf(),
            r.spec_props() == props,
            r.spec_validator().len() == 0,
    {
        PropsBuilder { props, validator: Vec::new() }
    }

    /// The same builder with the given validator.
    pub fn with_validator(self, validator: Box<dyn PropValidator<P>>) -> (r: Self)
        ensures
            r.wf(),
            r.spec_props() == self.spec_props(),
            r.spec_validator() == seq![validator],
    {
        let mut vs = Vec::new();
        vs.push(validator);
        PropsBuilder { props: self.props, validator: vs }
    }

    /// The props, once the validator (if any) accepts them; otherwise its
    /// error.
    pub fn build(self) -> (r: Result<P, PropValidationError>)
        requires
            self.wf(),
        ensures
            self.spec_validator().len() == 0 ==> r == Ok::<P, PropValidationError>(self.spec_props()),
            self.spec_validator().len() == 1 ==> match self.spec_validator()[0].validation(
                &self.spec_props(),
            ) {
                Ok(_) => r == Ok::<P, PropValidationError>(self.spec_props()),
                Err(e) => r matches Err(x) && x@ == e,
            },
    {
        if self.validator.len() == 1 {
            match self.validator[0].validate(&self.props) {
                Ok(_) => Ok(self.props),
                Err(e) => Err(e),
            }
        } else {
            Ok(self.props)
        }
    }
}

/// A validator made of several: every member runs, and their errors are
/// combined.
#[verifier::reject_recursive_types(P)]
pub struct CompositeValidator<P> {
    validators: Vec<Box<dyn PropValidator<P>>>,
}

/// The errors of the first `k` validators on `props`, in order.
pub open spec fn errors_of<P>(vs: Seq<Box<dyn PropValidator<P>>>, props: &P, k: int) -> Seq<ErrorView>
    decreases k,
{
    if k <= 0 || k > vs.len() {
        Seq::empty()
    } else {
        match vs[k - 1].validation(props) {
            Ok(_) => errors_of(vs, props, k - 1),
            Err(e) => errors_of(vs, props, k - 1).push(e),
        }
    }
}

impl<P> CompositeValidator<P> {
    /// The member validators, in the order they run.
    pub closed spec fn members(&self) -> Seq<Box<dyn PropValidator<P>>> {
        self.validators@
    }

    /// A validator with no members.
    pub fn new() -> (r: Self)
        ensures
            r.members().len() == 0,
    {
        CompositeValidator { validators: Vec::new() }
    }

    /// Adds a member, run after the others.
    pub fn add(&mut self, validator: Box<dyn PropValidator<P>>)
        ensures
            final(self).members() == old(self).members().push(validator),
    {
        self.validators.push(validator);
    }
}

impl<P> PropValidator<P> for CompositeValidator<P> {
    /// Accepted when no member reports an error; one error is passed on as
    /// it is; several are combined in order.
    open spec fn validation(&self, props: &P) -> Result<(), ErrorView> {
        let es = errors_of(self.members(), props, self.members().len() as int);
        if es.len() == 0 {
            Ok(())
        } else if es.len() == 1 {
            Err(es[0])
        } else {
            Err(ErrorView::Multiple(es))
        }
    }

    fn validate(&self, props: &P) -> (r: Result<(), PropValidationError>) {
        let mut errors: Vec<PropValidationError> = Vec::new();
        let mut i: usize = 0;
        while i < self.validators.len()
            invariant
                i <= self.validators@.len(),
                errors@.len() == errors_of(self.members(), props, i as int).len(),
                forall|j: int| 0 <= j < errors@.len() ==> (#[trigger] errors@[j])@ == errors_of(self.members(), props, i as int)[j],
            decreases self.validators@.len() - i,
        {
            let ghost before = errors@;
            match self.validators[i].validate(props) {
                Ok(_) => {},
                Err(e) => {
                    errors.push(e);
                },
            }
            i = i + 1;
        }
        if errors.len() == 0 {
            Ok(())
        } else if errors.len() == 1 {
            Err(errors.remove(0))
        } else {
            let ghost es = errors_of(self.members(), props, self.members().len() as int);
            proof {
                lemma_error_views_prefix(errors@, errors@.len() as int);
                assert forall|j: int| 0 <= j < es.len() implies error_views(errors@, errors@.len() as int)[j] == es[j] by {
                    assert(errors@[j]@ == es[j]);
                }
                assert(error_views(errors@, errors@.len() as int) =~= es);
            }
            Err(PropValidationError::Multiple(errors))
        }
    }
}

} // verus!
