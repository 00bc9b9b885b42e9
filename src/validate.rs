//! Questions whose answers a caller-supplied function checks.
use vstd::prelude::*;
use std::marker::PhantomData;

verus! {

/// Asks until the line passes a check; the check explains a refusal.
pub struct SimpleValidate<F: Fn(&str) -> Result<(), String>>(pub F);

impl<F: Fn(&str) -> Result<(), String>> SimpleValidate<F> {
    /// The answer that a line gives, or the check's explanation of why it
    /// gives none. An empty line takes the default without being checked.
    pub fn check(&self, line: String, default: Option<String>) -> (r: Result<String, String>)
        requires
            forall|s: &str| self.0.requires((s,)),
        ensures
            line@.len() == 0 && default is Some ==> r == Ok::<String, String>(default->0),
            !(line@.len() == 0 && default is Some) ==> exists|s: &str, v: Result<(), String>|
                {
                    &&& s@ == line@
                    &&& self.0.ensures((s,), v)
                    &&& r == match v {
                        Ok(_) => Ok::<String, String>(line),
                        Err(m) => Err(m),
                    }
                },
    {
        if line.as_str().is_empty() {
            match default {
                Some(d) => {
                    return Ok(d);
                },
                None => {},
            }
        }
        let verdict = (self.0)(line.as_str());
        match verdict {
            Ok(_) => Ok(line),
            Err(m) => Err(m),
        }
    }
}

/// Asks until a function turns the line into a value; the function
/// explains a refusal.
#[verifier::reject_recursive_types(O)]
pub struct TransformValidate<F: Fn(String) -> Result<O, String>, O>(pub F, pub PhantomData<O>);

impl<F: Fn(String) -> Result<O, String>, O> TransformValidate<F, O> {
    /// A question checked and transformed by `f`.
    pub fn new(f: F) -> (r: Self)
        ensures
            r.0 == f,
    {
        TransformValidate(f, PhantomData)
    }

    /// The value that a line gives, or the function's explanation of why it
    /// gives none. An empty line takes the default without being looked at.
    pub fn check(&self, line: String, default: Option<O>) -> (r: Result<O, String>)
        requires
            forall|s: String| self.0.requires((s,)),
        ensures
            line@.len() == 0 && default is Some ==> r == Ok::<O, String>(default->0),
            !(line@.len() == 0 && default is Some) ==> self.0.ensures((line,), r),
    {
        if line.as_str().is_empty() {
            match default {
                Some(d) => {
                    return Ok(d);
                },
                None => {},
            }
        }
        (self.0)(line)
    }
}

} // verus!
