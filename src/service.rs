//! How the use cases read the outcome of a store operation.

use vstd::prelude::*;
use vstd::string::*;
use crate::error::AppError;
use crate::ids::{parse_uuid, uuid_of};
use crate::model::{texts, ProductForm};

verus! {

/// The message a form without a name is refused with.
pub open spec fn missing_name_message() -> Seq<char> {
    "name must not be empty"@
}

/// The message a form with a category id that is not a UUID is refused with.
pub open spec fn malformed_id_message() -> Seq<char> {
    "category ids must be UUIDs"@
}

/// A form is acceptable when it names the product and each of its category
/// ids is written as a UUID.
pub open spec fn form_valid(form: ProductForm) -> bool {
    &&& form.name@.len() > 0
    &&& forall|i: int| 0 <= i < form.categories_ids@.len() ==> (#[trigger] uuid_of(texts(form.categories_ids@)[i])) is Some
}

/// Checks a form before it reaches the store.
pub fn validate_form(form: &ProductForm) -> (r: Result<(), AppError>)
    ensures
        r is Ok <==> form_valid(*form),
        form.name@.len() == 0 ==> (r matches Err(AppError::ValidationError(m)) && m@ == missing_name_message()),
        form.name@.len() > 0 && !form_valid(*form) ==> (r matches Err(AppError::ValidationError(m)) && m@
            == malformed_id_message()),
{
    if form.name.as_str().is_empty() {
        return Err(AppError::ValidationError(String::from_str("name must not be empty")));
    }
    let mut k: usize = 0;
    while k < form.categories_ids.len()
        invariant
            k <= form.categories_ids@.len(),
            form.name@.len() > 0,
            forall|i: int| 0 <= i < k ==> (#[trigger] uuid_of(texts(form.categories_ids@)[i])) is Some,
        decreases form.categories_ids@.len() - k,
    {
        assert(texts(form.categories_ids@)[k as int] == form.categories_ids@[k as int]@);
        if parse_uuid(form.categories_ids[k].as_str()).is_none() {
            return Err(AppError::ValidationError(String::from_str("category ids must be UUIDs")));
        }
        k = k + 1;
    }
    Ok(())
}

/// A lookup whose missing target is an empty answer rather than a failure.
pub fn found_or_none<T>(r: Result<T, AppError>) -> (o: Result<Option<T>, AppError>)
    ensures
        match r {
            Ok(v) => o == Ok::<Option<T>, AppError>(Some(v)),
            Err(AppError::NotFound) => o == Ok::<Option<T>, AppError>(None),
            Err(e) => o == Err::<Option<T>, AppError>(e),
        },
{
    match r {
        Ok(v) => Ok(Some(v)),
        Err(AppError::NotFound) => Ok(None),
        Err(e) => Err(e),
    }
}

/// A deletion that removed no row failed to find its target.
pub fn removal_outcome(r: Result<u64, AppError>) -> (o: Result<(), AppError>)
    ensures
        match r {
            Ok(n) => if n == 0 {
                o == Err::<(), AppError>(AppError::NotFound)
            } else {
                o == Ok::<(), AppError>(())
            },
            Err(e) => o == Err::<(), AppError>(e),
        },
{
    match r {
        Ok(n) => if n == 0 {
            Err(AppError::NotFound)
        } else {
            Ok(())
        },
        Err(e) => Err(e),
    }
}

} // verus!
