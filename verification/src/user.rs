//! The persisted `User` entity and the validation rules that guard its
//! construction: a letters-only name and a birthday that does not lie in
//! the future.

use vstd::prelude::*;
use crate::date::{date_lt, day_number, lemma_day_number_orders, Date};
use crate::errors::{is_future_birthday_error, is_invalid_name_error, AppError};

verus! {

/// A name is valid when it is non-empty and made of ASCII letters only.
pub open spec fn valid_name(s: Seq<char>) -> bool {
    s.len() > 0 && forall|i: int| 0 <= i < s.len() ==> is_ascii_letter(#[trigger] s[i])
}

pub open spec fn is_ascii_letter(c: char) -> bool {
    ('a' <= c && c <= 'z') || ('A' <= c && c <= 'Z')
}

/// The sole persisted entity: a person's name, which identifies them, and
/// their date of birth.
#[derive(Debug, Clone, PartialEq, Eq)]
pub struct User {
    name: String,
    birthday: Date,
}

/// The body of a "submit birthday" request once decoded from the wire.
#[derive(Debug, Clone, Copy, PartialEq, Eq, Structural)]
pub struct PutUserBody {
    pub birthday: Date,
}

/// Accepts exactly the non-empty, letters-only names.
pub fn validate_name(name: &str) -> (r: Result<(), AppError>)
    ensures
        r is Ok <==> valid_name(name@),
        r matches Err(e) ==> is_invalid_name_error(e),
{
    let len = name.unicode_len();
    if len == 0 {
        return Err(AppError::BadRequest("Invalid name, only letters allowed.".to_owned()));
    }
    let mut i: usize = 0;
    while i < len
        invariant
            i <= len,
            len == name@.len(),
            forall|j: int| 0 <= j < i ==> is_ascii_letter(#[trigger] name@[j]),
        decreases len - i,
    {
        let c = name.get_char(i);
        if !((c >= 'a' && c <= 'z') || (c >= 'A' && c <= 'Z')) {
            return Err(AppError::BadRequest("Invalid name, only letters allowed.".to_owned()));
        }
        i += 1;
    }
    Ok(())
}

/// Accepts exactly the birthdays that lie on or before `today`.
pub fn validate_birthday(birthday: &Date, today: &Date) -> (r: Result<(), AppError>)
    requires
        birthday.wf(),
        today.wf(),
    ensures
        r is Ok <==> day_number(*birthday) <= day_number(*today),
        r is Ok <==> !date_lt(*today, *birthday),
        r matches Err(e) ==> is_future_birthday_error(e),
{
    proof {
        lemma_day_number_orders(*today, *birthday);
    }
    if today.day_number() < birthday.day_number() {
        return Err(AppError::BadRequest("Provided birthday is in the future!".to_owned()));
    }
    Ok(())
}

impl User {
    pub closed spec fn spec_name(&self) -> Seq<char> {
        self.name@
    }

    pub closed spec fn spec_birthday(&self) -> Date {
        self.birthday
    }

    pub open spec fn wf(&self) -> bool {
        valid_name(self.spec_name()) && self.spec_birthday().wf()
    }

    /// Validates and constructs a user. The name is checked first; the first
    /// failing check's rejection is returned.
    pub fn new(name: String, birthday: Date, today: Date) -> (r: Result<User, AppError>)
        requires
            birthday.wf(),
            today.wf(),
        ensures
            r is Ok <==> valid_name(name@) && day_number(birthday) <= day_number(today),
            r matches Ok(u) ==> u.wf() && u.spec_name() == name@ && u.spec_birthday() == birthday,
            r matches Err(e) ==> if !valid_name(name@) {
                is_invalid_name_error(e)
            } else {
                is_future_birthday_error(e)
            },
    {
        validate_name(name.as_str())?;
        validate_birthday(&birthday, &today)?;
        Ok(User { name, birthday })
    }

    pub fn name(&self) -> (r: &str)
        ensures
            r@ == self.spec_name(),
    {
        self.name.as_str()
    }

    pub fn birthday(&self) -> (r: &Date)
        ensures
            *r == self.spec_birthday(),
    {
        &self.birthday
    }
}

} // verus!
