//! The pure decision behind each HTTP route. The surrounding program decodes
//! the request, hands plain values in, performs the store call these
//! decisions ask for, and maps the results onto the wire.

use vstd::prelude::*;
use crate::date::{day_number, Date};
use crate::errors::{is_future_birthday_error, is_invalid_name_error, AppError};
use crate::user::{valid_name, PutUserBody, User};
use crate::utils::{
    get_birthday_message, next_birthday_representable, spec_birthday_message, spec_days_until,
};

verus! {

/// Whether a submission with these inputs is accepted and stored.
pub open spec fn put_accepted(name: Seq<char>, birthday: Date, today: Date) -> bool {
    valid_name(name) && day_number(birthday) <= day_number(today)
}

/// The durable state after upserting `birthday` under `name`: the document
/// is created or replaced wholesale, never patched.
pub open spec fn store_upsert(store: Map<Seq<char>, Date>, name: Seq<char>, birthday: Date) -> Map<
    Seq<char>,
    Date,
> {
    store.insert(name, birthday)
}

/// Decides a "submit birthday" request. An `Ok` carries the document the
/// store is to upsert (the request then succeeds with an empty response);
/// an `Err` is the rejection to send instead.
pub fn submit_birthday(name: String, body: PutUserBody, today: Date) -> (r: Result<User, AppError>)
    requires
        body.birthday.wf(),
        today.wf(),
    ensures
        r is Ok <==> put_accepted(name@, body.birthday, today),
        r matches Ok(u) ==> u.wf() && u.spec_name() == name@ && u.spec_birthday() == body.birthday,
        r matches Err(e) ==> e.spec_status_code() == 400 && if !valid_name(name@) {
            is_invalid_name_error(e)
        } else {
            is_future_birthday_error(e)
        },
{
    User::new(name, body.birthday, today)
}

/// Decides what a fetch-by-key yields from what the store returned: an
/// absent document is `NotFound` — and nothing else ever is — a stored
/// document that still passes validation against `today` is the user, and
/// one that does not is an unexpected failure whose detail stays internal.
pub fn resolve_retrieved(found: Option<(String, Date)>, today: Date) -> (r: Result<
    User,
    AppError,
>)
    requires
        today.wf(),
        found matches Some(doc) ==> doc.1.wf(),
    ensures
        match found {
            None => r matches Err(e) && e matches AppError::NotFound,
            Some(doc) => if valid_name(doc.0@) && day_number(doc.1) <= day_number(today) {
                r matches Ok(u) && u.wf() && u.spec_name() == doc.0@ && u.spec_birthday() == doc.1
            } else {
                r matches Err(e) && e matches AppError::Other(_)
            },
        },
{
    match found {
        None => Err(AppError::NotFound),
        Some((name, birthday)) => match User::new(name, birthday, today) {
            Ok(user) => Ok(user),
            Err(_) => Err(AppError::Other("stored document failed validation".to_owned())),
        },
    }
}

/// Decides a "get user" response from what the store returned: formats the
/// greeting for a found user, and passes a retrieval error through untouched.
pub fn get_user(retrieved: Result<User, AppError>, today: Date) -> (r: Result<String, AppError>)
    requires
        today.wf(),
        retrieved matches Ok(u) ==> u.wf(),
    ensures
        match retrieved {
            Ok(u) => match r {
                Ok(m) => next_birthday_representable(today, u.spec_birthday()) && m@
                    == spec_birthday_message(
                    u.spec_name(),
                    spec_days_until(today, u.spec_birthday()),
                ),
                Err(e) => !next_birthday_representable(today, u.spec_birthday())
                    && e.spec_status_code() == 500,
            },
            Err(e) => r matches Err(e2) && e2 == e,
        },
{
    match retrieved {
        Ok(user) => get_birthday_message(today, &user),
        Err(e) => Err(e),
    }
}

/// Liveness probe: always succeeds, with no dependency on validation, the
/// store, or the calendar.
pub fn healthz() -> (status: u16)
    ensures
        status == 200,
{
    200
}

/// Read-after-write: after an upsert the store holds exactly the submitted
/// birthday under the submitted name, and every other document is untouched.
pub proof fn lemma_store_read_after_write(
    store: Map<Seq<char>, Date>,
    name: Seq<char>,
    birthday: Date,
    other: Seq<char>,
)
    ensures
        store_upsert(store, name, birthday).contains_key(name),
        store_upsert(store, name, birthday)[name] == birthday,
        other != name ==> (store_upsert(store, name, birthday).contains_key(other)
            <==> store.contains_key(other)),
        other != name && store.contains_key(other) ==> store_upsert(store, name, birthday)[other]
            == store[other],
{
}

/// Submitting the same accepted birthday twice leaves the store exactly as
/// submitting it once does: the upsert replaces the whole document under the
/// name, so the second request succeeds like the first and changes nothing.
pub proof fn lemma_put_idempotent(
    store: Map<Seq<char>, Date>,
    name: Seq<char>,
    birthday: Date,
    today: Date,
)
    requires
        put_accepted(name, birthday, today),
    ensures
        store_upsert(store_upsert(store, name, birthday), name, birthday) =~= store_upsert(
            store,
            name,
            birthday,
        ),
{
}

} // verus!
