//! Owners given on the command line, as numbers or as names.

use crate::text::{chars_of, parse_decimal, parse_u32};
use vstd::prelude::*;

verus! {

/// Why an owner could not be resolved.
#[derive(Debug, Clone, Copy, PartialEq, Eq, Structural)]
pub enum UserError {
    /// The user database could not be read.
    Lookup,
    /// The user database has no user of that name.
    Unknown,
}

/// Looks a user up by name with `nix::unistd::User::from_name` and hands
/// out the user's number: none where the database has no such user, an
/// error where the lookup failed. Nothing is claimed of the result: it
/// depends on the system's user database.
#[verifier::external_body]
pub(crate) fn lookup_uid(name: &str) -> (r: Result<Option<u32>, ()>) {
    match nix::unistd::User::from_name(name) {
        Ok(Some(user)) => Ok(Some(user.uid.as_raw())),
        Ok(None) => Ok(None),
        Err(_) => Err(()),
    }
}

/// The number that a text gives by itself: a text that writes a number
/// is that number.
pub open spec fn numeric_uid(text: Seq<char>) -> Option<u32> {
    match parse_decimal(text, 0, u32::MAX as int) {
        Some(n) => Some(n as u32),
        None => None,
    }
}

/// The owner that a text denotes, given what the user database says of it
/// as a name.
pub open spec fn spec_uid(text: Seq<char>, found: Result<Option<u32>, ()>) -> Result<
    u32,
    UserError,
> {
    match numeric_uid(text) {
        Some(n) => Ok(n),
        None => match found {
            Ok(Some(uid)) => Ok(uid),
            Ok(None) => Err(UserError::Unknown),
            Err(_) => Err(UserError::Lookup),
        },
    }
}

/// Whether `uid` is what `text` denotes for some answer of the user database.
pub open spec fn denotes(text: Seq<char>, uid: u32) -> bool {
    exists|found: Result<Option<u32>, ()>| Ok::<u32, UserError>(uid) == spec_uid(text, found)
}

/// The owner that a text denotes, given what the user database says of it
/// as a name.
pub fn uid_from_lookup(text: &str, found: Result<Option<u32>, ()>) -> (r: Result<u32, UserError>)
    ensures
        r == spec_uid(text@, found),
{
    match parse_u32(&chars_of(text)) {
        Some(n) => Ok(n),
        None => match found {
            Ok(Some(uid)) => Ok(uid),
            Ok(None) => Err(UserError::Unknown),
            Err(_) => Err(UserError::Lookup),
        },
    }
}

/// Resolves one owner: a number stands for itself, anything else is looked
/// up as a name. What the user database says is not known here.
pub fn resolve_user(text: &str) -> (r: Result<u32, UserError>)
    ensures
        exists|found: Result<Option<u32>, ()>| r == spec_uid(text@, found),
        r is Ok ==> denotes(text@, r->Ok_0),
        numeric_uid(text@) is Some ==> r == Ok::<u32, UserError>(numeric_uid(text@)->0),
{
    match parse_u32(&chars_of(text)) {
        Some(n) => {
            assert(Ok::<u32, UserError>(n) == spec_uid(text@, Err(())));
            Ok(n)
        },
        None => {
            let found = lookup_uid(text);
            let r = uid_from_lookup(text, found);
            assert(r == spec_uid(text@, found));
            r
        },
    }
}

/// Resolves the owners given, in order; the first that cannot be resolved
/// ends it.
pub fn resolve_users(users: &Vec<String>) -> (r: Result<Vec<u32>, UserError>)
    ensures
        r is Ok ==> r->Ok_0@.len() == users@.len(),
        r is Ok ==> forall|i: int|
            0 <= i < users@.len() ==> denotes(users@[i]@, #[trigger] r->Ok_0@[i]),
        (forall|i: int| 0 <= i < users@.len() ==> numeric_uid(#[trigger] users@[i]@) is Some)
            ==> r is Ok,
{
    let mut uids: Vec<u32> = Vec::new();
    let mut i: usize = 0;
    while i < users.len()
        invariant
            i <= users@.len(),
            uids@.len() == i,
            forall|k: int| 0 <= k < i ==> denotes(users@[k]@, #[trigger] uids@[k]),
        decreases users@.len() - i,
    {
        let ghost before = uids@;
        match resolve_user(users[i].as_str()) {
            Ok(uid) => {
                uids.push(uid);
                assert forall|k: int| 0 <= k < i + 1 implies denotes(
                    users@[k]@,
                    #[trigger] uids@[k],
                ) by {
                    if k < i {
                        assert(uids@[k] == before[k]);
                    }
                }
            },
            Err(e) => {
                assert(numeric_uid(users@[i as int]@) is None);
                return Err(e);
            },
        }
        i += 1;
    }
    Ok(uids)
}

} // verus!
