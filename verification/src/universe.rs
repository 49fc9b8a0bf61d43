use vstd::prelude::*;
use crate::user::{names_equal, names_match, User, UserId};

verus! {

/// Checks a set of user credentials against the roster: the first user
/// whose name matches, without regard to ASCII letter case, decides, and
/// only a correct password yields that user's id.
pub fn validate_credentials(users: &Vec<User>, user_name: String, password: String) -> (r: Option<
    UserId,
>)
    ensures
        match r {
            Some(uid) => exists|i: int|
                0 <= i < users@.len() && names_equal(
                    (#[trigger] users@[i]).user_name@,
                    user_name@,
                ) && (forall|j: int|
                    0 <= j < i ==> !names_equal((#[trigger] users@[j]).user_name@, user_name@))
                    && users@[i].user_password@ == password@ && uid == users@[i].user_id,
            None => forall|i: int|
                0 <= i < users@.len() && names_equal(
                    (#[trigger] users@[i]).user_name@,
                    user_name@,
                ) && (forall|j: int|
                    0 <= j < i ==> !names_equal((#[trigger] users@[j]).user_name@, user_name@))
                    ==> users@[i].user_password@ != password@,
        },
{
    let n = users.len();
    let mut i: usize = 0;
    while i < n
        invariant
            n == users@.len(),
            0 <= i <= n,
            forall|j: int|
                0 <= j < i ==> !names_equal((#[trigger] users@[j]).user_name@, user_name@),
        decreases n - i,
    {
        if names_match(users[i].user_name.as_str(), user_name.as_str()) {
            proof {
                assert(names_equal(users@[i as int].user_name@, user_name@));
            }
            if users[i].user_password == password {
                return Some(users[i].user_id);
            }
            return None;
        }
        i += 1;
    }
    None
}

} // verus!
