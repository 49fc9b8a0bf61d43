use vstd::prelude::*;
use vstd::string::StrSliceExecFns;

verus! {

pub type UserId = usize;

pub const ADMIN_USER_ID: UserId = 1;

/// The daily request quota granted to newly created ordinary players.
pub const DEFAULT_REQUESTS_PER_DAY: i32 = 150;

/// The outcome of checking a name and password against the user roster.
pub enum ValidationResult {
    Success(UserId),
    NoSuchUser,
    IncorrectPassword,
    UserIsDisabled,
}

/// A registered player. The login timestamp counts seconds since the epoch;
/// absent request quotas mean the user is unlimited.
pub struct User {
    pub user_id: UserId,
    pub user_name: String,
    pub user_password: String,
    pub game_name: String,
    pub last_login_timestamp: Option<u64>,
    pub is_disabled: bool,
    pub requests_per_day: Option<i32>,
    pub requests_remaining: Option<i32>,
}

/// ASCII letters folded to lower case; everything else unchanged.
pub open spec fn ascii_lower_char(c: char) -> char {
    if 65 <= c as u32 <= 90 {
        ((c as u32 + 32) as u8) as char
    } else {
        c
    }
}

pub open spec fn ascii_lower(s: Seq<char>) -> Seq<char> {
    s.map(|i: int, c: char| ascii_lower_char(c))
}

/// User names compare without regard to ASCII letter case.
pub open spec fn names_equal(a: Seq<char>, b: Seq<char>) -> bool {
    ascii_lower(a) == ascii_lower(b)
}

/// Compares two names without regard to ASCII letter case.
pub fn names_match(a: &str, b: &str) -> (r: bool)
    ensures
        r == names_equal(a@, b@),
{
    let na = a.unicode_len();
    let nb = b.unicode_len();
    if na != nb {
        proof {
            assert(ascii_lower(a@).len() == a@.len());
            assert(ascii_lower(b@).len() == b@.len());
        }
        return false;
    }
    let mut i: usize = 0;
    while i < na
        invariant
            na == a@.len(),
            na == b@.len(),
            0 <= i <= na,
            forall|k: int| 0 <= k < i ==> ascii_lower_char(a@[k]) == ascii_lower_char(b@[k]),
        decreases na - i,
    {
        let ca = a.get_char(i);
        let cb = b.get_char(i);
        let la: u32 = if 65 <= ca as u32 && ca as u32 <= 90 {
            ca as u32 + 32
        } else {
            ca as u32
        };
        let lb: u32 = if 65 <= cb as u32 && cb as u32 <= 90 {
            cb as u32 + 32
        } else {
            cb as u32
        };
        if la != lb {
            proof {
                assert(ascii_lower(a@)[i as int] == ascii_lower_char(a@[i as int]));
                assert(ascii_lower(b@)[i as int] == ascii_lower_char(b@[i as int]));
                assert(ascii_lower_char(a@[i as int]) as u32 == la);
                assert(ascii_lower_char(b@[i as int]) as u32 == lb);
            }
            return false;
        }
        proof {
            assert(ascii_lower_char(a@[i as int]) as u32 == la);
            assert(ascii_lower_char(b@[i as int]) as u32 == lb);
            assert(ascii_lower_char(a@[i as int]) == ascii_lower_char(b@[i as int]));
        }
        i += 1;
    }
    proof {
        assert(ascii_lower(a@) =~= ascii_lower(b@));
    }
    true
}

/// Whether some user already carries this name, without regard to ASCII
/// letter case.
pub fn user_exists(users: &Vec<User>, user_name: &String) -> (r: bool)
    ensures
        r == exists|i: int|
            0 <= i < users@.len() && names_equal((#[trigger] users@[i]).user_name@, user_name@),
{
    let n = users.len();
    let mut i: usize = 0;
    while i < n
        invariant
            n == users@.len(),
            0 <= i <= n,
            forall|j: int|
                0 <= j < i ==> !names_equal((#[trigger] users@[j]).user_name@, user_name@),
        decreases n - i,
    {
        if names_match(users[i].user_name.as_str(), user_name.as_str()) {
            proof {
                assert(names_equal(users@[i as int].user_name@, user_name@));
            }
            return true;
        }
        i += 1;
    }
    false
}

/// The largest user id on the roster; zero when it is empty.
pub open spec fn max_user_id(users: Seq<User>) -> nat
    decreases users.len(),
{
    if users.len() == 0 {
        0
    } else if users.last().user_id >= max_user_id(users.drop_last()) {
        users.last().user_id as nat
    } else {
        max_user_id(users.drop_last())
    }
}

fn highest_user_id(users: &Vec<User>) -> (r: usize)
    ensures
        r == max_user_id(users@),
{
    let n = users.len();
    let mut m: usize = 0;
    let mut i: usize = 0;
    while i < n
        invariant
            n == users@.len(),
            0 <= i <= n,
            m == max_user_id(users@.subrange(0, i as int)),
        decreases n - i,
    {
        if users[i].user_id > m {
            m = users[i].user_id;
        }
        i += 1;
        proof {
            let cur = users@.subrange(0, i as int);
            assert(cur.drop_last() =~= users@.subrange(0, i - 1));
            assert(cur.last() == users@[i - 1]);
        }
    }
    proof {
        assert(users@.subrange(0, n as int) =~= users@);
    }
    m
}

/// Registers a user under a fresh id, unless the name is already taken.
fn create_user(
    users: &mut Vec<User>,
    user_id: UserId,
    user_name: String,
    user_password: String,
    user_game_name: String,
    requests_per_day: Option<i32>,
) -> (r: Result<UserId, String>)
    ensures
        match r {
            Ok(uid) => uid == user_id && !(exists|i: int|
                0 <= i < old(users)@.len() && names_equal(
                    (#[trigger] old(users)@[i]).user_name@,
                    user_name@,
                )) && final(users)@.len() == old(users)@.len() + 1 && (forall|i: int|
                0 <= i < old(users)@.len() ==> final(users)@[i] == old(users)@[i]) && ({
                let fresh = final(users)@.last();
                fresh.user_id == user_id && fresh.user_name@ == user_name@
                    && fresh.user_password@ == user_password@ && fresh.game_name@
                    == user_game_name@ && fresh.last_login_timestamp is None && !fresh.is_disabled
                    && fresh.requests_per_day == requests_per_day && fresh.requests_remaining
                    == requests_per_day
            }),
            Err(_) => (exists|i: int|
                0 <= i < old(users)@.len() && names_equal(
                    (#[trigger] old(users)@[i]).user_name@,
                    user_name@,
                )) && final(users)@ == old(users)@,
        },
{
    if user_exists(users, &user_name) {
        return Err("User already exists".to_owned());
    }
    let user = User {
        user_id,
        user_name,
        user_password,
        game_name: user_game_name,
        last_login_timestamp: None,
        is_disabled: false,
        requests_per_day,
        requests_remaining: requests_per_day,
    };
    users.push(user);
    Ok(user_id)
}

/// Registers the administrator account under its reserved id, unless an
/// account of that name already exists.
pub fn create_admin_user(users: &mut Vec<User>) -> (r: Result<UserId, String>)
    ensures
        match r {
            Ok(uid) => uid == ADMIN_USER_ID && final(users)@.len() == old(users)@.len() + 1
                && (forall|i: int|
                0 <= i < old(users)@.len() ==> final(users)@[i] == old(users)@[i]) && ({
                let fresh = final(users)@.last();
                fresh.user_id == ADMIN_USER_ID && fresh.user_name@ == "Admin"@
                    && fresh.requests_per_day is None && !fresh.is_disabled
            }),
            Err(_) => final(users)@ == old(users)@,
        },
{
    create_user(
        users,
        ADMIN_USER_ID,
        "Admin".to_owned(),
        "admin".to_owned(),
        "Cosmic Overlord".to_owned(),
        None,
    )
}

/// Registers an ordinary player under the next free id, unless the name is
/// already taken. New players get the default daily request quota.
pub fn create_normal_user(
    users: &mut Vec<User>,
    user_name: String,
    password: String,
    game_name: String,
) -> (r: Result<UserId, String>)
    requires
        max_user_id(old(users)@) < usize::MAX,
    ensures
        match r {
            Ok(uid) => uid == max_user_id(old(users)@) + 1 && final(users)@.len() == old(
                users,
            )@.len() + 1 && (forall|i: int|
                0 <= i < old(users)@.len() ==> final(users)@[i] == old(users)@[i]) && ({
                let fresh = final(users)@.last();
                fresh.user_id == uid && fresh.user_name@ == user_name@ && fresh.user_password@
                    == password@ && fresh.game_name@ == game_name@ && !fresh.is_disabled
            }),
            Err(_) => (exists|i: int|
                0 <= i < old(users)@.len() && names_equal(
                    (#[trigger] old(users)@[i]).user_name@,
                    user_name@,
                )) && final(users)@ == old(users)@,
        },
{
    let user_id = highest_user_id(users) + 1;
    create_user(users, user_id, user_name, password, game_name, Some(DEFAULT_REQUESTS_PER_DAY))
}

/// Looks up a user by id, returning a copy of the first matching record
/// with the password blanked out.
pub fn get_user(users: &Vec<User>, user_id: UserId) -> (r: Option<User>)
    ensures
        match r {
            Some(u) => exists|i: int|
                0 <= i < users@.len() && (#[trigger] users@[i]).user_id == user_id && (forall|
                    j: int,
                |
                    0 <= j < i ==> (#[trigger] users@[j]).user_id != user_id) && u.user_id
                    == user_id && u.user_name@ == users@[i].user_name@ && u.user_password@
                    =~= Seq::<char>::empty() && u.game_name@ == users@[i].game_name@
                    && u.last_login_timestamp == users@[i].last_login_timestamp && u.is_disabled
                    == users@[i].is_disabled && u.requests_per_day == users@[i].requests_per_day
                    && u.requests_remaining == users@[i].requests_remaining,
            None => forall|i: int|
                0 <= i < users@.len() ==> (#[trigger] users@[i]).user_id != user_id,
        },
{
    let n = users.len();
    let mut i: usize = 0;
    while i < n
        invariant
            n == users@.len(),
            0 <= i <= n,
            forall|j: int| 0 <= j < i ==> (#[trigger] users@[j]).user_id != user_id,
        decreases n - i,
    {
        if users[i].user_id == user_id {
            let found = &users[i];
            let copy = User {
                user_id: found.user_id,
                user_name: found.user_name.clone(),
                user_password: String::new(),
                game_name: found.game_name.clone(),
                last_login_timestamp: found.last_login_timestamp,
                is_disabled: found.is_disabled,
                requests_per_day: found.requests_per_day,
                requests_remaining: found.requests_remaining,
            };
            proof {
                assert(users@[i as int].user_id == user_id);
            }
            return Some(copy);
        }
        i += 1;
    }
    None
}

/// Checks a name and password against the roster. The first user whose name
/// matches, without regard to ASCII letter case, decides the outcome: wrong
/// password, disabled account, or success with that user's id. A name
/// matching nobody reports `NoSuchUser`.
pub fn validate_credentials(users: &Vec<User>, user_name: &String, password: &String) -> (r:
    ValidationResult)
    ensures
        match r {
            ValidationResult::Success(uid) => exists|i: int|
                0 <= i < users@.len() && names_equal(
                    (#[trigger] users@[i]).user_name@,
                    user_name@,
                ) && (forall|j: int|
                    0 <= j < i ==> !names_equal((#[trigger] users@[j]).user_name@, user_name@))
                    && users@[i].user_password@ == password@ && !users@[i].is_disabled && uid
                    == users@[i].user_id,
            ValidationResult::IncorrectPassword => exists|i: int|
                0 <= i < users@.len() && names_equal(
                    (#[trigger] users@[i]).user_name@,
                    user_name@,
                ) && (forall|j: int|
                    0 <= j < i ==> !names_equal((#[trigger] users@[j]).user_name@, user_name@))
                    && users@[i].user_password@ != password@,
            ValidationResult::UserIsDisabled => exists|i: int|
                0 <= i < users@.len() && names_equal(
                    (#[trigger] users@[i]).user_name@,
                    user_name@,
                ) && (forall|j: int|
                    0 <= j < i ==> !names_equal((#[trigger] users@[j]).user_name@, user_name@))
                    && users@[i].user_password@ == password@ && users@[i].is_disabled,
            ValidationResult::NoSuchUser => forall|i: int|
                0 <= i < users@.len() ==> !names_equal(
                    (#[trigger] users@[i]).user_name@,
                    user_name@,
                ),
        },
{
    let n = users.len();
    let mut i: usize = 0;
    while i < n
        invariant
            n == users@.len(),
            0 <= i <= n,
            forall|j: int|
                0 <= j < i ==> !names_equal((#[trigger] users@[j]).user_name@, user_name@),
        decreases n - i,
    {
        if names_match(users[i].user_name.as_str(), user_name.as_str()) {
            proof {
                assert(names_equal(users@[i as int].user_name@, user_name@));
            }
            if users[i].user_password == *password {
                if users[i].is_disabled {
                    return ValidationResult::UserIsDisabled;
                } else {
                    return ValidationResult::Success(users[i].user_id);
                }
            } else {
                return ValidationResult::IncorrectPassword;
            }
        }
        i += 1;
    }
    ValidationResult::NoSuchUser
}

} // verus!
