//! The user store and its credential check.

use crate::common::text::same_text;
use crate::model::user::{User, UserView};
use vstd::prelude::*;

verus! {

/// The password that the user store holds for `username`, if it knows the
/// name.
pub open spec fn stored_password(username: Seq<char>) -> Option<Seq<char>> {
    if username == "zhangsan"@ || username == "lisi"@ || username == "wangwu"@ {
        Some("123"@)
    } else {
        None
    }
}

/// Whether the user store accepts these credentials: it knows the name and
/// holds this password for it.
pub open spec fn accepted(user: UserView) -> bool {
    stored_password(user.username) == Some(user.password)
}

/// Checks the credentials against the user store and hands the user back
/// where they are accepted.
pub fn login(user: User) -> (outcome: Option<User>)
    ensures
        outcome == if accepted(user@) {
            Some(user)
        } else {
            None
        },
{
    let name = user.username.as_str();
    let known = same_text(name, "zhangsan") || same_text(name, "lisi") || same_text(
        name,
        "wangwu",
    );
    if known && same_text(user.password.as_str(), "123") {
        Some(user)
    } else {
        None
    }
}

} // verus!
