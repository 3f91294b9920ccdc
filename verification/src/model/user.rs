//! Credentials.

use vstd::prelude::*;

verus! {

/// A username with the password presented for it.
#[derive(Clone, Debug)]
pub struct User {
    pub username: String,
    pub password: String,
}

/// What a [`User`] holds, as sequences of characters.
pub struct UserView {
    pub username: Seq<char>,
    pub password: Seq<char>,
}

impl View for User {
    type V = UserView;

    open spec fn view(&self) -> UserView {
        UserView { username: self.username@, password: self.password@ }
    }
}

impl User {
    pub fn new(username: String, password: String) -> (user: Self)
        ensures
            user.username == username,
            user.password == password,
    {
        User { username, password }
    }
}

} // verus!
