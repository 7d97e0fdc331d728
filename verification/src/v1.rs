//! The first revision of the API: a plain user record and a repository
//! keyed by the user's id.

use vstd::prelude::*;
use vstd::string::StringExecFns;
use crate::repository::{Entity, Store};

verus! {

/// A user record: an id that identifies it, a display name, and an email
/// address.
#[derive(Debug, Clone)]
pub struct User {
    pub id: String,
    pub name: String,
    pub email: String,
}

impl Entity for User {
    open spec fn key(&self) -> Seq<char> {
        self.id@
    }

    fn id_ref(&self) -> (r: &str) {
        self.id.as_str()
    }
}

impl User {
    /// Builds a user from its parts, verbatim; nothing is validated here.
    pub fn new(id: String, name: String, email: String) -> (r: Self)
        ensures
            r.id == id,
            r.name == name,
            r.email == email,
    {
        User { id, name, email }
    }
}

/// An owning store of users, keyed by the user's id.
pub struct UserRepository {
    users: Store<User>,
}

impl View for UserRepository {
    type V = Map<Seq<char>, User>;

    closed spec fn view(&self) -> Map<Seq<char>, User> {
        self.users@
    }
}

impl UserRepository {
    /// An empty repository.
    pub fn new() -> (r: Self)
        ensures
            r@ == Map::<Seq<char>, User>::empty(),
    {
        UserRepository { users: Store::new() }
    }

    /// The stored user with the given id, or `None` if there is none.
    pub fn find_by_id(&self, id: &str) -> (r: Option<&User>)
        ensures
            match r {
                Some(user) => self@.contains_key(id@) && *user == self@[id@],
                None => !self@.contains_key(id@),
            },
    {
        self.users.find(id)
    }

    /// Inserts the user under its id, fully replacing any user stored
    /// there; it always succeeds.
    pub fn save(&mut self, user: User)
        ensures
            final(self)@ == old(self)@.insert(user.id@, user),
    {
        self.users.save(user);
    }

    /// Removes and returns the user stored under the id, or `None` --
    /// leaving the repository unchanged -- if there is none.
    pub fn delete(&mut self, id: &str) -> (r: Option<User>)
        ensures
            final(self)@ == old(self)@.remove(id@),
            match r {
                Some(user) => old(self)@.contains_key(id@) && user == old(self)@[id@],
                None => !old(self)@.contains_key(id@),
            },
    {
        self.users.delete(id)
    }
}

/// Renders a user as `name <email>`.
pub fn format_user(user: &User) -> (r: String)
    ensures
        r@ == user.name@ + " <"@ + user.email@ + ">"@,
{
    let mut r = user.name.clone();
    r.append(" <");
    r.append(user.email.as_str());
    r.append(">");
    proof {
        assert(r@ =~= user.name@ + " <"@ + user.email@ + ">"@);
    }
    r
}

} // verus!
