use std::collections::HashMap;
use vstd::prelude::*;
use vstd::string::*;

verus! {

broadcast use vstd::std_specs::hash::group_hash_axioms;

/// A user of the system.
#[derive(Debug, Clone)]
pub struct User {
    pub id: u64,
    pub username: String,
    pub email: String,
    pub profile: UserProfile,
}

/// Personal details of a user.
#[derive(Debug, Clone)]
pub struct UserProfile {
    pub first_name: String,
    pub last_name: String,
    pub bio: Option<String>,
    pub avatar_url: Option<String>,
}

/// The role a user holds.
#[derive(Debug, Clone, Copy, PartialEq, Eq)]
pub enum UserRole {
    Admin,
    Moderator,
    User,
    Guest,
}

/// What a principal may do.
pub trait UserPermissions {
    spec fn spec_can_read(&self) -> bool;

    spec fn spec_can_write(&self) -> bool;

    spec fn spec_can_delete(&self) -> bool;

    fn can_read(&self) -> (r: bool)
        ensures
            r == self.spec_can_read(),
    ;

    fn can_write(&self) -> (r: bool)
        ensures
            r == self.spec_can_write(),
    ;

    fn can_delete(&self) -> (r: bool)
        ensures
            r == self.spec_can_delete(),
    ;
}

impl UserProfile {
    /// A profile with empty names and no optional details.
    pub open spec fn is_blank(&self) -> bool {
        self.first_name@.len() == 0 && self.last_name@.len() == 0 && self.bio is None
            && self.avatar_url is None
    }
}

impl Default for UserProfile {
    fn default() -> (r: Self)
        ensures
            r.is_blank(),
    {
        UserProfile { first_name: String::new(), last_name: String::new(), bio: None, avatar_url: None }
    }
}

impl User {
    /// A user is active when its username is not empty.
    pub open spec fn spec_is_active(&self) -> bool {
        self.username@.len() > 0
    }

    /// Creates a user with a blank profile.
    pub fn new(id: u64, username: String, email: String) -> (r: Self)
        ensures
            r.id == id,
            r.username == username,
            r.email == email,
            r.profile.is_blank(),
    {
        User { id, username, email, profile: UserProfile::default() }
    }

    /// The first and last name, separated by one space.
    pub fn full_name(&self) -> (r: String)
        ensures
            r@ == self.profile.first_name@ + seq![' '] + self.profile.last_name@,
    {
        let r = self.profile.first_name.clone().concat(" ");
        let r = r.concat(self.profile.last_name.as_str());
        proof {
            reveal_strlit(" ");
        }
        assert(" "@ =~= seq![' ']);
        r
    }

    /// Replaces the profile.
    pub fn update_profile(&mut self, profile: UserProfile)
        ensures
            final(self).profile == profile,
            final(self).id == old(self).id,
            final(self).username == old(self).username,
            final(self).email == old(self).email,
    {
        self.profile = profile;
    }

    /// Whether the username is not empty.
    pub fn is_active(&self) -> (r: bool)
        ensures
            r == self.spec_is_active(),
    {
        self.username.as_str().unicode_len() != 0
    }
}

impl UserPermissions for User {
    open spec fn spec_can_read(&self) -> bool {
        true
    }

    open spec fn spec_can_write(&self) -> bool {
        self.spec_is_active()
    }

    open spec fn spec_can_delete(&self) -> bool {
        false
    }

    fn can_read(&self) -> (r: bool) {
        true
    }

    fn can_write(&self) -> (r: bool) {
        self.is_active()
    }

    fn can_delete(&self) -> (r: bool) {
        false
    }
}

/// Users stored by their id.
pub struct UserRepository {
    users: HashMap<u64, User>,
}

impl View for UserRepository {
    type V = Map<u64, User>;

    closed spec fn view(&self) -> Map<u64, User> {
        self.users@
    }
}

impl UserRepository {
    /// An empty repository.
    pub fn new() -> (r: Self)
        ensures
            r@ == Map::<u64, User>::empty(),
    {
        UserRepository { users: HashMap::new() }
    }

    /// Stores `user` under its id, replacing any user with that id.
    pub fn add_user(&mut self, user: User)
        ensures
            final(self)@ == old(self)@.insert(user.id, user),
    {
        self.users.insert(user.id, user);
    }

    /// The user with the given id, if any.
    pub fn get_user(&self, id: u64) -> (r: Option<&User>)
        ensures
            match r {
                Some(u) => self@.contains_key(id) && *u == self@[id],
                None => !self@.contains_key(id),
            },
    {
        self.users.get(&id)
    }

    /// Takes the user with the given id out of the repository.
    pub fn remove_user(&mut self, id: u64) -> (r: Option<User>)
        ensures
            final(self)@ == old(self)@.remove(id),
            match r {
                Some(u) => old(self)@.contains_key(id) && u == old(self)@[id],
                None => !old(self)@.contains_key(id),
            },
    {
        self.users.remove(&id)
    }
}

/// Shortest accepted username.
pub const MIN_USERNAME_LENGTH: usize = 3;

/// Longest accepted username.
pub const MAX_USERNAME_LENGTH: usize = 50;

/// Pattern of an accepted e-mail address.
pub const EMAIL_REGEX: &'static str = "^[^\\s@]+@[^\\s@]+\\.[^\\s@]+$";

/// Hands out user ids in increasing order, starting at 1.
pub struct UserIdCounter {
    count: u64,
}

impl UserIdCounter {
    /// The last id handed out, or 0 before the first.
    pub closed spec fn last(&self) -> nat {
        self.count as nat
    }

    /// A counter that has handed out no id yet.
    pub fn new() -> (r: Self)
        ensures
            r.last() == 0,
    {
        UserIdCounter { count: 0 }
    }

    /// The next id: one more than the last handed out.
    pub fn get_next_user_id(&mut self) -> (r: u64)
        requires
            old(self).last() < u64::MAX,
        ensures
            r == old(self).last() + 1,
            final(self).last() == r,
    {
        self.count = self.count + 1;
        self.count
    }
}

} // verus!
