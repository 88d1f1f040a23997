//! The policy that decides whether the running user is an administrator.

use crate::text::str_is;
use vstd::prelude::*;

verus! {

/// Policy under which the user should be considered an administrator.
#[derive(Debug, Clone, PartialEq, Eq)]
pub enum IncludeAdministrative {
    /// Every user is an administrator.
    Always,
    /// Only the user with the id 0 is.
    RootOnly,
    /// The users with one of these names are.
    Users(Vec<String>),
    /// The users whose process may access a group with one of these names
    /// are.
    Groups(Vec<String>),
    /// Nobody is.
    Never,
}

/// The mathematical form of a policy.
pub enum Policy {
    Always,
    RootOnly,
    Users(Seq<Seq<char>>),
    Groups(Seq<Seq<char>>),
    Never,
}

impl View for IncludeAdministrative {
    type V = Policy;

    open spec fn view(&self) -> Policy {
        match self {
            IncludeAdministrative::Always => Policy::Always,
            IncludeAdministrative::RootOnly => Policy::RootOnly,
            IncludeAdministrative::Users(l) => Policy::Users(crate::text::views(l@)),
            IncludeAdministrative::Groups(l) => Policy::Groups(crate::text::views(l@)),
            IncludeAdministrative::Never => Policy::Never,
        }
    }
}

/// The name of the running user, as far as it could be found.
#[derive(Debug, Clone, PartialEq, Eq)]
pub enum UserName {
    /// The user has no name.
    Missing,
    /// The name is not valid text.
    NotText,
    /// The name.
    Text(String),
}

/// The groups that the process may access, as far as they could be listed.
#[derive(Debug, Clone, PartialEq, Eq)]
pub enum GroupNames {
    /// The name of each group, `None` for a name that is not valid text.
    Listed(Vec<Option<String>>),
    /// The groups could not be listed; the message says why.
    Unavailable(String),
}

/// What is known of the identity under which the process runs.
#[derive(Debug, Clone, PartialEq, Eq)]
pub struct Identity {
    /// The user id.
    pub uid: u32,
    /// The user's name.
    pub username: UserName,
    /// The groups that the process may access.
    pub groups: GroupNames,
}

/// Why the identity of the running user could not be checked.
#[derive(Debug, Clone, PartialEq, Eq)]
pub enum IdentityLookupError {
    /// The running user has no name.
    NoUserName,
    /// The name of the running user is not valid text.
    UserNameNotText,
    /// The groups of the process could not be listed; the message says why.
    GroupList(String),
}

/// The mathematical form of an `IdentityLookupError`.
pub enum LookupFault {
    NoUserName,
    UserNameNotText,
    GroupList(Seq<char>),
}

impl View for IdentityLookupError {
    type V = LookupFault;

    open spec fn view(&self) -> LookupFault {
        match self {
            IdentityLookupError::NoUserName => LookupFault::NoUserName,
            IdentityLookupError::UserNameNotText => LookupFault::UserNameNotText,
            IdentityLookupError::GroupList(m) => LookupFault::GroupList(m@),
        }
    }
}

impl IdentityLookupError {
    /// The text of the message that describes this error.
    pub open spec fn message(self) -> Seq<char> {
        match self {
            IdentityLookupError::NoUserName => "could not get current user name"@,
            IdentityLookupError::UserNameNotText => "usernam is not valid utf8"@,
            IdentityLookupError::GroupList(m) => m@,
        }
    }

    /// A human-readable description of the error.
    pub fn to_string(&self) -> (r: String)
        ensures
            r@ == self.message(),
    {
        match self {
            IdentityLookupError::NoUserName => "could not get current user name".to_owned(),
            IdentityLookupError::UserNameNotText => "usernam is not valid utf8".to_owned(),
            IdentityLookupError::GroupList(m) => m.clone(),
        }
    }
}

/// Whether `name` is one of `names`.
pub open spec fn listed(names: Seq<Seq<char>>, name: Seq<char>) -> bool {
    names.contains(name)
}

/// Whether one of the group names that are valid text is one of `names`.
pub open spec fn any_listed(names: Seq<Seq<char>>, groups: Seq<Option<String>>) -> bool {
    exists|i: int| 0 <= i < groups.len() && (#[trigger] groups[i]) is Some && listed(names, groups[i]->0@)
}

/// Whether the policy counts the identity as administrative, or why that
/// cannot be said.
pub open spec fn granted(policy: Policy, identity: Identity) -> Result<bool, LookupFault> {
    match policy {
        Policy::Always => Ok(true),
        Policy::RootOnly => Ok(identity.uid == 0),
        Policy::Users(names) => match identity.username {
            UserName::Missing => Err(LookupFault::NoUserName),
            UserName::NotText => Err(LookupFault::UserNameNotText),
            UserName::Text(name) => Ok(listed(names, name@)),
        },
        Policy::Groups(names) => match identity.groups {
            GroupNames::Listed(groups) => Ok(any_listed(names, groups@)),
            GroupNames::Unavailable(m) => Err(LookupFault::GroupList(m@)),
        },
        Policy::Never => Ok(false),
    }
}

/// The user id under which the process runs, from `users::get_current_uid`.
/// Nothing is claimed of it.
#[verifier::external_body]
fn current_uid() -> (r: u32) {
    users::get_current_uid()
}

/// The name of the running user, from `users::get_current_username`:
/// missing where the crate finds no user, not text where the name does not
/// decode. Nothing is claimed of it.
#[verifier::external_body]
fn current_username() -> (r: UserName) {
    match users::get_current_username() {
        None => UserName::Missing,
        Some(name) => match name.into_string() {
            Ok(text) => UserName::Text(text),
            Err(_) => UserName::NotText,
        },
    }
}

/// The group record of the `users` crate. Nothing inside it is seen here:
/// it is handed from `group_access_list` to `group_name` as it is.
#[verifier::external_type_specification]
#[verifier::external_body]
pub struct ExGroup(users::Group);

/// The groups that the process may access, from `users::group_access_list`,
/// or the message of the error it gave. Nothing is claimed of them.
#[verifier::external_body]
fn group_access_list() -> (r: Result<Vec<users::Group>, String>) {
    match users::group_access_list() {
        Ok(groups) => Ok(groups),
        Err(e) => Err(e.to_string()),
    }
}

/// The name of a group, from `users::Group::name`, where it is valid text.
/// Nothing is claimed of it.
#[verifier::external_body]
fn group_name(group: &users::Group) -> (r: Option<String>) {
    group.name().to_str().map(str::to_owned)
}

/// Whether `name` is one of `names`.
pub fn is_listed(names: &Vec<String>, name: &str) -> (r: bool)
    ensures
        r == listed(crate::text::views(names@), name@),
{
    let n: usize = names.len();
    let mut i: usize = 0;
    while i < n
        invariant
            n == names.len(),
            i <= n,
            forall|j: int| 0 <= j < i ==> (#[trigger] names[j])@ != name@,
        decreases n - i,
    {
        if str_is(names[i].as_str(), name) {
            proof {
                assert(crate::text::views(names@)[i as int] == name@);
            }
            return true;
        }
        i = i + 1;
    }
    proof {
        let v = crate::text::views(names@);
        assert forall|j: int| 0 <= j < v.len() implies v[j] != name@ by {
            assert(v[j] == names[j]@);
        }
    }
    false
}

impl Identity {
    /// What the process can learn of its identity that bears on `policy`:
    /// the user id for `RootOnly`, the user's name for `Users`, the groups
    /// for `Groups`. What the policy does not ask for is not looked up: the
    /// id is then 0, the name missing, the groups none.
    pub fn current(policy: &IncludeAdministrative) -> (r: Identity)
        ensures
            !(policy is RootOnly) ==> r.uid == 0,
            !(policy is Users) ==> r.username is Missing,
            !(policy is Groups) ==> (r.groups matches GroupNames::Listed(l) && l@.len() == 0),
    {
        let uid: u32 = match policy {
            IncludeAdministrative::RootOnly => current_uid(),
            _ => 0,
        };
        let username = match policy {
            IncludeAdministrative::Users(_) => current_username(),
            _ => UserName::Missing,
        };
        let groups = match policy {
            IncludeAdministrative::Groups(_) => match group_access_list() {
                Ok(list) => {
                    let mut names: Vec<Option<String>> = Vec::new();
                    let n: usize = list.len();
                    let mut i: usize = 0;
                    while i < n
                        invariant
                            n == list.len(),
                            i <= n,
                        decreases n - i,
                    {
                        names.push(group_name(&list[i]));
                        i = i + 1;
                    }
                    GroupNames::Listed(names)
                },
                Err(m) => GroupNames::Unavailable(m),
            },
            _ => GroupNames::Listed(Vec::new()),
        };
        Identity { uid, username, groups }
    }
}

impl IncludeAdministrative {
    /// Checks whether the policy counts the given identity as an
    /// administrator.
    pub fn check(&self, identity: &Identity) -> (r: Result<bool, IdentityLookupError>)
        ensures
            match r {
                Ok(b) => granted(self@, *identity) == Ok::<bool, LookupFault>(b),
                Err(e) => granted(self@, *identity) == Err::<bool, LookupFault>(e@),
            },
    {
        match self {
            IncludeAdministrative::Always => Ok(true),
            IncludeAdministrative::RootOnly => Ok(identity.uid == 0),
            IncludeAdministrative::Users(names) => match &identity.username {
                UserName::Missing => Err(IdentityLookupError::NoUserName),
                UserName::NotText => Err(IdentityLookupError::UserNameNotText),
                UserName::Text(name) => Ok(is_listed(names, name.as_str())),
            },
            IncludeAdministrative::Groups(names) => match &identity.groups {
                GroupNames::Listed(groups) => {
                    let n: usize = groups.len();
                    let mut i: usize = 0;
                    while i < n
                        invariant
                            n == groups.len(),
                            i <= n,
                            identity.groups == GroupNames::Listed(*groups),
                            *self == IncludeAdministrative::Groups(*names),
                            forall|j: int|
                                0 <= j < i ==> !((#[trigger] groups[j]) is Some && listed(
                                    crate::text::views(names@),
                                    groups[j]->0@,
                                )),
                        decreases n - i,
                    {
                        match &groups[i] {
                            Some(group) => {
                                if is_listed(names, group.as_str()) {
                                    proof {
                                        assert(groups@[i as int] is Some && listed(
                                            crate::text::views(names@),
                                            groups@[i as int]->0@,
                                        ));
                                    }
                                    return Ok(true);
                                }
                            },
                            None => {},
                        }
                        i = i + 1;
                    }
                    Ok(false)
                },
                GroupNames::Unavailable(m) => Err(IdentityLookupError::GroupList(m.clone())),
            },
            IncludeAdministrative::Never => Ok(false),
        }
    }

    /// Checks if the running user qualifies as an administrator. The
    /// outcome is that of `check` for the identity that was found; `Always`
    /// and `Never` ask for no identity and cannot fail.
    pub fn check_current_user(&self) -> (r: Result<bool, IdentityLookupError>)
        ensures
            exists|identity: Identity|
                match r {
                    Ok(b) => #[trigger] granted(self@, identity) == Ok::<bool, LookupFault>(b),
                    Err(e) => granted(self@, identity) == Err::<bool, LookupFault>(e@),
                },
            self is Always ==> r == Ok::<bool, IdentityLookupError>(true),
            self is Never ==> r == Ok::<bool, IdentityLookupError>(false),
            self is RootOnly ==> r is Ok,
    {
        let identity = Identity::current(self);
        self.check(&identity)
    }
}

impl Default for IncludeAdministrative {
    fn default() -> (r: IncludeAdministrative)
        ensures
            r@ == Policy::Groups(seq!["wheel"@, "sudo"@]),
    {
        let mut names: Vec<String> = Vec::new();
        names.push("wheel".to_owned());
        names.push("sudo".to_owned());
        proof {
            assert(crate::text::views(names@) =~= seq!["wheel"@, "sudo"@]);
        }
        IncludeAdministrative::Groups(names)
    }
}

} // verus!
