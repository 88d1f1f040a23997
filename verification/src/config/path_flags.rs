//! Requirement flags of a path entry and the operating-system classes they
//! speak of.

use crate::config::include_administrative::{
    granted, Identity, IdentityLookupError, IncludeAdministrative, LookupFault,
};
use crate::text::{
    lemma_split_append, lemma_split_single, lemma_trim_nothing, lower, lower_is, split, split_str,
    str_is, trim, trim_str, views,
};
use vstd::prelude::*;
use vstd::string::StringExecFns;

verus! {

/// A class of operating systems, either required by a path entry or
/// describing the running system.
#[derive(Debug, Copy, Clone, PartialEq, Eq, Structural, PartialOrd, Ord)]
pub enum PathOs {
    Any,
    Unix,
    Windows,
    Linux,
    OSX,
    Unknown,
}

/// Why one operating-system class cannot be checked against another.
#[derive(Debug, Copy, Clone, PartialEq, Eq, Structural)]
#[non_exhaustive]
pub enum PathOsError {
    CheckAnyOs,
    CheckUnknownOs,
    CheckAgainstUnknownOs,
}

pub type PathOsResult<T> = Result<T, PathOsError>;

impl PathOsError {
    /// The text of the message that describes this error.
    pub open spec fn message(self) -> Seq<char> {
        match self {
            PathOsError::CheckAnyOs => "Cannot check if 'Any' OS belongs to another OS group"@,
            PathOsError::CheckUnknownOs => "Cannot check if 'Unknown' OS belongs to another OS group"@,
            PathOsError::CheckAgainstUnknownOs => "Cannot check if OS against a unknown OS"@,
        }
    }

    /// A human-readable description of the error.
    pub fn to_string(&self) -> (r: String)
        ensures
            r@ == self.message(),
    {
        match self {
            PathOsError::CheckAnyOs => String::from_str(
                "Cannot check if 'Any' OS belongs to another OS group",
            ),
            PathOsError::CheckUnknownOs => String::from_str(
                "Cannot check if 'Unknown' OS belongs to another OS group",
            ),
            PathOsError::CheckAgainstUnknownOs => String::from_str(
                "Cannot check if OS against a unknown OS",
            ),
        }
    }
}

impl PathOs {
    /// Whether a system of this class is a Unix: defined for the concrete
    /// classes and for `Unix` itself, an error for `Any` and `Unknown`.
    pub open spec fn unix(self) -> Result<bool, PathOsError> {
        match self {
            PathOs::Unix | PathOs::Linux | PathOs::OSX => Ok(true),
            PathOs::Windows => Ok(false),
            PathOs::Any => Err(PathOsError::CheckAnyOs),
            PathOs::Unknown => Err(PathOsError::CheckUnknownOs),
        }
    }

    /// Whether a system of class `self` satisfies the requirement `other`.
    /// Nothing can be checked against `Unknown`; membership in `Unix` is
    /// that of `unix`; everything satisfies `Any`; otherwise the two classes
    /// must be the same.
    pub open spec fn satisfies(self, other: PathOs) -> Result<bool, PathOsError> {
        match other {
            PathOs::Unknown => Err(PathOsError::CheckAgainstUnknownOs),
            PathOs::Unix => self.unix(),
            PathOs::Any => Ok(true),
            _ => Ok(self == other),
        }
    }

    /// The class named by `name`, where `name` is already in lower case.
    pub open spec fn named(name: Seq<char>) -> Option<PathOs> {
        if name == ""@ || name == "any"@ {
            Some(PathOs::Any)
        } else if name == "unix"@ {
            Some(PathOs::Unix)
        } else if name == "windows"@ || name == "win"@ || name == "win32"@ {
            Some(PathOs::Windows)
        } else if name == "linux"@ {
            Some(PathOs::Linux)
        } else if name == "osx"@ || name == "mac"@ || name == "macos"@ || name == "macosx"@ {
            Some(PathOs::OSX)
        } else {
            None
        }
    }

    /// Whether `name`, already in lower case, is a deprecated synonym.
    pub open spec fn deprecated(name: Seq<char>) -> bool {
        name == "win"@ || name == "win32"@ || name == "mac"@ || name == "macos"@ || name
            == "macosx"@
    }

    /// The name under which this class is written in flag strings.
    pub open spec fn name(self) -> Seq<char> {
        match self {
            PathOs::Any => "any"@,
            PathOs::Unix => "unix"@,
            PathOs::Windows => "windows"@,
            PathOs::Linux => "linux"@,
            PathOs::OSX => "osx"@,
            PathOs::Unknown => "unknown"@,
        }
    }

    /// The class of the system with the given platform facts, as the
    /// compiler names them: `target_os` and `target_family`.
    pub open spec fn classify(target_os: Seq<char>, target_family: Seq<char>) -> PathOs {
        if target_os == "linux"@ {
            PathOs::Linux
        } else if target_family == "windows"@ {
            PathOs::Windows
        } else if target_os == "macos"@ {
            PathOs::OSX
        } else if target_family == "unix"@ {
            PathOs::Unix
        } else {
            PathOs::Unknown
        }
    }

    /// Checks if `self` is the specified operating system or belongs to the
    /// specified operating system group.
    pub fn is(self, other: PathOs) -> (r: PathOsResult<bool>)
        ensures
            r == self.satisfies(other),
    {
        match (self, other) {
            (PathOs::Windows, PathOs::Windows) => Ok(true),
            (_, PathOs::Unix) => self.is_unix(),
            (_, PathOs::Unknown) => Err(PathOsError::CheckAgainstUnknownOs),
            (_, PathOs::Any) => Ok(true),
            (a, b) => Ok(a == b),
        }
    }

    /// Checks if the operating system is a Unix.
    pub fn is_unix(self) -> (r: PathOsResult<bool>)
        ensures
            r == self.unix(),
    {
        match self {
            PathOs::Unix | PathOs::Linux | PathOs::OSX => Ok(true),
            PathOs::Windows => Ok(false),
            PathOs::Any => Err(PathOsError::CheckAnyOs),
            PathOs::Unknown => Err(PathOsError::CheckUnknownOs),
        }
    }

    /// The name under which this class is written in flag strings.
    pub fn to_string(&self) -> (r: String)
        ensures
            r@ == self.name(),
    {
        match self {
            PathOs::Any => String::from_str("any"),
            PathOs::Unix => String::from_str("unix"),
            PathOs::Windows => String::from_str("windows"),
            PathOs::Linux => String::from_str("linux"),
            PathOs::OSX => String::from_str("osx"),
            PathOs::Unknown => String::from_str("unknown"),
        }
    }

    /// Parses the name of an operating-system class, ignoring ASCII case.
    /// The empty name stands for `Any`.
    pub fn from_str(s: &str) -> (r: Result<PathOs, ParsePathOsError>)
        ensures
            match r {
                Ok(os) => PathOs::named(lower(s@)) == Some(os),
                Err(e) => PathOs::named(lower(s@)) is None && e.name@ == s@,
            },
    {
        if lower_is(s, "") || lower_is(s, "any") {
            Ok(PathOs::Any)
        } else if lower_is(s, "unix") {
            Ok(PathOs::Unix)
        } else if lower_is(s, "windows") || lower_is(s, "win") || lower_is(s, "win32") {
            Ok(PathOs::Windows)
        } else if lower_is(s, "linux") {
            Ok(PathOs::Linux)
        } else if lower_is(s, "osx") || lower_is(s, "mac") || lower_is(s, "macos") || lower_is(
            s,
            "macosx",
        ) {
            Ok(PathOs::OSX)
        } else {
            Err(ParsePathOsError { name: s.to_owned() })
        }
    }

    /// Whether `s` names a class by a synonym that should no longer be used.
    pub fn is_deprecated_name(s: &str) -> (r: bool)
        ensures
            r == PathOs::deprecated(lower(s@)),
    {
        lower_is(s, "win") || lower_is(s, "win32") || lower_is(s, "mac") || lower_is(s, "macos")
            || lower_is(s, "macosx")
    }

    /// The class of the running system, from the `target_os` and
    /// `target_family` that the program was built for.
    pub fn this_system(target_os: &str, target_family: &str) -> (r: PathOs)
        ensures
            r == PathOs::classify(target_os@, target_family@),
    {
        if str_is(target_os, "linux") {
            PathOs::Linux
        } else if str_is(target_family, "windows") {
            PathOs::Windows
        } else if str_is(target_os, "macos") {
            PathOs::OSX
        } else if str_is(target_family, "unix") {
            PathOs::Unix
        } else {
            PathOs::Unknown
        }
    }
}

impl Default for PathOs {
    fn default() -> (r: PathOs)
        ensures
            r == PathOs::Any,
    {
        PathOs::Any
    }
}

/// The name that could not be parsed as an operating-system class.
#[derive(Debug, Clone, PartialEq, Eq)]
pub struct ParsePathOsError {
    pub name: String,
}

pub type ParsePathOsResult = Result<PathOs, ParsePathOsError>;

impl ParsePathOsError {
    /// The text of the message that describes this error.
    pub open spec fn message(self) -> Seq<char> {
        "'"@ + self.name@ + "' is not a known operating system"@
    }

    /// A human-readable description of the error.
    pub fn to_string(&self) -> (r: String)
        ensures
            r@ == self.message(),
    {
        let mut out = String::from_str("'");
        out.append(self.name.as_str());
        out.append("' is not a known operating system");
        out
    }
}

/// Why a flag string could not be parsed.
#[derive(Debug, Clone, PartialEq, Eq)]
pub enum ParseFlagsError {
    /// The `admin` token occurs a second time.
    AdminAlreadySet,
    /// A second token names an operating-system class.
    OsAlreadySet,
    /// The token is neither `admin` nor the name of a class.
    UnknownFlag(String),
}

/// The mathematical form of a `ParseFlagsError`.
pub enum FlagsFault {
    AdminAlreadySet,
    OsAlreadySet,
    UnknownFlag(Seq<char>),
}

impl View for ParseFlagsError {
    type V = FlagsFault;

    open spec fn view(&self) -> FlagsFault {
        match self {
            ParseFlagsError::AdminAlreadySet => FlagsFault::AdminAlreadySet,
            ParseFlagsError::OsAlreadySet => FlagsFault::OsAlreadySet,
            ParseFlagsError::UnknownFlag(t) => FlagsFault::UnknownFlag(t@),
        }
    }
}

impl FlagsFault {
    /// The text of the message that describes this error.
    pub open spec fn message(self) -> Seq<char> {
        match self {
            FlagsFault::AdminAlreadySet => "admin flag is already set"@,
            FlagsFault::OsAlreadySet => "os is already set"@,
            FlagsFault::UnknownFlag(t) => "unkown path flag "@ + t,
        }
    }
}

impl ParseFlagsError {
    /// A human-readable description of the error.
    pub fn to_string(&self) -> (r: String)
        ensures
            r@ == self@.message(),
    {
        match self {
            ParseFlagsError::AdminAlreadySet => String::from_str("admin flag is already set"),
            ParseFlagsError::OsAlreadySet => String::from_str("os is already set"),
            ParseFlagsError::UnknownFlag(t) => {
                let mut out = String::from_str("unkown path flag ");
                out.append(t.as_str());
                out
            },
        }
    }
}

/// The requirements that a system must fulfil for a path entry to be
/// included: whether administrative privilege is needed, and which class of
/// operating system. Read as capabilities, the same two fields describe what
/// the running system offers.
#[derive(Debug, Copy, Clone, PartialEq, Eq, Structural, PartialOrd, Ord)]
pub struct PathFlags {
    pub admin: bool,
    pub os: PathOs,
}

/// What has been read of a flag string so far: the flags, and whether one
/// of the tokens named an operating-system class.
pub struct FlagsSoFar {
    pub flags: PathFlags,
    pub os_set: bool,
}

impl PathFlags {
    /// Flags without any requirement.
    pub open spec fn empty() -> PathFlags {
        PathFlags { admin: false, os: PathOs::Any }
    }

    /// Whether a system with the capabilities `given` may see an entry with
    /// the requirements `self`. A class check that cannot be made counts as
    /// passed.
    pub open spec fn permits(self, given: PathFlags) -> bool {
        &&& self.admin ==> given.admin
        &&& match given.os.satisfies(self.os) {
            Ok(b) => b,
            Err(_) => true,
        }
    }

    /// The textual form: `admin` if it is required, then the name of the
    /// class, separated by a comma.
    pub open spec fn rendered(self) -> Seq<char> {
        if self.admin {
            "admin"@ + ","@ + self.os.name()
        } else {
            self.os.name()
        }
    }

    /// The effect of one more token, already trimmed, on what was read.
    pub open spec fn with_token(sofar: FlagsSoFar, token: Seq<char>) -> Result<
        FlagsSoFar,
        FlagsFault,
    > {
        if lower(token) == "admin"@ {
            if sofar.flags.admin {
                Err(FlagsFault::AdminAlreadySet)
            } else {
                Ok(
                    FlagsSoFar {
                        flags: PathFlags { admin: true, os: sofar.flags.os },
                        os_set: sofar.os_set,
                    },
                )
            }
        } else {
            match PathOs::named(lower(token)) {
                Some(os) => if sofar.os_set {
                    Err(FlagsFault::OsAlreadySet)
                } else {
                    Ok(
                        FlagsSoFar {
                            flags: PathFlags { admin: sofar.flags.admin, os },
                            os_set: true,
                        },
                    )
                },
                None => Err(FlagsFault::UnknownFlag(token)),
            }
        }
    }

    /// The effect of a sequence of tokens, read from left to right; the
    /// first token that cannot be accepted decides the error.
    pub open spec fn with_tokens(tokens: Seq<Seq<char>>) -> Result<FlagsSoFar, FlagsFault>
        decreases tokens.len(),
    {
        if tokens.len() == 0 {
            Ok(FlagsSoFar { flags: PathFlags::empty(), os_set: false })
        } else {
            match PathFlags::with_tokens(tokens.drop_last()) {
                Ok(sofar) => PathFlags::with_token(sofar, trim(tokens.last())),
                Err(e) => Err(e),
            }
        }
    }

    /// The flags that the text `s` stands for: its comma-separated tokens,
    /// each trimmed, read from left to right.
    pub open spec fn parsed(s: Seq<char>) -> Result<PathFlags, FlagsFault> {
        match PathFlags::with_tokens(split(s, ',')) {
            Ok(sofar) => Ok(sofar.flags),
            Err(e) => Err(e),
        }
    }

    /// Creates empty flags without any requirements.
    pub fn new() -> (r: PathFlags)
        ensures
            r == PathFlags::empty(),
    {
        PathFlags { admin: false, os: PathOs::Any }
    }

    /// Checks if the requirements `self` are met by the capabilities
    /// `given`.
    pub fn check(self, given: PathFlags) -> (r: bool)
        ensures
            r == self.permits(given),
    {
        let allow = !self.admin || given.admin;
        allow && match given.os.is(self.os) {
            Ok(b) => b,
            Err(_) => true,
        }
    }

    /// The capabilities of a system of class `os` on which the check for
    /// administrative privilege ended as `check`: a check that failed counts
    /// as privilege granted.
    pub open spec fn capability(check: Result<bool, LookupFault>, os: PathOs) -> PathFlags {
        PathFlags {
            admin: match check {
                Ok(b) => b,
                Err(_) => true,
            },
            os,
        }
    }

    /// The capabilities of a system of class `os`, given how the check for
    /// administrative privilege ended. A check that failed counts as
    /// privilege granted, so that no administrative path is hidden by a
    /// lookup that broke.
    pub fn for_system(check: Result<bool, IdentityLookupError>, os: PathOs) -> (r: PathFlags)
        ensures
            r.os == os,
            r.admin == match check {
                Ok(b) => b,
                Err(_) => true,
            },
    {
        let admin = match check {
            Ok(b) => b,
            Err(_) => true,
        };
        PathFlags { admin, os }
    }

    /// Get the capabilities of this system: the class of the platform that
    /// the program was built for, and whether the policy counts the running
    /// user as an administrator. The privilege is that of some identity
    /// under the policy; `Always` and `Never` do not depend on any.
    pub fn this_system(
        include_administrative: &IncludeAdministrative,
        target_os: &str,
        target_family: &str,
    ) -> (r: PathFlags)
        ensures
            r.os == PathOs::classify(target_os@, target_family@),
            exists|identity: Identity| #[trigger]
                PathFlags::capability(granted(include_administrative@, identity), r.os) == r,
            include_administrative is Always ==> r.admin,
            include_administrative is Never ==> !r.admin,
    {
        let check = include_administrative.check_current_user();
        let os = PathOs::this_system(target_os, target_family);
        let r = PathFlags::for_system(check, os);
        proof {
            let identity = choose|identity: Identity|
                match check {
                    Ok(b) => #[trigger] granted(include_administrative@, identity) == Ok::<
                        bool,
                        LookupFault,
                    >(b),
                    Err(e) => granted(include_administrative@, identity) == Err::<
                        bool,
                        LookupFault,
                    >(e@),
                };
            assert(PathFlags::capability(granted(include_administrative@, identity), r.os) == r);
        }
        r
    }

    /// The textual form of the flags.
    pub fn to_string(&self) -> (r: String)
        ensures
            r@ == self.rendered(),
    {
        let os = self.os.to_string();
        if self.admin {
            let mut out = String::from_str("admin");
            out.append(",");
            out.append(os.as_str());
            out
        } else {
            os
        }
    }

    /// Parses a comma-separated list of flags. Tokens are trimmed and
    /// compared without regard to ASCII case; `admin` and the class may each
    /// be given once.
    pub fn from_str(s: &str) -> (r: Result<PathFlags, ParseFlagsError>)
        ensures
            match r {
                Ok(flags) => PathFlags::parsed(s@) == Ok::<PathFlags, FlagsFault>(flags),
                Err(e) => PathFlags::parsed(s@) == Err::<PathFlags, FlagsFault>(e@),
            },
    {
        let tokens = split_str(s, ',');
        let mut os_set = false;
        let mut flags = PathFlags::new();
        let n: usize = tokens.len();
        let mut i: usize = 0;
        while i < n
            invariant
                n == tokens.len(),
                i <= n,
                views(tokens@) == split(s@, ','),
                PathFlags::with_tokens(views(tokens@).take(i as int)) == Ok::<
                    FlagsSoFar,
                    FlagsFault,
                >(FlagsSoFar { flags, os_set }),
            decreases n - i,
        {
            proof {
                assert(views(tokens@).take(i + 1).drop_last() =~= views(tokens@).take(i as int));
                assert(views(tokens@).take(i + 1).last() == tokens@[i as int]@);
                assert(views(tokens@).take(n as int) =~= views(tokens@));
            }
            let flag = trim_str(tokens[i].as_str());
            if lower_is(flag, "admin") {
                if flags.admin {
                    proof {
                        lemma_with_tokens_fails(views(tokens@), i + 1);
                    }
                    return Err(ParseFlagsError::AdminAlreadySet);
                }
                flags.admin = true;
            } else {
                match PathOs::from_str(flag) {
                    Ok(os) => {
                        if os_set {
                            proof {
                                lemma_with_tokens_fails(views(tokens@), i + 1);
                            }
                            return Err(ParseFlagsError::OsAlreadySet);
                        }
                        os_set = true;
                        flags.os = os;
                    },
                    Err(_) => {
                        proof {
                            lemma_with_tokens_fails(views(tokens@), i + 1);
                        }
                        return Err(ParseFlagsError::UnknownFlag(flag.to_owned()));
                    },
                }
            }
            i = i + 1;
        }
        proof {
            assert(views(tokens@).take(n as int) =~= views(tokens@));
        }
        Ok(flags)
    }
}

/// Once a prefix of the tokens is refused, so is the whole sequence, with
/// the same error.
pub proof fn lemma_with_tokens_fails(tokens: Seq<Seq<char>>, k: int)
    requires
        0 <= k <= tokens.len(),
        PathFlags::with_tokens(tokens.take(k)) is Err,
    ensures
        PathFlags::with_tokens(tokens) == PathFlags::with_tokens(tokens.take(k)),
    decreases tokens.len() - k,
{
    if k == tokens.len() {
        assert(tokens.take(k) =~= tokens);
    } else {
        assert(tokens.take(k + 1).drop_last() =~= tokens.take(k));
        lemma_with_tokens_fails(tokens, k + 1);
    }
}

/// Whether the token at `i` is the `admin` token.
pub open spec fn admin_at(tokens: Seq<Seq<char>>, i: int) -> bool {
    lower(trim(tokens[i])) == "admin"@
}

/// The class that the token at `i` names, if it names one.
pub open spec fn os_at(tokens: Seq<Seq<char>>, i: int) -> Option<PathOs> {
    if admin_at(tokens, i) {
        None
    } else {
        PathOs::named(lower(trim(tokens[i])))
    }
}

/// Whether the tokens make up a flag string: each is `admin` or names a
/// class, and neither `admin` nor a class is given twice.
pub open spec fn accepted(tokens: Seq<Seq<char>>) -> bool {
    &&& forall|i: int|
        0 <= i < tokens.len() ==> #[trigger] admin_at(tokens, i) || os_at(tokens, i) is Some
    &&& forall|i: int, j: int|
        0 <= i < j < tokens.len() ==> !(#[trigger] admin_at(tokens, i) && #[trigger] admin_at(
            tokens,
            j,
        ))
    &&& forall|i: int, j: int|
        0 <= i < j < tokens.len() ==> !(#[trigger] os_at(tokens, i) is Some && #[trigger] os_at(
            tokens,
            j,
        ) is Some)
}

/// Tokens are read without error exactly if they make up a flag string.
/// The flags then require privilege exactly if one token is `admin`, and
/// their class is the one that a token names, or `Any` if none does.
pub proof fn lemma_with_tokens_accepts(tokens: Seq<Seq<char>>)
    ensures
        PathFlags::with_tokens(tokens) is Ok <==> accepted(tokens),
        PathFlags::with_tokens(tokens) matches Ok(sofar) ==> {
            &&& sofar.flags.admin <==> exists|i: int|
                0 <= i < tokens.len() && #[trigger] admin_at(tokens, i)
            &&& sofar.os_set <==> exists|i: int|
                0 <= i < tokens.len() && #[trigger] os_at(tokens, i) is Some
            &&& forall|i: int|
                0 <= i < tokens.len() && #[trigger] os_at(tokens, i) is Some ==> os_at(tokens, i)
                    == Some(sofar.flags.os)
            &&& !sofar.os_set ==> sofar.flags.os == PathOs::Any
        },
    decreases tokens.len(),
{
    if tokens.len() > 0 {
        let front = tokens.drop_last();
        let last = tokens.len() - 1;
        lemma_with_tokens_accepts(front);
        assert forall|i: int| 0 <= i < front.len() implies admin_at(front, i) == admin_at(
            tokens,
            i,
        ) && os_at(front, i) == os_at(tokens, i) by {
            assert(front[i] == tokens[i]);
        }
        if accepted(tokens) {
            assert(accepted(front)) by {
                assert forall|i: int| 0 <= i < front.len() implies #[trigger] admin_at(front, i)
                    || os_at(front, i) is Some by {
                    assert(admin_at(tokens, i) || os_at(tokens, i) is Some);
                }
                assert forall|i: int, j: int| 0 <= i < j < front.len() implies !(
                #[trigger] admin_at(front, i) && #[trigger] admin_at(front, j)) by {
                    assert(!(admin_at(tokens, i) && admin_at(tokens, j)));
                }
                assert forall|i: int, j: int| 0 <= i < j < front.len() implies !(#[trigger] os_at(
                    front,
                    i,
                ) is Some && #[trigger] os_at(front, j) is Some) by {
                    assert(!(os_at(tokens, i) is Some && os_at(tokens, j) is Some));
                }
            }
        }
        match PathFlags::with_tokens(front) {
            Err(_) => {},
            Ok(sofar) => {
                assert(tokens.last() == tokens[last]);
                if admin_at(tokens, last) {
                    if sofar.flags.admin {
                        let i = choose|i: int| 0 <= i < front.len() && #[trigger] admin_at(front, i);
                        assert(admin_at(tokens, i) && admin_at(tokens, last));
                    } else {
                        assert(accepted(tokens)) by {
                            assert forall|i: int, j: int| 0 <= i < j < tokens.len() implies !(
                            #[trigger] admin_at(tokens, i) && #[trigger] admin_at(tokens, j)) by {
                                if admin_at(tokens, i) {
                                    assert(admin_at(front, i));
                                }
                            }
                            assert forall|i: int, j: int| 0 <= i < j < tokens.len() implies !(
                            #[trigger] os_at(tokens, i) is Some && #[trigger] os_at(tokens, j)
                                is Some) by {
                                if j < last {
                                    assert(!(os_at(front, i) is Some && os_at(front, j) is Some));
                                }
                            }
                        }
                        let out = PathFlags::with_tokens(tokens)->Ok_0;
                        assert(out.flags.admin && admin_at(tokens, last));
                        if out.os_set {
                            let i = choose|i: int|
                                0 <= i < front.len() && #[trigger] os_at(front, i) is Some;
                            assert(os_at(tokens, i) is Some);
                        }
                        assert forall|i: int|
                            0 <= i < tokens.len() && #[trigger] os_at(tokens, i)
                                is Some implies os_at(tokens, i) == Some(out.flags.os) by {
                            assert(os_at(front, i) is Some);
                        }
                        if exists|i: int|
                            0 <= i < tokens.len() && #[trigger] os_at(tokens, i) is Some {
                            let i = choose|i: int|
                                0 <= i < tokens.len() && #[trigger] os_at(tokens, i) is Some;
                            assert(os_at(front, i) is Some);
                        }
                    }
                } else if os_at(tokens, last) is Some {
                    if sofar.os_set {
                        let i = choose|i: int|
                            0 <= i < front.len() && #[trigger] os_at(front, i) is Some;
                        assert(os_at(tokens, i) is Some && os_at(tokens, last) is Some);
                    } else {
                        assert(accepted(tokens)) by {
                            assert forall|i: int, j: int| 0 <= i < j < tokens.len() implies !(
                            #[trigger] admin_at(tokens, i) && #[trigger] admin_at(tokens, j)) by {
                                if j < last {
                                    assert(!(admin_at(front, i) && admin_at(front, j)));
                                }
                            }
                            assert forall|i: int, j: int| 0 <= i < j < tokens.len() implies !(
                            #[trigger] os_at(tokens, i) is Some && #[trigger] os_at(tokens, j)
                                is Some) by {
                                if os_at(tokens, i) is Some {
                                    assert(os_at(front, i) is Some);
                                }
                            }
                        }
                        let out = PathFlags::with_tokens(tokens)->Ok_0;
                        assert(out.os_set && os_at(tokens, last) is Some);
                        if out.flags.admin {
                            let i = choose|i: int|
                                0 <= i < front.len() && #[trigger] admin_at(front, i);
                            assert(admin_at(tokens, i));
                        }
                        if exists|i: int| 0 <= i < tokens.len() && #[trigger] admin_at(tokens, i) {
                            let i = choose|i: int|
                                0 <= i < tokens.len() && #[trigger] admin_at(tokens, i);
                            assert(admin_at(front, i));
                        }
                        assert forall|i: int|
                            0 <= i < tokens.len() && #[trigger] os_at(tokens, i)
                                is Some implies os_at(tokens, i) == Some(out.flags.os) by {
                            if i < last {
                                assert(os_at(front, i) is Some);
                            }
                        }
                    }
                } else {
                    assert(!(admin_at(tokens, last) || os_at(tokens, last) is Some));
                }
            },
        }
    }
}

/// A text parses as flags exactly if its comma-separated tokens make up a
/// flag string: in particular, no text parses in which `admin` or a class
/// is given twice.
pub proof fn lemma_parsed_accepts(s: Seq<char>)
    ensures
        PathFlags::parsed(s) is Ok <==> accepted(split(s, ',')),
{
    lemma_with_tokens_accepts(split(s, ','));
}

/// What is known of the written name of every class but `Unknown`: it holds
/// no comma, trimming and case folding leave it alone, it is not `admin`,
/// and it names the class.
pub proof fn lemma_name_names(os: PathOs)
    requires
        os != PathOs::Unknown,
    ensures
        !os.name().contains(','),
        trim(os.name()) == os.name(),
        lower(os.name()) == os.name(),
        os.name() != "admin"@,
        PathOs::named(os.name()) == Some(os),
{
    reveal_strlit("");
    reveal_strlit("any");
    reveal_strlit("unix");
    reveal_strlit("windows");
    reveal_strlit("win");
    reveal_strlit("win32");
    reveal_strlit("linux");
    reveal_strlit("osx");
    reveal_strlit("mac");
    reveal_strlit("macos");
    reveal_strlit("macosx");
    reveal_strlit("admin");
    let n = os.name();
    assert(n.len() > 0);
    assert(forall|i: int| 0 <= i < n.len() ==> n[i] != ',');
    lemma_trim_nothing(n);
    assert(lower(n) =~= n);
    assert(n.len() == 5 ==> n[0] != 'a');
}

/// Flag round trip: the textual form of flags whose class is not `Unknown`
/// parses back to the same flags.
pub proof fn lemma_parse_rendered(flags: PathFlags)
    requires
        flags.os != PathOs::Unknown,
    ensures
        PathFlags::parsed(flags.rendered()) == Ok::<PathFlags, FlagsFault>(flags),
{
    let name = flags.os.name();
    let start = FlagsSoFar { flags: PathFlags::empty(), os_set: false };
    lemma_name_names(flags.os);
    assert(PathFlags::with_tokens(Seq::<Seq<char>>::empty()) == Ok::<FlagsSoFar, FlagsFault>(
        start,
    ));
    if flags.admin {
        reveal_strlit("admin");
        reveal_strlit(",");
        let admin = "admin"@;
        assert(","@ =~= seq![',']);
        assert(forall|i: int| 0 <= i < admin.len() ==> admin[i] != ',');
        lemma_split_single(admin, ',');
        lemma_split_append(admin, name, ',');
        let tokens = seq![admin].push(name);
        assert(split(flags.rendered(), ',') == tokens);
        lemma_trim_nothing(admin);
        assert(lower(admin) =~= admin);
        assert(tokens.drop_last() =~= seq![admin]);
        assert(seq![admin].drop_last() =~= Seq::<Seq<char>>::empty());
        let first = FlagsSoFar { flags: PathFlags { admin: true, os: PathOs::Any }, os_set: false };
        assert(PathFlags::with_token(start, admin) == Ok::<FlagsSoFar, FlagsFault>(first));
        assert(PathFlags::with_tokens(seq![admin]) == Ok::<FlagsSoFar, FlagsFault>(first));
        assert(PathFlags::with_tokens(tokens) == PathFlags::with_token(first, name));
    } else {
        lemma_split_single(name, ',');
        let tokens = seq![name];
        assert(tokens.drop_last() =~= Seq::<Seq<char>>::empty());
        assert(PathFlags::with_tokens(tokens) == PathFlags::with_token(start, name));
    }
}

/// Every class satisfies the requirement `Any`.
pub proof fn lemma_all_satisfy_any(os: PathOs)
    ensures
        os.satisfies(PathOs::Any) == Ok::<bool, PathOsError>(true),
{
}

/// The classes `Linux` and `OSX` lie within `Unix`, and `Windows` lies
/// outside: whatever satisfies one of the first two satisfies `Unix`, and
/// what satisfies `Windows` does not.
pub proof fn lemma_unix_members(os: PathOs)
    ensures
        os.satisfies(PathOs::Linux) == Ok::<bool, PathOsError>(true) ==> os.satisfies(
            PathOs::Unix,
        ) == Ok::<bool, PathOsError>(true),
        os.satisfies(PathOs::OSX) == Ok::<bool, PathOsError>(true) ==> os.satisfies(PathOs::Unix)
            == Ok::<bool, PathOsError>(true),
        os.satisfies(PathOs::Windows) == Ok::<bool, PathOsError>(true) ==> os.satisfies(
            PathOs::Unix,
        ) == Ok::<bool, PathOsError>(false),
        PathOs::Linux.satisfies(PathOs::Unix) == Ok::<bool, PathOsError>(true),
        PathOs::OSX.satisfies(PathOs::Unix) == Ok::<bool, PathOsError>(true),
        PathOs::Windows.satisfies(PathOs::Unix) == Ok::<bool, PathOsError>(false),
{
}

/// Entries without requirements are seen by every system.
pub proof fn lemma_empty_flags_permit(given: PathFlags)
    ensures
        PathFlags::empty().permits(given),
{
}

impl Default for PathFlags {
    fn default() -> (r: PathFlags)
        ensures
            r == PathFlags::empty(),
    {
        PathFlags::new()
    }
}

} // verus!
