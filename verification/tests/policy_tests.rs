use pathfix::config::{
    ConfigFileDescription, ConfigFileError, ConfigFileFormat, ConfigSource, GroupNames,
    HomeUnknown, Identity, IdentityLookupError, IncludeAdministrative, PathFlags, PathOs,
    UserName,
};

fn names(list: &[&str]) -> Vec<String> {
    list.iter().map(|s| s.to_string()).collect()
}

fn identity(uid: u32, user: &str, groups: &[&str]) -> Identity {
    Identity {
        uid,
        username: UserName::Text(user.to_string()),
        groups: GroupNames::Listed(groups.iter().map(|g| Some(g.to_string())).collect()),
    }
}

#[test]
fn include_administrative_test_default() {
    let default = IncludeAdministrative::default().clone();
    assert_eq!(
        default,
        IncludeAdministrative::Groups(vec!["wheel".to_string(), "sudo".to_string(),])
    )
}

#[test]
fn check_always_and_never() {
    let root = identity(0, "root", &["wheel"]);
    let user = identity(1000, "alice", &[]);
    assert_eq!(IncludeAdministrative::Always.check(&root), Ok(true));
    assert_eq!(IncludeAdministrative::Always.check(&user), Ok(true));
    assert_eq!(IncludeAdministrative::Never.check(&root), Ok(false));
    assert_eq!(IncludeAdministrative::Never.check(&user), Ok(false));
}

#[test]
fn check_root_only() {
    assert_eq!(IncludeAdministrative::RootOnly.check(&identity(0, "alice", &[])), Ok(true));
    assert_eq!(IncludeAdministrative::RootOnly.check(&identity(1, "root", &["root"])), Ok(false));
    assert_eq!(
        IncludeAdministrative::RootOnly.check(&identity(u32::MAX, "root", &[])),
        Ok(false)
    );
}

#[test]
fn check_users() {
    let policy = IncludeAdministrative::Users(names(&["alice", "bob"]));
    assert_eq!(policy.check(&identity(1000, "alice", &[])), Ok(true));
    assert_eq!(policy.check(&identity(1000, "bob", &[])), Ok(true));
    assert_eq!(policy.check(&identity(0, "root", &["alice"])), Ok(false));
    assert_eq!(policy.check(&identity(1000, "Alice", &[])), Ok(false));
    assert_eq!(IncludeAdministrative::Users(vec![]).check(&identity(0, "root", &[])), Ok(false));
}

#[test]
fn check_users_errors() {
    let policy = IncludeAdministrative::Users(names(&["alice"]));
    let mut who = identity(1000, "alice", &[]);
    who.username = UserName::Missing;
    assert_eq!(policy.check(&who), Err(IdentityLookupError::NoUserName));
    who.username = UserName::NotText;
    assert_eq!(policy.check(&who), Err(IdentityLookupError::UserNameNotText));
}

#[test]
fn check_groups() {
    let policy = IncludeAdministrative::default();
    assert_eq!(policy.check(&identity(1000, "alice", &["users", "sudo"])), Ok(true));
    assert_eq!(policy.check(&identity(1000, "alice", &["wheel"])), Ok(true));
    assert_eq!(policy.check(&identity(0, "wheel", &["users", "adm"])), Ok(false));
    assert_eq!(policy.check(&identity(0, "root", &[])), Ok(false));
    let mut who = identity(1000, "alice", &[]);
    who.groups = GroupNames::Listed(vec![None, Some("sudo".to_string())]);
    assert_eq!(policy.check(&who), Ok(true));
    who.groups = GroupNames::Listed(vec![None, None]);
    assert_eq!(policy.check(&who), Ok(false));
}

#[test]
fn check_groups_error() {
    let policy = IncludeAdministrative::default();
    let mut who = identity(1000, "alice", &[]);
    who.groups = GroupNames::Unavailable("no groups".to_string());
    assert_eq!(policy.check(&who), Err(IdentityLookupError::GroupList("no groups".to_string())));
    assert_eq!(IncludeAdministrative::Always.check(&who), Ok(true));
}

#[test]
fn lookup_error_messages() {
    assert_eq!(IdentityLookupError::NoUserName.to_string(), "could not get current user name");
    assert_eq!(IdentityLookupError::UserNameNotText.to_string(), "usernam is not valid utf8");
    assert_eq!(IdentityLookupError::GroupList("boom".to_string()).to_string(), "boom");
}

#[test]
fn check_current_user_without_lookup() {
    assert_eq!(IncludeAdministrative::Always.check_current_user(), Ok(true));
    assert_eq!(IncludeAdministrative::Never.check_current_user(), Ok(false));
}

#[test]
fn check_current_user_with_lookup() {
    assert!(IncludeAdministrative::RootOnly.check_current_user().is_ok());
    let nobody = IncludeAdministrative::Users(vec!["thisuserdoesnotexist".to_string()]);
    let outcome = nobody.check_current_user();
    assert!(matches!(
        outcome,
        Ok(false) | Err(IdentityLookupError::NoUserName) | Err(IdentityLookupError::UserNameNotText)
    ));
    let nogroup = IncludeAdministrative::Groups(vec!["thisgroupdoesnotexist".to_string()]);
    assert!(matches!(nogroup.check_current_user(), Ok(false) | Err(IdentityLookupError::GroupList(_))));
}

#[test]
fn current_identity_looks_up_only_what_is_asked() {
    let who = Identity::current(&IncludeAdministrative::Always);
    assert_eq!(who.uid, 0);
    assert_eq!(who.username, UserName::Missing);
    assert_eq!(who.groups, GroupNames::Listed(vec![]));
    let who = Identity::current(&IncludeAdministrative::RootOnly);
    assert_eq!(who.username, UserName::Missing);
    assert_eq!(who.groups, GroupNames::Listed(vec![]));
    let who = Identity::current(&IncludeAdministrative::Users(vec![]));
    assert_eq!(who.uid, 0);
    assert_eq!(who.groups, GroupNames::Listed(vec![]));
}

#[test]
fn capability_fails_open() {
    assert_eq!(
        PathFlags::for_system(Ok(true), PathOs::Linux),
        PathFlags { admin: true, os: PathOs::Linux }
    );
    assert_eq!(
        PathFlags::for_system(Ok(false), PathOs::OSX),
        PathFlags { admin: false, os: PathOs::OSX }
    );
    assert_eq!(
        PathFlags::for_system(Err(IdentityLookupError::NoUserName), PathOs::Unknown),
        PathFlags { admin: true, os: PathOs::Unknown }
    );
    assert_eq!(
        PathFlags::for_system(Err(IdentityLookupError::GroupList("x".to_string())), PathOs::Unix),
        PathFlags { admin: true, os: PathOs::Unix }
    );
}

#[test]
fn file_description_from_location() {
    assert_eq!(
        ConfigFileDescription::from_str("/etc/pathfix.toml"),
        Ok(ConfigFileDescription::new("/etc/pathfix.toml".to_string(), ConfigFileFormat::Toml))
    );
    assert_eq!(
        ConfigFileDescription::from_str("paths.txt"),
        Ok(ConfigFileDescription::new("paths.txt".to_string(), ConfigFileFormat::Text))
    );
    assert_eq!(
        ConfigFileDescription::from_str("paths.yml"),
        Err(ConfigFileError::UnknownExtension("yml".to_string()))
    );
    assert_eq!(
        ConfigFileDescription::from_str("paths.TOML"),
        Err(ConfigFileError::UnknownExtension("TOML".to_string()))
    );
    assert_eq!(ConfigFileDescription::from_str("paths"), Err(ConfigFileError::MissingExtension));
    assert_eq!(ConfigFileDescription::from_str(".toml"), Err(ConfigFileError::MissingExtension));
    assert_eq!(ConfigFileDescription::from_str(""), Err(ConfigFileError::MissingExtension));
}

#[test]
fn file_description_with_extension() {
    assert_eq!(
        ConfigFileDescription::with_extension("a", Some("toml")),
        Ok(ConfigFileDescription::new("a".to_string(), ConfigFileFormat::Toml))
    );
    assert_eq!(
        ConfigFileDescription::with_extension("a.toml", Some("txt")),
        Ok(ConfigFileDescription::new("a.toml".to_string(), ConfigFileFormat::Text))
    );
    assert_eq!(
        ConfigFileDescription::with_extension("a", Some("")),
        Err(ConfigFileError::UnknownExtension(String::new()))
    );
    assert_eq!(
        ConfigFileDescription::with_extension("a.txt", None),
        Err(ConfigFileError::MissingExtension)
    );
}

#[test]
fn file_error_messages() {
    assert_eq!(
        ConfigFileError::UnknownExtension("yml".to_string()).to_string(),
        "File extension yml not known"
    );
    assert_eq!(
        ConfigFileError::MissingExtension.to_string(),
        "Config file needs either 'toml' or 'txt' as file format"
    );
}

#[test]
fn source_file_descriptions() {
    let system = ConfigSource::System(ConfigFileFormat::Toml);
    assert_eq!(
        system.file_description(None),
        Ok(Some(ConfigFileDescription::new("/etc/pathfix.toml".to_string(), ConfigFileFormat::Toml)))
    );
    let system = ConfigSource::System(ConfigFileFormat::Text);
    assert_eq!(
        system.file_description(Some("/home/u")),
        Ok(Some(ConfigFileDescription::new("/etc/pathfix.txt".to_string(), ConfigFileFormat::Text)))
    );
    let home = ConfigSource::Home(ConfigFileFormat::Toml);
    assert_eq!(
        home.file_description(Some("/home/u")),
        Ok(Some(ConfigFileDescription::new(
            "/home/u/.pathfix.toml".to_string(),
            ConfigFileFormat::Toml
        )))
    );
    assert_eq!(home.file_description(None), Err(HomeUnknown));
    let named = ConfigFileDescription::new("x.txt".to_string(), ConfigFileFormat::Text);
    assert_eq!(
        ConfigSource::Config(named.clone()).file_description(None),
        Ok(Some(named))
    );
    assert_eq!(ConfigSource::PathVar.file_description(Some("/h")), Ok(None));
    assert_eq!(ConfigSource::Included.file_description(None), Ok(None));
}

#[test]
fn source_descriptions() {
    assert_eq!(ConfigSource::PathVar.to_string(), "PATH variable");
    assert_eq!(ConfigSource::Included.to_string(), "included in binary");
    assert_eq!(ConfigSource::System(ConfigFileFormat::Toml).to_string(), "from system dir");
    assert_eq!(ConfigSource::Home(ConfigFileFormat::Text).to_string(), "from home dir");
    let named = ConfigFileDescription::new("/x/y.toml".to_string(), ConfigFileFormat::Toml);
    assert_eq!(named.to_string(), "/x/y.toml");
    assert_eq!(ConfigSource::Config(named).to_string(), "config: /x/y.toml");
    assert_eq!(ConfigFileFormat::Toml.extension(), "toml");
    assert_eq!(ConfigFileFormat::Text.extension(), "txt");
}
