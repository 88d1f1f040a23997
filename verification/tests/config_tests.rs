use pathfix::config::{
    Config, ConfigSource, IncludeAdministrative, ParseFlagsError, Path, PathFlags, PathOs, Paths,
    SyntaxSuggarPath,
};
use pathfix::env::Env;

fn pair(name: &str, value: &str) -> (String, String) {
    (name.to_string(), value.to_string())
}

#[test]
fn config_test_new() {
    assert_eq!(Config::new(), Default::default());
}

#[test]
fn mod_test_new() {
    assert_eq!(Config::new(), Default::default());
}

#[test]
fn new_config_is_empty() {
    let config = Config::new();
    assert!(!config.base);
    assert_eq!(config.include_administrative, None);
    assert_eq!(config.paths.0.len(), 0);
    assert_eq!(config.env.len(), 0);
}

#[test]
fn config_test_with_env() {
    let config = Config::new().with_env(vec![pair("FOO", "BAR")]);
    assert_eq!(config.env.get("FOO").unwrap(), "BAR");
}

#[test]
fn mod_test_with_env() {
    let config = Config::new().with_env(vec![pair("FOO", "BAR")]);
    assert_eq!(config.env.get("FOO").unwrap(), "BAR");
}

#[test]
fn with_env_replaces_the_overlay() {
    let config = Config::new().with_env(vec![pair("OLD", "1")]);
    let config = config.with_env(vec![pair("FOO", "a"), pair("FOO", "b")]);
    assert_eq!(config.env.get("OLD"), None);
    assert_eq!(config.env.get("FOO").unwrap(), "b");
    assert_eq!(config.env.len(), 1);
}

#[test]
fn test_with_path_from_env() {
    let config = Config::new().with_path_from_env("/foo/bar:/fnorti/fnuff");
    assert_eq!(config.paths, Paths::from(vec!["/foo/bar", "/fnorti/fnuff"]));
}

#[test]
fn mod_test_merge() {
    let config1 = Config {
        base: true,
        include_administrative: Some(IncludeAdministrative::Always),
        paths: vec!["/foo/bar", "/bar/bazz"].into(),
        env: Env::from_pairs(vec![pair("FOO", "BAR")]),
    };
    let config2 = Config {
        base: true,
        include_administrative: Some(IncludeAdministrative::RootOnly),
        paths: Paths::from(vec!["/fnort"]),
        env: Env::from_pairs(vec![pair("FOO", "FNAFF")]),
    };
    let result = Config {
        base: true,
        include_administrative: Some(IncludeAdministrative::RootOnly),
        paths: vec!["/fnort", "/foo/bar", "/bar/bazz"].into(),
        env: Env::from_pairs(vec![pair("FOO", "FNAFF")]),
    };
    assert_eq!(config1.merge(config2), result);
}

fn layer(base: bool, policy: Option<IncludeAdministrative>, paths: Vec<&str>) -> Config {
    Config { base, include_administrative: policy, paths: paths.into(), env: Env::new() }
}

#[test]
fn merge_puts_the_other_paths_first() {
    let a = layer(false, None, vec!["/one", "/two"]);
    let b = layer(false, None, vec!["/three"]);
    let merged = a.merge(b);
    assert_eq!(merged.paths, Paths::from(vec!["/three", "/one", "/two"]));
}

#[test]
fn merge_policy_of_the_other_wins() {
    let a = layer(false, Some(IncludeAdministrative::Always), vec![]);
    let b = layer(false, Some(IncludeAdministrative::Never), vec![]);
    assert_eq!(a.merge(b).include_administrative, Some(IncludeAdministrative::Never));
}

#[test]
fn merge_keeps_policy_where_the_other_has_none() {
    let a = layer(false, Some(IncludeAdministrative::Always), vec![]);
    let b = layer(false, None, vec![]);
    assert_eq!(a.merge(b).include_administrative, Some(IncludeAdministrative::Always));
    let a = layer(false, None, vec![]);
    let b = layer(false, None, vec![]);
    assert_eq!(a.merge(b).include_administrative, None);
}

#[test]
fn merge_base_is_or() {
    for (x, y) in [(false, false), (false, true), (true, false), (true, true)] {
        let merged = layer(x, None, vec![]).merge(layer(y, None, vec![]));
        assert_eq!(merged.base, x || y);
    }
}

#[test]
fn merge_env_is_union_and_other_wins() {
    let mut a = Config::new();
    a.env = Env::from_pairs(vec![pair("A", "1"), pair("X", "self")]);
    let mut b = Config::new();
    b.env = Env::from_pairs(vec![pair("B", "2"), pair("X", "other")]);
    let merged = a.merge(b);
    assert_eq!(merged.env.len(), 3);
    assert_eq!(merged.env.get("A").unwrap(), "1");
    assert_eq!(merged.env.get("B").unwrap(), "2");
    assert_eq!(merged.env.get("X").unwrap(), "other");
}

#[test]
fn merge_is_associative_on_an_example() {
    let make = || {
        (
            layer(false, Some(IncludeAdministrative::Always), vec!["a1", "a2"]),
            layer(true, None, vec!["b1"]),
            layer(false, Some(IncludeAdministrative::Never), vec!["c1"]),
        )
    };
    let (a, b, c) = make();
    let left = a.merge(b).merge(c);
    let (a, b, c) = make();
    let right = a.merge(b.merge(c));
    assert_eq!(left, right);
    assert_eq!(left.paths, Paths::from(vec!["c1", "b1", "a1", "a2"]));
}

#[test]
fn merge_with_the_empty_layer_changes_nothing() {
    let make = || {
        let mut c = layer(true, Some(IncludeAdministrative::RootOnly), vec!["/x", "/y"]);
        c.env = Env::from_pairs(vec![pair("K", "V")]);
        c
    };
    assert_eq!(make().merge(Config::new()), make());
    assert_eq!(Config::new().merge(make()), make());
}

#[test]
fn merge_keeps_sources() {
    let mut a: Paths = vec!["/a"].into();
    a.set_source(ConfigSource::Included);
    let b = Paths::from_path("/b");
    let merged = a.merge(b);
    assert_eq!(merged.0[0].source(), Some(&ConfigSource::PathVar));
    assert_eq!(merged.0[1].source(), Some(&ConfigSource::Included));
}

#[test]
fn from_txt_reads_one_path_per_line() {
    let text = "# search path\n/usr/bin\n\n  /opt/bin   # tools\r\n~/bin\n#only comment\n   \n$HOME/x";
    let config = Config::from_txt(text);
    assert_eq!(config.paths, Paths::from(vec!["/usr/bin", "/opt/bin", "~/bin", "$HOME/x"]));
    assert!(!config.base);
    assert_eq!(config.include_administrative, None);
    assert_eq!(config.env.len(), 0);
    for entry in &config.paths.0 {
        assert_eq!(entry.flags(), PathFlags::new());
        assert_eq!(entry.source(), None);
    }
}

#[test]
fn from_txt_of_nothing_is_empty() {
    assert_eq!(Config::from_txt(""), Config::new());
    assert_eq!(Config::from_txt("\n\n# x\n"), Config::new());
}

#[test]
fn from_entries_parses_each_flag_string() {
    let entries =
        vec![pair("/admin/bin", "admin"), pair("/usr/bin", ""), pair("/mac", "OSX, Admin")];
    let paths = Paths::from_entries(&entries).unwrap();
    assert_eq!(paths.0.len(), 3);
    assert_eq!(paths.0[0].path(), "/admin/bin");
    assert_eq!(paths.0[0].flags(), PathFlags { admin: true, os: PathOs::Any });
    assert_eq!(paths.0[1].path(), "/usr/bin");
    assert_eq!(paths.0[1].flags(), PathFlags { admin: false, os: PathOs::Any });
    assert_eq!(paths.0[2].flags(), PathFlags { admin: true, os: PathOs::OSX });
    assert_eq!(paths.0[2].source(), None);
}

#[test]
fn from_entries_fails_on_the_first_bad_flags() {
    let entries =
        vec![pair("/a", "linux"), pair("/b", "admin,admin"), pair("/c", "linux,osx")];
    assert_eq!(Paths::from_entries(&entries), Err(ParseFlagsError::AdminAlreadySet));
}

#[test]
fn sugar_path_converts() {
    let simple: Path = SyntaxSuggarPath::Simple("/a".to_string()).into();
    assert_eq!(simple, Path::from("/a"));
    let flags = PathFlags { admin: true, os: PathOs::Linux };
    let full: Path = SyntaxSuggarPath::Struct(Path::with_flags("/b", flags)).into();
    assert_eq!(full.path(), "/b");
    assert_eq!(full.flags(), flags);
    let from_text: SyntaxSuggarPath = "/c".into();
    assert_eq!(from_text, SyntaxSuggarPath::Struct(Path::from("/c")));
}

#[test]
fn from_txt_agrees_with_line_by_line_reading() {
    let texts = [
        "",
        "/a",
        "/a\n",
        "/a\r\n/b\r\n",
        "  /a  # first\n\n#\n/b#x#y\n\t\n",
        "/a\r#b\n\r\n /c \r",
        "ä/ö # ü\n\u{2003}/e\u{a0}",
    ];
    for text in texts {
        let wanted: Vec<&str> = text
            .lines()
            .map(|line| line.splitn(2, '#').next().unwrap())
            .map(str::trim)
            .filter(|s| !s.is_empty())
            .collect();
        assert_eq!(Config::from_txt(text).paths, Paths::from(wanted), "{:?}", text);
    }
}
