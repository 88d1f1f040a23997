use pathfix::config::{ConfigSource, Path, PathFlags, PathOs, Paths};
use pathfix::env::Env;
use pathfix::path::ConfigurablePath;

fn env_of(pairs: &[(&str, &str)]) -> Env {
    Env::from_pairs(pairs.iter().map(|(k, v)| (k.to_string(), v.to_string())).collect())
}

#[test]
fn test_resolve() {
    let env = env_of(&[("HOME", "/home/user"), ("FOO", "/foobar")]);
    let testvec = [
        (Path::from("/fnort/bar"), Some("/fnort/bar".to_string())),
        (Path::from("$HOME/foo"), Some("/home/user/foo".to_string())),
        (Path::from("~/foo"), Some("/home/user/foo".to_string())),
        (Path::from("$UNKOWN/foo"), None),
    ];

    for (path, wanted) in &testvec {
        assert_eq!(path.resolve(&env), *wanted);
    }
}

#[test]
fn resolve_is_identity_without_symbols() {
    let env = env_of(&[("HOME", "/home/user")]);
    for raw in ["", "/", "//", "/usr/bin", "relative/dir/", "a~/b", "/x/~y/$", "/a$b/c~", "~~"] {
        let wanted = if raw == "/x/~y/$" { None } else { Some(raw.to_string()) };
        if wanted.is_some() {
            assert_eq!(Path::from(raw).resolve(&env), wanted);
            assert_eq!(Path::from(raw).resolve(&Env::new()), wanted);
        }
    }
}

#[test]
fn resolve_home() {
    let env = env_of(&[("HOME", "/home/user")]);
    assert_eq!(Path::from("~/foo").resolve(&env), Some("/home/user/foo".to_string()));
    assert_eq!(Path::from("~/foo").resolve(&Env::new()), None);
    assert_eq!(Path::from("~").resolve(&env), Some("/home/user".to_string()));
    assert_eq!(Path::from("/a/~/b").resolve(&env), Some("/a//home/user/b".to_string()));
}

#[test]
fn resolve_unknown_variable_gives_nothing() {
    let env = env_of(&[("HOME", "/home/user")]);
    assert_eq!(Path::from("$UNKNOWN/foo").resolve(&env), None);
    assert_eq!(Path::from("$HOME/$UNKNOWN").resolve(&env), None);
    assert_eq!(Path::from("/a/$UNKNOWN/$HOME").resolve(&env), None);
}

#[test]
fn resolve_variable_names() {
    let env = env_of(&[("A", "1"), ("", "empty"), ("{B}", "braced"), ("A:B", "odd")]);
    assert_eq!(Path::from("$A/$A").resolve(&env), Some("1/1".to_string()));
    assert_eq!(Path::from("x/$").resolve(&env), Some("x/empty".to_string()));
    assert_eq!(Path::from("${B}/y").resolve(&env), Some("braced/y".to_string()));
    assert_eq!(Path::from("$A:B").resolve(&env), Some("odd".to_string()));
    assert_eq!(Path::from("${A}").resolve(&env), None);
}

#[test]
fn resolve_leaves_the_entry_alone() {
    let env = env_of(&[("HOME", "/home/user")]);
    let path = Path::from("~/bin");
    let _ = path.resolve(&env);
    assert_eq!(path.path(), "~/bin");
    assert_eq!(path, Path::from("~/bin"));
}

#[test]
fn test_from_env() {
    let paths = Paths::from_path("/foo/bar:/fnorti/fnuff");
    assert_eq!(
        paths,
        Paths::new(vec![
            Path::with_source("/foo/bar", PathFlags::default(), ConfigSource::PathVar),
            Path::with_source("/fnorti/fnuff", PathFlags::default(), ConfigSource::PathVar),
        ])
    );
}

#[test]
fn test_from_path() {
    let source = ConfigSource::PathVar;
    let test_vec: Vec<(&'static str, Paths)> = vec![
        (
            "/foo/bar",
            Paths::new(vec![Path::with_source(
                "/foo/bar",
                PathFlags::default(),
                ConfigSource::PathVar,
            )]),
        ),
        (
            "/foo/bar:~/bin/bazz:$HOME/fnort/bar:${VAR}/some/path",
            Paths::new(vec![
                Path::with_source("/foo/bar", PathFlags::default(), source.clone()),
                Path::with_source("~/bin/bazz", PathFlags::default(), source.clone()),
                Path::with_source("$HOME/fnort/bar", PathFlags::default(), source.clone()),
                Path::with_source("${VAR}/some/path", PathFlags::default(), source.clone()),
            ]),
        ),
    ];

    for (path, paths) in test_vec {
        assert_eq!(Paths::from_path(path), paths);
    }
}

#[test]
fn from_path_marks_the_source() {
    let paths = Paths::from_path("/a:/b");
    for entry in &paths.0 {
        assert_eq!(entry.source(), Some(&ConfigSource::PathVar));
        assert_eq!(entry.flags(), PathFlags::new());
    }
}

#[test]
fn from_path_keeps_duplicates_and_order() {
    let paths = Paths::from_path("/a:/a:/b");
    let raw: Vec<&str> = paths.0.iter().map(|p| p.path()).collect();
    assert_eq!(raw, vec!["/a", "/a", "/b"]);
}

#[test]
fn from_path_keeps_empty_pieces() {
    let raw = |s: &str| -> Vec<String> {
        Paths::from_path(s).0.iter().map(|p| p.path().to_string()).collect()
    };
    assert_eq!(raw(""), vec![""]);
    assert_eq!(raw(":"), vec!["", ""]);
    assert_eq!(raw("/a::/b:"), vec!["/a", "", "/b", ""]);
}

#[test]
fn path_test_merge() {
    let test_vec: Vec<(Paths, Paths, Paths)> = vec![
        (Paths::default(), Paths::default(), Paths::default()),
        (
            vec!["/foo/bar", "/bar/bazz"].into(),
            vec!["/fnort"].into(),
            vec!["/fnort", "/foo/bar", "/bar/bazz"].into(),
        ),
    ];

    for (a, b, out) in test_vec {
        assert_eq!(a.merge(b), out)
    }
}

#[test]
fn equality_ignores_the_source() {
    let a = Path::with_source("/a", PathFlags::new(), ConfigSource::Included);
    let b = Path::with_source("/a", PathFlags::new(), ConfigSource::PathVar);
    assert_eq!(a, b);
    assert_eq!(a, Path::from("/a"));
    assert_ne!(a, Path::from("/b"));
    assert_ne!(a, Path::with_flags("/a", PathFlags { admin: true, os: PathOs::Any }));
}

#[test]
fn clone_keeps_everything() {
    let a = Path::with_source(
        "/a",
        PathFlags { admin: true, os: PathOs::Unix },
        ConfigSource::Included,
    );
    let b = a.clone();
    assert_eq!(b.path(), "/a");
    assert_eq!(b.flags(), PathFlags { admin: true, os: PathOs::Unix });
    assert_eq!(b.source(), Some(&ConfigSource::Included));
    let list = Paths::new(vec![a, Path::from("/c")]);
    let copy = list.clone();
    assert_eq!(copy, list);
    assert_eq!(copy.0[0].source(), Some(&ConfigSource::Included));
    assert_eq!(copy.0[1].source(), None);
}

#[test]
fn set_source_marks_every_entry() {
    let mut paths = Paths::new(vec![
        Path::with_flags("/a", PathFlags { admin: true, os: PathOs::Linux }),
        Path::with_source("/b", PathFlags::new(), ConfigSource::PathVar),
    ]);
    paths.set_source(ConfigSource::Included);
    assert_eq!(paths.0.len(), 2);
    assert_eq!(paths.0[0].path(), "/a");
    assert_eq!(paths.0[0].flags(), PathFlags { admin: true, os: PathOs::Linux });
    assert_eq!(paths.0[1].path(), "/b");
    for entry in &paths.0 {
        assert_eq!(entry.source(), Some(&ConfigSource::Included));
    }
}

#[test]
fn resolve_list_filters_by_flags() {
    let paths = Paths::new(vec![
        Path::with_flags("/admin/bin", PathFlags { admin: true, os: PathOs::Any }),
        Path::with_flags("/usr/bin", PathFlags { admin: false, os: PathOs::Any }),
    ]);
    let system = PathFlags { admin: false, os: PathOs::Linux };
    assert_eq!(paths.resolve(system, &Env::new()), vec!["/usr/bin".to_string()]);
    let admin = PathFlags { admin: true, os: PathOs::Linux };
    assert_eq!(
        paths.resolve(admin, &Env::new()),
        vec!["/admin/bin".to_string(), "/usr/bin".to_string()]
    );
}

#[test]
fn resolve_list_drops_what_does_not_resolve() {
    let env = env_of(&[("HOME", "/h")]);
    let paths = Paths::new(vec![
        Path::from("~/bin"),
        Path::from("$NOPE/bin"),
        Path::with_flags("/win", PathFlags { admin: false, os: PathOs::Windows }),
        Path::with_flags("/unix", PathFlags { admin: false, os: PathOs::Unix }),
        Path::from("~/bin"),
    ]);
    let system = PathFlags { admin: false, os: PathOs::Linux };
    assert_eq!(
        paths.resolve(system, &env),
        vec!["/h/bin".to_string(), "/unix".to_string(), "/h/bin".to_string()]
    );
    assert_eq!(Paths::default().resolve(system, &env), Vec::<String>::new());
}

#[test]
fn resolve_of_merged_lists_is_the_lists_resolved_in_turn() {
    let env = env_of(&[("HOME", "/h")]);
    let system = PathFlags { admin: false, os: PathOs::Linux };
    let a = || Paths::from(vec!["~/a", "$X/a", "/a"]);
    let b = || Paths::from(vec!["/b", "~/b"]);
    let mut wanted = b().resolve(system, &env);
    wanted.extend(a().resolve(system, &env));
    assert_eq!(a().merge(b()).resolve(system, &env), wanted);
}

#[test]
fn path_test_default() {
    let p = ConfigurablePath {
        path: "/foo/bar",
        base_env: None,
        base_default: None,
        become_only: false,
    };

    assert_eq!(p, ConfigurablePath::new("/foo/bar"))
}

#[test]
fn configurable_path_builders() {
    let p = ConfigurablePath::new_become("/sbin");
    assert_eq!(
        p,
        ConfigurablePath { path: "/sbin", base_env: None, base_default: None, become_only: true }
    );
    let q = ConfigurablePath::with_env("bin", "CARGO_HOME", "/home/u/.cargo");
    assert_eq!(
        q,
        ConfigurablePath {
            path: "bin",
            base_env: Some("CARGO_HOME"),
            base_default: Some("/home/u/.cargo"),
            become_only: false,
        }
    );
    assert_eq!(q.base(Some("/opt/cargo")), Some("/opt/cargo"));
    assert_eq!(q.base(None), Some("/home/u/.cargo"));
    assert_eq!(p.base(Some("/ignored")), None);
    assert_eq!(p.base(None), None);
}
