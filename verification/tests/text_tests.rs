use pathfix::env::Env;
use pathfix::text::{
    chars_of, lower_char, lower_is, split_str, str_is, trim_str, white_space,
};

fn owned(list: &[&str]) -> Vec<String> {
    list.iter().map(|s| s.to_string()).collect()
}

#[test]
fn split_matches_std() {
    let texts = ["", "a", ":", "a:b", "a::b", ":a:", "::", "/usr/bin:/bin", "ä:ö:ü", "a:b:"];
    for text in texts {
        let wanted: Vec<String> = text.split(':').map(|s| s.to_string()).collect();
        assert_eq!(split_str(text, ':'), wanted, "{:?}", text);
    }
}

#[test]
fn split_exact_pieces() {
    assert_eq!(split_str("", ','), owned(&[""]));
    assert_eq!(split_str("admin,osx", ','), owned(&["admin", "osx"]));
    assert_eq!(split_str(",a,,b,", ','), owned(&["", "a", "", "b", ""]));
    assert_eq!(split_str("a/b", ','), owned(&["a/b"]));
    assert_eq!(split_str("é,€,𝄞", ','), owned(&["é", "€", "𝄞"]));
}

#[test]
fn split_then_join_gives_the_text_back() {
    for text in ["", "/", "a/b//c/", "~/x", "no separator"] {
        assert_eq!(split_str(text, '/').join("/"), text);
        for piece in split_str(text, '/') {
            assert!(!piece.contains('/'));
        }
    }
}

#[test]
fn white_space_matches_std() {
    let mut c: u32 = 0;
    while c <= 0x10FFFF {
        if let Some(ch) = char::from_u32(c) {
            assert_eq!(white_space(ch), ch.is_whitespace(), "U+{:04X}", c);
        }
        c += 1;
    }
}

#[test]
fn lower_char_matches_std() {
    let mut c: u32 = 0;
    while c <= 0x10FFFF {
        if let Some(ch) = char::from_u32(c) {
            assert_eq!(lower_char(ch), ch.to_ascii_lowercase(), "U+{:04X}", c);
        }
        c += 1;
    }
}

#[test]
fn trim_matches_std() {
    let texts = [
        "",
        " ",
        "a",
        "  a  ",
        "\t\n a b \r\n",
        "\u{a0}x\u{2003}",
        "\u{3000}\u{1680}",
        "a \u{85}",
        "\u{200b}a",
        " é ",
    ];
    for text in texts {
        assert_eq!(trim_str(text), text.trim(), "{:?}", text);
    }
    assert_eq!(trim_str("  a b  "), "a b");
    assert_eq!(trim_str("\u{200b}a"), "\u{200b}a");
}

#[test]
fn chars_and_comparisons() {
    assert_eq!(chars_of("aé€"), vec!['a', 'é', '€']);
    assert_eq!(chars_of(""), Vec::<char>::new());
    assert!(str_is("", ""));
    assert!(str_is("abc", "abc"));
    assert!(!str_is("abc", "abd"));
    assert!(!str_is("abc", "ab"));
    assert!(!str_is("abc", "ABC"));
    assert!(lower_is("ADMIN", "admin"));
    assert!(lower_is("AdMiN", "admin"));
    assert!(lower_is("", ""));
    assert!(!lower_is("admin", "ADMIN"));
    assert!(!lower_is("admin ", "admin"));
    assert!(!lower_is("ÄDMIN", "ädmin"));
}

#[test]
fn env_insert_and_get() {
    let mut env = Env::new();
    assert_eq!(env.len(), 0);
    assert_eq!(env.get("A"), None);
    assert!(!env.contains_key("A"));
    env.insert("A".to_string(), "1".to_string());
    env.insert("B".to_string(), "2".to_string());
    assert_eq!(env.len(), 2);
    assert_eq!(env.get("A").unwrap(), "1");
    assert_eq!(env.get("B").unwrap(), "2");
    assert!(env.contains_key("B"));
    assert_eq!(env.get("a"), None);
    env.insert("A".to_string(), "3".to_string());
    assert_eq!(env.len(), 2);
    assert_eq!(env.get("A").unwrap(), "3");
    assert_eq!(env.get("B").unwrap(), "2");
}

#[test]
fn env_from_pairs_later_wins() {
    let env = Env::from_pairs(vec![
        ("A".to_string(), "1".to_string()),
        ("B".to_string(), "2".to_string()),
        ("A".to_string(), "3".to_string()),
    ]);
    assert_eq!(env.len(), 2);
    assert_eq!(env.get("A").unwrap(), "3");
    assert_eq!(env.get("B").unwrap(), "2");
    assert_eq!(Env::from_pairs(vec![]), Env::new());
    assert_eq!(Env::default(), Env::new());
}

#[test]
fn env_equality_is_that_of_mappings() {
    let pair = |k: &str, v: &str| (k.to_string(), v.to_string());
    let a = Env::from_pairs(vec![pair("A", "1"), pair("B", "2")]);
    let b = Env::from_pairs(vec![pair("B", "2"), pair("A", "1")]);
    let c = Env::from_pairs(vec![pair("A", "1"), pair("B", "3")]);
    let d = Env::from_pairs(vec![pair("A", "1")]);
    assert_eq!(a, b);
    assert_ne!(a, c);
    assert_ne!(a, d);
    assert_ne!(d, a);
    assert_eq!(a.clone(), a);
}

#[test]
fn env_merge_prefers_the_other() {
    let pair = |k: &str, v: &str| (k.to_string(), v.to_string());
    let a = Env::from_pairs(vec![pair("A", "1"), pair("X", "self")]);
    let b = Env::from_pairs(vec![pair("X", "other"), pair("B", "2")]);
    let merged = a.merge(b);
    assert_eq!(
        merged,
        Env::from_pairs(vec![pair("A", "1"), pair("B", "2"), pair("X", "other")])
    );
    let a = Env::from_pairs(vec![pair("A", "1")]);
    assert_eq!(a.clone().merge(Env::new()), a);
    assert_eq!(Env::new().merge(a.clone()), a);
}

#[test]
fn env_pairs_hold_each_name_once() {
    let pair = |k: &str, v: &str| (k.to_string(), v.to_string());
    let env = Env::from_pairs(vec![pair("A", "1"), pair("B", "2"), pair("A", "3")]);
    let mut pairs = env.pairs();
    pairs.sort();
    assert_eq!(pairs, vec![pair("A", "3"), pair("B", "2")]);
    assert_eq!(Env::from_pairs(env.pairs()), env);
    assert_eq!(Env::new().pairs(), vec![]);
}
