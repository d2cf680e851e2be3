use kota_core::ids::{safe_component, safe_id, valid_extension, valid_hash};
use kota_core::order::{OrderedMap, OrderedSet};
use kota_core::path::PathName;
use kota_core::shim::{board_target_triple, bus_target_triple, host_triple, shim_candidates, shim_script};
use kota_core::text::{before, join, replace, split, split_words, to_decimal, trim};

#[test]
fn identifiers_stay_in_their_directory() {
    assert!(safe_id("thread-1") && safe_component("a.b_c-D"));
    for bad in ["", ".", "..", "a/b", "a b", "é"] {
        assert!(!safe_id(bad), "{bad}");
    }
    assert!(safe_id(&"a".repeat(128)) && !safe_id(&"a".repeat(129)));
    assert!(valid_hash(&"0a".repeat(32)) && !valid_hash(&"0A".repeat(32)) && !valid_hash("0"));
    assert!(valid_extension("") && valid_extension("tar") && !valid_extension("T") && !valid_extension(&"a".repeat(17)));
}

#[test]
fn texts_are_cut_and_joined() {
    assert_eq!(trim(" a b\n"), "a b");
    assert_eq!(split("a,b,", ','), vec!["a", "b", ""]);
    assert_eq!(split_words(" a  b "), vec!["a", "b"]);
    assert_eq!(join(&vec!["a".into(), "b".into()], ", "), "a, b");
    assert_eq!(replace("aXbX", "X", "--"), "a--b--");
    assert_eq!(to_decimal(1024), "1024");
    assert!(before("a", "b") && before("a", "aa") && !before("b", "a") && !before("a", "a"));
}

#[test]
fn paths_are_made_of_their_names() {
    let p = PathName::parse("/a//b/./c.md");
    assert_eq!(p.display(), "/a/b/c.md");
    assert_eq!(p.extension().as_deref(), Some("md"));
    assert!(PathName::parse("/a/b").is_parent_of(&p));
    assert!(!PathName::parse("/a").is_parent_of(&p));
}

#[test]
fn the_root_and_dots_come_before_names() {
    let mut paths: OrderedSet<PathName> = OrderedSet::new();
    for text in ["/a/b", "/a/-x", "/a/../b", "-x", "../x", "./x", "/"] {
        assert!(paths.insert(PathName::parse(text)));
    }
    let order: Vec<String> = paths.map.entries.iter().map(|e| e.0.display()).collect();
    assert_eq!(order, vec!["/", "/a/../b", "/a/-x", "/a/b", "./x", "../x", "-x"]);
}

#[test]
fn maps_keep_their_keys_in_order() {
    let mut m: OrderedMap<String, u32> = OrderedMap::new();
    for (k, v) in [("b", 2), ("a", 1), ("c", 3)] {
        assert!(m.insert(k.into(), v).is_none());
    }
    assert_eq!(m.insert("b".into(), 5), Some(2));
    let keys: Vec<&str> = m.entries.iter().map(|e| e.0.as_str()).collect();
    assert_eq!(keys, vec!["a", "b", "c"]);
    assert_eq!(m.get(&"b".to_string()), Some(&5));
    assert_eq!(m.remove(&"a".to_string()), Some(1));
    let mut s: OrderedSet<String> = OrderedSet::new();
    assert!(s.insert("x".into()) && !s.insert("x".into()));
    assert_eq!(s.len(), 1);
}

#[test]
fn a_shim_tries_the_variable_then_every_place_in_turn() {
    let places = shim_candidates(Some("/app"), "kota-bbs", Some("x86_64-apple-darwin"), "/src");
    assert_eq!(
        places,
        vec![
            "/app/kota-bbs",
            "/app/../Resources/kota-bbs",
            "/app/kota-bbs-x86_64-apple-darwin",
            "/app/../Resources/kota-bbs-x86_64-apple-darwin",
            "/src/target/debug/kota-bbs",
            "/src/target/release/kota-bbs",
        ]
    );
    let script = shim_script("kota-bbs", "KOTA_BBS_BIN", &vec!["'/a b'".into()]);
    assert_eq!(
        script,
        "#!/bin/sh\nset -eu\nif [ -n \"${KOTA_BBS_BIN:-}\" ] && [ -x \"$KOTA_BBS_BIN\" ]; then exec \"$KOTA_BBS_BIN\" \"$@\"; fi\nif [ -x '/a b' ]; then exec '/a b' \"$@\"; fi\necho 'kota-bbs binary is not installed. Build it with: cargo build --bin kota-bbs' >&2\nexit 127\n"
    );
    assert_eq!(board_target_triple("x86_64", "linux").as_deref(), Some("x86_64-unknown-linux-gnu"));
    assert_eq!(bus_target_triple("x86_64", "linux"), None);
    assert_eq!(bus_target_triple("aarch64", "macos").as_deref(), Some("aarch64-apple-darwin"));
    assert_eq!(host_triple("rustc 1\nhost: x86_64-x \n").as_deref(), Some("x86_64-x"));
}
