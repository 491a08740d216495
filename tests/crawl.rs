use mii::crawl::{classify, crawl_gen, is_hidden, is_lmod, module_roots, with_hash, ModuleType};

#[test]
fn lmod_file_drops_lua_suffix() {
    let m = classify("/m/apps/gcc/9.1.lua", "apps/gcc/9.1.lua");
    assert_eq!(m.path, "/m/apps/gcc/9.1.lua");
    assert_eq!(m.code, "apps/gcc/9.1");
    assert_eq!(m.modtype, ModuleType::LMOD);
    assert_eq!(m.hash, None);
}

#[test]
fn tcl_file_keeps_relative_path() {
    let m = classify("/m/bar/2.0", "bar/2.0");
    assert_eq!(m.code, "bar/2.0");
    assert_eq!(m.modtype, ModuleType::TCL);
}

#[test]
fn lua_extension_must_be_exact() {
    assert!(is_lmod("foo/1.0.lua"));
    assert!(is_lmod("x.lua"));
    assert!(!is_lmod("foo/1.0.luac"));
    assert!(!is_lmod("foo/lua"));
    assert!(!is_lmod("foo/.lua"));
    assert!(!is_lmod(".lua"));
    assert!(!is_lmod(""));
    let m = classify("/m/a.tar.lua", "a.tar.lua");
    assert_eq!(m.code, "a.tar");
    assert_eq!(m.modtype, ModuleType::LMOD);
}

#[test]
fn hidden_names_start_with_a_dot() {
    assert!(is_hidden(".git"));
    assert!(is_hidden("."));
    assert!(!is_hidden("gcc"));
    assert!(!is_hidden(""));
}

#[test]
fn module_path_splits_on_colons() {
    assert_eq!(module_roots("/a:/b/c"), vec!["/a".to_string(), "/b/c".to_string()]);
    assert_eq!(module_roots(""), vec!["".to_string()]);
    assert_eq!(module_roots("/a:"), vec!["/a".to_string(), "".to_string()]);
}

#[test]
fn crawl_gen_classifies_in_order() {
    let found = vec![
        ("/m/foo/1.0.lua".to_string(), "foo/1.0.lua".to_string()),
        ("/m/bar/2.0".to_string(), "bar/2.0".to_string()),
    ];
    let r = crawl_gen(&found);
    assert_eq!(r.len(), 2);
    assert_eq!(r[0].code, "foo/1.0");
    assert_eq!(r[0].modtype, ModuleType::LMOD);
    assert_eq!(r[1].code, "bar/2.0");
    assert_eq!(r[1].modtype, ModuleType::TCL);
}

#[test]
fn hash_is_xxhash32_of_the_bytes() {
    let m = classify("/m/foo/1.0.lua", "foo/1.0.lua");
    let empty = with_hash(m.clone(), b"");
    assert_eq!(empty.hash, Some(0x02CC5D05));
    let abc = with_hash(m.clone(), b"abc");
    assert_eq!(abc.hash, Some(0x32D153FF));
    let again = with_hash(m, b"abc");
    assert_eq!(abc.hash, again.hash);
    assert_eq!(again.code, "foo/1.0");
}
