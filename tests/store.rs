use mii::analysis::Info;
use mii::db::{orphan_args, Sql};
use mii::crawl::{classify, ModuleFile};
use mii::db::{
    bins_text, compare_args, exact_matches, fuzzy_matches, has_command, like_pattern,
    select_stale, upsert_args, DbError, SqlArg, StoredRow, DB,
};

fn file(rel: &str, hash: u32) -> ModuleFile {
    let mut m = classify(&format!("/m/{}", rel), rel);
    m.hash = Some(hash);
    m
}

fn info(rel: &str, hash: u32, bins: &[&str]) -> Info {
    Info { file: file(rel, hash), bins: bins.iter().map(|b| b.to_string()).collect() }
}

fn row(code: &str, bins: &str) -> StoredRow {
    StoredRow { code: code.to_string(), bins: bins.to_string() }
}

fn pairs(r: &[mii::db::BinResult]) -> Vec<(String, String)> {
    r.iter().map(|x| (x.code.clone(), x.command.clone())).collect()
}

fn shared(name: &str) -> String {
    format!("file:{}?mode=memory&cache=shared", name)
}

fn open(name: &str) -> DB {
    let db = DB::new(&shared(name)).expect("open");
    DB::initialize(&shared(name)).expect("init");
    db
}

fn text(a: &SqlArg) -> String {
    match a {
        SqlArg::Text(t) => t.clone(),
        _ => panic!("not text"),
    }
}

#[test]
fn joined_bins() {
    assert_eq!(bins_text(&vec!["foo".to_string(), "bar".to_string(), "baz".to_string()]), "foo:bar:baz");
    assert_eq!(bins_text(&vec![]), "");
    assert_eq!(bins_text(&vec!["foo".to_string()]), "foo");
}

#[test]
fn probe_and_upsert_parameters() {
    let m = file("foo/1.0.lua", 7);
    let a = compare_args(&m, 42);
    assert_eq!(a.len(), 4);
    assert!(matches!(a[0], SqlArg::Int(42)));
    assert_eq!(text(&a[1]), "foo/1.0");
    assert_eq!(text(&a[2]), "/m/foo/1.0.lua");
    assert!(matches!(a[3], SqlArg::Int(7)));
    let mut unread = m.clone();
    unread.hash = None;
    assert!(matches!(compare_args(&unread, 1)[3], SqlArg::Null));
    let u = upsert_args(&info("foo/1.0.lua", 7, &["foo", "bar"]), 9);
    assert_eq!(text(&u[0]), "/m/foo/1.0.lua");
    assert_eq!(text(&u[1]), "foo/1.0");
    assert!(matches!(u[2], SqlArg::Int(9)));
    assert!(matches!(u[3], SqlArg::Int(7)));
    assert_eq!(text(&u[4]), "foo:bar");
}

#[test]
fn like_pattern_wraps_command() {
    assert_eq!(like_pattern("gcc"), "%gcc%");
    assert_eq!(like_pattern(""), "%%");
}

#[test]
fn stale_are_those_without_a_changed_row() {
    let fs = vec![file("a", 1), file("b", 2), file("c", 3)];
    let r = select_stale(&fs, &vec![1, 0, 0]);
    assert_eq!(r.iter().map(|m| m.code.clone()).collect::<Vec<_>>(), vec!["b", "c"]);
    assert!(select_stale(&fs, &vec![1, 1, 1]).is_empty());
}

#[test]
fn exact_command_membership() {
    assert!(has_command("gcc:g++:gfortran", "g++"));
    assert!(!has_command("gcc:g++:gfortran", "gc"));
    assert!(has_command("", ""));
    assert!(!has_command("foo", ""));
}

#[test]
fn exact_search_filters_rows() {
    let rows = vec![row("gcc/9.1", "gcc:g++"), row("foo/1.0", "foobar"), row("gcc/10", "gcc")];
    assert_eq!(
        pairs(&exact_matches(&rows, "gcc")),
        vec![("gcc/9.1".to_string(), "gcc".to_string()), ("gcc/10".to_string(), "gcc".to_string())]
    );
    assert!(exact_matches(&rows, "foo").is_empty());
}

#[test]
fn fuzzy_search_scenario() {
    let rows = vec![row("gcc/9.1", "gcc:g++:gfortran")];
    assert_eq!(
        pairs(&fuzzy_matches(&rows, "gc")),
        vec![("gcc/9.1".to_string(), "gcc".to_string())]
    );
    assert_eq!(
        pairs(&fuzzy_matches(&rows, "f")),
        vec![("gcc/9.1".to_string(), "gfortran".to_string())]
    );
    assert_eq!(pairs(&fuzzy_matches(&rows, "g")).len(), 3);
}

#[test]
fn search_finds_every_recorded_command() {
    let rows = vec![row("a/1", "x:yz"), row("b/2", "yz")];
    for (code, bin) in [("a/1", "x"), ("a/1", "yz"), ("b/2", "yz")] {
        let e = pairs(&exact_matches(&rows, bin));
        assert!(e.contains(&(code.to_string(), bin.to_string())));
        let f = pairs(&fuzzy_matches(&rows, &bin[..1]));
        assert!(f.contains(&(code.to_string(), bin.to_string())));
    }
}

#[test]
fn open_failure_is_reported() {
    assert_eq!(DB::new("/nonexistent-dir/sub/index.db").err(), Some(DbError::Open));
}

#[test]
fn fresh_build_then_exact_search() {
    let mut db = open("fresh_build");
    let f = file("foo/1.0.lua", 11);
    let stale = db.compare_modules(vec![f.clone()], 5).unwrap();
    assert_eq!(stale.len(), 1);
    db.update_modules(&vec![info("foo/1.0.lua", 11, &["foo"])], 5).unwrap();
    assert_eq!(db.flush_orphans(5).unwrap(), 0);
    let r = db.search_bin("foo".to_string()).unwrap();
    assert_eq!(pairs(&r), vec![("foo/1.0".to_string(), "foo".to_string())]);
}

#[test]
fn resync_without_change_analyses_nothing() {
    let mut db = open("resync");
    db.update_modules(&vec![info("foo/1.0.lua", 11, &["foo"])], 5).unwrap();
    let stale = db.compare_modules(vec![file("foo/1.0.lua", 11)], 6).unwrap();
    assert!(stale.is_empty());
    assert_eq!(db.flush_orphans(6).unwrap(), 0);
    assert_eq!(db.search_bin("foo".to_string()).unwrap().len(), 1);
}

#[test]
fn changed_content_is_reanalysed() {
    let mut db = open("changed");
    db.update_modules(&vec![info("foo/1.0.lua", 11, &["foo"])], 5).unwrap();
    let stale = db.compare_modules(vec![file("foo/1.0.lua", 12)], 6).unwrap();
    assert_eq!(stale.len(), 1);
    db.update_modules(&vec![info("foo/1.0.lua", 12, &["foo", "bar", "baz"])], 6).unwrap();
    assert_eq!(db.flush_orphans(6).unwrap(), 0);
    let r = db.search_bin_fuzzy("ba".to_string()).unwrap();
    assert_eq!(
        pairs(&r),
        vec![("foo/1.0".to_string(), "bar".to_string()), ("foo/1.0".to_string(), "baz".to_string())]
    );
    assert!(db.compare_modules(vec![file("foo/1.0.lua", 12)], 7).unwrap().is_empty());
}

#[test]
fn deleted_module_is_orphaned() {
    let mut db = open("deleted");
    db.update_modules(&vec![info("foo/1.0.lua", 11, &["foo"])], 5).unwrap();
    let stale = db.compare_modules(vec![], 6).unwrap();
    assert!(stale.is_empty());
    assert_eq!(db.flush_orphans(6).unwrap(), 1);
    assert!(db.search_bin("foo".to_string()).unwrap().is_empty());
}

#[test]
fn purge_empties_the_index() {
    let mut db = open("purged");
    db.update_modules(&vec![info("foo/1.0.lua", 11, &["foo"]), info("bar/2.0", 3, &[])], 5).unwrap();
    db.purge().unwrap();
    assert_eq!(db.flush_orphans(5).unwrap(), 0);
    assert_eq!(db.compare_modules(vec![file("foo/1.0.lua", 11)], 5).unwrap().len(), 1);
}

#[test]
fn unread_module_is_always_stale() {
    let mut db = open("unread");
    db.update_modules(&vec![info("foo/1.0.lua", 11, &["foo"])], 5).unwrap();
    let mut f = file("foo/1.0.lua", 11);
    f.hash = None;
    assert_eq!(db.compare_modules(vec![f], 6).unwrap().len(), 1);
}

#[test]
fn missing_table_is_a_statement_error() {
    let uri = shared("no_table");
    let mut db = DB::new(&uri).expect("open");
    assert_eq!(db.compare_modules(vec![file("foo/1.0.lua", 1)], 1).err(), Some(DbError::Statement));
    assert_eq!(db.search_bin("foo".to_string()).err(), Some(DbError::Statement));
    assert_eq!(db.search_bin_fuzzy("foo".to_string()).err(), Some(DbError::Statement));
    assert_eq!(db.flush_orphans(1).err(), Some(DbError::Statement));
    assert_eq!(db.purge().err(), Some(DbError::Statement));
    DB::initialize(&uri).expect("init");
    assert_eq!(db.compare_modules(vec![file("foo/1.0.lua", 1)], 1).unwrap().len(), 1);
}

#[test]
fn statement_texts_and_orphan_parameters() {
    assert_eq!(Sql::Probe.text(), "UPDATE modules SET nonce=?, code=? WHERE path=? AND hash=?");
    assert_eq!(Sql::DeleteUnstamped.text(), "DELETE FROM modules WHERE nonce != ?1");
    assert_eq!(Sql::Purge.text(), "DELETE FROM modules");
    assert_eq!(Sql::Wal.text(), "PRAGMA journal_mode=WAL");
    let a = orphan_args(31);
    assert_eq!(a.len(), 1);
    assert!(matches!(a[0], SqlArg::Int(31)));
}
