use mii::crawl::{classify, ModuleFile};
use mii::db::DB;
use mii::engine::{gather, partition, shard_size, worker_count, Engine, MAX_THREADS};

fn files(n: usize) -> Vec<ModuleFile> {
    (0..n).map(|i| classify(&format!("/m/{}", i), &i.to_string())).collect()
}

fn codes(v: &[ModuleFile]) -> Vec<String> {
    v.iter().map(|m| m.code.clone()).collect()
}

#[test]
fn workers_are_capped() {
    assert_eq!(worker_count(0), 1);
    assert_eq!(worker_count(1), 1);
    assert_eq!(worker_count(3), 3);
    assert_eq!(worker_count(4), 4);
    assert_eq!(worker_count(64), MAX_THREADS);
}

#[test]
fn shard_size_rounds_up() {
    assert_eq!(shard_size(0, 4), 0);
    assert_eq!(shard_size(5, 4), 2);
    assert_eq!(shard_size(8, 4), 2);
    assert_eq!(shard_size(9, 4), 3);
    assert_eq!(shard_size(3, 1), 3);
}

#[test]
fn partition_is_contiguous_and_complete() {
    let fs = files(5);
    let shards = partition(&fs, 4);
    assert_eq!(shards.iter().map(|s| s.len()).collect::<Vec<_>>(), vec![2, 2, 1]);
    assert_eq!(codes(&gather(shards)), codes(&fs));
    assert!(partition(&files(0), 4).is_empty());
    let one = partition(&fs, 1);
    assert_eq!(one.len(), 1);
    assert_eq!(codes(&one[0]), codes(&fs));
}

#[test]
fn engine_searches_forward_to_the_store() {
    let uri = "file:engine_fwd?mode=memory&cache=shared";
    let mut keep = DB::new(uri).unwrap();
    let engine = Engine::new("/m".to_string(), uri.to_string()).unwrap();
    assert!(engine.num_threads() >= 1 && engine.num_threads() <= MAX_THREADS);
    assert_eq!(engine.modulepath(), "/m");
    assert_eq!(engine.db_path(), uri);
    let mut f = classify("/m/gcc/9.1.lua", "gcc/9.1.lua");
    f.hash = Some(1);
    let info = mii::analysis::Info {
        file: f,
        bins: vec!["gcc".to_string(), "g++".to_string(), "gfortran".to_string()],
    };
    keep.update_modules(&vec![info], 3).unwrap();
    let exact = engine.search_bin_exact("g++".to_string()).unwrap();
    assert_eq!(exact.len(), 1);
    assert_eq!(exact[0].code, "gcc/9.1");
    let fuzzy = engine.search_bin_fuzzy("gc".to_string()).unwrap();
    assert_eq!(
        fuzzy.iter().map(|r| r.command.clone()).collect::<Vec<_>>(),
        vec!["gcc".to_string()]
    );
    engine.destroy_db().unwrap();
    assert!(engine.search_bin_exact("gcc".to_string()).unwrap().is_empty());
}

#[test]
fn engine_sync_phases_by_shard() {
    let uri = "file:engine_sync?mode=memory&cache=shared";
    let _keep = DB::new(uri).unwrap();
    let mut engine = Engine::new("/m".to_string(), uri.to_string()).unwrap();
    let fs: Vec<ModuleFile> = files(6)
        .into_iter()
        .map(|mut m| {
            m.hash = Some(1);
            m
        })
        .collect();
    let nonce = engine.new_nonce().expect("random source");
    let mut stale = Vec::new();
    for shard in engine.shards(&fs) {
        let mut db = DB::new(engine.db_path()).unwrap();
        stale.push(db.compare_modules(shard, nonce).unwrap());
    }
    let stale = gather(stale);
    assert_eq!(codes(&stale), codes(&fs));
    for shard in engine.shards(&stale) {
        let mut db = DB::new(engine.db_path()).unwrap();
        let infos: Vec<_> = shard
            .into_iter()
            .map(|m| mii::analysis::analyze(m, &vec![vec!["x".to_string()]]))
            .collect();
        db.update_modules(&infos, nonce).unwrap();
    }
    assert_eq!(engine.flush_orphans(nonce).unwrap(), 0);
    assert_eq!(engine.search_bin_exact("x".to_string()).unwrap().len(), 6);
    let second = engine.new_nonce().expect("random source");
    let n2 = if second == nonce { nonce.wrapping_add(1) } else { second };
    let mut db = DB::new(engine.db_path()).unwrap();
    assert!(db.compare_modules(fs.clone(), n2).unwrap().is_empty());
    assert_eq!(engine.flush_orphans(n2).unwrap(), 0);
    assert!(db.compare_modules(vec![], nonce).unwrap().is_empty());
    assert_eq!(engine.flush_orphans(nonce).unwrap(), 6);
}

fn sync_with_shards(uri: &str, fs: &[ModuleFile], workers: usize, nonce: u32) -> Vec<(String, String)> {
    let mut stale = Vec::new();
    for shard in partition(&fs.to_vec(), workers) {
        let mut db = DB::new(uri).unwrap();
        stale.push(db.compare_modules(shard, nonce).unwrap());
    }
    let stale = gather(stale);
    for shard in partition(&stale, workers).into_iter().rev() {
        let mut db = DB::new(uri).unwrap();
        let infos: Vec<_> = shard
            .into_iter()
            .map(|m| {
                let bins = vec![vec![format!("bin{}", m.code)]];
                mii::analysis::analyze(m, &bins)
            })
            .collect();
        db.update_modules(&infos, nonce).unwrap();
    }
    let mut db = DB::new(uri).unwrap();
    db.flush_orphans(nonce).unwrap();
    let mut r: Vec<(String, String)> = db
        .search_bin_fuzzy("bin".to_string())
        .unwrap()
        .into_iter()
        .map(|b| (b.code, b.command))
        .collect();
    r.sort();
    r
}

#[test]
fn one_worker_and_four_agree() {
    let fs: Vec<ModuleFile> = files(7)
        .into_iter()
        .map(|mut m| {
            m.hash = Some(9);
            m
        })
        .collect();
    let a = "file:one_worker?mode=memory&cache=shared";
    let b = "file:four_workers?mode=memory&cache=shared";
    let _ka = DB::new(a).unwrap();
    let _kb = DB::new(b).unwrap();
    DB::initialize(a).unwrap();
    DB::initialize(b).unwrap();
    let one = sync_with_shards(a, &fs, 1, 77);
    let four = sync_with_shards(b, &fs, 4, 77);
    assert_eq!(one.len(), 7);
    assert_eq!(one, four);
}
