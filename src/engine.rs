//! The sync engine: worker sizing, sharding, nonces, and the searches.

use vstd::prelude::*;
use crate::crawl::ModuleFile;
use crate::db::{file_views, BinResult, DbError, DB, exact_results, fuzzy_results, result_views};
use crate::text::concat_all;

verus! {

/// The most workers that a parallel phase uses.
pub const MAX_THREADS: usize = 4;

/// Relies on rand::rngs::OsRng (rand_core's `try_fill_bytes`): four bytes
/// from the operating system's generator, or `None` where it fails; it does
/// not panic, and nothing is promised of the value.
#[verifier::external_body]
fn os_random_u32() -> (r: Option<u32>) {
    let mut b = [0u8; 4];
    match rand::RngCore::try_fill_bytes(&mut rand::rngs::OsRng, &mut b) {
        Ok(()) => Some(u32::from_le_bytes(b)),
        Err(_) => None,
    }
}

/// Relies on num_cpus::get: the number of CPUs usable by this process.
#[verifier::external_body]
fn cpu_count() -> (r: usize) {
    num_cpus::get()
}

/// The number of workers for a machine with `cpus` CPUs: at most
/// `MAX_THREADS`, and at least one.
pub open spec fn worker_count_of(cpus: usize) -> usize {
    if cpus < 1 {
        1
    } else if cpus > MAX_THREADS {
        MAX_THREADS
    } else {
        cpus
    }
}

pub fn worker_count(cpus: usize) -> (r: usize)
    ensures
        r == worker_count_of(cpus),
{
    if cpus < 1 {
        1
    } else if cpus > MAX_THREADS {
        MAX_THREADS
    } else {
        cpus
    }
}

/// The size of each shard when `n` items go to `w` workers: n / w rounded up.
pub open spec fn shard_size_of(n: int, w: int) -> int {
    if n % w == 0 {
        n / w
    } else {
        n / w + 1
    }
}

pub fn shard_size(n: usize, w: usize) -> (r: usize)
    requires
        w >= 1,
    ensures
        r == shard_size_of(n as int, w as int),
        n > 0 ==> r >= 1,
        r as int * w as int >= n,
        r <= n,
{
    let q = n / w;
    proof {
        assert(q * w + n % w == n) by (nonlinear_arith)
            requires
                q == n / w,
                w >= 1,
        ;
        assert(q * w <= n);
        assert(q <= n) by (nonlinear_arith)
            requires
                q * w <= n,
                w >= 1,
                q >= 0,
        ;
    }
    if n % w == 0 {
        proof {
            if n > 0 {
                assert(q >= 1) by (nonlinear_arith)
                    requires
                        q * w + n % w == n,
                        n % w == 0,
                        n > 0,
                        q >= 0,
                ;
            }
        }
        q
    } else {
        proof {
            assert((q + 1) * w == q * w + w) by (nonlinear_arith);
            assert(q < n) by (nonlinear_arith)
                requires
                    q * w + n % w == n,
                    n % w > 0,
                    w >= 1,
                    q >= 0,
            ;
        }
        q + 1
    }
}

pub open spec fn shard_views(shards: Seq<Vec<ModuleFile>>) -> Seq<Seq<crate::crawl::FileModel>> {
    shards.map_values(|s: Vec<ModuleFile>| file_views(s@))
}

/// Cuts `files` into contiguous shards of `shard_size(len, workers)` items
/// each, the last possibly shorter: at most `workers` shards, none empty,
/// which written one after another give `files` back.
pub fn partition(files: &Vec<ModuleFile>, workers: usize) -> (r: Vec<Vec<ModuleFile>>)
    requires
        workers >= 1,
    ensures
        concat_all(shard_views(r@)) == file_views(files@),
        r.len() <= workers,
        forall|k: int| 0 <= k < r.len() ==> (#[trigger] r[k]).len() >= 1 && r[k].len()
            <= shard_size_of(files.len() as int, workers as int),
        forall|k: int| 0 <= k < r.len() - 1 ==> (#[trigger] r[k]).len() == shard_size_of(
            files.len() as int,
            workers as int,
        ),
{
    let size = shard_size(files.len(), workers);
    let mut r: Vec<Vec<ModuleFile>> = Vec::new();
    let mut i: usize = 0;
    while i < files.len()
        invariant
            size == shard_size_of(files.len() as int, workers as int),
            files.len() > 0 ==> size >= 1,
            size as int * workers as int >= files.len(),
            i <= files.len(),
            r.len() <= workers,
            i < files.len() ==> i == r.len() * size,
            concat_all(shard_views(r@)) == file_views(files@).take(i as int),
            forall|k: int| 0 <= k < r.len() ==> (#[trigger] r[k]).len() >= 1 && r[k].len() <= size,
            forall|k: int| 0 <= k < r.len() - 1 ==> (#[trigger] r[k]).len() == size,
            r.len() > 0 && i < files.len() ==> r[r.len() - 1].len() == size,
        decreases files.len() - i,
    {
        proof {
            assert(r.len() < workers) by (nonlinear_arith)
                requires
                    r.len() * size == i,
                    i < files.len(),
                    size * workers >= files.len(),
                    size >= 1,
            ;
        }
        let end: usize = if files.len() - i < size { files.len() } else { i + size };
        let mut shard: Vec<ModuleFile> = Vec::new();
        let mut j: usize = i;
        while j < end
            invariant
                i <= j <= end <= files.len(),
                file_views(shard@) == file_views(files@).subrange(i as int, j as int),
                shard.len() == j - i,
            decreases end - j,
        {
            let ghost old_s = shard@;
            shard.push(files[j].duplicate());
            assert(file_views(shard@) =~= file_views(old_s).push(files[j as int]@));
            assert(file_views(shard@) =~= file_views(files@).subrange(i as int, j + 1));
            j = j + 1;
        }
        let ghost old_r = r@;
        r.push(shard);
        assert(shard_views(r@).drop_last() =~= shard_views(old_r));
        assert(file_views(files@).take(end as int) =~= file_views(files@).take(i as int)
            + file_views(files@).subrange(i as int, end as int));
        proof {
            if end < files.len() {
                assert(end == r.len() * size) by (nonlinear_arith)
                    requires
                        end == i + size,
                        i == (r.len() - 1) * size,
                ;
            }
        }
        i = end;
    }
    assert(file_views(files@).take(i as int) =~= file_views(files@));
    r
}

/// The lists handed back by the workers, written one after another.
pub fn gather(results: Vec<Vec<ModuleFile>>) -> (r: Vec<ModuleFile>)
    ensures
        file_views(r@) == concat_all(shard_views(results@)),
{
    let mut r: Vec<ModuleFile> = Vec::new();
    let mut k: usize = 0;
    while k < results.len()
        invariant
            k <= results.len(),
            file_views(r@) == concat_all(shard_views(results@).take(k as int)),
        decreases results.len() - k,
    {
        let ghost before = file_views(r@);
        let l = &results[k];
        let mut m: usize = 0;
        while m < l.len()
            invariant
                k < results.len(),
                l == results[k as int],
                m <= l.len(),
                file_views(r@) == before + file_views(l@).take(m as int),
            decreases l.len() - m,
        {
            let ghost old_r = r@;
            r.push(l[m].duplicate());
            assert(file_views(r@) =~= file_views(old_r).push(l[m as int]@));
            assert(file_views(r@) =~= before + file_views(l@).take(m as int + 1));
            m = m + 1;
        }
        assert(shard_views(results@).take(k as int + 1).drop_last() =~= shard_views(results@).take(k as int));
        assert(file_views(l@).take(l.len() as int) =~= file_views(l@));
        k = k + 1;
    }
    assert(shard_views(results@).take(results.len() as int) =~= shard_views(results@));
    r
}

/// The engine: where the index lives, which roots it covers, and how many
/// workers a parallel phase uses.
pub struct Engine {
    db_path: String,
    db_conn: DB,
    modulepath: String,
    num_threads: usize,
}

impl Engine {
    #[verifier::type_invariant]
    closed spec fn inv(&self) -> bool {
        1 <= self.num_threads <= MAX_THREADS
    }

    /// The number of workers of a parallel phase.
    pub closed spec fn workers(&self) -> usize {
        self.num_threads
    }

    pub closed spec fn roots_spec(&self) -> Seq<char> {
        self.modulepath@
    }

    pub closed spec fn db_path_spec(&self) -> Seq<char> {
        self.db_path@
    }

    /// Creates the table if needed and opens the index at `db_path`.
    pub fn new(modulepath: String, db_path: String) -> (r: Result<Engine, DbError>)
        ensures
            r matches Ok(e) ==> {
                &&& 1 <= e.workers() <= MAX_THREADS
                &&& e.roots_spec() == modulepath@
                &&& e.db_path_spec() == db_path@
            },
    {
        if let Err(e) = DB::initialize(db_path.as_str()) {
            return Err(e);
        }
        let db_conn = match DB::new(db_path.as_str()) {
            Ok(c) => c,
            Err(e) => return Err(e),
        };
        let num_threads = worker_count(cpu_count());
        Ok(Engine { db_path, db_conn, modulepath, num_threads })
    }

    /// The colon-separated module roots.
    pub fn modulepath(&self) -> (r: &str)
        ensures
            r@ == self.roots_spec(),
    {
        self.modulepath.as_str()
    }

    /// The index file, which each worker opens on its own.
    pub fn db_path(&self) -> (r: &str)
        ensures
            r@ == self.db_path_spec(),
    {
        self.db_path.as_str()
    }

    pub fn num_threads(&self) -> (r: usize)
        ensures
            r == self.workers(),
            1 <= r <= MAX_THREADS,
    {
        proof {
            use_type_invariant(self);
        }
        self.num_threads
    }

    /// A fresh nonce for one sync, drawn at random from the operating
    /// system's generator; `None` where that generator fails.
    pub fn new_nonce(&self) -> (r: Option<u32>) {
        os_random_u32()
    }

    /// The shards of a parallel phase over `files`.
    pub fn shards(&self, files: &Vec<ModuleFile>) -> (r: Vec<Vec<ModuleFile>>)
        ensures
            concat_all(shard_views(r@)) == file_views(files@),
            r.len() <= self.workers(),
            forall|k: int| 0 <= k < r.len() ==> (#[trigger] r[k]).len() >= 1 && r[k].len()
                <= shard_size_of(files.len() as int, self.workers() as int),
            forall|k: int| 0 <= k < r.len() - 1 ==> (#[trigger] r[k]).len() == shard_size_of(
                files.len() as int,
                self.workers() as int,
            ),
    {
        proof {
            use_type_invariant(self);
        }
        partition(files, self.num_threads)
    }

    /// The orphan phase: deletes every row that this sync did not stamp.
    pub fn flush_orphans(&self, nonce: u32) -> (r: Result<usize, DbError>)
        ensures
            r matches Err(e) ==> e == DbError::Statement,
    {
        self.db_conn.delete_unstamped(nonce)
    }

    /// Deletes every row of the index.
    pub fn destroy_db(&self) -> (r: Result<(), DbError>)
        ensures
            r matches Err(e) ==> e == DbError::Statement,
    {
        self.db_conn.purge()
    }

    /// The modules that provide exactly `cmd`.
    pub fn search_bin_exact(&self, cmd: String) -> (r: Result<Vec<BinResult>, DbError>)
        ensures
            r matches Ok(res) ==> exists|rows: Seq<(Seq<char>, Seq<char>)>|
                result_views(res@) == exact_results(rows, cmd@),
            r matches Err(e) ==> e == DbError::Statement,
    {
        self.db_conn.search_bin(cmd)
    }

    /// The commands that hold `cmd` as a substring, with their modules.
    pub fn search_bin_fuzzy(&self, cmd: String) -> (r: Result<Vec<BinResult>, DbError>)
        ensures
            r matches Ok(res) ==> exists|rows: Seq<(Seq<char>, Seq<char>)>|
                result_views(res@) == fuzzy_results(rows, cmd@),
            r matches Err(e) ==> e == DbError::Statement,
    {
        self.db_conn.search_bin_fuzzy(cmd)
    }
}

} // verus!
