//! The rules of the local cache: which reads are kept, under which file
//! name, how long a kept answer stays good, and when it is written.

use crate::ids::{encoded_text, ProjectId};
use crate::text::push_str;
use vstd::prelude::*;

verus! {

/// The calls of a backend client.
#[derive(Debug, Clone)]
pub enum Operation {
    GetAccount,
    GetMyself,
    GetCustomers,
    GetProjects,
    GetServices(ProjectId),
    GetTimeEntries,
    CreateTimeEntry,
    UpdateTimeEntry,
    DeleteTimeEntry,
    GetTracker,
    CreateTracker,
    DeleteTracker,
}

/// The cache file of an operation: only account, user, customers, projects
/// and the services of a project are kept, the latter under the lossless
/// text of the project's identifier, so that no two projects share a file; time entries and the tracker
/// change too fast, and writes are never kept.
pub open spec fn cache_name_of(op: Operation) -> Option<Seq<char>> {
    match op {
        Operation::GetAccount => Some("account.json"@),
        Operation::GetMyself => Some("user.json"@),
        Operation::GetCustomers => Some("customers.json"@),
        Operation::GetProjects => Some("projects.json"@),
        Operation::GetServices(id) => Some("services-"@ + encoded_text(id@) + ".json"@),
        _ => None,
    }
}

pub fn cache_name(op: &Operation) -> (r: Option<String>)
    ensures
        match cache_name_of(*op) {
            Some(n) => r is Some && r->Some_0@ == n,
            None => r is None,
        },
{
    match op {
        Operation::GetAccount => Some(String::from_str("account.json")),
        Operation::GetMyself => Some(String::from_str("user.json")),
        Operation::GetCustomers => Some(String::from_str("customers.json")),
        Operation::GetProjects => Some(String::from_str("projects.json")),
        Operation::GetServices(id) => {
            let mut r = String::from_str("services-");
            let t = id.str_encoded();
            push_str(&mut r, t.as_str());
            push_str(&mut r, ".json");
            Some(r)
        },
        _ => None,
    }
}

/// Whether a kept answer of this age, in whole seconds, is still good: one
/// that exists and is younger than the time to live.
pub open spec fn fresh(age: Option<int>, ttl: int) -> bool {
    match age {
        Some(a) => a < ttl,
        None => false,
    }
}

/// The directory for all cached answers: `acari` in the platform's cache
/// directory, else `.acari_cache` in the home directory, else in the
/// working directory.
pub open spec fn cache_root_text(platform_cache: Option<Seq<char>>, home: Option<Seq<char>>) -> Seq<char> {
    match platform_cache {
        Some(c) => c + "/acari"@,
        None => match home {
            Some(h) => h + "/.acari_cache"@,
            None => "./.acari_cache"@,
        },
    }
}

pub fn cache_root(platform_cache: Option<&str>, home: Option<&str>) -> (r: String)
    ensures
        r@ == cache_root_text(
            match platform_cache {
                Some(c) => Some(c@),
                None => None,
            },
            match home {
                Some(h) => Some(h@),
                None => None,
            },
        ),
{
    match platform_cache {
        Some(c) => {
            let mut r = String::from_str(c);
            push_str(&mut r, "/acari");
            r
        },
        None => match home {
            Some(h) => {
                let mut r = String::from_str(h);
                push_str(&mut r, "/.acari_cache");
                r
            },
            None => String::from_str("./.acari_cache"),
        },
    }
}

/// The directory that clearing the cache removes: the whole cache root, for
/// every domain at once.
pub fn clear_cache(platform_cache: Option<&str>, home: Option<&str>) -> (r: String)
    ensures
        r@ == cache_root_text(
            match platform_cache {
                Some(c) => Some(c@),
                None => None,
            },
            match home {
                Some(h) => Some(h@),
                None => None,
            },
        ),
{
    cache_root(platform_cache, home)
}

/// A client whose slow-changing reads are kept on disk for a while.
#[derive(Debug)]
pub struct CachedClient<C> {
    client: C,
    cache_dir: String,
    cache_ttl: u64,
}

/// What a cached read does.
#[derive(Debug, Clone, Copy, PartialEq, Eq, Structural)]
pub enum CacheStep {
    /// Answer from the kept file.
    UseCached,
    /// Ask the backend.
    Fetch,
}

impl<C> CachedClient<C> {
    pub closed spec fn dir(&self) -> Seq<char> {
        self.cache_dir@
    }

    pub closed spec fn ttl(&self) -> int {
        self.cache_ttl as int
    }

    pub closed spec fn wrapped(&self) -> C {
        self.client
    }

    /// Wraps `client`; its answers are kept in the directory of `domain`
    /// under `cache_root`, for `cache_ttl` seconds.
    pub fn new(client: C, cache_root: &str, domain: &str, cache_ttl: u64) -> (r: CachedClient<C>)
        ensures
            r.wrapped() == client,
            r.dir() == cache_root@ + "/"@ + domain@,
            r.ttl() == cache_ttl,
    {
        let mut cache_dir = String::from_str(cache_root);
        push_str(&mut cache_dir, "/");
        push_str(&mut cache_dir, domain);
        CachedClient { client, cache_dir, cache_ttl }
    }

    /// The wrapped client.
    pub fn client(&self) -> (r: &C)
        ensures
            *r == self.wrapped(),
    {
        &self.client
    }

    pub fn cache_dir(&self) -> (r: &String)
        ensures
            r@ == self.dir(),
    {
        &self.cache_dir
    }

    /// Time to live of kept answers, in seconds.
    pub fn cache_ttl(&self) -> (r: u64)
        ensures
            r == self.ttl(),
    {
        self.cache_ttl
    }

    /// What a cacheable read does, given the age of its file in whole seconds
    /// (none when there is no file).
    pub fn read_step(&self, age: Option<u64>) -> (r: CacheStep)
        ensures
            r == (if fresh(
                match age {
                    Some(a) => Some(a as int),
                    None => None,
                },
                self.ttl(),
            ) {
                CacheStep::UseCached
            } else {
                CacheStep::Fetch
            }),
    {
        match age {
            Some(a) => if a < self.cache_ttl {
                CacheStep::UseCached
            } else {
                CacheStep::Fetch
            },
            None => CacheStep::Fetch,
        }
    }
}

/// The backend calls that cached reads at the given times make, starting
/// from `written_at`, the time the file was last written, if ever, when the
/// backend always answers (an answer is written to the file only when the
/// backend succeeded).
pub open spec fn backend_calls(ttl: int, written_at: Option<int>, times: Seq<int>) -> nat
    decreases times.len(),
{
    if times.len() == 0 {
        0
    } else {
        let t = times[0];
        let age = match written_at {
            Some(w) => Some(t - w),
            None => None,
        };
        if fresh(age, ttl) {
            backend_calls(ttl, written_at, times.drop_first())
        } else {
            1 + backend_calls(ttl, Some(t), times.drop_first())
        }
    }
}

/// Two reads within the time to live ask the backend once; a read after it
/// has passed asks again.
pub proof fn lemma_reads_within_ttl(ttl: int, t0: int, t1: int, t2: int)
    requires
        t0 <= t1 < t0 + ttl,
        t0 + ttl <= t2,
    ensures
        backend_calls(ttl, None, seq![t0, t1]) == 1,
        backend_calls(ttl, None, seq![t0, t2]) == 2,
        backend_calls(ttl, None, seq![t0, t1, t2]) == 2,
{
    reveal_with_fuel(backend_calls, 4);
    assert(seq![t0, t1, t2].drop_first() =~= seq![t1, t2]);
    assert(seq![t1, t2].drop_first() =~= seq![t2]);
    assert(seq![t0, t1].drop_first() =~= seq![t1]);
    assert(seq![t1].drop_first() =~= Seq::<int>::empty());
    assert(seq![t0, t2].drop_first() =~= seq![t2]);
    assert(seq![t2].drop_first() =~= Seq::<int>::empty());
}

} // verus!
