//! Decisions of the schedule data path: the cache, its refresh and the
//! failover across a school's KronoX URLs.
use vstd::prelude::*;

use crate::text::{join, join_str, views};

verus! {

/// Cached schedules older than this (six hours, 21,600 seconds, as instants
/// count them) are refreshed.
pub const STALE_AFTER: i128 = 43_200_000_000_000i128;

/// The keys of the schedule refreshes in progress.
#[derive(Debug)]
pub struct RefreshLocks {
    keys: Vec<String>,
}

impl View for RefreshLocks {
    type V = Set<Seq<char>>;

    closed spec fn view(&self) -> Set<Seq<char>> {
        views(self.keys@).to_set()
    }
}

impl RefreshLocks {
    /// No refresh in progress.
    pub fn new() -> (r: RefreshLocks)
        ensures
            r@ == Set::<Seq<char>>::empty(),
    {
        let r = RefreshLocks { keys: Vec::new() };
        proof {
            assert(views(r.keys@) =~= Seq::<Seq<char>>::empty());
            assert(views(r.keys@).to_set() =~= Set::<Seq<char>>::empty());
        }
        r
    }
}

proof fn lemma_to_set_push(s: Seq<Seq<char>>, x: Seq<char>)
    ensures
        s.push(x).to_set() == s.to_set().insert(x),
{
    assert forall|y: Seq<char>| s.push(x).to_set().contains(y) <==> s.to_set().insert(x).contains(y) by {
        if s.push(x).contains(y) && y != x {
            let k = choose|k: int| 0 <= k < s.push(x).len() && s.push(x)[k] == y;
            assert(s[k] == y);
        }
        if s.contains(y) {
            let k = choose|k: int| 0 <= k < s.len() && s[k] == y;
            assert(s.push(x)[k] == y);
        }
        if y == x {
            assert(s.push(x)[s.len() as int] == x);
        }
    }
    assert(s.push(x).to_set() =~= s.to_set().insert(x));
}

/// Marks `key` as being refreshed; `true` where it was free, `false` where a
/// refresh of it is already in progress.
pub fn acquire_lock(locks: &mut RefreshLocks, key: &str) -> (r: bool)
    ensures
        r == !old(locks)@.contains(key@),
        final(locks)@ == old(locks)@.insert(key@),
{
    let mut i: usize = 0;
    while i < locks.keys.len()
        invariant
            i <= locks.keys.len(),
            forall|k: int| 0 <= k < i ==> locks.keys@[k]@ != key@,
        decreases locks.keys.len() - i,
    {
        if crate::text::str_eq(locks.keys[i].as_str(), key) {
            proof {
                assert(views(locks.keys@)[i as int] == key@);
                assert(locks@.contains(key@));
                assert(locks@.insert(key@) =~= locks@);
            }
            return false;
        }
        i = i + 1;
    }
    proof {
        if views(locks.keys@).contains(key@) {
            let k = choose|k: int| 0 <= k < views(locks.keys@).len() && views(locks.keys@)[k] == key@;
            assert(locks.keys@[k]@ == key@);
        }
    }
    let ghost before = views(locks.keys@);
    locks.keys.push(key.to_owned());
    proof {
        assert(views(locks.keys@) =~= before.push(key@));
        lemma_to_set_push(before, key@);
    }
    true
}

/// Marks `key` as no longer being refreshed.
pub fn release_lock(locks: &mut RefreshLocks, key: &str)
    ensures
        final(locks)@ == old(locks)@.remove(key@),
{
    let ghost old_set = locks@;
    let mut kept: Vec<String> = Vec::new();
    let mut i: usize = 0;
    while i < locks.keys.len()
        invariant
            i <= locks.keys.len(),
            old_set == views(locks.keys@).to_set(),
            forall|y: Seq<char>| #[trigger] views(kept@).contains(y) <==> (views(locks.keys@).take(
                i as int,
            ).contains(y) && y != key@),
        decreases locks.keys.len() - i,
    {
        let ghost pre = views(locks.keys@).take(i as int);
        let ghost before = views(kept@);
        proof {
            assert(views(locks.keys@).take(i + 1) =~= pre.push(locks.keys@[i as int]@));
        }
        let keep = !crate::text::str_eq(locks.keys[i].as_str(), key);
        if keep {
            kept.push(locks.keys[i].clone());
        }
        proof {
            let x = locks.keys@[i as int]@;
            let now = views(locks.keys@).take(i + 1);
            assert(keep == (x != key@));
            if keep {
                assert(views(kept@) =~= before.push(x));
            } else {
                assert(views(kept@) =~= before);
            }
            assert forall|y: Seq<char>| #[trigger] views(kept@).contains(y) <==> (now.contains(y) && y != key@) by {
                if y == x {
                    assert(now[i as int] == y);
                    if keep {
                        assert(views(kept@)[before.len() as int] == y);
                    }
                } else {
                    if now.contains(y) {
                        let k = choose|k: int| 0 <= k < now.len() && now[k] == y;
                        assert(k != i);
                        assert(pre[k] == y);
                    }
                    if pre.contains(y) {
                        let k = choose|k: int| 0 <= k < pre.len() && pre[k] == y;
                        assert(now[k] == y);
                    }
                    if views(kept@).contains(y) {
                        let k = choose|k: int| 0 <= k < views(kept@).len() && views(kept@)[k] == y;
                        assert(k < before.len());
                        assert(before[k] == y);
                    }
                    if before.contains(y) {
                        let k = choose|k: int| 0 <= k < before.len() && before[k] == y;
                        assert(views(kept@)[k] == y);
                    }
                }
            }
        }
        i = i + 1;
    }
    proof {
        assert(views(locks.keys@).take(locks.keys.len() as int) =~= views(locks.keys@));
        assert(views(kept@).to_set() =~= old_set.remove(key@));
    }
    locks.keys = kept;
}

/// The refresh locks exclude each other: once `acquire_lock` took a key, a
/// second `acquire_lock` of it fails; after `release_lock` of a key, the next
/// `acquire_lock` of it succeeds; and taking a free key and releasing it
/// leaves the locks as they were.
pub proof fn lemma_lock_exclusion(held: Set<Seq<char>>, key: Seq<char>)
    ensures
        held.insert(key).contains(key),
        !held.remove(key).contains(key),
        !held.contains(key) ==> held.insert(key).remove(key) == held,
{
    if !held.contains(key) {
        assert(held.insert(key).remove(key) =~= held);
    }
}

/// The key under which a refresh of the given schedules is locked: the ids
/// joined by commas.
pub fn lock_key(schedule_ids: &[String]) -> (r: String)
    ensures
        r@ == join(views(schedule_ids@), seq![',']),
{
    join_str(schedule_ids, ',')
}

/// When a schedule was last refreshed, as the cache answers.
#[derive(Debug)]
pub enum LastUpdated {
    /// The cache could not be read.
    Failed,
    /// The schedule was never refreshed.
    Never,
    /// The schedule was last refreshed at this instant.
    At(i128),
}

/// The oldest refresh instant that still counts as fresh: a schedule is stale
/// only when it was last refreshed more than six hours before `now`.
pub fn stale_cutoff(now: i128) -> (r: i128)
    requires
        now >= i128::MIN + STALE_AFTER,
    ensures
        r == now - STALE_AFTER,
{
    now - STALE_AFTER
}

/// What one schedule's refresh record says of the staleness of a request:
/// `None` where the schedule is fresh (look at the next one), `Some(true)`
/// where it is stale or never refreshed, `Some(false)` where the cache could
/// not be read (then no refresh is attempted).
pub fn staleness_step(last: &LastUpdated, cutoff: i128) -> (r: Option<bool>)
    ensures
        r == match last {
            LastUpdated::At(t) if *t >= cutoff => None,
            LastUpdated::Failed => Some(false),
            _ => Some(true),
        },
{
    match last {
        LastUpdated::At(t) => if *t >= cutoff {
            None
        } else {
            Some(true)
        },
        LastUpdated::Never => Some(true),
        LastUpdated::Failed => Some(false),
    }
}

/// Whether a request for the schedules whose records are `lasts` (read in
/// order, stopping at the first record that decides) is stale.
pub open spec fn stale(lasts: Seq<LastUpdated>, cutoff: i128) -> bool
    decreases lasts.len(),
{
    if lasts.len() == 0 {
        false
    } else {
        match lasts[0] {
            LastUpdated::At(t) if t >= cutoff => stale(lasts.drop_first(), cutoff),
            LastUpdated::Failed => false,
            _ => true,
        }
    }
}

/// Whether the schedules are stale: the first schedule that is not fresh
/// decides (stale if old or never refreshed, not stale if the cache could not
/// be read); all fresh is not stale.
pub fn is_stale(lasts: &[LastUpdated], cutoff: i128) -> (r: bool)
    ensures
        r == stale(lasts@, cutoff),
{
    let mut i: usize = 0;
    proof {
        assert(lasts@.skip(0) =~= lasts@);
    }
    while i < lasts.len()
        invariant
            i <= lasts.len(),
            stale(lasts@, cutoff) == stale(lasts@.skip(i as int), cutoff),
        decreases lasts.len() - i,
    {
        proof {
            assert(lasts@.skip(i as int)[0] == lasts@[i as int]);
            assert(lasts@.skip(i as int).drop_first() =~= lasts@.skip(i + 1));
        }
        match staleness_step(&lasts[i], cutoff) {
            Some(b) => return b,
            None => {},
        }
        i = i + 1;
    }
    false
}

/// What the data path does once the cache has answered.
#[derive(Debug)]
pub enum CacheDecision {
    /// Nothing is cached: scrape KronoX, store the events and serve them.
    FetchAndStore,
    /// Serve the cached events, and refresh them in the background if stale.
    ServeCached,
}

/// Serve from the cache where it holds events for the request, else scrape.
pub fn cache_decision(cached_count: usize) -> (r: CacheDecision)
    ensures
        r == if cached_count == 0 {
            CacheDecision::FetchAndStore
        } else {
            CacheDecision::ServeCached
        },
{
    if cached_count == 0 {
        CacheDecision::FetchAndStore
    } else {
        CacheDecision::ServeCached
    }
}

/// The next step of a failover across a school's base URLs.
#[derive(Debug)]
pub enum Attempt {
    /// Try the base URL at this index.
    Try(usize),
    /// Every URL failed (or there is none): KronoX is unavailable.
    GiveUp,
}

/// The first attempt: the first URL, if there is one.
pub fn first_attempt(url_count: usize) -> (r: Attempt)
    ensures
        r == if url_count > 0 {
            Attempt::Try(0)
        } else {
            Attempt::GiveUp
        },
{
    if url_count > 0 {
        Attempt::Try(0)
    } else {
        Attempt::GiveUp
    }
}

/// The attempt after the URL at `failed` failed: the next URL, if any.
pub fn after_failure(failed: usize, url_count: usize) -> (r: Attempt)
    requires
        failed < url_count,
    ensures
        r == if failed + 1 < url_count {
            Attempt::Try((failed + 1) as usize)
        } else {
            Attempt::GiveUp
        },
{
    if failed + 1 < url_count {
        Attempt::Try(failed + 1)
    } else {
        Attempt::GiveUp
    }
}

/// The URL indices a failover tries before giving up, when every attempt
/// fails.
pub open spec fn attempts_when_failing(url_count: nat, from: nat) -> Seq<nat>
    decreases url_count - from,
{
    if from >= url_count {
        Seq::empty()
    } else {
        seq![from] + attempts_when_failing(url_count, from + 1)
    }
}

/// When every URL fails, the failover tries each URL exactly once, in order,
/// and then gives up.
pub proof fn lemma_failover_tries_each_url_once(url_count: nat, from: nat)
    requires
        from <= url_count,
    ensures
        attempts_when_failing(url_count, from).len() == url_count - from,
        forall|k: int| 0 <= k < url_count - from ==> #[trigger] attempts_when_failing(
            url_count,
            from,
        )[k] == from + k,
    decreases url_count - from,
{
    if from < url_count {
        lemma_failover_tries_each_url_once(url_count, from + 1);
        assert forall|k: int| 0 <= k < url_count - from implies #[trigger] attempts_when_failing(
            url_count,
            from,
        )[k] == from + k by {
            if k > 0 {
                assert(attempts_when_failing(url_count, from)[k] == attempts_when_failing(
                    url_count,
                    from + 1,
                )[k - 1]);
            }
        }
    }
}

} // verus!
