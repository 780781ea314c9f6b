//! The tracker: for each account, which prompts are cached, and until when.
use crate::assoc::{
    lemma_as_map_len, lemma_lookup_at, lemma_position, lemma_same_keys, lemma_update_at,
};
use crate::blocks::request_blocks;
use crate::profile::{
    breakpoints_view, build_profile, larger, profile_of, request_sums_fit, Breakpoint,
    CacheBreakpoint, CacheProfile,
};
use crate::table::Table;
use crate::tokens::{counts_by, is_counter, TokenModel};
use crate::ttl::{least_cacheable, min_cacheable_tokens};
use crate::types::MessagesRequest;
use crate::usage::{long_part, no_usage, smaller, split_cache_creation_tokens, CacheUsage};
use vstd::prelude::*;

verus! {

/// The most entries that an account keeps.
pub const MAX_ENTRIES_PER_ACCOUNT: usize = 200;

/// The least time between two searches for dead entries, in nanoseconds.
pub const PRUNE_INTERVAL: u128 = 60_000_000_000;

/// The nanoseconds of a second.
pub const NANOS_PER_SECOND: u128 = 1_000_000_000;

/// The largest part of a prompt that counts as cached, in percent.
pub const MAX_CACHE_PERCENT: i64 = 85;

/// A moment, as the time that has passed since the tracker was made.
#[derive(Debug, Clone, Copy, PartialEq, Eq)]
pub struct Moment {
    pub seconds: u64,
    pub nanos: u32,
}

impl Moment {
    /// The moment in nanoseconds.
    pub open spec fn time(self) -> int {
        self.seconds * NANOS_PER_SECOND + self.nanos
    }

    /// The moment in nanoseconds.
    pub fn as_nanos(self) -> (nanos: u128)
        ensures
            nanos == self.time(),
    {
        self.seconds as u128 * NANOS_PER_SECOND + self.nanos as u128
    }
}

/// A cached prompt: when it dies, and how long it lives from its last use.
#[derive(Debug, Clone, Copy, PartialEq, Eq)]
pub struct CacheEntry {
    /// In nanoseconds since the tracker was made.
    pub expires_at: u128,
    /// In seconds.
    pub ttl: u64,
}

/// The entries of an account, by fingerprint.
pub type Entries = Map<Seq<char>, CacheEntry>;

/// What a tracker stands for.
pub struct TrackerState {
    pub accounts: Map<Seq<char>, Entries>,
    pub last_prune: int,
}

/// The entries that are still alive.
pub open spec fn live(entries: Entries, now: int) -> Entries {
    Map::new(
        |k: Seq<char>| entries.contains_key(k) && entries[k].expires_at >= now,
        |k: Seq<char>| entries[k],
    )
}

/// The accounts with entries that are still alive, and those entries.
pub open spec fn live_accounts(accounts: Map<Seq<char>, Entries>, now: int) -> Map<
    Seq<char>,
    Entries,
> {
    Map::new(
        |a: Seq<char>|
            accounts.contains_key(a) && exists|k: Seq<char>|
                accounts[a].contains_key(k) && (#[trigger] accounts[a][k]).expires_at >= now,
        |a: Seq<char>| live(accounts[a], now),
    )
}

/// The state once dead entries are gone, if it is time to look for them.
pub open spec fn after_prune(state: TrackerState, now: int) -> TrackerState {
    if now - state.last_prune < PRUNE_INTERVAL {
        state
    } else {
        TrackerState { accounts: live_accounts(state.accounts, now), last_prune: now }
    }
}

/// The entry of a prompt that is written or used now.
pub open spec fn fresh(now: int, ttl: int) -> CacheEntry {
    CacheEntry { expires_at: (now + ttl * NANOS_PER_SECOND) as u128, ttl: ttl as u64 }
}

/// The prompt up to `breakpoint` is large enough, cached, and still alive.
pub open spec fn is_hit(breakpoint: Breakpoint, entries: Entries, least: int, now: int) -> bool {
    &&& breakpoint.cumulative_tokens >= least
    &&& entries.contains_key(breakpoint.fingerprint)
    &&& entries[breakpoint.fingerprint].expires_at >= now
}

/// The last breakpoint that is a hit, or -1.
pub open spec fn last_hit(
    breakpoints: Seq<Breakpoint>,
    entries: Entries,
    least: int,
    now: int,
) -> int
    decreases breakpoints.len(),
{
    if breakpoints.len() == 0 {
        -1
    } else if is_hit(breakpoints.last(), entries, least, now) {
        breakpoints.len() - 1
    } else {
        last_hit(breakpoints.drop_last(), entries, least, now)
    }
}

/// How much of the prompt counts as cacheable: up to the last breakpoint, within the request, and
/// at most 85 percent of it.
pub open spec fn cacheable_tokens(profile: CacheProfile) -> int {
    let last = profile.breakpoints@[profile.breakpoints@.len() - 1].cumulative_tokens;
    smaller(
        smaller(last as int, profile.total_input_tokens as int),
        profile.total_input_tokens * MAX_CACHE_PERCENT / 100,
    )
}

/// How much of the prompt is read from the cache.
pub open spec fn read_tokens(
    profile: CacheProfile,
    entries: Entries,
    least: int,
    now: int,
) -> int {
    let i = last_hit(breakpoints_view(profile.breakpoints@), entries, least, now);
    if i < 0 {
        0
    } else {
        smaller(
            smaller(
                profile.breakpoints@[i].cumulative_tokens as int,
                profile.total_input_tokens as int,
            ),
            cacheable_tokens(profile),
        )
    }
}

/// The report of `creation` tokens written behind `read` tokens.
pub open spec fn reports(
    usage: CacheUsage,
    profile: CacheProfile,
    read: int,
    creation: int,
) -> bool {
    &&& usage.cache_read_input_tokens == read
    &&& usage.cache_creation_input_tokens == creation
    &&& usage.cache_creation_1h_input_tokens == long_part(
        breakpoints_view(profile.breakpoints@),
        profile.total_input_tokens as int,
        read,
        creation,
    )
    &&& usage.cache_creation_5m_input_tokens == creation - usage.cache_creation_1h_input_tokens
}

/// What is reported for a request of `account`, and what becomes of the tracker.
pub open spec fn computed(
    before: TrackerState,
    after: TrackerState,
    usage: CacheUsage,
    account: Seq<char>,
    profile: CacheProfile,
    least: int,
    now: int,
) -> bool {
    let state = after_prune(before, now);
    let cacheable = cacheable_tokens(profile);
    if state.accounts.contains_key(account) {
        let entries = state.accounts[account];
        let breakpoints = breakpoints_view(profile.breakpoints@);
        let i = last_hit(breakpoints, entries, least, now);
        let read = read_tokens(profile, entries, least, now);
        &&& reports(usage, profile, read, larger(cacheable - read, 0))
        &&& after.last_prune == state.last_prune
        &&& after.accounts == if i < 0 {
            state.accounts
        } else {
            let key = breakpoints[i].fingerprint;
            state.accounts.insert(
                account,
                entries.insert(key, fresh(now, entries[key].ttl as int)),
            )
        }
    } else {
        &&& reports(
            usage,
            profile,
            0,
            if cacheable >= least {
                cacheable
            } else {
                0
            },
        )
        &&& after == state
    }
}

/// The entries once the breakpoints that are large enough are written.
pub open spec fn written(
    entries: Entries,
    breakpoints: Seq<Breakpoint>,
    least: int,
    now: int,
) -> Entries
    decreases breakpoints.len(),
{
    if breakpoints.len() == 0 {
        entries
    } else {
        let before = written(entries, breakpoints.drop_last(), least, now);
        let last = breakpoints.last();
        if last.cumulative_tokens >= least {
            before.insert(last.fingerprint, fresh(now, last.ttl))
        } else {
            before
        }
    }
}

/// `kept` is what is left of `entries` once the ones that die first are dropped, so that no more
/// than the limit stay. Which of two that die at the same time stays is left open.
pub open spec fn trimmed(entries: Entries, kept: Entries) -> bool {
    &&& kept.submap_of(entries)
    &&& kept.dom().finite()
    &&& kept.len() == smaller(entries.len() as int, MAX_ENTRIES_PER_ACCOUNT as int)
    &&& forall|gone: Seq<char>, stays: Seq<char>|
        entries.contains_key(gone) && !kept.contains_key(gone) && kept.contains_key(stays)
            ==> (#[trigger] entries[gone]).expires_at <= (#[trigger] entries[stays]).expires_at
}

/// The entries of `account`, none if it is unknown.
pub open spec fn entries_of(state: TrackerState, account: Seq<char>) -> Entries {
    if state.accounts.contains_key(account) {
        state.accounts[account]
    } else {
        Map::empty()
    }
}

/// What becomes of the tracker when the prompt of `account` is cached.
pub open spec fn updated(
    before: TrackerState,
    after: TrackerState,
    account: Seq<char>,
    profile: CacheProfile,
    least: int,
    now: int,
) -> bool {
    &&& after.last_prune == before.last_prune
    &&& after.accounts.contains_key(account)
    &&& after.accounts == before.accounts.insert(account, after.accounts[account])
    &&& trimmed(
        written(
            entries_of(before, account),
            breakpoints_view(profile.breakpoints@),
            least,
            now,
        ),
        after.accounts[account],
    )
}

/// What is reported, and what becomes of the tracker: nothing without a breakpoint or an account.
pub open spec fn computes(
    before: TrackerState,
    after: TrackerState,
    usage: CacheUsage,
    account: Seq<char>,
    profile: Option<&CacheProfile>,
    now: int,
) -> bool {
    match profile {
        Some(p) => if p.breakpoints@.len() == 0 || account.len() == 0 {
            usage == no_usage() && after == before
        } else {
            computed(before, after, usage, account, *p, least_cacheable(p.model@) as int, now)
        },
        None => usage == no_usage() && after == before,
    }
}

/// What becomes of the tracker: nothing without a breakpoint or an account.
pub open spec fn updates(
    before: TrackerState,
    after: TrackerState,
    account: Seq<char>,
    profile: Option<&CacheProfile>,
    now: int,
) -> bool {
    match profile {
        Some(p) => if p.breakpoints@.len() == 0 || account.len() == 0 {
            after == before
        } else {
            updated(before, after, account, *p, least_cacheable(p.model@) as int, now)
        },
        None => after == before,
    }
}

/// `std::time::Instant`, an opaque measurement of the clock.
#[verifier::external_type_specification]
#[verifier::external_body]
pub struct ExInstant(std::time::Instant);

/// `std::time::Instant::now`: the clock at the moment of the call. Nothing is known of it.
pub assume_specification[ std::time::Instant::now ]() -> (now: std::time::Instant);

/// `std::time::Instant::elapsed`: the time since the instant, in whole seconds and the nanoseconds
/// beyond them. How much that is depends on the clock, and nothing is known of it.
#[verifier::external_body]
fn elapsed_since(instant: &std::time::Instant) -> (passed: Moment)
    ensures
        passed.nanos < 1_000_000_000,
{
    let passed = instant.elapsed();
    Moment { seconds: passed.as_secs(), nanos: passed.subsec_nanos() }
}

/// Which prompts are cached, by account.
#[derive(Debug)]
pub struct PromptCacheTracker {
    entries_by_account: Table<Table<CacheEntry>>,
    last_prune: u128,
    origin: std::time::Instant,
}

impl View for PromptCacheTracker {
    type V = TrackerState;

    closed spec fn view(&self) -> TrackerState {
        TrackerState {
            accounts: self.entries_by_account@.map_values(|t: Table<CacheEntry>| t@),
            last_prune: self.last_prune as int,
        }
    }
}

/// Takes out the entries that are dead.
fn retain_live(table: &mut Table<CacheEntry>, now: u128)
    requires
        old(table).well_formed(),
    ensures
        final(table).well_formed(),
        final(table)@ == live(old(table)@, now as int),
{
    let ghost before = table@;
    let mut i: usize = 0;
    while i < table.len()
        invariant
            i <= table.pairs().len(),
            table.well_formed(),
            table@.submap_of(before),
            forall|k: Seq<char>|
                before.contains_key(k) && (#[trigger] before[k]).expires_at >= now
                    ==> table@.contains_key(k),
            forall|j: int| 0 <= j < i ==> (#[trigger] table.pairs()[j]).1.expires_at >= now,
        decreases table.pairs().len() - i,
    {
        proof {
            lemma_lookup_at(table.pairs(), i as int);
        }
        if table.value_at(i).expires_at < now {
            table.remove_at(i);
        } else {
            i = i + 1;
        }
    }
    proof {
        assert forall|k: Seq<char>| table@.contains_key(k) implies table@[k].expires_at >= now by {
            lemma_position(table.pairs(), k);
        }
        assert(table@ =~= live(before, now as int));
    }
}

/// A table has entries if and only if its view holds a key.
proof fn lemma_has_entries(table: Table<CacheEntry>)
    requires
        table.well_formed(),
    ensures
        table.pairs().len() > 0 <==> exists|k: Seq<char>| #[trigger] table@.contains_key(k),
{
    if table.pairs().len() > 0 {
        lemma_lookup_at(table.pairs(), 0);
        assert(table@.contains_key(table.pairs()[0].0));
    } else if exists|k: Seq<char>| #[trigger] table@.contains_key(k) {
        let k = choose|k: Seq<char>| #[trigger] table@.contains_key(k);
        lemma_position(table.pairs(), k);
    }
}

/// Every table is well formed.
pub open spec fn tables_well_formed(accounts: Table<Table<CacheEntry>>) -> bool {
    &&& accounts.well_formed()
    &&& forall|i: int|
        0 <= i < accounts.pairs().len() ==> (#[trigger] accounts.pairs()[i]).1.well_formed()
}

/// Takes the dead entries out of every account.
fn prune_tables(accounts: &mut Table<Table<CacheEntry>>, now: u128)
    requires
        tables_well_formed(*old(accounts)),
    ensures
        tables_well_formed(*final(accounts)),
        final(accounts).pairs().len() == old(accounts).pairs().len(),
        forall|i: int|
            #![trigger final(accounts).pairs()[i]]
            #![trigger old(accounts).pairs()[i]]
            0 <= i < old(accounts).pairs().len() ==> {
                &&& final(accounts).pairs()[i].0 == old(accounts).pairs()[i].0
                &&& final(accounts).pairs()[i].1@ == live(
                    old(accounts).pairs()[i].1@,
                    now as int,
                )
            },
{
    let ghost before = accounts.pairs();
    let mut n: usize = 0;
    while n < accounts.len()
        invariant
            tables_well_formed(*accounts),
            accounts.pairs().len() == before.len(),
            n <= before.len(),
            forall|i: int|
                #![trigger accounts.pairs()[i]]
                #![trigger before[i]]
                0 <= i < n ==> {
                    &&& accounts.pairs()[i].0 == before[i].0
                    &&& accounts.pairs()[i].1@ == live(before[i].1@, now as int)
                },
            forall|i: int|
                #![trigger accounts.pairs()[i]]
                n <= i < before.len() ==> accounts.pairs()[i] == before[i],
        decreases before.len() - n,
    {
        let ghost sofar = accounts.pairs();
        let table = accounts.value_mut(n);
        retain_live(table, now);
        proof {
            lemma_update_at(sofar, n as int, accounts.pairs()[n as int].1);
        }
        n = n + 1;
    }
}

/// Takes out the accounts without entries.
fn drop_empty(accounts: &mut Table<Table<CacheEntry>>)
    requires
        tables_well_formed(*old(accounts)),
    ensures
        tables_well_formed(*final(accounts)),
        forall|a: Seq<char>| #[trigger]
            final(accounts)@.contains_key(a) <==> old(accounts)@.contains_key(a) && old(
                accounts,
            )@[a].pairs().len() > 0,
        forall|a: Seq<char>| #[trigger]
            final(accounts)@.contains_key(a) ==> final(accounts)@[a] == old(accounts)@[a],
{
    let ghost before = accounts@;
    let mut i: usize = 0;
    while i < accounts.len()
        invariant
            tables_well_formed(*accounts),
            i <= accounts.pairs().len(),
            forall|a: Seq<char>| #[trigger]
                accounts@.contains_key(a) ==> before.contains_key(a) && accounts@[a] == before[a],
            forall|a: Seq<char>| #[trigger]
                before.contains_key(a) && before[a].pairs().len() > 0 ==> accounts@.contains_key(a),
            forall|j: int| 0 <= j < i ==> (#[trigger] accounts.pairs()[j]).1.pairs().len() > 0,
        decreases accounts.pairs().len() - i,
    {
        proof {
            lemma_lookup_at(accounts.pairs(), i as int);
        }
        let ghost sofar = accounts.pairs();
        if accounts.value_at(i).len() == 0 {
            accounts.remove_at(i);
            proof {
                assert forall|j: int| 0 <= j < accounts.pairs().len() implies (
                #[trigger] accounts.pairs()[j]).1.well_formed() by {
                    if j < i {
                        assert(accounts.pairs()[j] == sofar[j]);
                    } else {
                        assert(accounts.pairs()[j] == sofar[j + 1]);
                    }
                }
            }
        } else {
            i = i + 1;
        }
    }
    proof {
        assert forall|a: Seq<char>| #[trigger] accounts@.contains_key(a) implies before[a].pairs().len()
            > 0 by {
            lemma_position(accounts.pairs(), a);
        }
    }
}

/// [`last_hit`] is -1 or the index of a hit.
pub proof fn lemma_last_hit(breakpoints: Seq<Breakpoint>, entries: Entries, least: int, now: int)
    ensures
        -1 <= last_hit(breakpoints, entries, least, now) < breakpoints.len(),
        last_hit(breakpoints, entries, least, now) >= 0 ==> is_hit(
            breakpoints[last_hit(breakpoints, entries, least, now)],
            entries,
            least,
            now,
        ),
        forall|i: int|
            last_hit(breakpoints, entries, least, now) < i < breakpoints.len() ==> !is_hit(
                #[trigger] breakpoints[i],
                entries,
                least,
                now,
            ),
    decreases breakpoints.len(),
{
    if breakpoints.len() > 0 && !is_hit(breakpoints.last(), entries, least, now) {
        lemma_last_hit(breakpoints.drop_last(), entries, least, now);
        assert forall|i: int|
            last_hit(breakpoints, entries, least, now) < i < breakpoints.len() implies !is_hit(
            #[trigger] breakpoints[i],
            entries,
            least,
            now,
        ) by {
            if i < breakpoints.len() - 1 {
                assert(breakpoints[i] == breakpoints.drop_last()[i]);
            }
        }
    }
}

/// The number of breakpoints up to the last hit, with the life of its entry.
fn find_hit(
    entries: &Table<CacheEntry>,
    breakpoints: &Vec<CacheBreakpoint>,
    least: i32,
    now: u128,
) -> (hit: Option<(usize, u64)>)
    ensures
        match hit {
            Some((i, ttl)) => {
                &&& i == last_hit(
                    breakpoints_view(breakpoints@),
                    entries@,
                    least as int,
                    now as int,
                )
                &&& i < breakpoints@.len()
                &&& entries@[breakpoints@[i as int].fingerprint@].ttl == ttl
            },
            None => last_hit(
                breakpoints_view(breakpoints@),
                entries@,
                least as int,
                now as int,
            ) == -1,
        },
{
    let ghost all = breakpoints_view(breakpoints@);
    let mut n: usize = breakpoints.len();
    proof {
        assert(all.take(n as int) == all);
    }
    while n > 0
        invariant
            n <= breakpoints@.len(),
            all == breakpoints_view(breakpoints@),
            last_hit(all, entries@, least as int, now as int) == last_hit(
                all.take(n as int),
                entries@,
                least as int,
                now as int,
            ),
        decreases n,
    {
        proof {
            assert(all.take(n as int).drop_last() == all.take(n - 1));
            assert(all.take(n as int).last() == breakpoints@[n - 1]@);
        }
        n = n - 1;
        if breakpoints[n].cumulative_tokens >= least {
            if let Some(entry) = entries.get(breakpoints[n].fingerprint.as_str()) {
                if entry.expires_at >= now {
                    return Some((n, entry.ttl));
                }
            }
        }
    }
    None
}

/// Writes the breakpoints that are large enough.
fn write_entries(
    entries: &mut Table<CacheEntry>,
    breakpoints: &Vec<CacheBreakpoint>,
    least: i32,
    now: u128,
)
    requires
        old(entries).well_formed(),
        now <= u128::MAX - u64::MAX * NANOS_PER_SECOND,
    ensures
        final(entries).well_formed(),
        final(entries)@ == written(
            old(entries)@,
            breakpoints_view(breakpoints@),
            least as int,
            now as int,
        ),
{
    let ghost all = breakpoints_view(breakpoints@);
    let ghost before = entries@;
    let mut n: usize = 0;
    while n < breakpoints.len()
        invariant
            n <= breakpoints@.len(),
            now <= u128::MAX - u64::MAX * NANOS_PER_SECOND,
            all == breakpoints_view(breakpoints@),
            entries.well_formed(),
            entries@ == written(before, all.take(n as int), least as int, now as int),
        decreases breakpoints@.len() - n,
    {
        proof {
            assert(all.take(n + 1).drop_last() == all.take(n as int));
            assert(all.take(n + 1).last() == breakpoints@[n as int]@);
        }
        if breakpoints[n].cumulative_tokens >= least {
            let ttl = breakpoints[n].ttl;
            let entry = CacheEntry { expires_at: now + ttl as u128 * NANOS_PER_SECOND, ttl };
            entries.set(breakpoints[n].fingerprint.as_str(), entry);
        }
        n = n + 1;
    }
    proof {
        assert(all.take(n as int) == all);
    }
}

/// The index of an entry that dies first.
fn first_to_die(entries: &Table<CacheEntry>) -> (i: usize)
    requires
        entries.well_formed(),
        entries.pairs().len() > 0,
    ensures
        i < entries.pairs().len(),
        forall|j: int|
            0 <= j < entries.pairs().len() ==> entries.pairs()[i as int].1.expires_at <= (
            #[trigger] entries.pairs()[j]).1.expires_at,
{
    let mut i: usize = 0;
    let mut n: usize = 1;
    while n < entries.len()
        invariant
            entries.well_formed(),
            i < n <= entries.pairs().len(),
            forall|j: int|
                0 <= j < n ==> entries.pairs()[i as int].1.expires_at <= (
                #[trigger] entries.pairs()[j]).1.expires_at,
        decreases entries.pairs().len() - n,
    {
        if entries.value_at(n).expires_at < entries.value_at(i).expires_at {
            i = n;
        }
        n = n + 1;
    }
    i
}

/// Drops the entries that die first, until no more than the limit are left.
fn drop_first_to_die(entries: &mut Table<CacheEntry>)
    requires
        old(entries).well_formed(),
    ensures
        final(entries).well_formed(),
        trimmed(old(entries)@, final(entries)@),
{
    let ghost before = entries@;
    let first = entries.len();
    while entries.len() > MAX_ENTRIES_PER_ACCOUNT
        invariant
            entries.well_formed(),
            forall|k: Seq<char>| #[trigger]
                entries@.contains_key(k) ==> before.contains_key(k) && entries@[k] == before[k],
            first == before.len(),
            entries.pairs().len() <= first,
            entries.pairs().len() >= smaller(first as int, MAX_ENTRIES_PER_ACCOUNT as int),
            forall|gone: Seq<char>, stays: Seq<char>|
                before.contains_key(gone) && !entries@.contains_key(gone) && entries@.contains_key(
                    stays,
                ) ==> (#[trigger] before[gone]).expires_at <= (
                #[trigger] before[stays]).expires_at,
        decreases entries.pairs().len(),
    {
        let i = first_to_die(entries);
        let ghost sofar = entries@;
        let ghost pairs = entries.pairs();
        entries.remove_at(i);
        proof {
            lemma_lookup_at(pairs, i as int);
            let key = pairs[i as int].0;
            assert forall|gone: Seq<char>, stays: Seq<char>|
                before.contains_key(gone) && !entries@.contains_key(gone) && entries@.contains_key(
                    stays,
                ) implies (#[trigger] before[gone]).expires_at <= (
            #[trigger] before[stays]).expires_at by {
                assert(sofar.contains_key(stays));
                if gone == key {
                    lemma_position(pairs, stays);
                    assert(before[stays] == sofar[stays]);
                    assert(before[key] == sofar[key]);
                } else {
                    assert(!sofar.contains_key(gone));
                }
            }
        }
    }
    proof {
        lemma_as_map_len(entries.pairs());
    }
}

impl PromptCacheTracker {
    /// No account occurs twice, and no fingerprint twice in an account.
    pub closed spec fn well_formed(self) -> bool {
        tables_well_formed(self.entries_by_account)
    }

    /// The instant from which the moments of the tracker count.
    pub closed spec fn origin(self) -> std::time::Instant {
        self.origin
    }

    /// An empty tracker.
    pub fn new() -> (tracker: PromptCacheTracker)
        ensures
            tracker.well_formed(),
            tracker@ == (TrackerState { accounts: Map::empty(), last_prune: 0 }),
    {
        let tracker = PromptCacheTracker {
            entries_by_account: Table::new(),
            last_prune: 0,
            origin: std::time::Instant::now(),
        };
        proof {
            assert(tracker@.accounts =~= Map::empty());
        }
        tracker
    }

    /// The time that has passed since the tracker was made.
    pub fn now(&self) -> (now: Moment)
        ensures
            now.nanos < 1_000_000_000,
    {
        elapsed_since(&self.origin)
    }

    /// Takes out dead entries and accounts without entries, unless that was done a moment ago.
    pub fn prune_if_needed(&mut self, now: Moment)
        requires
            old(self).well_formed(),
        ensures
            final(self).well_formed(),
            final(self).origin() == old(self).origin(),
            final(self)@ == after_prune(old(self)@, now.time()),
    {
        let time = now.as_nanos();
        if time < self.last_prune || time - self.last_prune < PRUNE_INTERVAL {
            return;
        }
        self.last_prune = time;
        let ghost before = self.entries_by_account;
        prune_tables(&mut self.entries_by_account, time);
        let ghost between = self.entries_by_account;
        drop_empty(&mut self.entries_by_account);
        proof {
            assert forall|a: Seq<char>| between@.contains_key(a) == before@.contains_key(a) && (
            before@.contains_key(a) ==> between@[a]@ == live(before@[a]@, time as int)) by {
                lemma_same_keys(before.pairs(), between.pairs(), a);
                lemma_position(before.pairs(), a);
            }
            assert forall|a: Seq<char>| #[trigger]
                self@.accounts.contains_key(a) == live_accounts(
                    old(self)@.accounts,
                    time as int,
                ).contains_key(a) by {
                if before@.contains_key(a) {
                    lemma_position(between.pairs(), a);
                    lemma_has_entries(between@[a]);
                    if between@[a].pairs().len() > 0 {
                        let k = choose|k: Seq<char>| #[trigger] between@[a]@.contains_key(k);
                        assert(old(self)@.accounts[a][k].expires_at >= time);
                    } else if exists|k: Seq<char>|
                        old(self)@.accounts[a].contains_key(k) && (#[trigger] old(
                            self,
                        )@.accounts[a][k]).expires_at >= time {
                        let k = choose|k: Seq<char>|
                            old(self)@.accounts[a].contains_key(k) && (#[trigger] old(
                                self,
                            )@.accounts[a][k]).expires_at >= time;
                        assert(between@[a]@.contains_key(k));
                    }
                }
            }
            assert(self@.accounts =~= live_accounts(old(self)@.accounts, time as int));
        }
    }

    /// Reports how much of a prompt is written to the cache and how much is read from it, for a
    /// model whose least cacheable prompt has `least` tokens. A prompt that is read lives on.
    pub fn compute_with(
        &mut self,
        account_id: &str,
        profile: &CacheProfile,
        least: i32,
        now: Moment,
    ) -> (usage: CacheUsage)
        requires
            old(self).well_formed(),
            profile.well_formed(),
            least >= 0,
        ensures
            final(self).well_formed(),
            final(self).origin() == old(self).origin(),
            computed(
                old(self)@,
                final(self)@,
                usage,
                account_id@,
                *profile,
                least as int,
                now.time(),
            ),
    {
        self.prune_if_needed(now);
        let time = now.as_nanos();
        let last = profile.breakpoints[profile.breakpoints.len() - 1].cumulative_tokens;
        let mut last_tokens: i32 = if last < profile.total_input_tokens {
            last
        } else {
            profile.total_input_tokens
        };
        let max_cacheable: i32 = (profile.total_input_tokens as i64 * MAX_CACHE_PERCENT
            / 100) as i32;
        if last_tokens > max_cacheable {
            last_tokens = max_cacheable;
        }
        let ghost state = self@;
        let ghost pairs = self.entries_by_account.pairs();
        let a = self.entries_by_account.find(account_id);
        if a == self.entries_by_account.len() {
            let creation: i32 = if last_tokens >= least {
                last_tokens
            } else {
                0
            };
            let (creation_5m, creation_1h) = split_cache_creation_tokens(profile, 0, creation);
            return CacheUsage {
                cache_creation_input_tokens: creation,
                cache_creation_5m_input_tokens: creation_5m,
                cache_creation_1h_input_tokens: creation_1h,
                cache_read_input_tokens: 0,
            };
        }
        let mut matched_tokens: i32 = 0;
        if let Some((i, ttl)) = find_hit(
            self.entries_by_account.value_at(a),
            &profile.breakpoints,
            least,
            time,
        ) {
            proof {
                lemma_last_hit(
                    breakpoints_view(profile.breakpoints@),
                    pairs[a as int].1@,
                    least as int,
                    time as int,
                );
            }
            let entry = CacheEntry { expires_at: time + ttl as u128 * NANOS_PER_SECOND, ttl };
            let entries = self.entries_by_account.value_mut(a);
            entries.set(profile.breakpoints[i].fingerprint.as_str(), entry);
            proof {
                lemma_update_at(pairs, a as int, self.entries_by_account.pairs()[a as int].1);
                assert(self@.accounts =~= state.accounts.insert(
                    account_id@,
                    self.entries_by_account.pairs()[a as int].1@,
                ));
            }
            matched_tokens = profile.breakpoints[i].cumulative_tokens;
            if profile.total_input_tokens < matched_tokens {
                matched_tokens = profile.total_input_tokens;
            }
            if last_tokens < matched_tokens {
                matched_tokens = last_tokens;
            }
        }
        let creation: i32 = if last_tokens > matched_tokens {
            last_tokens - matched_tokens
        } else {
            0
        };
        let (creation_5m, creation_1h) = split_cache_creation_tokens(
            profile,
            matched_tokens,
            creation,
        );
        CacheUsage {
            cache_creation_input_tokens: creation,
            cache_creation_5m_input_tokens: creation_5m,
            cache_creation_1h_input_tokens: creation_1h,
            cache_read_input_tokens: matched_tokens,
        }
    }

    /// Reports how much of a prompt is written to the cache and how much is read from it; nothing
    /// without a profile or without an account.
    pub fn compute(
        &mut self,
        account_id: &str,
        profile: Option<&CacheProfile>,
        now: Moment,
    ) -> (usage: CacheUsage)
        requires
            old(self).well_formed(),
            profile matches Some(p) ==> p.total_input_tokens >= 1,
        ensures
            final(self).well_formed(),
            final(self).origin() == old(self).origin(),
            computes(old(self)@, final(self)@, usage, account_id@, profile, now.time()),
    {
        match profile {
            Some(p) => {
                if p.breakpoints.len() == 0 || account_id.is_empty() {
                    return CacheUsage::default();
                }
                let least = min_cacheable_tokens(p.model.as_str());
                self.compute_with(account_id, p, least, now)
            },
            None => CacheUsage::default(),
        }
    }

    /// Notes that a prompt is cached, for a model whose least cacheable prompt has `least` tokens.
    /// An account with too many entries loses those that die first.
    pub fn update_with(
        &mut self,
        account_id: &str,
        profile: &CacheProfile,
        least: i32,
        now: Moment,
    )
        requires
            old(self).well_formed(),
        ensures
            final(self).well_formed(),
            final(self).origin() == old(self).origin(),
            updated(
                old(self)@,
                final(self)@,
                account_id@,
                *profile,
                least as int,
                now.time(),
            ),
    {
        let time = now.as_nanos();
        let ghost before = self@;
        let mut a = self.entries_by_account.find(account_id);
        if a == self.entries_by_account.len() {
            self.entries_by_account.set(account_id, Table::new());
            proof {
                assert(self.well_formed());
            }
            a = self.entries_by_account.find(account_id);
        }
        let ghost pairs = self.entries_by_account.pairs();
        let entries = self.entries_by_account.value_mut(a);
        write_entries(entries, &profile.breakpoints, least, time);
        drop_first_to_die(entries);
        proof {
            lemma_update_at(pairs, a as int, self.entries_by_account.pairs()[a as int].1);
            assert(self@.accounts =~= before.accounts.insert(
                account_id@,
                self.entries_by_account.pairs()[a as int].1@,
            ));
        }
    }

    /// Notes that a prompt is cached; nothing without a profile or without an account.
    pub fn update(&mut self, account_id: &str, profile: Option<&CacheProfile>, now: Moment)
        requires
            old(self).well_formed(),
        ensures
            final(self).well_formed(),
            final(self).origin() == old(self).origin(),
            updates(old(self)@, final(self)@, account_id@, profile, now.time()),
    {
        if let Some(p) = profile {
            if p.breakpoints.len() == 0 || account_id.is_empty() {
                return;
            }
            let least = min_cacheable_tokens(p.model.as_str());
            self.update_with(account_id, p, least, now);
        }
    }

    /// The profile of a request; nothing where its prompt is not to be cached.
    pub fn build_profile<F: Fn(&str) -> u64>(
        &self,
        req: &MessagesRequest,
        total_input_tokens: i32,
        count: &F,
    ) -> (profile: Option<CacheProfile>)
        requires
            is_counter(count),
            forall|model: TokenModel| #[trigger]
                counts_by(count, model) ==> request_sums_fit(*req, model),
        ensures
            forall|model: TokenModel| #[trigger]
                counts_by(count, model) ==> profile_of(
                    profile,
                    request_blocks(*req, model),
                    total_input_tokens,
                    req.model@,
                ),
    {
        build_profile(req, total_input_tokens, count)
    }
}

/// Reports the use of the cache by the clock of the machine: as [`PromptCacheTracker::compute`]
/// does at some moment.
pub fn compute(
    tracker: &mut PromptCacheTracker,
    account_id: &str,
    profile: Option<&CacheProfile>,
) -> (usage: CacheUsage)
    requires
        old(tracker).well_formed(),
        profile matches Some(p) ==> p.total_input_tokens >= 1,
    ensures
        final(tracker).well_formed(),
        final(tracker).origin() == old(tracker).origin(),
        exists|now: Moment|
            now.nanos < 1_000_000_000 && #[trigger] computes(
                old(tracker)@,
                final(tracker)@,
                usage,
                account_id@,
                profile,
                now.time(),
            ),
{
    let now = tracker.now();
    tracker.compute(account_id, profile, now)
}

/// Notes that a prompt is cached by the clock of the machine: as [`PromptCacheTracker::update`]
/// does at some moment.
pub fn update(tracker: &mut PromptCacheTracker, account_id: &str, profile: Option<&CacheProfile>)
    requires
        old(tracker).well_formed(),
    ensures
        final(tracker).well_formed(),
        final(tracker).origin() == old(tracker).origin(),
        exists|now: Moment|
            now.nanos < 1_000_000_000 && #[trigger] updates(
                old(tracker)@,
                final(tracker)@,
                account_id@,
                profile,
                now.time(),
            ),
{
    let now = tracker.now();
    tracker.update(account_id, profile, now);
}

} // verus!
