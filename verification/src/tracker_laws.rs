//! Laws of the tracker and of its reports.
use crate::profile::{breakpoints_view, Breakpoint, CacheProfile};
use crate::tracker::{
    after_prune, cacheable_tokens, computed, entries_of, fresh, is_hit, last_hit, lemma_last_hit,
    live, trimmed, updated, written, Entries, Moment, TrackerState, MAX_CACHE_PERCENT,
    MAX_ENTRIES_PER_ACCOUNT, NANOS_PER_SECOND,
};
use crate::usage::{lemma_one_hour_tokens, smaller, CacheUsage};
use vstd::prelude::*;

verus! {

/// The last breakpoint is written last.
proof fn lemma_last_is_written(
    entries: Entries,
    breakpoints: Seq<Breakpoint>,
    least: int,
    now: int,
)
    requires
        breakpoints.len() > 0,
        breakpoints.last().cumulative_tokens >= least,
    ensures
        written(entries, breakpoints, least, now).contains_key(breakpoints.last().fingerprint),
        written(entries, breakpoints, least, now)[breakpoints.last().fingerprint] == fresh(
            now,
            breakpoints.last().ttl,
        ),
{
}

/// The last hit is the last breakpoint if that is a hit.
proof fn lemma_last_is_hit(breakpoints: Seq<Breakpoint>, entries: Entries, least: int, now: int)
    requires
        breakpoints.len() > 0,
        is_hit(breakpoints.last(), entries, least, now),
    ensures
        last_hit(breakpoints, entries, least, now) == breakpoints.len() - 1,
{
}

/// What was cached is read: a prompt that is large enough, that was noted at one moment, that the
/// account still keeps, and that comes again before it dies, is read from the cache as far as it is
/// cacheable, and nothing is written.
pub proof fn law_creation_then_read(
    before: TrackerState,
    between: TrackerState,
    after: TrackerState,
    usage: CacheUsage,
    account: Seq<char>,
    profile: CacheProfile,
    least: int,
    noted: Moment,
    asked: Moment,
)
    requires
        profile.well_formed(),
        updated(before, between, account, profile, least, noted.time()),
        computed(between, after, usage, account, profile, least, asked.time()),
        profile.breakpoints@.last().cumulative_tokens >= least,
        between.accounts[account].contains_key(profile.breakpoints@.last().fingerprint@),
        asked.time() <= noted.time() + profile.breakpoints@.last().ttl * NANOS_PER_SECOND,
    ensures
        usage.cache_read_input_tokens == cacheable_tokens(profile),
        usage.cache_creation_input_tokens == 0,
        usage.cache_creation_5m_input_tokens == 0,
        usage.cache_creation_1h_input_tokens == 0,
{
    let breakpoints = breakpoints_view(profile.breakpoints@);
    let last = breakpoints.last();
    let kept = between.accounts[account];
    let all = written(entries_of(before, account), breakpoints, least, noted.time());
    lemma_last_is_written(entries_of(before, account), breakpoints, least, noted.time());
    assert(all.dom().contains(last.fingerprint));
    assert(kept[last.fingerprint] == fresh(noted.time(), last.ttl));
    let state = after_prune(between, asked.time());
    assert(kept[last.fingerprint].expires_at >= asked.time());
    assert(state.accounts.contains_key(account));
    let entries = state.accounts[account];
    assert(is_hit(last, entries, least, asked.time()));
    lemma_last_is_hit(breakpoints, entries, least, asked.time());
}

/// Writing breakpoints adds at most one entry for each.
pub proof fn lemma_written_len(entries: Entries, breakpoints: Seq<Breakpoint>, least: int, now: int)
    requires
        entries.dom().finite(),
    ensures
        written(entries, breakpoints, least, now).dom().finite(),
        written(entries, breakpoints, least, now).len() <= entries.len() + breakpoints.len(),
    decreases breakpoints.len(),
{
    if breakpoints.len() > 0 {
        lemma_written_len(entries, breakpoints.drop_last(), least, now);
    }
}

/// An account within the limit loses nothing.
pub proof fn law_small_account_keeps_all(entries: Entries, kept: Entries)
    requires
        trimmed(entries, kept),
        entries.dom().finite(),
        entries.len() <= MAX_ENTRIES_PER_ACCOUNT,
    ensures
        kept == entries,
{
    vstd::set_lib::lemma_subset_equality(kept.dom(), entries.dom());
    assert(kept =~= entries);
}

/// What was cached is read, as long as the account has no more entries and the prompt no more
/// breakpoints than an account keeps together.
pub proof fn law_creation_then_read_within_limit(
    before: TrackerState,
    between: TrackerState,
    after: TrackerState,
    usage: CacheUsage,
    account: Seq<char>,
    profile: CacheProfile,
    least: int,
    noted: Moment,
    asked: Moment,
)
    requires
        profile.well_formed(),
        entries_of(before, account).dom().finite(),
        entries_of(before, account).len() + profile.breakpoints@.len() <= MAX_ENTRIES_PER_ACCOUNT,
        updated(before, between, account, profile, least, noted.time()),
        computed(between, after, usage, account, profile, least, asked.time()),
        profile.breakpoints@.last().cumulative_tokens >= least,
        asked.time() <= noted.time() + profile.breakpoints@.last().ttl * NANOS_PER_SECOND,
    ensures
        usage.cache_read_input_tokens == cacheable_tokens(profile),
        usage.cache_creation_input_tokens == 0,
{
    let breakpoints = breakpoints_view(profile.breakpoints@);
    let entries = entries_of(before, account);
    let all = written(entries, breakpoints, least, noted.time());
    lemma_written_len(entries, breakpoints, least, noted.time());
    lemma_last_is_written(entries, breakpoints, least, noted.time());
    law_small_account_keeps_all(all, between.accounts[account]);
    assert(breakpoints.last().fingerprint == profile.breakpoints@.last().fingerprint@);
    law_creation_then_read(
        before,
        between,
        after,
        usage,
        account,
        profile,
        least,
        noted,
        asked,
    );
}

/// What was cached for the beginning of a prompt is read for the whole: a longer prompt, whose
/// breakpoints go on from those of a prompt that the account still keeps, reads at least as much as
/// that prompt has, within what is cacheable of the longer one.
pub proof fn law_cached_beginning_is_read(
    before: TrackerState,
    between: TrackerState,
    after: TrackerState,
    usage: CacheUsage,
    account: Seq<char>,
    first: CacheProfile,
    longer: CacheProfile,
    least: int,
    noted: Moment,
    asked: Moment,
)
    requires
        first.well_formed(),
        longer.well_formed(),
        first.breakpoints@.len() <= longer.breakpoints@.len(),
        breakpoints_view(longer.breakpoints@).take(first.breakpoints@.len() as int)
            == breakpoints_view(first.breakpoints@),
        forall|i: int|
            first.breakpoints@.len() <= i < longer.breakpoints@.len() ==> (
            #[trigger] longer.breakpoints@[i]).cumulative_tokens
                >= first.breakpoints@.last().cumulative_tokens,
        updated(before, between, account, first, least, noted.time()),
        computed(between, after, usage, account, longer, least, asked.time()),
        first.breakpoints@.last().cumulative_tokens >= least,
        between.accounts[account].contains_key(first.breakpoints@.last().fingerprint@),
        asked.time() <= noted.time() + first.breakpoints@.last().ttl * NANOS_PER_SECOND,
    ensures
        usage.cache_read_input_tokens >= smaller(
            smaller(
                first.breakpoints@.last().cumulative_tokens as int,
                longer.total_input_tokens as int,
            ),
            cacheable_tokens(longer),
        ),
{
    let breakpoints = breakpoints_view(first.breakpoints@);
    let all = breakpoints_view(longer.breakpoints@);
    let last = breakpoints.last();
    let n = breakpoints.len() - 1;
    let kept = between.accounts[account];
    lemma_last_is_written(entries_of(before, account), breakpoints, least, noted.time());
    assert(kept.dom().contains(last.fingerprint));
    assert(kept[last.fingerprint] == fresh(noted.time(), last.ttl));
    let state = after_prune(between, asked.time());
    assert(kept[last.fingerprint].expires_at >= asked.time());
    assert(state.accounts.contains_key(account));
    let entries = state.accounts[account];
    assert(all[n] == all.take(n + 1)[n]);
    assert(is_hit(all[n], entries, least, asked.time()));
    lemma_last_hit(all, entries, least, asked.time());
    let hit = last_hit(all, entries, least, asked.time());
    assert(longer.breakpoints@[hit].cumulative_tokens == all[hit].cumulative_tokens);
}

/// A prompt of an unknown account is not read from the cache.
pub proof fn law_first_request_reads_nothing(
    before: TrackerState,
    after: TrackerState,
    usage: CacheUsage,
    account: Seq<char>,
    profile: CacheProfile,
    least: int,
    now: int,
)
    requires
        computed(before, after, usage, account, profile, least, now),
        !before.accounts.contains_key(account),
    ensures
        usage.cache_read_input_tokens == 0,
        cacheable_tokens(profile) >= least ==> usage.cache_creation_input_tokens
            == cacheable_tokens(profile),
        !after.accounts.contains_key(account),
{
}

/// A report adds up: what is written splits into what is written for five minutes and for one
/// hour, and what is written and read together is no more than 85 percent of the request.
pub proof fn law_report_adds_up(
    before: TrackerState,
    after: TrackerState,
    usage: CacheUsage,
    account: Seq<char>,
    profile: CacheProfile,
    least: int,
    now: int,
)
    requires
        profile.well_formed(),
        least >= 0,
        profile.breakpoints@.last().cumulative_tokens >= 0,
        computed(before, after, usage, account, profile, least, now),
    ensures
        0 <= usage.cache_read_input_tokens,
        0 <= usage.cache_creation_5m_input_tokens,
        0 <= usage.cache_creation_1h_input_tokens,
        usage.cache_creation_5m_input_tokens + usage.cache_creation_1h_input_tokens
            == usage.cache_creation_input_tokens,
        (usage.cache_read_input_tokens + usage.cache_creation_input_tokens) * 100
            <= profile.total_input_tokens * MAX_CACHE_PERCENT,
        usage.cache_read_input_tokens + usage.cache_creation_input_tokens
            <= profile.breakpoints@.last().cumulative_tokens,
{
    let state = after_prune(before, now);
    let breakpoints = breakpoints_view(profile.breakpoints@);
    let read = usage.cache_read_input_tokens as int;
    let creation = usage.cache_creation_input_tokens as int;
    if state.accounts.contains_key(account) {
        lemma_last_hit(breakpoints, state.accounts[account], least, now);
    }
    lemma_one_hour_tokens(
        breakpoints,
        if read > 0 {
            read
        } else {
            0
        },
        smaller(read + creation, profile.total_input_tokens as int),
    );
}

/// Dead entries do not count: a breakpoint is a hit by the entries of an account if and only if it
/// is one by those that are alive.
pub proof fn law_dead_entries_do_not_count(
    breakpoints: Seq<Breakpoint>,
    entries: Entries,
    least: int,
    now: int,
)
    ensures
        last_hit(breakpoints, live(entries, now), least, now) == last_hit(
            breakpoints,
            entries,
            least,
            now,
        ),
    decreases breakpoints.len(),
{
    if breakpoints.len() > 0 {
        law_dead_entries_do_not_count(breakpoints.drop_last(), entries, least, now);
    }
}

/// Where every entry of an account is dead, nothing is read.
pub proof fn law_expired_prompt_is_not_read(
    before: TrackerState,
    after: TrackerState,
    usage: CacheUsage,
    account: Seq<char>,
    profile: CacheProfile,
    least: int,
    now: int,
)
    requires
        computed(before, after, usage, account, profile, least, now),
        before.accounts.contains_key(account),
        forall|k: Seq<char>|
            before.accounts[account].contains_key(k) ==> (
            #[trigger] before.accounts[account][k]).expires_at < now,
    ensures
        usage.cache_read_input_tokens == 0,
{
    let state = after_prune(before, now);
    if state.accounts.contains_key(account) {
        lemma_last_hit(
            breakpoints_view(profile.breakpoints@),
            state.accounts[account],
            least,
            now,
        );
    }
}

/// Accounts are separate: noting a prompt of one leaves the entries of every other as they were.
pub proof fn law_update_leaves_other_accounts(
    before: TrackerState,
    after: TrackerState,
    account: Seq<char>,
    other: Seq<char>,
    profile: CacheProfile,
    least: int,
    now: int,
)
    requires
        updated(before, after, account, profile, least, now),
        other != account,
    ensures
        after.accounts.contains_key(other) == before.accounts.contains_key(other),
        entries_of(after, other) == entries_of(before, other),
{
}

/// Accounts are separate: a report for one changes no entry of another, but for dead ones, which
/// may be gone.
pub proof fn law_compute_leaves_other_accounts(
    before: TrackerState,
    after: TrackerState,
    usage: CacheUsage,
    account: Seq<char>,
    other: Seq<char>,
    profile: CacheProfile,
    least: int,
    now: int,
)
    requires
        computed(before, after, usage, account, profile, least, now),
        other != account,
    ensures
        entries_of(after, other) == entries_of(before, other) || entries_of(after, other) == live(
            entries_of(before, other),
            now,
        ),
        live(entries_of(after, other), now) == live(entries_of(before, other), now),
{
    let a = entries_of(after, other);
    let b = entries_of(before, other);
    let state = after_prune(before, now);
    assert(entries_of(after, other) == entries_of(state, other));
    if state != before {
        if b.dom() =~= Set::empty() || !state.accounts.contains_key(other) {
            assert(live(b, now) =~= Map::empty());
        }
        assert(a =~= live(b, now));
    }
    assert(live(a, now) =~= live(b, now));
}

/// Every account keeps a finite number of entries, within the limit.
pub open spec fn within_limit(state: TrackerState) -> bool {
    forall|a: Seq<char>| #[trigger]
        state.accounts.contains_key(a) ==> state.accounts[a].dom().finite()
            && state.accounts[a].len() <= MAX_ENTRIES_PER_ACCOUNT
}

/// Noting a prompt keeps every account within the limit.
pub proof fn law_update_keeps_limit(
    before: TrackerState,
    after: TrackerState,
    account: Seq<char>,
    profile: CacheProfile,
    least: int,
    now: int,
)
    requires
        within_limit(before),
        updated(before, after, account, profile, least, now),
    ensures
        within_limit(after),
{
    assert forall|a: Seq<char>| #[trigger] after.accounts.contains_key(a) implies after.accounts[a].dom().finite()
        && after.accounts[a].len() <= MAX_ENTRIES_PER_ACCOUNT by {
        if a != account {
            assert(before.accounts.contains_key(a));
        }
    }
}

/// A report keeps every account within the limit.
pub proof fn law_compute_keeps_limit(
    before: TrackerState,
    after: TrackerState,
    usage: CacheUsage,
    account: Seq<char>,
    profile: CacheProfile,
    least: int,
    now: int,
)
    requires
        within_limit(before),
        computed(before, after, usage, account, profile, least, now),
    ensures
        within_limit(after),
{
    let state = after_prune(before, now);
    if state.accounts.contains_key(account) {
        lemma_last_hit(
            breakpoints_view(profile.breakpoints@),
            state.accounts[account],
            least,
            now,
        );
    }
    assert forall|a: Seq<char>| #[trigger] after.accounts.contains_key(a) implies after.accounts[a].dom().finite()
        && after.accounts[a].len() <= MAX_ENTRIES_PER_ACCOUNT by {
        assert(before.accounts.contains_key(a));
        assert(after.accounts[a].dom() =~= state.accounts[a].dom());
        vstd::set_lib::lemma_len_subset(after.accounts[a].dom(), before.accounts[a].dom());
    }
}

/// A prompt that is read lives on: its entry dies one life after the moment of the report.
pub proof fn law_reading_prolongs_life(
    before: TrackerState,
    after: TrackerState,
    usage: CacheUsage,
    account: Seq<char>,
    profile: CacheProfile,
    least: int,
    now: Moment,
    i: int,
)
    requires
        computed(before, after, usage, account, profile, least, now.time()),
        after_prune(before, now.time()).accounts.contains_key(account),
        i == last_hit(
            breakpoints_view(profile.breakpoints@),
            after_prune(before, now.time()).accounts[account],
            least,
            now.time(),
        ),
        i >= 0,
    ensures
        ({
            let key = profile.breakpoints@[i].fingerprint@;
            let entry = before.accounts[account][key];
            &&& after.accounts[account].contains_key(key)
            &&& after.accounts[account][key].expires_at == now.time() + entry.ttl
                * NANOS_PER_SECOND
            &&& after.accounts[account][key].ttl == entry.ttl
        }),
{
    lemma_last_hit(
        breakpoints_view(profile.breakpoints@),
        after_prune(before, now.time()).accounts[account],
        least,
        now.time(),
    );
}

} // verus!
