//! Laws of what notes and reports do to the entries of accounts, entry by entry.
use crate::profile::{breakpoints_view, Breakpoint, CacheBreakpoint, CacheProfile};
use crate::tracker::{
    after_prune, cacheable_tokens, computed, computes, entries_of, is_hit, last_hit,
    lemma_last_hit, trimmed, updated, updates, written, Entries, Moment, TrackerState,
};
use crate::tracker_laws::{lemma_written_len, law_small_account_keeps_all};
use crate::ttl::least_cacheable;
use crate::usage::CacheUsage;
use vstd::prelude::*;

verus! {

/// The account has an entry under the key that is not dead.
pub open spec fn alive(state: TrackerState, account: Seq<char>, key: Seq<char>, now: int) -> bool {
    &&& state.accounts.contains_key(account)
    &&& state.accounts[account].contains_key(key)
    &&& state.accounts[account][key].expires_at >= now
}

/// The prompt up to the breakpoint is large enough, and the account has a live entry of it.
pub open spec fn readable(
    state: TrackerState,
    account: Seq<char>,
    breakpoint: CacheBreakpoint,
    least: int,
    now: int,
) -> bool {
    breakpoint.cumulative_tokens >= least && alive(state, account, breakpoint.fingerprint@, now)
}

/// A moment is one of the last sixty seconds since dead entries were looked for.
pub open spec fn pruned_lately(state: TrackerState, now: int) -> bool {
    now - state.last_prune < 60_000_000_000
}

/// Looking for dead entries takes out dead entries only, and all of them, and accounts that have
/// none left; within sixty seconds it does nothing.
pub proof fn law_pruning_takes_dead_entries_only(
    state: TrackerState,
    now: int,
    account: Seq<char>,
    key: Seq<char>,
)
    ensures
        ({
            let after = after_prune(state, now);
            &&& pruned_lately(state, now) ==> after == state
            &&& !pruned_lately(state, now) ==> {
                &&& after.last_prune == now
                &&& after.accounts.contains_key(account) <==> exists|k: Seq<char>| #[trigger]
                    alive(state, account, k, now)
                &&& after.accounts.contains_key(account) ==> (after.accounts[account].contains_key(
                    key,
                ) <==> alive(state, account, key, now))
                &&& alive(state, account, key, now) ==> after.accounts[account][key]
                    == state.accounts[account][key]
            }
        }),
{
    let after = after_prune(state, now);
    if !pruned_lately(state, now) {
        if after.accounts.contains_key(account) {
            let k = choose|k: Seq<char>|
                state.accounts[account].contains_key(k) && (
                #[trigger] state.accounts[account][k]).expires_at >= now;
            assert(alive(state, account, k, now));
        }
        if exists|k: Seq<char>| #[trigger] alive(state, account, k, now) {
            let k = choose|k: Seq<char>| #[trigger] alive(state, account, k, now);
            assert(state.accounts[account][k].expires_at >= now);
        }
    }
}

/// An entry that is alive is kept, and no dead one comes to life.
proof fn lemma_alive_is_kept(state: TrackerState, now: int, account: Seq<char>, key: Seq<char>)
    ensures
        alive(after_prune(state, now), account, key, now) <==> alive(state, account, key, now),
        alive(state, account, key, now) ==> after_prune(state, now).accounts[account][key]
            == state.accounts[account][key],
{
    law_pruning_takes_dead_entries_only(state, now, account, key);
}

/// A breakpoint is a hit exactly where it is readable.
proof fn lemma_hits_are_readable(
    state: TrackerState,
    account: Seq<char>,
    breakpoints: Seq<CacheBreakpoint>,
    least: int,
    now: int,
    i: int,
)
    requires
        0 <= i < breakpoints.len(),
        after_prune(state, now).accounts.contains_key(account),
    ensures
        is_hit(
            breakpoints_view(breakpoints)[i],
            after_prune(state, now).accounts[account],
            least,
            now,
        ) <==> readable(state, account, breakpoints[i], least, now),
{
    lemma_alive_is_kept(state, now, account, breakpoints[i].fingerprint@);
}

/// What is cacheable is the most that stays within the last breakpoint, within the request, and
/// within 85 percent of it.
pub proof fn law_cacheable_is_the_most(profile: CacheProfile, n: int)
    requires
        profile.well_formed(),
    ensures
        cacheable_tokens(profile) <= profile.breakpoints@.last().cumulative_tokens,
        cacheable_tokens(profile) <= profile.total_input_tokens,
        100 * cacheable_tokens(profile) <= 85 * profile.total_input_tokens,
        n <= profile.breakpoints@.last().cumulative_tokens && n <= profile.total_input_tokens && 100
            * n <= 85 * profile.total_input_tokens ==> n <= cacheable_tokens(profile),
{
}

/// The last breakpoint that is readable is read: its tokens, as far as they are cacheable.
pub proof fn law_last_readable_breakpoint_is_read(
    before: TrackerState,
    after: TrackerState,
    usage: CacheUsage,
    account: Seq<char>,
    profile: CacheProfile,
    least: int,
    now: int,
    i: int,
)
    requires
        profile.well_formed(),
        computed(before, after, usage, account, profile, least, now),
        0 <= i < profile.breakpoints@.len(),
        readable(before, account, profile.breakpoints@[i], least, now),
        forall|j: int|
            i < j < profile.breakpoints@.len() ==> !readable(
                before,
                account,
                #[trigger] profile.breakpoints@[j],
                least,
                now,
            ),
    ensures
        usage.cache_read_input_tokens == if profile.breakpoints@[i].cumulative_tokens
            <= cacheable_tokens(profile) {
            profile.breakpoints@[i].cumulative_tokens as int
        } else {
            cacheable_tokens(profile)
        },
        after.accounts.contains_key(account),
        after.accounts[account].contains_key(profile.breakpoints@[i].fingerprint@),
{
    lemma_last_readable(before, account, profile.breakpoints@, least, now, i);
}

/// The last breakpoint that is readable is the last hit.
proof fn lemma_last_readable(
    before: TrackerState,
    account: Seq<char>,
    breakpoints: Seq<CacheBreakpoint>,
    least: int,
    now: int,
    i: int,
)
    requires
        0 <= i < breakpoints.len(),
        readable(before, account, breakpoints[i], least, now),
        forall|j: int|
            i < j < breakpoints.len() ==> !readable(
                before,
                account,
                #[trigger] breakpoints[j],
                least,
                now,
            ),
    ensures
        after_prune(before, now).accounts.contains_key(account),
        last_hit(
            breakpoints_view(breakpoints),
            after_prune(before, now).accounts[account],
            least,
            now,
        ) == i,
{
    let all = breakpoints_view(breakpoints);
    lemma_alive_is_kept(before, now, account, breakpoints[i].fingerprint@);
    let entries = after_prune(before, now).accounts[account];
    lemma_last_hit(all, entries, least, now);
    lemma_hits_are_readable(before, account, breakpoints, least, now, i);
    let hit = last_hit(all, entries, least, now);
    assert(is_hit(all[i], entries, least, now));
    if hit > i {
        lemma_hits_are_readable(before, account, breakpoints, least, now, hit);
        assert(!readable(before, account, breakpoints[hit], least, now));
    }
}

/// Where no breakpoint is readable, nothing is read.
pub proof fn law_without_readable_breakpoint_nothing_is_read(
    before: TrackerState,
    after: TrackerState,
    usage: CacheUsage,
    account: Seq<char>,
    profile: CacheProfile,
    least: int,
    now: int,
)
    requires
        computed(before, after, usage, account, profile, least, now),
        forall|j: int|
            0 <= j < profile.breakpoints@.len() ==> !readable(
                before,
                account,
                #[trigger] profile.breakpoints@[j],
                least,
                now,
            ),
    ensures
        usage.cache_read_input_tokens == 0,
        after == after_prune(before, now),
{
    lemma_nothing_readable(before, account, profile.breakpoints@, least, now);
    let state = after_prune(before, now);
    assert(after.accounts == state.accounts);
}

/// Where no breakpoint is readable, there is no hit.
proof fn lemma_nothing_readable(
    before: TrackerState,
    account: Seq<char>,
    breakpoints: Seq<CacheBreakpoint>,
    least: int,
    now: int,
)
    requires
        forall|j: int|
            0 <= j < breakpoints.len() ==> !readable(
                before,
                account,
                #[trigger] breakpoints[j],
                least,
                now,
            ),
    ensures
        after_prune(before, now).accounts.contains_key(account) ==> last_hit(
            breakpoints_view(breakpoints),
            after_prune(before, now).accounts[account],
            least,
            now,
        ) == -1,
{
    let all = breakpoints_view(breakpoints);
    if after_prune(before, now).accounts.contains_key(account) {
        let entries = after_prune(before, now).accounts[account];
        lemma_last_hit(all, entries, least, now);
        let hit = last_hit(all, entries, least, now);
        if hit >= 0 {
            lemma_hits_are_readable(before, account, breakpoints, least, now, hit);
            assert(!readable(before, account, breakpoints[hit], least, now));
        }
    }
}

/// The account has an entry that counts: any at all where dead entries were looked for lately, and
/// else one that is alive.
pub open spec fn is_known(state: TrackerState, account: Seq<char>, now: int) -> bool {
    if pruned_lately(state, now) {
        state.accounts.contains_key(account)
    } else {
        exists|k: Seq<char>| #[trigger] alive(state, account, k, now)
    }
}

/// What is cacheable and not read is written. For an account that is not known all that is
/// cacheable is written, if that is enough.
pub proof fn law_what_is_not_read_is_written(
    before: TrackerState,
    after: TrackerState,
    usage: CacheUsage,
    account: Seq<char>,
    profile: CacheProfile,
    least: int,
    now: int,
)
    requires
        computed(before, after, usage, account, profile, least, now),
    ensures
        is_known(before, account, now) && cacheable_tokens(profile)
            >= usage.cache_read_input_tokens ==> usage.cache_creation_input_tokens
            + usage.cache_read_input_tokens == cacheable_tokens(profile),
        is_known(before, account, now) && cacheable_tokens(profile)
            < usage.cache_read_input_tokens ==> usage.cache_creation_input_tokens == 0,
        !is_known(before, account, now) ==> {
            &&& usage.cache_read_input_tokens == 0
            &&& usage.cache_creation_input_tokens == if cacheable_tokens(profile) >= least {
                cacheable_tokens(profile)
            } else {
                0
            }
        },
        usage.cache_creation_5m_input_tokens + usage.cache_creation_1h_input_tokens
            == usage.cache_creation_input_tokens,
{
    law_pruning_takes_dead_entries_only(before, now, account, Seq::empty());
}

/// A report changes one entry at most: that of the last readable breakpoint, which lives one life
/// from now on. Live entries are kept, nothing is added, and within sixty seconds nothing is lost.
pub proof fn law_report_changes_the_read_entry_only(
    before: TrackerState,
    after: TrackerState,
    usage: CacheUsage,
    account: Seq<char>,
    profile: CacheProfile,
    least: int,
    now: Moment,
    other: Seq<char>,
    key: Seq<char>,
)
    requires
        computed(before, after, usage, account, profile, least, now.time()),
    ensures
        ({
            let t = now.time();
            let is_read = exists|i: int|
                0 <= i < profile.breakpoints@.len() && readable(
                    before,
                    account,
                    #[trigger] profile.breakpoints@[i],
                    least,
                    t,
                ) && key == profile.breakpoints@[i].fingerprint@ && forall|j: int|
                    i < j < profile.breakpoints@.len() ==> !readable(
                        before,
                        account,
                        #[trigger] profile.breakpoints@[j],
                        least,
                        t,
                    );
            &&& after.accounts.contains_key(other) ==> before.accounts.contains_key(other)
            &&& after.accounts.contains_key(other) && after.accounts[other].contains_key(key)
                ==> before.accounts[other].contains_key(key)
            &&& alive(before, other, key, t) ==> after.accounts.contains_key(other)
                && after.accounts[other].contains_key(key)
            &&& pruned_lately(before, t) && before.accounts.contains_key(other)
                ==> after.accounts.contains_key(other) && (before.accounts[other].contains_key(key)
                ==> after.accounts[other].contains_key(key))
            &&& after.accounts.contains_key(other) && after.accounts[other].contains_key(key) ==> {
                let was = before.accounts[other][key];
                let is = after.accounts[other][key];
                &&& is.ttl == was.ttl
                &&& other == account && is_read ==> is.expires_at == t + was.ttl * 1_000_000_000
                &&& !(other == account && is_read) ==> is == was
            }
            &&& after.last_prune == if pruned_lately(before, t) {
                before.last_prune
            } else {
                t
            }
        }),
{
    let t = now.time();
    let state = after_prune(before, t);
    let all = breakpoints_view(profile.breakpoints@);
    law_pruning_takes_dead_entries_only(before, t, other, key);
    law_pruning_takes_dead_entries_only(before, t, account, key);
    if state.accounts.contains_key(account) {
        let entries = state.accounts[account];
        let hit = last_hit(all, entries, least, t);
        lemma_last_hit(all, entries, least, t);
        if hit >= 0 {
            lemma_hits_are_readable(before, account, profile.breakpoints@, least, t, hit);
            let read = profile.breakpoints@[hit];
            law_pruning_takes_dead_entries_only(before, t, account, read.fingerprint@);
            assert forall|j: int| hit < j < profile.breakpoints@.len() implies !readable(
                before,
                account,
                #[trigger] profile.breakpoints@[j],
                least,
                t,
            ) by {
                lemma_hits_are_readable(before, account, profile.breakpoints@, least, t, j);
                assert(!is_hit(all[j], entries, least, t));
            }
        }
        assert forall|i: int|
            0 <= i < profile.breakpoints@.len() && readable(
                before,
                account,
                #[trigger] profile.breakpoints@[i],
                least,
                t,
            ) implies i <= hit by {
            lemma_hits_are_readable(before, account, profile.breakpoints@, least, t, i);
            if i > hit {
                assert(!is_hit(all[i], entries, least, t));
            }
        }
    } else {
        assert forall|i: int| 0 <= i < profile.breakpoints@.len() implies !readable(
            before,
            account,
            #[trigger] profile.breakpoints@[i],
            least,
            t,
        ) by {
            lemma_alive_is_kept(before, t, account, profile.breakpoints@[i].fingerprint@);
        }
    }
}

/// Each breakpoint that is large enough is written, not only the last one: its entry dies one life
/// of the breakpoint after the moment of the note. Of breakpoints with the same fingerprint the
/// last one counts.
pub proof fn law_every_large_breakpoint_is_written(
    entries: Entries,
    breakpoints: Seq<CacheBreakpoint>,
    least: int,
    now: Moment,
    i: int,
)
    requires
        0 <= i < breakpoints.len(),
        breakpoints[i].cumulative_tokens >= least,
        forall|j: int|
            i < j < breakpoints.len() ==> (#[trigger] breakpoints[j]).fingerprint@
                != breakpoints[i].fingerprint@ || breakpoints[j].cumulative_tokens < least,
    ensures
        ({
            let after = written(entries, breakpoints_view(breakpoints), least, now.time());
            let key = breakpoints[i].fingerprint@;
            &&& after.contains_key(key)
            &&& after[key].expires_at == now.time() + breakpoints[i].ttl * 1_000_000_000
            &&& after[key].ttl == breakpoints[i].ttl
        }),
    decreases breakpoints.len(),
{
    let all = breakpoints_view(breakpoints);
    let front = breakpoints.drop_last();
    assert(all.drop_last() =~= breakpoints_view(front));
    assert(all.last() == breakpoints.last()@);
    if i < front.len() {
        assert forall|j: int| i < j < front.len() implies (#[trigger] front[j]).fingerprint@
            != front[i].fingerprint@ || front[j].cumulative_tokens < least by {
            assert(front[j] == breakpoints[j]);
        }
        law_every_large_breakpoint_is_written(entries, front, least, now, i);
        assert(breakpoints[breakpoints.len() - 1] == breakpoints.last());
    }
}

/// Nothing else is written: an entry under a key that no large enough breakpoint has stays as it
/// was, and none comes to be.
pub proof fn law_nothing_else_is_written(
    entries: Entries,
    breakpoints: Seq<CacheBreakpoint>,
    least: int,
    now: int,
    key: Seq<char>,
)
    requires
        forall|j: int|
            0 <= j < breakpoints.len() ==> (#[trigger] breakpoints[j]).fingerprint@ != key
                || breakpoints[j].cumulative_tokens < least,
    ensures
        ({
            let after = written(entries, breakpoints_view(breakpoints), least, now);
            &&& after.contains_key(key) <==> entries.contains_key(key)
            &&& entries.contains_key(key) ==> after[key] == entries[key]
        }),
    decreases breakpoints.len(),
{
    let all = breakpoints_view(breakpoints);
    if breakpoints.len() > 0 {
        let front = breakpoints.drop_last();
        assert(all.drop_last() =~= breakpoints_view(front));
        assert(all.last() == breakpoints.last()@);
        assert forall|j: int| 0 <= j < front.len() implies (#[trigger] front[j]).fingerprint@ != key
            || front[j].cumulative_tokens < least by {
            assert(front[j] == breakpoints[j]);
        }
        law_nothing_else_is_written(entries, front, least, now, key);
        assert(breakpoints[breakpoints.len() - 1] == breakpoints.last());
    } else {
        assert(all =~= Seq::empty());
    }
}

/// An account loses entries only where it has more than 200, and then those that die first; what it
/// keeps it keeps unchanged.
pub proof fn law_first_to_die_go_first(
    entries: Entries,
    kept: Entries,
    gone: Seq<char>,
    stays: Seq<char>,
)
    requires
        trimmed(entries, kept),
        entries.dom().finite(),
    ensures
        kept.dom().finite(),
        kept.len() <= 200,
        entries.len() <= 200 ==> kept == entries,
        entries.len() > 200 ==> kept.len() == 200,
        kept.contains_key(stays) ==> entries.contains_key(stays) && kept[stays] == entries[stays],
        entries.contains_key(gone) && !kept.contains_key(gone) && kept.contains_key(stays)
            ==> entries[gone].expires_at <= entries[stays].expires_at,
{
    if entries.len() <= 200 {
        law_small_account_keeps_all(entries, kept);
    }
    if kept.contains_key(stays) {
        assert(kept.dom().contains(stays));
    }
    if entries.contains_key(gone) && !kept.contains_key(gone) && kept.contains_key(stays) {
        assert(entries[gone].expires_at <= entries[stays].expires_at);
    }
}

/// Noting a prompt writes an entry for each of its breakpoints that is large enough, as long as the
/// account stays within 200 entries, and keeps all other entries of the account.
pub proof fn law_note_adds_every_breakpoint(
    before: TrackerState,
    after: TrackerState,
    account: Seq<char>,
    profile: CacheProfile,
    least: int,
    now: Moment,
    i: int,
    key: Seq<char>,
)
    requires
        updated(before, after, account, profile, least, now.time()),
        entries_of(before, account).dom().finite(),
        entries_of(before, account).len() + profile.breakpoints@.len() <= 200,
        forall|m: int, n: int|
            0 <= m < n < profile.breakpoints@.len() ==> (
            #[trigger] profile.breakpoints@[m]).fingerprint@ != (
            #[trigger] profile.breakpoints@[n]).fingerprint@,
    ensures
        after.accounts.contains_key(account),
        0 <= i < profile.breakpoints@.len() && profile.breakpoints@[i].cumulative_tokens >= least
            ==> {
            let fingerprint = profile.breakpoints@[i].fingerprint@;
            &&& after.accounts[account].contains_key(fingerprint)
            &&& after.accounts[account][fingerprint].expires_at == now.time()
                + profile.breakpoints@[i].ttl * 1_000_000_000
            &&& after.accounts[account][fingerprint].ttl == profile.breakpoints@[i].ttl
        },
        (forall|j: int|
            0 <= j < profile.breakpoints@.len() ==> (
            #[trigger] profile.breakpoints@[j]).fingerprint@ != key
                || profile.breakpoints@[j].cumulative_tokens < least) ==> {
            let was = before.accounts.contains_key(account)
                && before.accounts[account].contains_key(key);
            &&& after.accounts[account].contains_key(key) <==> was
            &&& was ==> after.accounts[account][key] == before.accounts[account][key]
        },
{
    let breakpoints = breakpoints_view(profile.breakpoints@);
    let entries = entries_of(before, account);
    let all = written(entries, breakpoints, least, now.time());
    lemma_written_len(entries, breakpoints, least, now.time());
    law_first_to_die_go_first(all, after.accounts[account], key, key);
    if 0 <= i < profile.breakpoints@.len() && profile.breakpoints@[i].cumulative_tokens >= least {
        assert forall|j: int| i < j < profile.breakpoints@.len() implies (
        #[trigger] profile.breakpoints@[j]).fingerprint@ != profile.breakpoints@[i].fingerprint@
            || profile.breakpoints@[j].cumulative_tokens < least by {
            assert(profile.breakpoints@[i].fingerprint@ != profile.breakpoints@[j].fingerprint@);
        }
        law_every_large_breakpoint_is_written(
            entries,
            profile.breakpoints@,
            least,
            now,
            i,
        );
    }
    if forall|j: int|
        0 <= j < profile.breakpoints@.len() ==> (#[trigger] profile.breakpoints@[j]).fingerprint@
            != key || profile.breakpoints@[j].cumulative_tokens < least {
        law_nothing_else_is_written(entries, profile.breakpoints@, least, now.time(), key);
    }
}

/// What an account holds after a note is what the note wrote or what it held before, and no more
/// than 200 entries; a note changes no other account.
pub proof fn law_note_adds_nothing_else(
    before: TrackerState,
    after: TrackerState,
    account: Seq<char>,
    profile: CacheProfile,
    least: int,
    now: Moment,
    other: Seq<char>,
    key: Seq<char>,
)
    requires
        updated(before, after, account, profile, least, now.time()),
    ensures
        after.last_prune == before.last_prune,
        other != account ==> (after.accounts.contains_key(other) <==> before.accounts.contains_key(
            other,
        )),
        other != account && before.accounts.contains_key(other) ==> after.accounts[other]
            == before.accounts[other],
        after.accounts[account].len() <= 200,
        after.accounts[account].contains_key(key) && (forall|j: int|
            0 <= j < profile.breakpoints@.len() ==> (
            #[trigger] profile.breakpoints@[j]).fingerprint@ != key
                || profile.breakpoints@[j].cumulative_tokens < least)
            ==> before.accounts.contains_key(account) && before.accounts[account].contains_key(key)
            && after.accounts[account][key] == before.accounts[account][key],
{
    let entries = entries_of(before, account);
    let kept = after.accounts[account];
    if kept.contains_key(key) {
        assert(kept.dom().contains(key));
    }
    if forall|j: int|
        0 <= j < profile.breakpoints@.len() ==> (#[trigger] profile.breakpoints@[j]).fingerprint@
            != key || profile.breakpoints@[j].cumulative_tokens < least {
        law_nothing_else_is_written(entries, profile.breakpoints@, least, now.time(), key);
    }
}

/// What is cached of one prompt is read for another that shares it: where a breakpoint of the second
/// has the fingerprint of any breakpoint of the first, and the entry is kept and alive, at least
/// the tokens up to it are read, as far as they are cacheable.
pub proof fn law_shared_breakpoint_is_read(
    before: TrackerState,
    between: TrackerState,
    after: TrackerState,
    usage: CacheUsage,
    account: Seq<char>,
    first: CacheProfile,
    second: CacheProfile,
    least: int,
    noted: Moment,
    asked: Moment,
    i: int,
    k: int,
)
    requires
        second.well_formed(),
        entries_of(before, account).dom().finite(),
        entries_of(before, account).len() + first.breakpoints@.len() <= 200,
        forall|m: int, n: int|
            0 <= m < n < first.breakpoints@.len() ==> (
            #[trigger] first.breakpoints@[m]).fingerprint@ != (
            #[trigger] first.breakpoints@[n]).fingerprint@,
        updated(before, between, account, first, least, noted.time()),
        computed(between, after, usage, account, second, least, asked.time()),
        0 <= i < first.breakpoints@.len(),
        0 <= k < second.breakpoints@.len(),
        first.breakpoints@[i].fingerprint@ == second.breakpoints@[k].fingerprint@,
        first.breakpoints@[i].cumulative_tokens >= least,
        second.breakpoints@[k].cumulative_tokens >= least,
        asked.time() <= noted.time() + first.breakpoints@[i].ttl * 1_000_000_000,
        forall|m: int, n: int|
            0 <= m <= n < second.breakpoints@.len() ==> (
            #[trigger] second.breakpoints@[m]).cumulative_tokens <= (
            #[trigger] second.breakpoints@[n]).cumulative_tokens,
    ensures
        usage.cache_read_input_tokens >= second.breakpoints@[k].cumulative_tokens
            || usage.cache_read_input_tokens == cacheable_tokens(second),
{
    let t = asked.time();
    law_note_adds_every_breakpoint(
        before,
        between,
        account,
        first,
        least,
        noted,
        i,
        Seq::empty(),
    );
    assert(readable(between, account, second.breakpoints@[k], least, t));
    let last = lemma_some_readable_is_last(between, account, second.breakpoints@, least, t, k);
    law_last_readable_breakpoint_is_read(
        between,
        after,
        usage,
        account,
        second,
        least,
        t,
        last,
    );
}

/// Where a breakpoint is readable, one is the last that is.
proof fn lemma_some_readable_is_last(
    state: TrackerState,
    account: Seq<char>,
    breakpoints: Seq<CacheBreakpoint>,
    least: int,
    now: int,
    k: int,
) -> (last: int)
    requires
        0 <= k < breakpoints.len(),
        readable(state, account, breakpoints[k], least, now),
    ensures
        k <= last < breakpoints.len(),
        readable(state, account, breakpoints[last], least, now),
        forall|j: int|
            last < j < breakpoints.len() ==> !readable(
                state,
                account,
                #[trigger] breakpoints[j],
                least,
                now,
            ),
    decreases breakpoints.len() - k,
{
    if exists|j: int|
        k < j < breakpoints.len() && readable(
            state,
            account,
            #[trigger] breakpoints[j],
            least,
            now,
        ) {
        let j = choose|j: int|
            k < j < breakpoints.len() && readable(
                state,
                account,
                #[trigger] breakpoints[j],
                least,
                now,
            );
        lemma_some_readable_is_last(state, account, breakpoints, least, now, j)
    } else {
        k
    }
}

/// Without a profile, a breakpoint or an account nothing is reported and nothing is noted; else the
/// least cacheable prompt of the profile's model counts.
pub proof fn law_least_prompt_of_the_model_counts(
    before: TrackerState,
    after: TrackerState,
    usage: CacheUsage,
    account: Seq<char>,
    profile: Option<&CacheProfile>,
    now: int,
)
    ensures
        profile is None || profile->0.breakpoints@.len() == 0 || account.len() == 0 ==> {
            &&& computes(before, after, usage, account, profile, now) <==> after == before && usage
                == (CacheUsage {
                cache_creation_input_tokens: 0,
                cache_creation_5m_input_tokens: 0,
                cache_creation_1h_input_tokens: 0,
                cache_read_input_tokens: 0,
            })
            &&& updates(before, after, account, profile, now) <==> after == before
        },
        profile is Some && profile->0.breakpoints@.len() > 0 && account.len() > 0 ==> {
            let least = least_cacheable(profile->0.model@) as int;
            &&& computes(before, after, usage, account, profile, now) <==> computed(
                before,
                after,
                usage,
                account,
                *profile->0,
                least,
                now,
            )
            &&& updates(before, after, account, profile, now) <==> updated(
                before,
                after,
                account,
                *profile->0,
                least,
                now,
            )
        },
{
}

/// A moment counts in nanoseconds.
pub proof fn law_moments_count_in_nanoseconds(moment: Moment)
    ensures
        moment.time() == moment.seconds * 1_000_000_000 + moment.nanos,
{
}

/// A breakpoint stands for its fingerprint, its tokens and its life.
pub proof fn law_breakpoints_stand_for_themselves(breakpoints: Seq<CacheBreakpoint>, i: int)
    requires
        0 <= i < breakpoints.len(),
    ensures
        breakpoints_view(breakpoints).len() == breakpoints.len(),
        breakpoints_view(breakpoints)[i] == (Breakpoint {
            fingerprint: breakpoints[i].fingerprint@,
            cumulative_tokens: breakpoints[i].cumulative_tokens,
            ttl: breakpoints[i].ttl as int,
        }),
{
}

} // verus!
