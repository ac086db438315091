//! Replay protection: a nonce is accepted once within a span of time.
//!
//! The cache is in memory only: after a restart the replay window is open
//! again for a moment.

use std::time::Instant;
use vstd::prelude::*;
use vstd::string::*;

use crate::text;

verus! {

/// A reading of the monotonic clock.
#[verifier::external_type_specification]
#[verifier::external_body]
pub struct ExInstant(std::time::Instant);

/// `std::time::Instant::now`: a reading of the monotonic clock, of which
/// nothing is known.
#[verifier::external_body]
fn clock_reading() -> Instant {
    Instant::now()
}

/// `std::time::Instant::elapsed`, in nanoseconds: how long ago a reading was
/// taken, of which nothing is known.
#[verifier::external_body]
fn nanos_since(reading: &Instant) -> u128 {
    reading.elapsed().as_nanos()
}

/// How long ago `seen_at` was; nothing lies in the future.
pub open spec fn age(seen_at: int, now: int) -> int {
    if now >= seen_at {
        now - seen_at
    } else {
        0
    }
}

/// What is left of the remembered nonces once those are dropped that have been
/// remembered for `ttl`.
pub open spec fn swept(seen: Map<Seq<char>, int>, ttl: int, now: int) -> Map<Seq<char>, int> {
    seen.restrict(Set::new(|nonce: Seq<char>| seen.dom().contains(nonce) && age(seen[nonce], now) < ttl))
}

/// Whether a nonce is accepted: it is not among those still remembered.
pub open spec fn accepts(seen: Map<Seq<char>, int>, ttl: int, nonce: Seq<char>, now: int) -> bool {
    !swept(seen, ttl, now).dom().contains(nonce)
}

/// The remembered nonces once one has been checked: an accepted one is
/// remembered from now on, a rejected one is remembered from when it was.
pub open spec fn checked(seen: Map<Seq<char>, int>, ttl: int, nonce: Seq<char>, now: int) -> Map<Seq<char>, int> {
    if accepts(seen, ttl, nonce, now) {
        swept(seen, ttl, now).insert(nonce, now)
    } else {
        swept(seen, ttl, now)
    }
}

/// The nonces of a list of entries, and when each was seen.
pub open spec fn entries_map(entries: Seq<(String, u128)>) -> Map<Seq<char>, int>
    decreases entries.len(),
{
    if entries.len() == 0 {
        Map::empty()
    } else {
        entries_map(entries.drop_last()).insert(entries.last().0@, entries.last().1 as int)
    }
}

/// Whether no nonce stands in a list of entries twice.
pub open spec fn distinct(entries: Seq<(String, u128)>) -> bool {
    forall|i: int, j: int|
        #![trigger entries[i], entries[j]]
        0 <= i < j < entries.len() ==> entries[i].0@ != entries[j].0@
}

/// A nonce is known where an entry holds it.
proof fn lemma_entries_map_dom(entries: Seq<(String, u128)>, nonce: Seq<char>)
    ensures
        entries_map(entries).dom().contains(nonce) <==> exists|i: int|
            0 <= i < entries.len() && (#[trigger] entries[i]).0@ == nonce,
    decreases entries.len(),
{
    if entries.len() > 0 {
        let init = entries.drop_last();
        lemma_entries_map_dom(init, nonce);
        if entries_map(init).dom().contains(nonce) {
            let i = choose|i: int| 0 <= i < init.len() && (#[trigger] init[i]).0@ == nonce;
            assert(entries[i].0@ == nonce);
        }
        if entries.last().0@ == nonce {
            assert(entries[entries.len() - 1].0@ == nonce);
        }
        if exists|i: int| 0 <= i < entries.len() && (#[trigger] entries[i]).0@ == nonce {
            let i = choose|i: int| 0 <= i < entries.len() && (#[trigger] entries[i]).0@ == nonce;
            if i < init.len() {
                assert(init[i].0@ == nonce);
            }
        }
    }
}

/// Remembers nonces for a while, so that none is accepted twice meanwhile.
pub struct NonceCache {
    seen: Vec<(String, u128)>,
    ttl: u128,
    origin: Instant,
}

impl View for NonceCache {
    type V = Map<Seq<char>, int>;

    /// The remembered nonces and when each was seen, in nanoseconds.
    closed spec fn view(&self) -> Map<Seq<char>, int> {
        entries_map(self.seen@)
    }
}

impl NonceCache {
    #[verifier::type_invariant]
    spec fn well_formed(self) -> bool {
        distinct(self.seen@)
    }

    /// How long a nonce is remembered, in nanoseconds.
    pub closed spec fn ttl(&self) -> int {
        self.ttl as int
    }

    /// A cache that remembers each nonce for `ttl` nanoseconds.
    pub fn new(ttl: u128) -> (out: Self)
        ensures
            out@ == Map::<Seq<char>, int>::empty(),
            out.ttl() == ttl,
    {
        NonceCache { seen: Vec::new(), ttl, origin: clock_reading() }
    }

    /// Returns `true`, and records the nonce, if it has not been seen within
    /// the last `ttl`; returns `false` if it is a replay. Also drops expired
    /// entries, so that the cache does not grow without bound.
    pub fn check_and_record(&mut self, nonce: &str) -> (accepted: bool)
        ensures
            final(self).ttl() == old(self).ttl(),
            exists|now: u128|
                {
                    &&& accepted == accepts(old(self)@, old(self).ttl(), nonce@, now as int)
                    &&& final(self)@ == #[trigger] checked(old(self)@, old(self).ttl(), nonce@, now as int)
                },
            !old(self)@.dom().contains(nonce@) ==> accepted,
    {
        let now: u128 = nanos_since(&self.origin);
        self.check_and_record_at(nonce, now)
    }

    /// `check_and_record` at a given moment, in nanoseconds from any origin.
    pub fn check_and_record_at(&mut self, nonce: &str, now: u128) -> (accepted: bool)
        ensures
            accepted == accepts(old(self)@, old(self).ttl(), nonce@, now as int),
            final(self)@ == checked(old(self)@, old(self).ttl(), nonce@, now as int),
            final(self).ttl() == old(self).ttl(),
    {
        proof {
            use_type_invariant(&*self);
        }
        let ghost entries = self.seen@;
        let ghost ttl = self.ttl as int;
        let mut kept: Vec<(String, u128)> = Vec::new();
        let mut known: bool = false;
        let mut i: usize = 0;
        while i < self.seen.len()
            invariant
                i <= self.seen@.len(),
                self.seen@ == entries,
                ttl == self.ttl,
                self.ttl() == old(self).ttl(),
                distinct(entries),
                distinct(kept@),
                forall|k: int|
                    0 <= k < kept@.len() ==> exists|j: int|
                        0 <= j < i && (#[trigger] kept@[k]).0@ == (#[trigger] entries[j]).0@,
                entries_map(kept@) == swept(entries_map(entries.take(i as int)), ttl, now as int),
                known == entries_map(kept@).dom().contains(nonce@),
            decreases self.seen@.len() - i,
        {
            let seen_at: u128 = self.seen[i].1;
            let ghost before = entries.take(i as int);
            let ghost after = entries.take(i + 1);
            proof {
                assert(after.drop_last() =~= before);
                lemma_entries_map_dom(before, entries[i as int].0@);
                assert(!entries_map(before).dom().contains(entries[i as int].0@)) by {
                    if entries_map(before).dom().contains(entries[i as int].0@) {
                        let j = choose|j: int| 0 <= j < before.len() && (#[trigger] before[j]).0@ == entries[i as int].0@;
                        assert(entries[j].0@ == entries[i as int].0@);
                    }
                }
            }
            let elapsed: u128 = if now >= seen_at {
                now - seen_at
            } else {
                0
            };
            if elapsed < self.ttl {
                let ghost old_kept = kept@;
                if text::same_text(self.seen[i].0.as_str(), nonce) {
                    known = true;
                }
                kept.push((self.seen[i].0.clone(), seen_at));
                proof {
                    assert(kept@.drop_last() =~= old_kept);
                    assert forall|a: int, b: int|
                        #![trigger kept@[a], kept@[b]]
                        0 <= a < b < kept@.len() implies kept@[a].0@ != kept@[b].0@ by {
                        if b == old_kept.len() {
                            assert(kept@[a] == old_kept[a]);
                            let j = choose|j: int| 0 <= j < i && old_kept[a].0@ == (#[trigger] entries[j]).0@;
                            assert(entries[j].0@ != entries[i as int].0@);
                        } else {
                            assert(kept@[a] == old_kept[a]);
                            assert(kept@[b] == old_kept[b]);
                        }
                    }
                    assert forall|k: int| 0 <= k < kept@.len() implies exists|j: int|
                        0 <= j < i + 1 && (#[trigger] kept@[k]).0@ == (#[trigger] entries[j]).0@ by {
                        if k < old_kept.len() {
                            assert(kept@[k] == old_kept[k]);
                            let j = choose|j: int| 0 <= j < i && old_kept[k].0@ == (#[trigger] entries[j]).0@;
                            assert(kept@[k].0@ == entries[j].0@);
                        } else {
                            assert(kept@[k].0@ == entries[i as int].0@);
                        }
                    }
                    assert(entries_map(kept@) =~= swept(entries_map(after), ttl, now as int));
                }
            } else {
                assert(entries_map(kept@) =~= swept(entries_map(after), ttl, now as int));
            }
            i = i + 1;
        }
        proof {
            assert(entries.take(i as int) =~= entries);
        }
        if !known {
            let ghost old_kept = kept@;
            kept.push((nonce.to_owned(), now));
            proof {
                assert(kept@.drop_last() =~= old_kept);
                lemma_entries_map_dom(old_kept, nonce@);
                assert forall|a: int, b: int|
                    #![trigger kept@[a], kept@[b]]
                    0 <= a < b < kept@.len() implies kept@[a].0@ != kept@[b].0@ by {
                    assert(kept@[a] == old_kept[a]);
                    if b < old_kept.len() {
                        assert(kept@[b] == old_kept[b]);
                    }
                }
            }
        }
        self.seen = kept;
        !known
    }
}

/// Checking nonces one after the other, each at its moment.
pub open spec fn after_checks(
    seen: Map<Seq<char>, int>,
    ttl: int,
    checks: Seq<(Seq<char>, int)>,
) -> Map<Seq<char>, int>
    decreases checks.len(),
{
    if checks.len() == 0 {
        seen
    } else {
        checked(after_checks(seen, ttl, checks.drop_last()), ttl, checks.last().0, checks.last().1)
    }
}

/// A nonce stays remembered, as of when it was seen, through any checks that
/// are made before its time is up.
pub proof fn law_nonce_stays_remembered(
    seen: Map<Seq<char>, int>,
    ttl: int,
    nonce: Seq<char>,
    checks: Seq<(Seq<char>, int)>,
)
    requires
        seen.dom().contains(nonce),
        forall|i: int| 0 <= i < checks.len() ==> age(seen[nonce], (#[trigger] checks[i]).1) < ttl,
    ensures
        after_checks(seen, ttl, checks).dom().contains(nonce),
        after_checks(seen, ttl, checks)[nonce] == seen[nonce],
    decreases checks.len(),
{
    if checks.len() > 0 {
        let init = checks.drop_last();
        assert forall|i: int| 0 <= i < init.len() implies age(seen[nonce], (#[trigger] init[i]).1) < ttl by {
            assert(init[i] == checks[i]);
        }
        law_nonce_stays_remembered(seen, ttl, nonce, init);
        assert(checks.last() == checks[checks.len() - 1]);
    }
}

/// A nonce is accepted once only: after it has been accepted it is refused
/// until its time is up, whatever other nonces are checked in between; and
/// once its time is up it is accepted again.
pub proof fn law_nonce_accepted_once(
    seen: Map<Seq<char>, int>,
    ttl: int,
    nonce: Seq<char>,
    first: int,
    between: Seq<(Seq<char>, int)>,
    again: int,
)
    requires
        accepts(seen, ttl, nonce, first),
        forall|i: int| 0 <= i < between.len() ==> age(first, (#[trigger] between[i]).1) < ttl,
    ensures
        accepts(after_checks(checked(seen, ttl, nonce, first), ttl, between), ttl, nonce, again) <==> age(first, again)
            >= ttl,
{
    let recorded = checked(seen, ttl, nonce, first);
    law_nonce_stays_remembered(recorded, ttl, nonce, between);
}

/// Whether the check at index `i` of a history that starts with nothing
/// remembered accepts its nonce.
pub open spec fn accepted_at(ttl: int, history: Seq<(Seq<char>, int)>, i: int) -> bool {
    accepts(
        after_checks(Map::empty(), ttl, history.take(i)),
        ttl,
        history[i].0,
        history[i].1,
    )
}

/// Whether the moments of a history follow one another.
pub open spec fn in_order(history: Seq<(Seq<char>, int)>) -> bool {
    forall|i: int, j: int|
        #![trigger history[i], history[j]]
        0 <= i < j < history.len() ==> history[i].1 <= history[j].1
}

/// Whether the check at index `j` accepted a nonce less than `ttl` before `now`.
pub open spec fn recently_accepted(
    ttl: int,
    history: Seq<(Seq<char>, int)>,
    j: int,
    nonce: Seq<char>,
    now: int,
) -> bool {
    &&& history[j].0 == nonce
    &&& accepted_at(ttl, history, j)
    &&& age(history[j].1, now) < ttl
}

/// What is remembered after the first `n` checks was accepted by one of them, at
/// the moment that is remembered.
proof fn lemma_remembered_was_accepted(ttl: int, history: Seq<(Seq<char>, int)>, n: int, nonce: Seq<char>)
    requires
        0 <= n <= history.len(),
        after_checks(Map::empty(), ttl, history.take(n)).dom().contains(nonce),
    ensures
        exists|j: int|
            0 <= j < n && (#[trigger] history[j]).0 == nonce && accepted_at(ttl, history, j) && history[j].1
                == after_checks(Map::empty(), ttl, history.take(n))[nonce],
    decreases n,
{
    if n > 0 {
        let before = after_checks(Map::empty(), ttl, history.take(n - 1));
        let last = history[n - 1];
        assert(history.take(n).drop_last() =~= history.take(n - 1));
        assert(history.take(n).last() == last);
        if last.0 == nonce && accepts(before, ttl, nonce, last.1) {
            assert(accepted_at(ttl, history, n - 1));
        } else {
            assert(before.dom().contains(nonce));
            lemma_remembered_was_accepted(ttl, history, n - 1, nonce);
        }
    }
}

/// What a check accepted is remembered after the first `n` checks, as of that
/// moment, if its time was not up at the last of them.
proof fn lemma_accepted_is_remembered(ttl: int, history: Seq<(Seq<char>, int)>, j: int, n: int)
    requires
        in_order(history),
        0 <= j < n <= history.len(),
        accepted_at(ttl, history, j),
        age(history[j].1, history[n - 1].1) < ttl,
    ensures
        after_checks(Map::empty(), ttl, history.take(n)).dom().contains(history[j].0),
        after_checks(Map::empty(), ttl, history.take(n))[history[j].0] == history[j].1,
    decreases n,
{
    assert(history.take(n).drop_last() =~= history.take(n - 1));
    assert(history.take(n).last() == history[n - 1]);
    if j < n - 1 {
        assert(history[n - 2].1 <= history[n - 1].1);
        assert(j == n - 2 || history[j].1 <= history[n - 2].1);
        lemma_accepted_is_remembered(ttl, history, j, n - 1);
    }
}

/// Over any history of checks whose moments follow one another, a nonce is
/// accepted if and only if no earlier check accepted it within the span of time
/// for which it is remembered.
pub proof fn law_accepted_iff_not_recently(ttl: int, history: Seq<(Seq<char>, int)>, i: int)
    requires
        in_order(history),
        0 <= i < history.len(),
    ensures
        accepted_at(ttl, history, i) <==> !exists|j: int|
            0 <= j < i && #[trigger] recently_accepted(ttl, history, j, history[i].0, history[i].1),
{
    let nonce = history[i].0;
    let now = history[i].1;
    let seen = after_checks(Map::empty(), ttl, history.take(i));
    if !accepted_at(ttl, history, i) {
        lemma_remembered_was_accepted(ttl, history, i, nonce);
        let j = choose|j: int|
            0 <= j < i && (#[trigger] history[j]).0 == nonce && accepted_at(ttl, history, j) && history[j].1
                == seen[nonce];
        assert(recently_accepted(ttl, history, j, nonce, now));
    }
    if exists|j: int| 0 <= j < i && #[trigger] recently_accepted(ttl, history, j, nonce, now) {
        let j = choose|j: int| 0 <= j < i && #[trigger] recently_accepted(ttl, history, j, nonce, now);
        assert(history[i - 1].1 <= history[i].1);
        assert(j == i - 1 || history[j].1 <= history[i - 1].1);
        lemma_accepted_is_remembered(ttl, history, j, i);
    }
}

/// Over any history of checks whose moments follow one another, a nonce is accepted
/// if and only if no check of the same nonce was accepted less than `ttl` before.
pub proof fn law_accepted_once_within_its_time(ttl: int, history: Seq<(Seq<char>, int)>, i: int)
    requires
        in_order(history),
        0 <= i < history.len(),
    ensures
        accepted_at(ttl, history, i) <==> !exists|j: int|
            {
                &&& 0 <= j < i
                &&& (#[trigger] history[j]).0 == history[i].0
                &&& accepted_at(ttl, history, j)
                &&& history[i].1 - history[j].1 < ttl
            },
{
    law_accepted_iff_not_recently(ttl, history, i);
    let nonce = history[i].0;
    let now = history[i].1;
    if exists|j: int| 0 <= j < i && #[trigger] recently_accepted(ttl, history, j, nonce, now) {
        let j = choose|j: int| 0 <= j < i && #[trigger] recently_accepted(ttl, history, j, nonce, now);
        assert(history[j].1 <= history[i].1);
        assert(history[j].0 == history[i].0);
    }
    if exists|j: int|
        {
            &&& 0 <= j < i
            &&& (#[trigger] history[j]).0 == history[i].0
            &&& accepted_at(ttl, history, j)
            &&& history[i].1 - history[j].1 < ttl
        } {
        let j = choose|j: int|
            {
                &&& 0 <= j < i
                &&& (#[trigger] history[j]).0 == history[i].0
                &&& accepted_at(ttl, history, j)
                &&& history[i].1 - history[j].1 < ttl
            };
        assert(history[j].1 <= history[i].1);
        assert(recently_accepted(ttl, history, j, nonce, now));
    }
}

/// A check tells whether the nonce is remembered for less than `ttl`; what is
/// remembered for longer is forgotten, an accepted nonce is remembered as of now,
/// and every other stays as it was.
pub proof fn law_check_looks_at_the_last_time(
    seen: Map<Seq<char>, int>,
    ttl: int,
    nonce: Seq<char>,
    now: int,
    other: Seq<char>,
)
    requires
        forall|n: Seq<char>| #[trigger] seen.contains_key(n) ==> seen[n] <= now,
    ensures
        accepts(seen, ttl, nonce, now) <==> !(seen.contains_key(nonce) && now - seen[nonce] < ttl),
        accepts(seen, ttl, nonce, now) ==> checked(seen, ttl, nonce, now).contains_key(nonce) && checked(
            seen,
            ttl,
            nonce,
            now,
        )[nonce] == now,
        other != nonce || !accepts(seen, ttl, nonce, now) ==> {
            &&& checked(seen, ttl, nonce, now).contains_key(other) <==> seen.contains_key(other) && now - seen[other]
                < ttl
            &&& checked(seen, ttl, nonce, now).contains_key(other) ==> checked(seen, ttl, nonce, now)[other]
                == seen[other]
        },
{
    assert(seen.contains_key(nonce) ==> seen[nonce] <= now);
    assert(seen.contains_key(other) ==> seen[other] <= now);
}

} // verus!
