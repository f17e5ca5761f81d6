//! Which sessions are closed for being idle or too many.
use vstd::prelude::*;

use crate::search::texts;
use crate::table::{drop_time, get_time, new_times, no_times, put_time, time_names, times};

verus! {

/// When each session was last used.
pub struct DashTimestamps {
    pub seen: dashmap::DashMap<String, u64>,
}

impl View for DashTimestamps {
    type V = Map<Seq<char>, u64>;

    open spec fn view(&self) -> Map<Seq<char>, u64> {
        times(self.seen)
    }
}

/// How long ago something was; nothing is in the future.
pub open spec fn age(seen: u64, now: u64) -> u64 {
    if now >= seen {
        (now - seen) as u64
    } else {
        0
    }
}

pub open spec fn age_of(seen: Map<Seq<char>, u64>, name: Seq<char>, now: u64) -> Option<u64> {
    if seen.contains_key(name) {
        Some(age(seen[name], now))
    } else {
        None
    }
}

impl DashTimestamps {
    pub fn new() -> (table: DashTimestamps)
        ensures
            table@ == no_times(),
    {
        DashTimestamps { seen: new_times() }
    }

    pub fn touch(&mut self, name: &str, now: u64)
        ensures
            final(self)@ == old(self)@.insert(name@, now),
    {
        put_time(&mut self.seen, name.to_owned(), now);
    }

    pub fn touch_if_missing(&mut self, name: &str, now: u64)
        ensures
            final(self)@ == if old(self)@.contains_key(name@) {
                old(self)@
            } else {
                old(self)@.insert(name@, now)
            },
    {
        if get_time(&self.seen, name).is_none() {
            put_time(&mut self.seen, name.to_owned(), now);
        }
    }

    pub fn age(&self, name: &str, now: u64) -> (age: Option<u64>)
        ensures
            age == age_of(self@, name@, now),
    {
        match get_time(&self.seen, name) {
            Some(seen) => Some(
                if now >= seen {
                    now - seen
                } else {
                    0
                },
            ),
            None => None,
        }
    }

    pub fn remove(&mut self, name: &str)
        ensures
            final(self)@ == old(self)@.remove(name@),
    {
        drop_time(&mut self.seen, name);
    }

    /// Forget what is not among the live names.
    pub fn retain(&mut self, live: &Vec<String>)
        ensures
            final(self)@ == old(self)@.restrict(texts(live@).to_set()),
    {
        let ghost before = self@;
        let names = time_names(&self.seen);
        let ghost all = texts(names@);
        let mut i: usize = 0;
        while i < names.len()
            invariant
                i <= names@.len(),
                all == texts(names@),
                all.no_duplicates(),
                all.to_set() == before.dom(),
                self@.submap_of(before),
                forall|k: Seq<char>|
                    #[trigger] before.contains_key(k) ==> self@.contains_key(k) == !(exists|j: int|
                        0 <= j < i && #[trigger] all[j] == k && !texts(live@).contains(k)),
            decreases names.len() - i,
        {
            let ghost held = self@;
            if !is_listed(live, names[i].as_str()) {
                drop_time(&mut self.seen, names[i].as_str());
            }
            proof {
                assert(all[i as int] == names@[i as int]@);
                assert forall|k: Seq<char>| #[trigger] before.contains_key(k) implies self@.contains_key(
                    k,
                ) == !(exists|j: int|
                    0 <= j < i + 1 && #[trigger] all[j] == k && !texts(live@).contains(k)) by {
                    if k == all[i as int] {
                        if !texts(live@).contains(k) {
                            assert(all[i as int] == k);
                        }
                    }
                }
            }
            i += 1;
        }
        proof {
            assert(self@ =~= before.restrict(texts(live@).to_set())) by {
                assert forall|k: Seq<char>| self@.contains_key(k) == before.restrict(
                    texts(live@).to_set(),
                ).contains_key(k) by {
                    if before.contains_key(k) {
                        assert(all.to_set().contains(k));
                        assert(all.contains(k));
                        let j = choose|j: int| 0 <= j < all.len() && all[j] == k;
                        assert(all[j] == k);
                    }
                }
            }
        }
    }
}

fn is_listed(names: &Vec<String>, name: &str) -> (r: bool)
    ensures
        r == texts(names@).contains(name@),
{
    let mut i: usize = 0;
    while i < names.len()
        invariant
            i <= names@.len(),
            forall|j: int| 0 <= j < i ==> texts(names@)[j] != name@,
        decreases names.len() - i,
    {
        if names[i].as_str().eq(name) {
            proof {
                assert(texts(names@)[i as int] == name@);
            }
            return true;
        }
        i += 1;
    }
    false
}

/// The times of the live sessions; one not seen before is seen now.
pub open spec fn refreshed(seen: Map<Seq<char>, u64>, ids: Seq<Seq<char>>, now: u64) -> Map<
    Seq<char>,
    u64,
>
    decreases ids.len(),
{
    if ids.len() == 0 {
        seen
    } else {
        let before = refreshed(seen, ids.drop_last(), now);
        if before.contains_key(ids.last()) {
            before
        } else {
            before.insert(ids.last(), now)
        }
    }
}

/// The sessions that were not used for `idle`, in their order.
pub open spec fn idle_sessions(
    seen: Map<Seq<char>, u64>,
    ids: Seq<Seq<char>>,
    now: u64,
    idle: u64,
) -> Seq<Seq<char>>
    decreases ids.len(),
{
    if ids.len() == 0 {
        Seq::empty()
    } else {
        let before = idle_sessions(seen, ids.drop_last(), now, idle);
        if age(seen[ids.last()], now) >= idle {
            before.push(ids.last())
        } else {
            before
        }
    }
}

/// The other sessions, in their order.
pub open spec fn busy_sessions(
    seen: Map<Seq<char>, u64>,
    ids: Seq<Seq<char>>,
    now: u64,
    idle: u64,
) -> Seq<Seq<char>>
    decreases ids.len(),
{
    if ids.len() == 0 {
        Seq::empty()
    } else {
        let before = busy_sessions(seen, ids.drop_last(), now, idle);
        if age(seen[ids.last()], now) >= idle {
            before
        } else {
            before.push(ids.last())
        }
    }
}

/// The first of the sessions that were not used for longest.
pub open spec fn oldest(seen: Map<Seq<char>, u64>, ids: Seq<Seq<char>>, now: u64) -> int
    decreases ids.len(),
{
    if ids.len() <= 1 {
        0
    } else {
        let before = oldest(seen, ids.drop_last(), now);
        if age(seen[ids.last()], now) > age(seen[ids[before]], now) {
            ids.len() - 1
        } else {
            before
        }
    }
}

/// `count` sessions, each time the one that was not used for longest.
pub open spec fn take_oldest(
    seen: Map<Seq<char>, u64>,
    ids: Seq<Seq<char>>,
    now: u64,
    count: int,
) -> Seq<Seq<char>>
    decreases count,
{
    if count <= 0 || ids.len() == 0 {
        Seq::empty()
    } else {
        let first = oldest(seen, ids, now);
        seq![ids[first]] + take_oldest(seen, ids.remove(first), now, count - 1)
    }
}

/// The sessions to be closed: those that are idle and, where more than
/// `maximum` would stay, the ones not used for longest.
pub open spec fn closed_sessions(
    seen: Map<Seq<char>, u64>,
    ids: Seq<Seq<char>>,
    now: u64,
    idle: u64,
    maximum: int,
) -> Seq<Seq<char>> {
    let expired = idle_sessions(seen, ids, now, idle);
    if ids.len() - expired.len() > maximum {
        expired + take_oldest(
            seen,
            busy_sessions(seen, ids, now, idle),
            now,
            ids.len() - expired.len() - maximum,
        )
    } else {
        expired
    }
}

/// The times that are kept once some sessions were closed.
pub open spec fn without_names(seen: Map<Seq<char>, u64>, names: Seq<Seq<char>>) -> Map<
    Seq<char>,
    u64,
>
    decreases names.len(),
{
    if names.len() == 0 {
        seen
    } else {
        without_names(seen, names.drop_last()).remove(names.last())
    }
}

/// Every session that is live has a time.
proof fn lemma_refreshed(seen: Map<Seq<char>, u64>, ids: Seq<Seq<char>>, now: u64)
    ensures
        forall|i: int|
            0 <= i < ids.len() ==> refreshed(seen, ids, now).contains_key(#[trigger] ids[i]),
    decreases ids.len(),
{
    if ids.len() > 0 {
        lemma_refreshed(seen, ids.drop_last(), now);
        assert forall|i: int| 0 <= i < ids.len() implies refreshed(seen, ids, now).contains_key(
            #[trigger] ids[i],
        ) by {
            if i < ids.len() - 1 {
                assert(ids.drop_last()[i] == ids[i]);
            }
        }
    }
}

pub proof fn lemma_oldest(seen: Map<Seq<char>, u64>, ids: Seq<Seq<char>>, now: u64)
    requires
        ids.len() > 0,
    ensures
        0 <= oldest(seen, ids, now) < ids.len(),
        forall|i: int|
            0 <= i < ids.len() ==> age(seen[#[trigger] ids[i]], now) <= age(
                seen[ids[oldest(seen, ids, now)]],
                now,
            ),
    decreases ids.len(),
{
    if ids.len() > 1 {
        let rest = ids.drop_last();
        lemma_oldest(seen, rest, now);
        assert forall|i: int| 0 <= i < ids.len() implies age(seen[#[trigger] ids[i]], now) <= age(
            seen[ids[oldest(seen, ids, now)]],
            now,
        ) by {
            if i < rest.len() {
                assert(rest[i] == ids[i]);
            }
        }
    }
}

impl DashTimestamps {
    fn find_oldest(&self, ids: &Vec<String>, now: u64) -> (at: usize)
        requires
            ids@.len() > 0,
            forall|i: int|
                0 <= i < ids@.len() ==> self@.contains_key((#[trigger] texts(ids@)[i])),
        ensures
            at == oldest(self@, texts(ids@), now),
            at < ids@.len(),
    {
        let ghost all = texts(ids@);
        let mut at: usize = 0;
        let mut best: u64 = self.known_age(ids[0].as_str(), now);
        let mut i: usize = 1;
        proof {
            assert(all[0] == ids@[0]@);
            assert(self@.contains_key(all[0]));
        }
        while i < ids.len()
            invariant
                1 <= i <= ids@.len(),
                at < i,
                all == texts(ids@),
                forall|j: int| 0 <= j < ids@.len() ==> self@.contains_key((#[trigger] all[j])),
                at == oldest(self@, all.take(i as int), now),
                best == age(self@[all[at as int]], now),
            decreases ids.len() - i,
        {
            proof {
                assert(all.take(i + 1).drop_last() =~= all.take(i as int));
                assert(all.take(i + 1).last() == all[i as int]);
                assert(all[i as int] == ids@[i as int]@);
                assert(self@.contains_key(all[i as int]));
            }
            let next = self.known_age(ids[i].as_str(), now);
            if next > best {
                at = i;
                best = next;
            }
            i += 1;
        }
        proof {
            assert(all.take(i as int) =~= all);
        }
        at
    }

    fn known_age(&self, name: &str, now: u64) -> (a: u64)
        ensures
            self@.contains_key(name@) ==> a == age(self@[name@], now),
    {
        match self.age(name, now) {
            Some(a) => a,
            None => 0,
        }
    }

    /// Bring the times up to date with the live sessions, and say which of them
    /// are to be closed. Their times are forgotten.
    pub fn maintain(&mut self, ids: &Vec<String>, now: u64, idle: u64, maximum: usize) -> (closed:
        Vec<String>)
        ensures
            ({
                let live = texts(ids@);
                let seen = refreshed(old(self)@.restrict(live.to_set()), live, now);
                &&& texts(closed@) == closed_sessions(seen, live, now, idle, maximum as int)
                &&& final(self)@ == without_names(seen, texts(closed@))
            }),
    {
        let ghost live = texts(ids@);
        let ghost before = self@;
        self.retain(ids);
        let ghost kept = self@;
        let mut i: usize = 0;
        proof {
            assert(live.take(0) =~= Seq::empty());
        }
        while i < ids.len()
            invariant
                i <= ids@.len(),
                live == texts(ids@),
                kept == before.restrict(live.to_set()),
                self@ == refreshed(kept, live.take(i as int), now),
            decreases ids.len() - i,
        {
            proof {
                assert(live.take(i + 1).drop_last() =~= live.take(i as int));
                assert(live.take(i + 1).last() == ids@[i as int]@);
            }
            self.touch_if_missing(ids[i].as_str(), now);
            i += 1;
        }
        let ghost seen = self@;
        proof {
            assert(live.take(i as int) =~= live);
            lemma_refreshed(kept, live, now);
        }
        let mut closed: Vec<String> = Vec::new();
        let mut busy: Vec<String> = Vec::new();
        let mut k: usize = 0;
        proof {
            assert(texts(closed@) =~= Seq::empty());
            assert(texts(busy@) =~= Seq::empty());
            assert(live.take(0) =~= Seq::empty());
        }
        while k < ids.len()
            invariant
                k <= ids@.len(),
                live == texts(ids@),
                self@ == seen,
                forall|j: int| 0 <= j < live.len() ==> seen.contains_key((#[trigger] live[j])),
                texts(closed@) == idle_sessions(seen, live.take(k as int), now, idle),
                texts(busy@) == busy_sessions(seen, live.take(k as int), now, idle),
                forall|j: int|
                    0 <= j < busy@.len() ==> seen.contains_key((#[trigger] texts(busy@)[j])),
                closed@.len() + busy@.len() == k,
            decreases ids.len() - k,
        {
            proof {
                assert(live.take(k + 1).drop_last() =~= live.take(k as int));
                assert(live.take(k + 1).last() == ids@[k as int]@);
                assert(live[k as int] == ids@[k as int]@);
                assert(seen.contains_key(live[k as int]));
            }
            let ghost closed_before = texts(closed@);
            let ghost busy_before = texts(busy@);
            if self.known_age(ids[k].as_str(), now) >= idle {
                closed.push(ids[k].clone());
                proof {
                    assert(texts(closed@) =~= closed_before.push(ids@[k as int]@));
                }
            } else {
                busy.push(ids[k].clone());
                proof {
                    assert(texts(busy@) =~= busy_before.push(ids@[k as int]@));
                    assert forall|j: int| 0 <= j < busy@.len() implies seen.contains_key(
                        (#[trigger] texts(busy@)[j]),
                    ) by {
                        if j < busy_before.len() {
                            assert(texts(busy@)[j] == busy_before[j]);
                        }
                    }
                }
            }
            k += 1;
        }
        proof {
            assert(live.take(k as int) =~= live);
        }
        let ghost expired = texts(closed@);
        if ids.len() - closed.len() > maximum {
            let ghost candidates = texts(busy@);
            let total: usize = ids.len() - closed.len() - maximum;
            let mut left: usize = total;
            proof {
                assert(expired + take_oldest(seen, candidates, now, total as int)
                    =~= texts(closed@) + take_oldest(seen, texts(busy@), now, left as int));
            }
            while left > 0
                invariant
                    left <= total,
                    left <= busy@.len(),
                    self@ == seen,
                    forall|j: int|
                        0 <= j < busy@.len() ==> seen.contains_key((#[trigger] texts(busy@)[j])),
                    expired + take_oldest(seen, candidates, now, total as int) == texts(closed@)
                        + take_oldest(seen, texts(busy@), now, left as int),
                decreases left,
            {
                let ghost closed_before = texts(closed@);
                let ghost busy_before = texts(busy@);
                let at = self.find_oldest(&busy, now);
                let id = busy.remove(at);
                let ghost shown = id@;
                closed.push(id);
                left -= 1;
                proof {
                    assert(texts(closed@) =~= closed_before.push(shown));
                    assert(texts(busy@) =~= busy_before.remove(at as int));
                    let rest = take_oldest(seen, texts(busy@), now, left as int);
                    assert(closed_before + (seq![busy_before[at as int]] + rest) =~= texts(closed@)
                        + rest);
                    assert forall|j: int| 0 <= j < busy@.len() implies seen.contains_key(
                        (#[trigger] texts(busy@)[j]),
                    ) by {
                        let was = if j < at {
                            j
                        } else {
                            j + 1
                        };
                        assert(texts(busy@)[j] == busy_before[was]);
                    }
                }
            }
            proof {
                assert(texts(closed@) + take_oldest(seen, texts(busy@), now, 0) =~= texts(closed@));
            }
        }
        let ghost all_closed = texts(closed@);
        let mut m: usize = 0;
        proof {
            assert(all_closed.take(0) =~= Seq::empty());
        }
        while m < closed.len()
            invariant
                m <= closed@.len(),
                all_closed == texts(closed@),
                self@ == without_names(seen, all_closed.take(m as int)),
            decreases closed.len() - m,
        {
            proof {
                assert(all_closed.take(m + 1).drop_last() =~= all_closed.take(m as int));
                assert(all_closed.take(m + 1).last() == closed@[m as int]@);
            }
            self.remove(closed[m].as_str());
            m += 1;
        }
        proof {
            assert(all_closed.take(m as int) =~= all_closed);
        }
        closed
    }
}

pub proof fn lemma_partition(
    seen: Map<Seq<char>, u64>,
    ids: Seq<Seq<char>>,
    now: u64,
    idle: u64,
)
    ensures
        idle_sessions(seen, ids, now, idle).len() + busy_sessions(seen, ids, now, idle).len()
            == ids.len(),
    decreases ids.len(),
{
    if ids.len() > 0 {
        lemma_partition(seen, ids.drop_last(), now, idle);
    }
}

pub proof fn lemma_take_oldest_len(
    seen: Map<Seq<char>, u64>,
    ids: Seq<Seq<char>>,
    now: u64,
    count: int,
)
    requires
        0 <= count <= ids.len(),
    ensures
        take_oldest(seen, ids, now, count).len() == count,
    decreases count,
{
    if count > 0 {
        lemma_oldest(seen, ids, now);
        lemma_take_oldest_len(seen, ids.remove(oldest(seen, ids, now)), now, count - 1);
    }
}

/// After maintenance no more than `maximum` sessions stay open, and none that
/// is idle.
pub proof fn sessions_stay_within_limit(
    seen: Map<Seq<char>, u64>,
    ids: Seq<Seq<char>>,
    now: u64,
    idle: u64,
    maximum: int,
)
    requires
        maximum >= 0,
    ensures
        ids.len() - closed_sessions(seen, ids, now, idle, maximum).len() <= maximum,
        closed_sessions(seen, ids, now, idle, maximum).len() <= ids.len(),
        idle_sessions(seen, ids, now, idle).is_prefix_of(
            closed_sessions(seen, ids, now, idle, maximum),
        ),
        idle_sessions(seen, ids, now, idle).len() + maximum >= ids.len() ==> closed_sessions(
            seen,
            ids,
            now,
            idle,
            maximum,
        ) == idle_sessions(seen, ids, now, idle),
{
    lemma_partition(seen, ids, now, idle);
    let expired = idle_sessions(seen, ids, now, idle);
    if ids.len() - expired.len() > maximum {
        lemma_take_oldest_len(
            seen,
            busy_sessions(seen, ids, now, idle),
            now,
            ids.len() - expired.len() - maximum,
        );
    }
}

/// Of the sessions that are not idle, the first to be closed was not used for
/// longest.
pub proof fn oldest_session_is_closed_first(
    seen: Map<Seq<char>, u64>,
    ids: Seq<Seq<char>>,
    now: u64,
    count: int,
    i: int,
)
    requires
        0 < count <= ids.len(),
        0 <= i < ids.len(),
    ensures
        age(seen[ids[i]], now) <= age(seen[take_oldest(seen, ids, now, count)[0]], now),
{
    lemma_oldest(seen, ids, now);
}

}
