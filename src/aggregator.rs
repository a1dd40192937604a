use vstd::prelude::*;
use crate::storage::AppUsageRecord;

verus! {

/// Seconds between two samples of one process within which they count as
/// one unbroken span of use.
pub const CONTINUITY_TOLERANCE: u64 = 2;

/// Running usage of one process: accumulated seconds and the instant
/// (Unix seconds) at which it was last seen in the foreground.
#[derive(Debug)]
pub struct AppUsage {
    pub name: String,
    pub total_time: u64,
    pub last_active: u64,
}

/// The mathematical content of an `AppUsage`.
pub ghost struct AppUsageView {
    pub name: Seq<char>,
    pub total_time: u64,
    pub last_active: u64,
}

impl View for AppUsage {
    type V = AppUsageView;

    open spec fn view(&self) -> AppUsageView {
        AppUsageView { name: self.name@, total_time: self.total_time, last_active: self.last_active }
    }
}

impl AppUsage {
    /// A deep copy that shares no storage with `self`.
    pub fn duplicate(&self) -> (r: AppUsage)
        ensures
            r@ == self@,
    {
        AppUsage { name: self.name.clone(), total_time: self.total_time, last_active: self.last_active }
    }
}

/// Where the entry named `name` stands in `s`, searching from the back.
pub open spec fn position_of(s: Seq<AppUsageView>, name: Seq<char>) -> Option<nat>
    decreases s.len(),
{
    if s.len() == 0 {
        None
    } else if s.last().name == name {
        Some((s.len() - 1) as nat)
    } else {
        position_of(s.drop_last(), name)
    }
}

/// No two entries share a name.
pub open spec fn names_unique(s: Seq<AppUsageView>) -> bool {
    forall|i: int, j: int| 0 <= i < j < s.len() ==> s[i].name != s[j].name
}

/// Whether a sample at `now` continues the span last seen at `last`.
pub open spec fn continues(last: u64, now: u64) -> bool {
    last <= now && now - last <= CONTINUITY_TOLERANCE
}

/// `u` after a sample at `now`: one more second when the sample continues
/// the span (saturating at `u64::MAX`), and `now` as the last-seen instant.
pub open spec fn advance(u: AppUsageView, now: u64) -> AppUsageView {
    AppUsageView {
        name: u.name,
        total_time: if continues(u.last_active, now) && u.total_time < u64::MAX {
            (u.total_time + 1) as u64
        } else {
            u.total_time
        },
        last_active: now,
    }
}

/// The table after one sample of `name` at `now`: the entry is advanced, or
/// a new one is appended that has been active for one second.
pub open spec fn record_step(s: Seq<AppUsageView>, name: Seq<char>, now: u64) -> Seq<AppUsageView> {
    match position_of(s, name) {
        Some(k) => s.update(k as int, advance(s[k as int], now)),
        None => s.push(AppUsageView { name, total_time: 1, last_active: now }),
    }
}

/// The table after samples of `name` at each instant of `times`, in order.
pub open spec fn replay(s: Seq<AppUsageView>, name: Seq<char>, times: Seq<u64>) -> Seq<AppUsageView>
    decreases times.len(),
{
    if times.len() == 0 {
        s
    } else {
        record_step(replay(s, name, times.drop_last()), name, times.last())
    }
}

proof fn lemma_position_of_found(s: Seq<AppUsageView>, name: Seq<char>)
    ensures
        match position_of(s, name) {
            Some(k) => k < s.len() && s[k as int].name == name,
            None => forall|i: int| 0 <= i < s.len() ==> s[i].name != name,
        },
    decreases s.len(),
{
    if s.len() > 0 && s.last().name != name {
        lemma_position_of_found(s.drop_last(), name);
        assert forall|i: int| 0 <= i < s.len() - 1 implies s[i] == s.drop_last()[i] by {}
    }
}

proof fn lemma_position_of_update(s: Seq<AppUsageView>, name: Seq<char>, k: int, v: AppUsageView)
    requires
        0 <= k < s.len(),
        v.name == s[k].name,
    ensures
        position_of(s.update(k, v), name) == position_of(s, name),
    decreases s.len(),
{
    let t = s.update(k, v);
    if k < s.len() - 1 {
        assert(t.drop_last() =~= s.drop_last().update(k, v));
        lemma_position_of_update(s.drop_last(), name, k, v);
    } else {
        assert(t.drop_last() =~= s.drop_last());
    }
}

proof fn lemma_record_step_unique(s: Seq<AppUsageView>, name: Seq<char>, now: u64)
    requires
        names_unique(s),
    ensures
        names_unique(record_step(s, name, now)),
        record_step(s, name, now).len() >= s.len(),
{
    lemma_position_of_found(s, name);
}

/// A run of samples of one process, none more than the tolerance after the
/// previous one, counts one second per sample.
pub proof fn lemma_continuous_samples_count_each_tick(
    s: Seq<AppUsageView>,
    name: Seq<char>,
    times: Seq<u64>,
)
    requires
        position_of(s, name) is None,
        0 < times.len() <= u64::MAX,
        forall|i: int|
            0 <= i < times.len() - 1 ==> #[trigger] times[i] <= times[i + 1] && times[i + 1] - times[i]
                <= CONTINUITY_TOLERANCE,
    ensures
        position_of(replay(s, name, times), name) == Some(s.len()),
        replay(s, name, times)[s.len() as int].total_time == times.len(),
        replay(s, name, times)[s.len() as int].last_active == times.last(),
    decreases times.len(),
{
    let r = replay(s, name, times);
    if times.len() == 1 {
        assert(times.drop_last().len() == 0);
        assert(replay(s, name, times.drop_last()) == s);
        lemma_position_of_found(s, name);
        let p = s.push(AppUsageView { name, total_time: 1, last_active: times.last() });
        assert(p.drop_last() =~= s);
    } else {
        let prefix = times.drop_last();
        assert forall|i: int| 0 <= i < prefix.len() - 1 implies #[trigger] prefix[i] <= prefix[i + 1]
            && prefix[i + 1] - prefix[i] <= CONTINUITY_TOLERANCE by {
            assert(prefix[i] == times[i] && prefix[i + 1] == times[i + 1]);
        }
        lemma_continuous_samples_count_each_tick(s, name, prefix);
        let q = replay(s, name, prefix);
        let k = s.len() as int;
        assert(prefix.last() == times[times.len() - 2]);
        assert(times[times.len() - 2] <= times[times.len() - 1]);
        lemma_position_of_found(q, name);
        lemma_position_of_update(q, name, k, advance(q[k], times.last()));
    }
}

/// A sample more than the tolerance after the previous one of the same
/// process adds nothing, yet moves the last-seen instant to the new sample.
pub proof fn lemma_gap_adds_nothing(s: Seq<AppUsageView>, name: Seq<char>, now: u64)
    requires
        position_of(s, name) is Some,
        now > s[position_of(s, name)->0 as int].last_active + CONTINUITY_TOLERANCE,
    ensures
        ({
            let k = position_of(s, name)->0 as int;
            &&& record_step(s, name, now)[k].total_time == s[k].total_time
            &&& record_step(s, name, now)[k].last_active == now
        }),
{
    lemma_position_of_found(s, name);
}

/// The views of a sequence of entries, element by element.
pub open spec fn views(s: Seq<AppUsage>) -> Seq<AppUsageView> {
    s.map_values(|u: AppUsage| u@)
}

/// A sample never lowers any total and never drops an entry.
pub proof fn lemma_totals_never_decrease(s: Seq<AppUsageView>, name: Seq<char>, now: u64)
    ensures
        record_step(s, name, now).len() >= s.len(),
        forall|k: int|
            0 <= k < s.len() ==> #[trigger] record_step(s, name, now)[k].total_time >= s[k].total_time
                && record_step(s, name, now)[k].name == s[k].name,
{
    lemma_position_of_found(s, name);
}

/// The usage table of one monitoring session: one entry per process name.
pub struct AppState {
    usage_data: Vec<AppUsage>,
}

impl View for AppState {
    type V = Seq<AppUsageView>;

    closed spec fn view(&self) -> Seq<AppUsageView> {
        views(self.usage_data@)
    }
}

impl AppState {
    pub open spec fn wf(&self) -> bool {
        names_unique(self@)
    }

    /// An empty table.
    pub fn new() -> (r: Self)
        ensures
            r@ == Seq::<AppUsageView>::empty(),
            r.wf(),
    {
        let r = Self { usage_data: Vec::new() };
        assert(r@ =~= Seq::<AppUsageView>::empty());
        r
    }

    /// Where the entry of `name` stands.
    pub fn find(&self, name: &String) -> (r: Option<usize>)
        ensures
            match r {
                Some(k) => position_of(self@, name@) == Some(k as nat),
                None => position_of(self@, name@) is None,
            },
    {
        let ghost s = self@;
        let mut j: usize = self.usage_data.len();
        assert(s.take(j as int) =~= s);
        while j > 0
            invariant
                j <= self.usage_data.len(),
                self@ == s,
                position_of(s, name@) == position_of(s.take(j as int), name@),
            decreases j,
        {
            assert(self.usage_data@[j - 1]@ == s[j - 1]);
            if self.usage_data[j - 1].name == *name {
                assert(s.take(j as int).last() == s[j - 1]);
                return Some(j - 1);
            }
            proof {
                assert(s.take(j as int).drop_last() =~= s.take(j - 1));
            }
            j = j - 1;
        }
        assert(s.take(0) =~= Seq::<AppUsageView>::empty());
        None
    }

    /// Applies one sample of `name` seen in the foreground at `now`.
    pub fn record(&mut self, name: String, now: u64)
        requires
            old(self).wf(),
        ensures
            final(self).wf(),
            final(self)@ == record_step(old(self)@, name@, now),
    {
        let ghost s = self@;
        proof {
            lemma_record_step_unique(s, name@, now);
            lemma_position_of_found(s, name@);
        }
        match self.find(&name) {
            None => {
                let entry = AppUsage { name, total_time: 1, last_active: now };
                self.usage_data.push(entry);
                assert(self@ =~= record_step(s, entry.name@, now));
            },
            Some(k) => {
                let last = self.usage_data[k].last_active;
                let total = self.usage_data[k].total_time;
                let new_total = if last <= now && now - last <= CONTINUITY_TOLERANCE && total < u64::MAX {
                    total + 1
                } else {
                    total
                };
                let entry = AppUsage { name, total_time: new_total, last_active: now };
                let ghost before = self.usage_data@;
                self.usage_data.set(k, entry);
                proof {
                    assert(self.usage_data@ == before.update(k as int, entry));
                    assert(s[k as int] == before[k as int]@);
                    assert(entry@ == advance(s[k as int], now));
                    assert forall|i: int| 0 <= i < s.len() implies #[trigger] self@[i] == s.update(
                        k as int,
                        entry@,
                    )[i] by {
                        assert(views(before)[i] == s[i]);
                    }
                }
                assert(self@ =~= record_step(s, entry.name@, now));
            },
        }
    }

    /// A deep copy of the table, in the order in which processes were first seen.
    pub fn snapshot(&self) -> (r: Vec<AppUsage>)
        ensures
            views(r@) == self@,
    {
        let mut r: Vec<AppUsage> = Vec::new();
        let mut i: usize = 0;
        while i < self.usage_data.len()
            invariant
                i <= self.usage_data.len(),
                r@.len() == i,
                views(r@) == self@.take(i as int),
            decreases self.usage_data.len() - i,
        {
            let u = self.usage_data[i].duplicate();
            assert(u@ == self@[i as int]);
            let ghost before = r@;
            r.push(u);
            proof {
                assert(r@ == before.push(u));
                assert forall|j: int| 0 <= j < i + 1 implies #[trigger] views(r@)[j] == self@.take(i + 1)[j] by {
                    if j < i {
                        assert(views(before)[j] == self@.take(i as int)[j]);
                    }
                }
            }
            i = i + 1;
            assert(views(r@) =~= self@.take(i as int));
        }
        assert(self@.take(i as int) =~= self@);
        r
    }

    /// One sampling tick. No process found leaves the table as it is and asks
    /// for nothing. A process found is recorded; the snapshot taken after the
    /// update is to be published, and a second credited to the process is to
    /// be written through to the store as a one-second record at `now`.
    pub fn on_sample(&mut self, sample: Option<String>, now: u64) -> (r: Option<Tick>)
        requires
            old(self).wf(),
        ensures
            final(self).wf(),
            match sample {
                None => r is None && final(self)@ == old(self)@,
                Some(name) => {
                    &&& final(self)@ == record_step(old(self)@, name@, now)
                    &&& r matches Some(t) && {
                        &&& views(t.snapshot@) == final(self)@
                        &&& t.record is Some <==> (credited(old(self)@, name@, now) && now <= i64::MAX)
                        &&& t.record matches Some(rec) ==> rec.timestamp == now && rec.app_name@ == name@
                            && rec.duration == 1
                    }
                },
            },
    {
        match sample {
            None => None,
            Some(name) => {
                proof {
                    lemma_position_of_found(self@, name@);
                    assert(views(self.usage_data@).len() == self.usage_data@.len());
                }
                let credit = match self.find(&name) {
                    None => true,
                    Some(k) => {
                        assert(self.usage_data@[k as int]@ == self@[k as int]);
                        let last = self.usage_data[k].last_active;
                        last <= now && now - last <= CONTINUITY_TOLERANCE && self.usage_data[k].total_time
                            < u64::MAX
                    },
                };
                let record = if credit && now <= i64::MAX as u64 {
                    Some(AppUsageRecord { timestamp: now as i64, app_name: name.clone(), duration: 1 })
                } else {
                    None
                };
                self.record(name, now);
                Some(Tick { snapshot: self.snapshot(), record })
            },
        }
    }
}

/// Whether a sample of `name` at `now` adds a second to its total.
pub open spec fn credited(s: Seq<AppUsageView>, name: Seq<char>, now: u64) -> bool {
    match position_of(s, name) {
        None => true,
        Some(k) => continues(s[k as int].last_active, now) && s[k as int].total_time < u64::MAX,
    }
}

/// What a sampling tick hands its driver: the table to publish, and the
/// record to append to the store, if any.
#[derive(Debug)]
pub struct Tick {
    pub snapshot: Vec<AppUsage>,
    pub record: Option<AppUsageRecord>,
}

} // verus!
