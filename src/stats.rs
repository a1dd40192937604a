use vstd::prelude::*;

verus! {

/// Time spent in one application on one local calendar day; `date` names
/// that day by the Unix time (seconds) of its midnight, read as UTC.
#[derive(Clone, Copy, Debug, PartialEq, Eq)]
pub struct DailyUsage {
    pub date: i64,
    pub duration: u64,
}

/// One stored group: the summed duration of one application on one day.
#[derive(Debug)]
pub struct DayTotal {
    pub app_name: String,
    pub date: i64,
    pub duration: u64,
}

pub ghost struct DayTotalView {
    pub app_name: Seq<char>,
    pub date: i64,
    pub duration: u64,
}

impl View for DayTotal {
    type V = DayTotalView;

    open spec fn view(&self) -> DayTotalView {
        DayTotalView { app_name: self.app_name@, date: self.date, duration: self.duration }
    }
}

/// Usage of one application over a queried range, day by day.
#[derive(Debug)]
pub struct AppUsageStats {
    pub name: String,
    pub total_time: u64,
    pub daily_usage: Vec<DailyUsage>,
}

pub ghost struct AppUsageStatsView {
    pub name: Seq<char>,
    pub total_time: u64,
    pub daily_usage: Seq<DailyUsage>,
}

impl View for AppUsageStats {
    type V = AppUsageStatsView;

    open spec fn view(&self) -> AppUsageStatsView {
        AppUsageStatsView { name: self.name@, total_time: self.total_time, daily_usage: self.daily_usage@ }
    }
}

pub open spec fn day_views(s: Seq<DayTotal>) -> Seq<DayTotalView> {
    s.map_values(|d: DayTotal| d@)
}

pub open spec fn stats_views(s: Seq<AppUsageStats>) -> Seq<AppUsageStatsView> {
    s.map_values(|a: AppUsageStats| a@)
}

/// The application names of `s`, each once, in order of first appearance.
pub open spec fn app_names(s: Seq<DayTotalView>) -> Seq<Seq<char>>
    decreases s.len(),
{
    if s.len() == 0 {
        Seq::empty()
    } else {
        let p = app_names(s.drop_last());
        if p.contains(s.last().app_name) {
            p
        } else {
            p.push(s.last().app_name)
        }
    }
}

/// The days of `name` in `s`, in the order in which they come.
pub open spec fn days_of(s: Seq<DayTotalView>, name: Seq<char>) -> Seq<DailyUsage>
    decreases s.len(),
{
    if s.len() == 0 {
        Seq::empty()
    } else {
        let p = days_of(s.drop_last(), name);
        if s.last().app_name == name {
            p.push(DailyUsage { date: s.last().date, duration: s.last().duration })
        } else {
            p
        }
    }
}

pub open spec fn duration_sum(d: Seq<DailyUsage>) -> int
    decreases d.len(),
{
    if d.len() == 0 {
        0
    } else {
        duration_sum(d.drop_last()) + d.last().duration
    }
}

/// `x` held in a `u64`, capped at `u64::MAX`.
pub open spec fn saturate(x: int) -> u64 {
    if x > u64::MAX {
        u64::MAX
    } else if x < 0 {
        0
    } else {
        x as u64
    }
}

pub open spec fn stats_of(s: Seq<DayTotalView>, name: Seq<char>) -> AppUsageStatsView {
    AppUsageStatsView {
        name,
        total_time: saturate(duration_sum(days_of(s, name))),
        daily_usage: days_of(s, name),
    }
}

/// One entry per application of `s`, in order of first appearance.
pub open spec fn group_by_app(s: Seq<DayTotalView>) -> Seq<AppUsageStatsView> {
    app_names(s).map_values(|n: Seq<char>| stats_of(s, n))
}

/// `x` placed into `s` after every entry whose total is at least its own.
pub open spec fn insert_by_total(s: Seq<AppUsageStatsView>, x: AppUsageStatsView) -> Seq<AppUsageStatsView>
    decreases s.len(),
{
    if s.len() == 0 {
        seq![x]
    } else if s.last().total_time >= x.total_time {
        s.push(x)
    } else {
        insert_by_total(s.drop_last(), x).push(s.last())
    }
}

/// Stable sort of `s` by total time, largest first.
pub open spec fn sort_by_total(s: Seq<AppUsageStatsView>) -> Seq<AppUsageStatsView>
    decreases s.len(),
{
    if s.len() == 0 {
        s
    } else {
        insert_by_total(sort_by_total(s.drop_last()), s.last())
    }
}

/// The statistics of a set of day totals: grouped by application and ordered
/// by total time, largest first, ties in order of first appearance.
pub open spec fn summary_of(s: Seq<DayTotalView>) -> Seq<AppUsageStatsView> {
    sort_by_total(group_by_app(s))
}

pub open spec fn sorted_by_total(s: Seq<AppUsageStatsView>) -> bool {
    forall|i: int, j: int| 0 <= i < j < s.len() ==> s[i].total_time >= s[j].total_time
}

proof fn lemma_push_contains<A>(p: Seq<A>, a: A, x: A)
    ensures
        p.push(a).contains(x) <==> (p.contains(x) || x == a),
{
    if p.contains(x) {
        let i = choose|i: int| 0 <= i < p.len() && p[i] == x;
        assert(p.push(a)[i] == x);
    }
    if x == a {
        assert(p.push(a)[p.len() as int] == x);
    }
    if p.push(a).contains(x) {
        let i = choose|i: int| 0 <= i < p.len() + 1 && p.push(a)[i] == x;
        if i < p.len() {
            assert(p[i] == x);
        }
    }
}

proof fn lemma_app_names_distinct(s: Seq<DayTotalView>)
    ensures
        app_names(s).no_duplicates(),
        forall|n: Seq<char>| #[trigger] app_names(s).contains(n) <==> exists|i: int| 0 <= i < s.len() && s[i].app_name == n,
    decreases s.len(),
{
    if s.len() > 0 {
        let d = s.drop_last();
        let l = s.last().app_name;
        lemma_app_names_distinct(d);
        assert forall|n: Seq<char>| #[trigger] app_names(s).contains(n) <==> exists|i: int| 0 <= i < s.len() && s[i].app_name == n by {
            lemma_push_contains(app_names(d), l, n);
            if exists|i: int| 0 <= i < s.len() && s[i].app_name == n {
                let i = choose|i: int| 0 <= i < s.len() && s[i].app_name == n;
                if i < s.len() - 1 {
                    assert(d[i].app_name == n);
                }
            }
            if app_names(d).contains(n) {
                let i = choose|i: int| 0 <= i < d.len() && d[i].app_name == n;
                assert(s[i].app_name == n);
            }
        }
    }
}

proof fn lemma_days_of_absent(s: Seq<DayTotalView>, name: Seq<char>)
    requires
        !app_names(s).contains(name),
    ensures
        days_of(s, name) == Seq::<DailyUsage>::empty(),
    decreases s.len(),
{
    if s.len() > 0 {
        lemma_push_contains(app_names(s.drop_last()), s.last().app_name, name);
        lemma_days_of_absent(s.drop_last(), name);
    }
}

proof fn lemma_duration_sum_nonneg(d: Seq<DailyUsage>)
    ensures
        duration_sum(d) >= 0,
    decreases d.len(),
{
    if d.len() > 0 {
        lemma_duration_sum_nonneg(d.drop_last());
    }
}

/// Placing `x` after the first `j` entries is the stable insertion, when the
/// entries before `j` are at least `x` and those from `j` on are below it.
proof fn lemma_insert_by_total_at(s: Seq<AppUsageStatsView>, x: AppUsageStatsView, j: int)
    requires
        0 <= j <= s.len(),
        j == 0 || s[j - 1].total_time >= x.total_time,
        forall|k: int| j <= k < s.len() ==> s[k].total_time < x.total_time,
    ensures
        insert_by_total(s, x) == s.insert(j, x),
    decreases s.len(),
{
    if s.len() == 0 {
        assert(s.insert(j, x) =~= seq![x]);
    } else if s.last().total_time >= x.total_time {
        assert(s.insert(j, x) =~= s.push(x));
    } else {
        let d = s.drop_last();
        lemma_insert_by_total_at(d, x, j);
        assert(s.insert(j, x) =~= d.insert(j, x).push(s.last()));
    }
}

proof fn lemma_insert_by_total_bound(s: Seq<AppUsageStatsView>, x: AppUsageStatsView, b: u64)
    requires
        forall|k: int| 0 <= k < s.len() ==> s[k].total_time >= b,
        x.total_time >= b,
    ensures
        forall|k: int| 0 <= k < insert_by_total(s, x).len() ==> insert_by_total(s, x)[k].total_time >= b,
        insert_by_total(s, x).len() == s.len() + 1,
    decreases s.len(),
{
    if s.len() > 0 && s.last().total_time < x.total_time {
        lemma_insert_by_total_bound(s.drop_last(), x, b);
    }
}

proof fn lemma_insert_by_total_sorted(s: Seq<AppUsageStatsView>, x: AppUsageStatsView)
    requires
        sorted_by_total(s),
    ensures
        sorted_by_total(insert_by_total(s, x)),
        insert_by_total(s, x).len() == s.len() + 1,
        insert_by_total(s, x).to_multiset() == s.to_multiset().insert(x),
    decreases s.len(),
{
    broadcast use vstd::seq_lib::group_to_multiset_ensures;
    lemma_insert_by_total_bound(s, x, 0);
    if s.len() == 0 {
        assert(seq![x] =~= Seq::<AppUsageStatsView>::empty().push(x));
    } else if s.last().total_time >= x.total_time {
    } else {
        let d = s.drop_last();
        let l = s.last();
        lemma_insert_by_total_sorted(d, x);
        lemma_insert_by_total_bound(d, x, l.total_time);
        assert(s =~= d.push(l));
        assert(insert_by_total(s, x).to_multiset() =~= s.to_multiset().insert(x));
    }
}

/// The stable sort orders by total time, largest first, and keeps every
/// entry exactly once.
pub proof fn lemma_sort_by_total_orders(s: Seq<AppUsageStatsView>)
    ensures
        sorted_by_total(sort_by_total(s)),
        sort_by_total(s).to_multiset() == s.to_multiset(),
        sort_by_total(s).len() == s.len(),
    decreases s.len(),
{
    broadcast use vstd::seq_lib::group_to_multiset_ensures;
    if s.len() > 0 {
        let d = s.drop_last();
        lemma_sort_by_total_orders(d);
        lemma_insert_by_total_sorted(sort_by_total(d), s.last());
        assert(s =~= d.push(s.last()));
    }
}

proof fn lemma_group_step(t: Seq<DayTotalView>, x: DayTotalView)
    ensures
        ({
            let t2 = t.push(x);
            let day = DailyUsage { date: x.date, duration: x.duration };
            &&& t2.drop_last() == t
            &&& days_of(t2, x.app_name) == days_of(t, x.app_name).push(day)
            &&& duration_sum(days_of(t2, x.app_name)) == duration_sum(days_of(t, x.app_name)) + x.duration
            &&& forall|n: Seq<char>| n != x.app_name ==> #[trigger] days_of(t2, n) == days_of(t, n)
            &&& app_names(t).contains(x.app_name) ==> app_names(t2) == app_names(t)
            &&& !app_names(t).contains(x.app_name) ==> app_names(t2) == app_names(t).push(x.app_name)
        }),
{
    let t2 = t.push(x);
    let day = DailyUsage { date: x.date, duration: x.duration };
    assert(t2.drop_last() =~= t);
    assert(days_of(t, x.app_name).push(day).drop_last() =~= days_of(t, x.app_name));
}

/// Groups day totals by application, in order of first appearance; each
/// entry lists its days in the order given and sums them (saturating).
pub fn group_by_application(days: &Vec<DayTotal>) -> (r: Vec<AppUsageStats>)
    ensures
        stats_views(r@) == group_by_app(day_views(days@)),
{
    let ghost s = day_views(days@);
    let mut out: Vec<AppUsageStats> = Vec::new();
    let mut i: usize = 0;
    assert(stats_views(out@) =~= group_by_app(s.take(0)));
    while i < days.len()
        invariant
            i <= days.len(),
            s == day_views(days@),
            stats_views(out@) == group_by_app(s.take(i as int)),
        decreases days.len() - i,
    {
        let ghost t = s.take(i as int);
        let ghost x = s[i as int];
        let name = days[i].app_name.clone();
        let day = DailyUsage { date: days[i].date, duration: days[i].duration };
        proof {
            assert(s.take(i + 1) =~= t.push(x));
            lemma_group_step(t, x);
            lemma_app_names_distinct(t);
            lemma_duration_sum_nonneg(days_of(t, x.app_name));
            assert(x.app_name == name@);
            assert(stats_views(out@).len() == out@.len());
            assert(group_by_app(t).len() == app_names(t).len());
            assert(out@.len() == app_names(t).len());
        }
        let mut j: usize = 0;
        let mut found = false;
        while j < out.len() && !found
            invariant
                j <= out.len(),
                stats_views(out@) == group_by_app(t),
                found ==> j < out.len() && out@[j as int].name@ == name@,
                !found ==> forall|m: int| 0 <= m < j ==> out@[m].name@ != name@,
            decreases out.len() - j + if found { 0int } else { 1int },
        {
            if out[j].name == name {
                found = true;
            } else {
                j = j + 1;
            }
        }
        let ghost t2 = t.push(x);
        if found {
            proof {
                assert(group_by_app(t)[j as int] == out@[j as int]@);
                assert(app_names(t)[j as int] == name@);
                assert(app_names(t).contains(name@));
            }
            let mut e = out.remove(j);
            let nt = if e.total_time > u64::MAX - day.duration {
                u64::MAX
            } else {
                e.total_time + day.duration
            };
            e.daily_usage.push(day);
            e.total_time = nt;
            let ghost before = out@;
            out.insert(j, e);
            proof {
                assert forall|m: int| 0 <= m < app_names(t2).len() implies #[trigger] stats_views(out@)[m] == group_by_app(t2)[m] by {
                    if m != j {
                        assert(app_names(t)[m] != name@);
                        assert(group_by_app(t)[m] == stats_views(out@)[m]);
                    }
                }
                assert(stats_views(out@) =~= group_by_app(t2));
            }
        } else {
            proof {
                assert forall|m: int| 0 <= m < app_names(t).len() implies app_names(t)[m] != name@ by {
                    assert(group_by_app(t)[m] == out@[m]@);
                }
                lemma_days_of_absent(t, name@);
            }
            let mut du: Vec<DailyUsage> = Vec::new();
            du.push(day);
            let e = AppUsageStats { name, total_time: day.duration, daily_usage: du };
            let ghost before = out@;
            out.push(e);
            proof {
                assert(du@ =~= Seq::<DailyUsage>::empty().push(day));
                assert forall|m: int| 0 <= m < app_names(t2).len() implies #[trigger] stats_views(out@)[m] == group_by_app(t2)[m] by {
                    if m < before.len() {
                        assert(app_names(t)[m] != name@);
                        assert(group_by_app(t)[m] == stats_views(before)[m]);
                    }
                }
                assert(stats_views(out@) =~= group_by_app(t2));
            }
        }
        i = i + 1;
    }
    assert(s.take(days.len() as int) =~= s);
    out
}

/// Stable sort by total time, largest first: entries with equal totals keep
/// their relative order.
pub fn order_by_total(v: Vec<AppUsageStats>) -> (r: Vec<AppUsageStats>)
    ensures
        stats_views(r@) == sort_by_total(stats_views(v@)),
{
    let ghost s = stats_views(v@);
    let mut rest = v;
    let mut r: Vec<AppUsageStats> = Vec::new();
    let ghost mut i: int = 0;
    assert(s.skip(0) =~= s);
    assert(stats_views(r@) =~= sort_by_total(s.take(0)));
    while rest.len() > 0
        invariant
            0 <= i <= s.len(),
            stats_views(rest@) == s.skip(i),
            stats_views(r@) == sort_by_total(s.take(i)),
        decreases rest.len(),
    {
        assert(stats_views(rest@).len() == rest@.len());
        let ghost old_rest = rest@;
        let x = rest.remove(0);
        let ghost sr = stats_views(r@);
        proof {
            assert(x == old_rest[0]);
            assert(stats_views(old_rest)[0] == s.skip(i)[0]);
            assert(x@ == s[i]);
            assert forall|k: int| 0 <= k < rest@.len() implies #[trigger] stats_views(rest@)[k] == s.skip(i + 1)[k] by {
                assert(rest@[k] == old_rest[k + 1]);
                assert(stats_views(old_rest)[k + 1] == s.skip(i)[k + 1]);
            }
            assert(stats_views(rest@) =~= s.skip(i + 1));
            assert(s.take(i + 1).drop_last() =~= s.take(i));
            assert(sort_by_total(s.take(i + 1)) == insert_by_total(sr, x@));
            assert(stats_views(r@).len() == r@.len());
        }
        let mut j: usize = r.len();
        while j > 0 && r[j - 1].total_time < x.total_time
            invariant
                j <= r.len(),
                sr == stats_views(r@),
                forall|k: int| j <= k < sr.len() ==> sr[k].total_time < x.total_time,
            decreases j,
        {
            j = j - 1;
        }
        proof {
            lemma_insert_by_total_at(sr, x@, j as int);
        }
        let ghost before = r@;
        r.insert(j, x);
        proof {
            assert(stats_views(r@) =~= sr.insert(j as int, x@));
            i = i + 1;
        }
    }
    assert(s.take(i) =~= s);
    r
}

/// The statistics for a set of day totals: one entry per application, with
/// its days in the order given and their sum, ordered by total time, largest
/// first, ties in order of first appearance.
pub fn summarize(days: &Vec<DayTotal>) -> (r: Vec<AppUsageStats>)
    ensures
        stats_views(r@) == summary_of(day_views(days@)),
        sorted_by_total(stats_views(r@)),
{
    let grouped = group_by_application(days);
    let r = order_by_total(grouped);
    proof {
        lemma_sort_by_total_orders(group_by_app(day_views(days@)));
    }
    r
}

/// The statistics name only applications that occur among the day totals.
pub proof fn lemma_summary_names_occur(d: Seq<DayTotalView>)
    ensures
        forall|i: int|
            0 <= i < summary_of(d).len() ==> exists|k: int|
                0 <= k < d.len() && d[k].app_name == (#[trigger] summary_of(d)[i]).name,
{
    broadcast use vstd::seq_lib::group_to_multiset_ensures;
    let g = group_by_app(d);
    lemma_sort_by_total_orders(g);
    lemma_app_names_distinct(d);
    assert forall|i: int| 0 <= i < summary_of(d).len() implies exists|k: int|
        0 <= k < d.len() && d[k].app_name == (#[trigger] summary_of(d)[i]).name by {
        let x = summary_of(d)[i];
        assert(summary_of(d).contains(x));
        assert(g.to_multiset().count(x) > 0);
        assert(g.contains(x));
        let m = choose|m: int| 0 <= m < g.len() && g[m] == x;
        assert(app_names(d).contains(app_names(d)[m]));
    }
}

/// Of two entries of the statistics, the one with the larger total comes
/// first.
pub proof fn lemma_larger_total_first(d: Seq<DayTotalView>)
    ensures
        forall|i: int, j: int|
            0 <= i < summary_of(d).len() && 0 <= j < summary_of(d).len() && #[trigger] summary_of(d)[i].total_time
                > #[trigger] summary_of(d)[j].total_time ==> i < j,
{
    lemma_sort_by_total_orders(group_by_app(d));
}

proof fn lemma_days_of_single(s: Seq<DayTotalView>, k: int)
    requires
        0 <= k < s.len(),
        forall|m: int| 0 <= m < s.len() && m != k ==> s[m].app_name != s[k].app_name,
    ensures
        days_of(s, s[k].app_name) == seq![DailyUsage { date: s[k].date, duration: s[k].duration }],
    decreases s.len(),
{
    let n = s[k].app_name;
    let d = s.drop_last();
    if k == s.len() - 1 {
        lemma_app_names_distinct(d);
        if app_names(d).contains(n) {
            let m = choose|m: int| 0 <= m < d.len() && d[m].app_name == n;
            assert(s[m].app_name == n);
        }
        lemma_days_of_absent(d, n);
        assert(Seq::<DailyUsage>::empty().push(DailyUsage { date: s[k].date, duration: s[k].duration })
            =~= seq![DailyUsage { date: s[k].date, duration: s[k].duration }]);
    } else {
        assert forall|m: int| 0 <= m < d.len() && m != k implies d[m].app_name != d[k].app_name by {
            assert(d[m] == s[m]);
        }
        lemma_days_of_single(d, k);
    }
}

/// An application with a single day total appears in the statistics with
/// exactly that day, and its total is that day's duration.
pub proof fn lemma_lone_day_summarized(d: Seq<DayTotalView>, k: int)
    requires
        0 <= k < d.len(),
        forall|m: int| 0 <= m < d.len() && m != k ==> d[m].app_name != d[k].app_name,
    ensures
        ({
            let e = AppUsageStatsView {
                name: d[k].app_name,
                total_time: d[k].duration,
                daily_usage: seq![DailyUsage { date: d[k].date, duration: d[k].duration }],
            };
            &&& summary_of(d).contains(e)
            &&& forall|i: int| 0 <= i < summary_of(d).len() && (#[trigger] summary_of(d)[i]).name == e.name ==> summary_of(d)[i] == e
        }),
{
    broadcast use vstd::seq_lib::group_to_multiset_ensures;
    let n = d[k].app_name;
    let day = DailyUsage { date: d[k].date, duration: d[k].duration };
    let e = AppUsageStatsView { name: n, total_time: d[k].duration, daily_usage: seq![day] };
    let g = group_by_app(d);
    lemma_days_of_single(d, k);
    assert(seq![day] =~= Seq::<DailyUsage>::empty().push(day));
    assert(seq![day].drop_last() =~= Seq::<DailyUsage>::empty());
    assert(duration_sum(Seq::<DailyUsage>::empty()) == 0);
    assert(seq![day].len() == 1 && seq![day].last() == day);
    assert(duration_sum(seq![day]) == duration_sum(seq![day].drop_last()) + day.duration);
    assert(duration_sum(seq![day]) == d[k].duration);
    assert(stats_of(d, n) == e);
    lemma_app_names_distinct(d);
    assert(app_names(d).contains(n));
    let m = choose|m: int| 0 <= m < app_names(d).len() && app_names(d)[m] == n;
    assert(g[m] == e);
    assert(g.contains(e));
    lemma_sort_by_total_orders(g);
    assert(g.to_multiset().count(e) > 0);
    assert(summary_of(d).to_multiset().count(e) > 0);
    assert forall|i: int| 0 <= i < summary_of(d).len() && (#[trigger] summary_of(d)[i]).name == e.name implies summary_of(d)[i] == e by {
        let x = summary_of(d)[i];
        assert(summary_of(d).contains(x));
        assert(g.to_multiset().count(x) > 0);
        assert(g.contains(x));
        let j = choose|j: int| 0 <= j < g.len() && g[j] == x;
        assert(app_names(d)[j] == n);
    }
}

} // verus!
