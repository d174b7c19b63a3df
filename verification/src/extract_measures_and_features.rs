//! Weekly activity time series built from the commit log of a project, and the
//! integer features extracted from each series.

use vstd::prelude::*;
use crate::calendar::{MIN_TIMESTAMP, MAX_TIMESTAMP, monday_of, timestamp_in_range, get_monday_timestamp, calculate_week_num, lemma_monday_of, lemma_week_within_span};
use crate::downloader::{count_char, character_count, lemma_count_char_prefix_monotone};
use crate::text::{spec_parse_i64, parse_i64, spec_join, join_path};
use crate::{ROOT_FOLDER, get_root_folder};
use crate::series::seq_sum;

verus! {

/// The developers met so far, each once, in the order they were first met.
pub struct UniqueDeveloperList {
    developers: Vec<String>,
}

impl View for UniqueDeveloperList {
    type V = Seq<Seq<char>>;

    closed spec fn view(&self) -> Seq<Seq<char>> {
        self.developers@.map_values(|d: String| d@)
    }
}

impl UniqueDeveloperList {
    /// No developer is listed twice.
    #[verifier::type_invariant]
    spec fn no_duplicates(self) -> bool {
        self@.no_duplicates()
    }

    pub fn new() -> (list: UniqueDeveloperList)
        ensures
            list@ == Seq::<Seq<char>>::empty(),
            list@ == developers_after(Seq::empty()),
    {
        let list = UniqueDeveloperList { developers: Vec::new() };
        proof {
            assert(list@ =~= Seq::<Seq<char>>::empty());
        }
        list
    }

    /// Adds a developer unless already listed; tells whether it was added.
    #[allow(non_snake_case)]
    pub fn addDeveloper(&mut self, developer: String) -> (added: bool)
        ensures
            added == !old(self)@.contains(developer@),
            final(self)@ == if added {
                old(self)@.push(developer@)
            } else {
                old(self)@
            },
            forall|names: Seq<Seq<char>>|
                old(self)@ == developers_after(names) ==> final(self)@ == developers_after(
                    #[trigger] names.push(developer@),
                ),
    {
        proof {
            assert forall|names: Seq<Seq<char>>|
                #[trigger] names.push(developer@).drop_last() == names && names.push(
                    developer@,
                ).last() == developer@ by {
                assert(names.push(developer@).drop_last() =~= names);
            }
        }
        proof {
            use_type_invariant(&*self);
        }
        let mut i: usize = 0;
        while i < self.developers.len()
            invariant
                i <= self.developers@.len(),
                forall|k: int| 0 <= k < i ==> self@[k] != developer@,
            decreases self.developers@.len() - i,
        {
            if self.developers[i] == developer {
                proof {
                    assert(self@[i as int] == developer@);
                    assert(self@.contains(developer@));
                    assert forall|names: Seq<Seq<char>>|
                        self@ == developers_after(names) implies self@ == developers_after(
                        #[trigger] names.push(developer@),
                    ) by {
                        assert(names.push(developer@).drop_last() =~= names);
                    }
                }
                return false;
            }
            i += 1;
        }
        proof {
            assert(!self@.contains(developer@));
        }
        let ghost before = self@;
        let mut developers: Vec<String> = Vec::new();
        std::mem::swap(&mut developers, &mut self.developers);
        developers.push(developer);
        proof {
            assert(developers@.map_values(|d: String| d@) =~= before.push(developer@));
        }
        self.developers = developers;
        true
    }

    /// Number of developers listed: the number of distinct developers added.
    #[allow(non_snake_case)]
    pub fn countDevelopers(&mut self) -> (count: usize)
        ensures
            count == old(self)@.len(),
            count == old(self)@.to_set().len(),
            old(self)@.no_duplicates(),
            final(self)@ == old(self)@,
    {
        proof {
            use_type_invariant(&*self);
            self@.unique_seq_to_set();
        }
        self.developers.len()
    }
}

} // verus!

verus! {

/// The list that adding the developers `names` one by one to an empty list gives.
pub open spec fn developers_after(names: Seq<Seq<char>>) -> Seq<Seq<char>>
    decreases names.len(),
{
    if names.len() == 0 {
        Seq::empty()
    } else {
        let before = developers_after(names.drop_last());
        if before.contains(names.last()) {
            before
        } else {
            before.push(names.last())
        }
    }
}

/// Adding developers one by one lists each distinct developer once: the list holds
/// exactly the names added, without repeats, so its count is the number of distinct
/// names added.
pub proof fn lemma_count_is_distinct_developers(names: Seq<Seq<char>>)
    ensures
        developers_after(names).no_duplicates(),
        developers_after(names).to_set() == names.to_set(),
        developers_after(names).len() == names.to_set().len(),
    decreases names.len(),
{
    if names.len() > 0 {
        let init = names.drop_last();
        let d = names.last();
        lemma_count_is_distinct_developers(init);
        let before = developers_after(init);
        assert(names =~= init.push(d));
        init.lemma_push_to_set_commute(d);
        if !before.contains(d) {
            before.lemma_push_to_set_commute(d);
            assert(before.push(d).no_duplicates()) by {
                assert forall|i: int, j: int|
                    0 <= i < before.push(d).len() && 0 <= j < before.push(d).len() && i != j
                        implies before.push(d)[i] != before.push(d)[j] by {
                    if i == before.len() && j < before.len() {
                        assert(before.contains(before[j]));
                    }
                    if j == before.len() && i < before.len() {
                        assert(before.contains(before[i]));
                    }
                }
            }
        } else {
            assert(before.to_set().contains(d));
            assert(names.to_set() =~= init.to_set());
        }
        developers_after(names).unique_seq_to_set();
        assert(developers_after(names).to_set() == names.to_set());
    } else {
        assert(names.to_set() =~= Set::<Seq<char>>::empty());
        assert(developers_after(names).to_set() =~= Set::<Seq<char>>::empty());
    }
}

} // verus!

verus! {

/// Number of columns of a line of a commit log.
pub const EXPECTED_CSV_COLUMNS: usize = 8;

// The columns of a line of a commit log.
pub const COMMIT_HASH: usize = 0;

pub const PARENT_HASHES: usize = 1;

pub const AUTHOR_NAME: usize = 2;

pub const AUTHOR_EMAIL: usize = 3;

pub const AUTHOR_DATE: usize = 4;

pub const INTEGRATOR_NAME: usize = 5;

pub const INTEGRATOR_EMAIL: usize = 6;

pub const INTEGRATOR_DATE: usize = 7;

/// The earliest date assumed before any commit is read.
pub const NO_EARLIEST_DATE: i64 = 9999999999;

/// A commit of the log: the text of each of its columns.
pub type Commit = Seq<Seq<char>>;

/// The commits that decoded records stand for.
pub open spec fn records_view(records: Seq<Vec<String>>) -> Seq<Commit> {
    records.map_values(|r: Vec<String>| r@.map_values(|f: String| f@))
}

/// A column of a commit.
pub open spec fn column(commit: Commit, k: int) -> Seq<char> {
    commit[k]
}

pub open spec fn has_expected_columns(commit: Commit) -> bool {
    commit.len() == EXPECTED_CSV_COLUMNS
}

pub open spec fn all_have_expected_columns(commits: Seq<Commit>) -> bool {
    forall|i: int| 0 <= i < commits.len() ==> has_expected_columns(#[trigger] commits[i])
}

/// The timestamp in a date column of a commit.
pub open spec fn date_of(commit: Commit, k: int) -> int {
    spec_parse_i64(column(commit, k))->0
}

/// Both date columns of a commit hold integers.
pub open spec fn dates_readable(commit: Commit) -> bool {
    &&& spec_parse_i64(column(commit, INTEGRATOR_DATE as int)) is Some
    &&& spec_parse_i64(column(commit, AUTHOR_DATE as int)) is Some
}

/// A commit of a well-formed log, as the time series need it: its dates lie in the
/// calendar, and its parent hashes are few enough to be counted.
pub open spec fn commit_in_calendar(commit: Commit) -> bool {
    &&& timestamp_in_range(date_of(commit, INTEGRATOR_DATE as int))
    &&& timestamp_in_range(date_of(commit, AUTHOR_DATE as int))
    &&& count_char(column(commit, PARENT_HASHES as int), ' ') <= u32::MAX
}

/// What reading a commit log needs: the dates of every commit up to the first
/// malformed one are integers; and a log without a malformed commit is not empty
/// and lies in the calendar.
pub open spec fn log_is_readable(commits: Seq<Commit>) -> bool {
    &&& forall|i: int|
        0 <= i < commits.len() && all_have_expected_columns(#[trigger] commits.take(i + 1))
            ==> dates_readable(commits[i])
    &&& all_have_expected_columns(commits) ==> {
        &&& commits.len() > 0
        &&& forall|i: int| 0 <= i < commits.len() ==> commit_in_calendar(#[trigger] commits[i])
    }
}

/// The earliest of the dates in column `k`, or `NO_EARLIEST_DATE` when that is earlier.
pub open spec fn earliest_date(commits: Seq<Commit>, k: int) -> int
    decreases commits.len(),
{
    if commits.len() == 0 {
        NO_EARLIEST_DATE as int
    } else {
        let before = earliest_date(commits.drop_last(), k);
        let d = date_of(commits.last(), k);
        if d < before {
            d
        } else {
            before
        }
    }
}

/// The latest of the dates in column `k`, or 0 when that is later.
pub open spec fn latest_date(commits: Seq<Commit>, k: int) -> int
    decreases commits.len(),
{
    if commits.len() == 0 {
        0
    } else {
        let before = latest_date(commits.drop_last(), k);
        let d = date_of(commits.last(), k);
        if d > before {
            d
        } else {
            before
        }
    }
}

/// The week, counted from the Monday `base`, of the date in column `k` of a commit.
pub open spec fn week_of(commit: Commit, k: int, base: int) -> int {
    (date_of(commit, k) - base) / 604800
}

/// Number of commits whose date in column `k` falls in week `w`.
pub open spec fn commits_in_week(commits: Seq<Commit>, k: int, base: int, w: int) -> nat
    decreases commits.len(),
{
    if commits.len() == 0 {
        0
    } else {
        commits_in_week(commits.drop_last(), k, base, w) + if week_of(commits.last(), k, base)
            == w {
            1nat
        } else {
            0nat
        }
    }
}

/// The addresses in column `e` of the commits whose date in column `k` falls in week `w`.
pub open spec fn developers_in_week(
    commits: Seq<Commit>,
    k: int,
    e: int,
    base: int,
    w: int,
) -> Set<Seq<char>>
    decreases commits.len(),
{
    if commits.len() == 0 {
        Set::empty()
    } else {
        let before = developers_in_week(commits.drop_last(), k, e, base, w);
        if week_of(commits.last(), k, base) == w {
            before.insert(column(commits.last(), e))
        } else {
            before
        }
    }
}

/// A merge commit lists more than one parent, separated by spaces.
pub open spec fn is_merge(commit: Commit) -> bool {
    count_char(column(commit, PARENT_HASHES as int), ' ') > 0
}

/// Number of merge commits whose integration date falls in week `w`.
pub open spec fn merges_in_week(commits: Seq<Commit>, base: int, w: int) -> nat
    decreases commits.len(),
{
    if commits.len() == 0 {
        0
    } else {
        merges_in_week(commits.drop_last(), base, w) + if week_of(
            commits.last(),
            INTEGRATOR_DATE as int,
            base,
        ) == w && is_merge(commits.last()) {
            1nat
        } else {
            0nat
        }
    }
}

/// The Monday from which the weeks of column `k` are counted.
pub open spec fn first_monday(commits: Seq<Commit>, k: int) -> int {
    monday_of(earliest_date(commits, k))
}

/// Number of weeks that the dates of column `k` span.
pub open spec fn week_span(commits: Seq<Commit>, k: int) -> int {
    (monday_of(latest_date(commits, k)) - first_monday(commits, k)) / 604800 + 1
}

/// The five weekly time series of a project.
pub struct ActivityTimeSeries {
    /// Commits integrated per week.
    pub integration_frequency: Vec<usize>,
    /// Distinct integrators per week.
    pub integrator_activity: Vec<usize>,
    /// Commits authored per week.
    pub commit_frequency: Vec<usize>,
    /// Distinct authors per week.
    pub author_activity: Vec<usize>,
    /// Merge commits integrated per week.
    pub merge_frequency: Vec<usize>,
}

/// The time series that a well-formed log gives.
pub open spec fn series_of_log(ts: ActivityTimeSeries, commits: Seq<Commit>) -> bool {
    let ib = first_monday(commits, INTEGRATOR_DATE as int);
    let ab = first_monday(commits, AUTHOR_DATE as int);
    let iw = week_span(commits, INTEGRATOR_DATE as int);
    let aw = week_span(commits, AUTHOR_DATE as int);
    &&& ts.integration_frequency@.len() == iw
    &&& ts.integrator_activity@.len() == iw
    &&& ts.merge_frequency@.len() == iw
    &&& ts.commit_frequency@.len() == aw
    &&& ts.author_activity@.len() == aw
    &&& forall|w: int|
        0 <= w < iw ==> {
            &&& #[trigger] ts.integration_frequency@[w] == commits_in_week(
                commits,
                INTEGRATOR_DATE as int,
                ib,
                w,
            )
            &&& ts.integrator_activity@[w] == developers_in_week(
                commits,
                INTEGRATOR_DATE as int,
                INTEGRATOR_EMAIL as int,
                ib,
                w,
            ).len()
            &&& ts.merge_frequency@[w] == merges_in_week(commits, ib, w)
        }
    &&& forall|w: int|
        0 <= w < aw ==> {
            &&& #[trigger] ts.commit_frequency@[w] == commits_in_week(
                commits,
                AUTHOR_DATE as int,
                ab,
                w,
            )
            &&& ts.author_activity@[w] == developers_in_week(
                commits,
                AUTHOR_DATE as int,
                AUTHOR_EMAIL as int,
                ab,
                w,
            ).len()
        }
}

} // verus!

verus! {

proof fn lemma_record_view(records: Seq<Vec<String>>, i: int)
    requires
        0 <= i < records.len(),
    ensures
        records_view(records).len() == records.len(),
        records_view(records)[i].len() == records[i]@.len(),
        forall|k: int|
            0 <= k < records[i]@.len() ==> #[trigger] records_view(records)[i][k] == records[i]@[k]@,
{
}

proof fn lemma_date_bounds(commits: Seq<Commit>, k: int, i: int)
    requires
        0 <= i < commits.len(),
    ensures
        earliest_date(commits, k) <= date_of(commits[i], k) <= latest_date(commits, k),
    decreases commits.len(),
{
    if i < commits.len() - 1 {
        lemma_date_bounds(commits.drop_last(), k, i);
        assert(commits.drop_last()[i] == commits[i]);
    }
}

proof fn lemma_extremes_in_range(commits: Seq<Commit>, k: int)
    requires
        forall|i: int| 0 <= i < commits.len() ==> timestamp_in_range(date_of(#[trigger] commits[i], k)),
    ensures
        timestamp_in_range(earliest_date(commits, k)),
        timestamp_in_range(latest_date(commits, k)),
    decreases commits.len(),
{
    if commits.len() > 0 {
        assert forall|i: int| 0 <= i < commits.drop_last().len() implies timestamp_in_range(
            date_of(#[trigger] commits.drop_last()[i], k),
        ) by {
            assert(commits.drop_last()[i] == commits[i]);
        }
        lemma_extremes_in_range(commits.drop_last(), k);
        assert(timestamp_in_range(date_of(commits[commits.len() - 1], k)));
    }
}

proof fn lemma_week_counts_bounded(commits: Seq<Commit>, k: int, e: int, base: int, w: int)
    ensures
        commits_in_week(commits, k, base, w) <= commits.len(),
        developers_in_week(commits, k, e, base, w).finite(),
        developers_in_week(commits, k, e, base, w).len() <= commits.len(),
        merges_in_week(commits, base, w) <= commits.len(),
    decreases commits.len(),
{
    if commits.len() > 0 {
        lemma_week_counts_bounded(commits.drop_last(), k, e, base, w);
    }
}

/// A vector of `n` zeros.
fn zeros(n: usize) -> (v: Vec<usize>)
    ensures
        v@.len() == n,
        forall|i: int| 0 <= i < n ==> v@[i] == 0,
{
    let mut v: Vec<usize> = Vec::new();
    while v.len() < n
        invariant
            v@.len() <= n,
            forall|i: int| 0 <= i < v@.len() ==> v@[i] == 0,
        decreases n - v@.len(),
    {
        v.push(0);
    }
    v
}

/// A vector of `n` empty developer lists.
fn empty_developer_lists(n: usize) -> (v: Vec<UniqueDeveloperList>)
    ensures
        v@.len() == n,
        forall|i: int| 0 <= i < n ==> (#[trigger] v@[i])@ == Seq::<Seq<char>>::empty(),
{
    let mut v: Vec<UniqueDeveloperList> = Vec::new();
    while v.len() < n
        invariant
            v@.len() <= n,
            forall|i: int| 0 <= i < v@.len() ==> (#[trigger] v@[i])@ == Seq::<Seq<char>>::empty(),
        decreases n - v@.len(),
    {
        v.push(UniqueDeveloperList::new());
    }
    v
}

/// Adds one to the count of week `w`.
fn count_one(series: &mut Vec<usize>, w: usize)
    requires
        w < old(series)@.len(),
        old(series)@[w as int] < usize::MAX,
    ensures
        final(series)@ == old(series)@.update(w as int, (old(series)@[w as int] + 1) as usize),
{
    let v = series[w];
    series.set(w, v + 1);
}

/// Records a developer in the list of week `w`; tells whether it was new there.
fn add_developer_in_week(lists: &mut Vec<UniqueDeveloperList>, w: usize, developer: String) -> (added: bool)
    requires
        w < old(lists)@.len(),
    ensures
        final(lists)@.len() == old(lists)@.len(),
        forall|j: int| 0 <= j < old(lists)@.len() && j != w ==> final(lists)@[j] == old(lists)@[j],
        added == !old(lists)@[w as int]@.contains(developer@),
        final(lists)@[w as int]@ == if added {
            old(lists)@[w as int]@.push(developer@)
        } else {
            old(lists)@[w as int]@
        },
{
    let mut list = UniqueDeveloperList::new();
    std::mem::swap(&mut list, &mut lists[w]);
    let added = list.addDeveloper(developer);
    lists.set(w, list);
    added
}

/// The weekly time series of a project, from the commits of its log.
///
/// Returns `None` exactly when a commit does not have the expected number of
/// columns (the log is malformed). Weeks are counted from the Monday of the earliest
/// date (the earliest integration date for the integration series, the earliest
/// author date for the author series), and each series spans the weeks up to the
/// week of the latest date.
pub fn extract_activity_time_series(commits: &Vec<Vec<String>>) -> (result: Option<
    ActivityTimeSeries,
>)
    requires
        log_is_readable(records_view(commits@)),
    ensures
        match result {
            None => !all_have_expected_columns(records_view(commits@)),
            Some(ts) => all_have_expected_columns(records_view(commits@)) && series_of_log(
                ts,
                records_view(commits@),
            ),
        },
{
    let n = commits.len();
    let ghost log = records_view(commits@);
    let mut earliest_integration_date: i64 = NO_EARLIEST_DATE;
    let mut latest_integration_date: i64 = 0;
    let mut earliest_author_date: i64 = NO_EARLIEST_DATE;
    let mut latest_author_date: i64 = 0;
    let mut i: usize = 0;
    while i < n
        invariant
            i <= n,
            n == commits@.len(),
            log == records_view(commits@),
            log_is_readable(log),
            all_have_expected_columns(log.take(i as int)),
            earliest_integration_date == earliest_date(log.take(i as int), INTEGRATOR_DATE as int),
            latest_integration_date == latest_date(log.take(i as int), INTEGRATOR_DATE as int),
            earliest_author_date == earliest_date(log.take(i as int), AUTHOR_DATE as int),
            latest_author_date == latest_date(log.take(i as int), AUTHOR_DATE as int),
        decreases n - i,
    {
        let commit = &commits[i];
        proof {
            lemma_record_view(commits@, i as int);
        }
        // reject logs with too few or too many columns
        if commit.len() != EXPECTED_CSV_COLUMNS {
            return None;
        }
        proof {
            let t = log.take(i + 1);
            assert(t.drop_last() == log.take(i as int));
            assert(t.last() == log[i as int]);
            assert(all_have_expected_columns(t)) by {
                assert forall|j: int| 0 <= j < t.len() implies has_expected_columns(#[trigger] t[j]) by {
                    if j < i {
                        assert(t[j] == log.take(i as int)[j]);
                    }
                }
            }
        }
        let current_integration_date: i64 = parse_i64(&commit[INTEGRATOR_DATE]).unwrap();
        if current_integration_date < earliest_integration_date {
            earliest_integration_date = current_integration_date;
        }
        if current_integration_date > latest_integration_date {
            latest_integration_date = current_integration_date;
        }
        let current_author_date: i64 = parse_i64(&commit[AUTHOR_DATE]).unwrap();
        if current_author_date < earliest_author_date {
            earliest_author_date = current_author_date;
        }
        if current_author_date > latest_author_date {
            latest_author_date = current_author_date;
        }
        i += 1;
    }
    proof {
        assert(log.take(n as int) == log);
        assert forall|j: int| 0 <= j < log.len() implies timestamp_in_range(
            date_of(#[trigger] log[j], INTEGRATOR_DATE as int),
        ) by {
            assert(commit_in_calendar(log[j]));
        }
        assert forall|j: int| 0 <= j < log.len() implies timestamp_in_range(
            date_of(#[trigger] log[j], AUTHOR_DATE as int),
        ) by {
            assert(commit_in_calendar(log[j]));
        }
        lemma_extremes_in_range(log, INTEGRATOR_DATE as int);
        lemma_extremes_in_range(log, AUTHOR_DATE as int);
        assert forall|j: int| 0 <= j < log.len() implies dates_readable(#[trigger] log[j]) by {
            assert(log.take(j + 1).len() == j + 1);
            assert(all_have_expected_columns(log.take(j + 1))) by {
                assert forall|m: int| 0 <= m < log.take(j + 1).len() implies has_expected_columns(
                    #[trigger] log.take(j + 1)[m],
                ) by {
                    assert(log.take(j + 1)[m] == log[m]);
                }
            }
        }
        lemma_date_bounds(log, INTEGRATOR_DATE as int, 0);
        lemma_date_bounds(log, AUTHOR_DATE as int, 0);
        lemma_week_within_span(
            earliest_integration_date as int,
            earliest_integration_date as int,
            latest_integration_date as int,
        );
        lemma_week_within_span(
            earliest_author_date as int,
            earliest_author_date as int,
            latest_author_date as int,
        );
        lemma_monday_of(earliest_integration_date as int);
        lemma_monday_of(latest_integration_date as int);
        lemma_monday_of(earliest_author_date as int);
        lemma_monday_of(latest_author_date as int);
    }
    let earliest_integration_date = get_monday_timestamp(earliest_integration_date);
    let latest_integration_monday = get_monday_timestamp(latest_integration_date);
    let earliest_author_date = get_monday_timestamp(earliest_author_date);
    let latest_author_monday = get_monday_timestamp(latest_author_date);

    let total_weeks_integration = calculate_week_num(
        &earliest_integration_date,
        &latest_integration_monday,
    ) + 1;
    let total_weeks_commits = calculate_week_num(&earliest_author_date, &latest_author_monday) + 1;

    // the measures taken
    let mut integration_frequency_timeseries = zeros(total_weeks_integration);
    let mut integrator_activity_count = empty_developer_lists(total_weeks_integration);
    let mut integrator_activity_timeseries = zeros(total_weeks_integration);

    let mut commit_frequency_timeseries = zeros(total_weeks_commits);
    let mut author_activity_count = empty_developer_lists(total_weeks_commits);
    let mut author_activity_timeseries = zeros(total_weeks_commits);

    let mut merge_frequency_timeseries = zeros(total_weeks_integration);

    let ghost ib = earliest_integration_date as int;
    let ghost ab = earliest_author_date as int;
    let ghost iw = total_weeks_integration as int;
    let ghost aw = total_weeks_commits as int;
    let mut i: usize = 0;
    while i < n
        invariant
            i <= n,
            n == log.len(),
            log == records_view(commits@),
            all_have_expected_columns(log),
            forall|j: int| 0 <= j < log.len() ==> commit_in_calendar(#[trigger] log[j]),
            forall|j: int| 0 <= j < log.len() ==> dates_readable(#[trigger] log[j]),
            ib == earliest_integration_date,
            ab == earliest_author_date,
            timestamp_in_range(earliest_date(log, INTEGRATOR_DATE as int)),
            timestamp_in_range(earliest_date(log, AUTHOR_DATE as int)),
            ib == first_monday(log, INTEGRATOR_DATE as int),
            ab == first_monday(log, AUTHOR_DATE as int),
            iw == week_span(log, INTEGRATOR_DATE as int),
            aw == week_span(log, AUTHOR_DATE as int),
            iw == total_weeks_integration,
            aw == total_weeks_commits,
            integration_frequency_timeseries@.len() == iw,
            integrator_activity_count@.len() == iw,
            integrator_activity_timeseries@.len() == iw,
            merge_frequency_timeseries@.len() == iw,
            commit_frequency_timeseries@.len() == aw,
            author_activity_count@.len() == aw,
            author_activity_timeseries@.len() == aw,
            forall|w: int|
                0 <= w < iw ==> #[trigger] integration_frequency_timeseries@[w] == commits_in_week(
                    log.take(i as int),
                    INTEGRATOR_DATE as int,
                    ib,
                    w,
                ),
            forall|w: int|
                0 <= w < iw ==> #[trigger] integrator_activity_timeseries@[w] == developers_in_week(
                    log.take(i as int),
                    INTEGRATOR_DATE as int,
                    INTEGRATOR_EMAIL as int,
                    ib,
                    w,
                ).len(),
            forall|w: int, x: Seq<char>|
                0 <= w < iw ==> (#[trigger] integrator_activity_count@[w]@.contains(x)
                    <==> developers_in_week(
                    log.take(i as int),
                    INTEGRATOR_DATE as int,
                    INTEGRATOR_EMAIL as int,
                    ib,
                    w,
                ).contains(x)),
            forall|w: int|
                0 <= w < iw ==> #[trigger] merge_frequency_timeseries@[w] == merges_in_week(
                    log.take(i as int),
                    ib,
                    w,
                ),
            forall|w: int|
                0 <= w < aw ==> #[trigger] commit_frequency_timeseries@[w] == commits_in_week(
                    log.take(i as int),
                    AUTHOR_DATE as int,
                    ab,
                    w,
                ),
            forall|w: int|
                0 <= w < aw ==> #[trigger] author_activity_timeseries@[w] == developers_in_week(
                    log.take(i as int),
                    AUTHOR_DATE as int,
                    AUTHOR_EMAIL as int,
                    ab,
                    w,
                ).len(),
            forall|w: int, x: Seq<char>|
                0 <= w < aw ==> (#[trigger] author_activity_count@[w]@.contains(x)
                    <==> developers_in_week(
                    log.take(i as int),
                    AUTHOR_DATE as int,
                    AUTHOR_EMAIL as int,
                    ab,
                    w,
                ).contains(x)),
        decreases n - i,
    {
        let ghost before = log.take(i as int);
        let ghost after = log.take(i + 1);
        let ghost c = log[i as int];
        proof {
            assert(after.drop_last() == before);
            assert(after.last() == c);
            assert(commit_in_calendar(c));
            assert(dates_readable(c));
            assert(has_expected_columns(c));
            lemma_date_bounds(log, INTEGRATOR_DATE as int, i as int);
            lemma_date_bounds(log, AUTHOR_DATE as int, i as int);
            lemma_week_within_span(
                earliest_date(log, INTEGRATOR_DATE as int),
                date_of(c, INTEGRATOR_DATE as int),
                latest_date(log, INTEGRATOR_DATE as int),
            );
            lemma_week_within_span(
                earliest_date(log, AUTHOR_DATE as int),
                date_of(c, AUTHOR_DATE as int),
                latest_date(log, AUTHOR_DATE as int),
            );
            lemma_monday_of(earliest_date(log, INTEGRATOR_DATE as int));
            lemma_monday_of(earliest_date(log, AUTHOR_DATE as int));
        }
        let commit = &commits[i];
        proof {
            lemma_record_view(commits@, i as int);
        }

        let current_integration_date: i64 = parse_i64(&commit[INTEGRATOR_DATE]).unwrap();
        let integration_week_number = calculate_week_num(
            &earliest_integration_date,
            &current_integration_date,
        );
        let current_author_date: i64 = parse_i64(&commit[AUTHOR_DATE]).unwrap();
        let committer_week_number = calculate_week_num(&earliest_author_date, &current_author_date);
        let ghost wi = integration_week_number as int;
        let ghost wa = committer_week_number as int;
        proof {
            assert(wi == week_of(c, INTEGRATOR_DATE as int, ib));
            assert(wa == week_of(c, AUTHOR_DATE as int, ab));
            lemma_week_counts_bounded(before, INTEGRATOR_DATE as int, INTEGRATOR_EMAIL as int, ib, wi);
            lemma_week_counts_bounded(before, AUTHOR_DATE as int, AUTHOR_EMAIL as int, ab, wa);
        }

        // integration frequency
        count_one(&mut integration_frequency_timeseries, integration_week_number);

        // integrator activity
        let integrator_email = commit[INTEGRATOR_EMAIL].clone();
        let ghost lists_before = integrator_activity_count@;
        if add_developer_in_week(&mut integrator_activity_count, integration_week_number, integrator_email) {
            count_one(&mut integrator_activity_timeseries, integration_week_number);
        }
        proof {
            let e = column(c, INTEGRATOR_EMAIL as int);
            assert forall|w: int, x: Seq<char>| 0 <= w < iw implies (
            #[trigger] integrator_activity_count@[w]@.contains(x) <==> developers_in_week(
                after,
                INTEGRATOR_DATE as int,
                INTEGRATOR_EMAIL as int,
                ib,
                w,
            ).contains(x)) by {
                if w == wi {
                    if integrator_activity_count@[w]@ != lists_before[w]@ {
                        assert(integrator_activity_count@[w]@ == lists_before[w]@.push(e));
                        if x != e {
                            if integrator_activity_count@[w]@.contains(x) {
                                let k = choose|k: int| 0 <= k < integrator_activity_count@[w]@.len() && integrator_activity_count@[w]@[k] == x;
                                assert(lists_before[w]@[k] == x);
                            }
                            if lists_before[w]@.contains(x) {
                                let k = choose|k: int| 0 <= k < lists_before[w]@.len() && lists_before[w]@[k] == x;
                                assert(integrator_activity_count@[w]@[k] == x);
                            }
                        } else {
                            assert(integrator_activity_count@[w]@[lists_before[w]@.len() as int] == e);
                        }
                    }
                } else {
                    assert(integrator_activity_count@[w] == lists_before[w]);
                }
            }
        }

        // commit frequency
        count_one(&mut commit_frequency_timeseries, committer_week_number);

        // author activity
        let author_email = commit[AUTHOR_EMAIL].clone();
        let ghost authors_before = author_activity_count@;
        if add_developer_in_week(&mut author_activity_count, committer_week_number, author_email) {
            count_one(&mut author_activity_timeseries, committer_week_number);
        }
        proof {
            let e = column(c, AUTHOR_EMAIL as int);
            assert forall|w: int, x: Seq<char>| 0 <= w < aw implies (
            #[trigger] author_activity_count@[w]@.contains(x) <==> developers_in_week(
                after,
                AUTHOR_DATE as int,
                AUTHOR_EMAIL as int,
                ab,
                w,
            ).contains(x)) by {
                if w == wa {
                    if author_activity_count@[w]@ != authors_before[w]@ {
                        assert(author_activity_count@[w]@ == authors_before[w]@.push(e));
                        if x != e {
                            if author_activity_count@[w]@.contains(x) {
                                let k = choose|k: int| 0 <= k < author_activity_count@[w]@.len() && author_activity_count@[w]@[k] == x;
                                assert(authors_before[w]@[k] == x);
                            }
                            if authors_before[w]@.contains(x) {
                                let k = choose|k: int| 0 <= k < authors_before[w]@.len() && authors_before[w]@[k] == x;
                                assert(author_activity_count@[w]@[k] == x);
                            }
                        } else {
                            assert(author_activity_count@[w]@[authors_before[w]@.len() as int] == e);
                        }
                    }
                } else {
                    assert(author_activity_count@[w] == authors_before[w]);
                }
            }
        }

        // merge frequency
        if character_count(&commit[PARENT_HASHES], ' ') > 0 {
            count_one(&mut merge_frequency_timeseries, integration_week_number);
        }
        i += 1;
    }
    proof {
        assert(log.take(n as int) == log);
    }
    Some(
        ActivityTimeSeries {
            integration_frequency: integration_frequency_timeseries,
            integrator_activity: integrator_activity_timeseries,
            commit_frequency: commit_frequency_timeseries,
            author_activity: author_activity_timeseries,
            merge_frequency: merge_frequency_timeseries,
        },
    )
}

} // verus!

verus! {

/// `<home>/<root folder>/bad_logs.log`: where the names of malformed logs are recorded.
pub open spec fn bad_log_file(home: Seq<char>) -> Seq<char> {
    spec_join(spec_join(home, ROOT_FOLDER@), "bad_logs.log"@)
}

/// The path of the file that records malformed logs, below the home directory `home_dir`.
pub fn get_bad_log_file_as_string(home_dir: &String) -> (path: String)
    ensures
        path@ == bad_log_file(home_dir@),
{
    let root = get_root_folder();
    let folder = join_path(home_dir, root.as_str());
    join_path(&folder, "bad_logs.log")
}

} // verus!

verus! {

/// In any week, there are at most as many distinct developers as commits, and at
/// most as many merges as integrated commits.
pub proof fn lemma_activity_within_frequency(
    commits: Seq<Commit>,
    k: int,
    e: int,
    base: int,
    w: int,
)
    ensures
        developers_in_week(commits, k, e, base, w).len() <= commits_in_week(commits, k, base, w),
        merges_in_week(commits, base, w) <= commits_in_week(commits, INTEGRATOR_DATE as int, base, w),
    decreases commits.len(),
{
    if commits.len() > 0 {
        lemma_activity_within_frequency(commits.drop_last(), k, e, base, w);
        lemma_week_counts_bounded(commits.drop_last(), k, e, base, w);
    }
}

/// Total over the weeks `0..n` of the commits in each week.
pub open spec fn weekly_total(commits: Seq<Commit>, k: int, base: int, n: int) -> int
    decreases n,
{
    if n <= 0 {
        0
    } else {
        weekly_total(commits, k, base, n - 1) + commits_in_week(commits, k, base, n - 1)
    }
}

proof fn lemma_weekly_total_step(commits: Seq<Commit>, k: int, base: int, n: int)
    requires
        commits.len() > 0,
        n >= 0,
    ensures
        weekly_total(commits, k, base, n) == weekly_total(commits.drop_last(), k, base, n) + if 0
            <= week_of(commits.last(), k, base) < n {
            1int
        } else {
            0int
        },
    decreases n,
{
    if n > 0 {
        lemma_weekly_total_step(commits, k, base, n - 1);
    }
}

proof fn lemma_weekly_total_all(commits: Seq<Commit>, k: int, base: int, n: int)
    requires
        n >= 0,
        forall|i: int| 0 <= i < commits.len() ==> 0 <= #[trigger] week_of(commits[i], k, base) < n,
    ensures
        weekly_total(commits, k, base, n) == commits.len(),
    decreases commits.len(),
{
    if commits.len() == 0 {
        assert(weekly_total(commits, k, base, n) == 0) by {
            lemma_weekly_total_empty(commits, k, base, n);
        }
    } else {
        assert forall|i: int| 0 <= i < commits.drop_last().len() implies 0 <= #[trigger] week_of(
            commits.drop_last()[i],
            k,
            base,
        ) < n by {
            assert(commits.drop_last()[i] == commits[i]);
            assert(0 <= week_of(commits[i], k, base) < n);
        }
        lemma_weekly_total_all(commits.drop_last(), k, base, n);
        lemma_weekly_total_step(commits, k, base, n);
        assert(0 <= week_of(commits[commits.len() - 1], k, base) < n);
    }
}

proof fn lemma_weekly_total_empty(commits: Seq<Commit>, k: int, base: int, n: int)
    requires
        commits.len() == 0,
    ensures
        weekly_total(commits, k, base, n) == 0,
    decreases n,
{
    if n > 0 {
        lemma_weekly_total_empty(commits, k, base, n - 1);
    }
}

proof fn lemma_series_sum(v: Seq<usize>, commits: Seq<Commit>, k: int, base: int, m: int)
    requires
        0 <= m <= v.len(),
        forall|w: int| 0 <= w < v.len() ==> #[trigger] v[w] == commits_in_week(commits, k, base, w),
    ensures
        seq_sum(v.take(m)) == weekly_total(commits, k, base, m),
    decreases m,
{
    if m > 0 {
        lemma_series_sum(v, commits, k, base, m - 1);
        assert(v.take(m).drop_last() == v.take(m - 1));
    }
}

/// Number of merge commits in a log.
pub open spec fn merge_count(commits: Seq<Commit>) -> nat
    decreases commits.len(),
{
    if commits.len() == 0 {
        0
    } else {
        merge_count(commits.drop_last()) + if is_merge(commits.last()) {
            1nat
        } else {
            0nat
        }
    }
}

/// Total over the weeks `0..n` of the merge commits integrated in each week.
pub open spec fn weekly_merge_total(commits: Seq<Commit>, base: int, n: int) -> int
    decreases n,
{
    if n <= 0 {
        0
    } else {
        weekly_merge_total(commits, base, n - 1) + merges_in_week(commits, base, n - 1)
    }
}

proof fn lemma_weekly_merge_total_step(commits: Seq<Commit>, base: int, n: int)
    requires
        commits.len() > 0,
        n >= 0,
    ensures
        weekly_merge_total(commits, base, n) == weekly_merge_total(commits.drop_last(), base, n)
            + if 0 <= week_of(commits.last(), INTEGRATOR_DATE as int, base) < n && is_merge(
            commits.last(),
        ) {
            1int
        } else {
            0int
        },
    decreases n,
{
    if n > 0 {
        lemma_weekly_merge_total_step(commits, base, n - 1);
    }
}

proof fn lemma_weekly_merge_total_empty(commits: Seq<Commit>, base: int, n: int)
    requires
        commits.len() == 0,
    ensures
        weekly_merge_total(commits, base, n) == 0,
    decreases n,
{
    if n > 0 {
        lemma_weekly_merge_total_empty(commits, base, n - 1);
    }
}

proof fn lemma_weekly_merge_total_all(commits: Seq<Commit>, base: int, n: int)
    requires
        n >= 0,
        forall|i: int|
            0 <= i < commits.len() ==> 0 <= #[trigger] week_of(
                commits[i],
                INTEGRATOR_DATE as int,
                base,
            ) < n,
    ensures
        weekly_merge_total(commits, base, n) == merge_count(commits),
    decreases commits.len(),
{
    let k = INTEGRATOR_DATE as int;
    if commits.len() == 0 {
        lemma_weekly_merge_total_empty(commits, base, n);
    } else {
        assert forall|i: int| 0 <= i < commits.drop_last().len() implies 0 <= #[trigger] week_of(
            commits.drop_last()[i],
            k,
            base,
        ) < n by {
            assert(commits.drop_last()[i] == commits[i]);
            assert(0 <= week_of(commits[i], k, base) < n);
        }
        lemma_weekly_merge_total_all(commits.drop_last(), base, n);
        lemma_weekly_merge_total_step(commits, base, n);
        assert(0 <= week_of(commits[commits.len() - 1], k, base) < n);
    }
}

proof fn lemma_merge_series_sum(v: Seq<usize>, commits: Seq<Commit>, base: int, m: int)
    requires
        0 <= m <= v.len(),
        forall|w: int| 0 <= w < v.len() ==> #[trigger] v[w] == merges_in_week(commits, base, w),
    ensures
        seq_sum(v.take(m)) == weekly_merge_total(commits, base, m),
    decreases m,
{
    if m > 0 {
        lemma_merge_series_sum(v, commits, base, m - 1);
        assert(v.take(m).drop_last() == v.take(m - 1));
    }
}

/// Every commit of a well-formed log is counted exactly once in the integration
/// series and once in the commit series: each series sums to the number of commits.
/// Likewise every merge commit is counted once in the merge series, which sums to the
/// number of merge commits.
pub proof fn lemma_every_commit_counted_once(ts: ActivityTimeSeries, commits: Seq<Commit>)
    requires
        series_of_log(ts, commits),
    ensures
        seq_sum(ts.integration_frequency@) == commits.len(),
        seq_sum(ts.commit_frequency@) == commits.len(),
        seq_sum(ts.merge_frequency@) == merge_count(commits),
{
    let ik = INTEGRATOR_DATE as int;
    let ak = AUTHOR_DATE as int;
    let ib = first_monday(commits, ik);
    let ab = first_monday(commits, ak);
    assert forall|i: int| 0 <= i < commits.len() implies 0 <= #[trigger] week_of(commits[i], ik, ib)
        < week_span(commits, ik) by {
        lemma_date_bounds(commits, ik, i);
        lemma_week_within_span(earliest_date(commits, ik), date_of(commits[i], ik), latest_date(commits, ik));
    }
    assert forall|i: int| 0 <= i < commits.len() implies 0 <= #[trigger] week_of(commits[i], ak, ab)
        < week_span(commits, ak) by {
        lemma_date_bounds(commits, ak, i);
        lemma_week_within_span(earliest_date(commits, ak), date_of(commits[i], ak), latest_date(commits, ak));
    }
    lemma_weekly_total_all(commits, ik, ib, week_span(commits, ik));
    lemma_weekly_total_all(commits, ak, ab, week_span(commits, ak));
    lemma_series_sum(ts.integration_frequency@, commits, ik, ib, ts.integration_frequency@.len() as int);
    lemma_series_sum(ts.commit_frequency@, commits, ak, ab, ts.commit_frequency@.len() as int);
    assert(ts.integration_frequency@.take(ts.integration_frequency@.len() as int) == ts.integration_frequency@);
    assert(ts.commit_frequency@.take(ts.commit_frequency@.len() as int) == ts.commit_frequency@);
    lemma_weekly_merge_total_all(commits, ib, week_span(commits, ik));
    assert forall|w: int| 0 <= w < ts.merge_frequency@.len() implies #[trigger] ts.merge_frequency@[w]
        == merges_in_week(commits, ib, w) by {
        assert(ts.integration_frequency@[w] == commits_in_week(commits, ik, ib, w));
    }
    lemma_merge_series_sum(ts.merge_frequency@, commits, ib, ts.merge_frequency@.len() as int);
    assert(ts.merge_frequency@.take(ts.merge_frequency@.len() as int) == ts.merge_frequency@);
}

} // verus!

verus! {

/// A byte that the csv reader of the commit logs takes as plain text, a line end or a
/// field separator: an ASCII byte that is neither a quote nor a carriage return.
pub open spec fn is_plain_log_byte(b: u8) -> bool {
    b < 128u8 && b != 34u8 && b != 13u8
}

/// A log written in plain bytes only: lines end at `\n`, fields end at `,`, and
/// nothing is quoted.
pub open spec fn is_plain_log(bytes: Seq<u8>) -> bool {
    forall|i: int| 0 <= i < bytes.len() ==> is_plain_log_byte(#[trigger] bytes[i])
}

/// The pieces of `bytes` between the separators `sep`, in order: one more piece than
/// there are separators, empty pieces included.
pub open spec fn split_bytes(bytes: Seq<u8>, sep: u8) -> Seq<Seq<u8>>
    decreases bytes.len(),
{
    if bytes.len() == 0 {
        seq![Seq::empty()]
    } else {
        let before = split_bytes(bytes.drop_last(), sep);
        if bytes.last() == sep {
            before.push(Seq::empty())
        } else {
            before.update(before.len() - 1, before.last().push(bytes.last()))
        }
    }
}

/// The pieces `pieces` written one after the other, with `sep` between each two.
pub open spec fn join_bytes(pieces: Seq<Seq<u8>>, sep: u8) -> Seq<u8>
    decreases pieces.len(),
{
    if pieces.len() == 0 {
        Seq::empty()
    } else if pieces.len() == 1 {
        pieces[0]
    } else {
        join_bytes(pieces.drop_last(), sep).push(sep) + pieces.last()
    }
}

/// The text of ASCII bytes.
pub open spec fn ascii_text(bytes: Seq<u8>) -> Seq<char> {
    bytes.map_values(|b: u8| b as char)
}

/// The fields of a line of a plain log: its pieces between commas, as text.
pub open spec fn line_fields(line: Seq<u8>) -> Commit {
    split_bytes(line, 44u8).map_values(|f: Seq<u8>| ascii_text(f))
}

/// The lines that hold at least one byte, in order.
pub open spec fn nonempty_lines(lines: Seq<Seq<u8>>) -> Seq<Seq<u8>>
    decreases lines.len(),
{
    if lines.len() == 0 {
        Seq::empty()
    } else {
        let before = nonempty_lines(lines.drop_last());
        if lines.last().len() > 0 {
            before.push(lines.last())
        } else {
            before
        }
    }
}

/// The records of a plain log: each of its lines that is not empty, split at commas.
pub open spec fn plain_log_records(bytes: Seq<u8>) -> Seq<Commit> {
    nonempty_lines(split_bytes(bytes, 10u8)).map_values(|l: Seq<u8>| line_fields(l))
}

proof fn lemma_split_len(bytes: Seq<u8>, sep: u8)
    ensures
        split_bytes(bytes, sep).len() >= 1,
    decreases bytes.len(),
{
    if bytes.len() > 0 {
        lemma_split_len(bytes.drop_last(), sep);
    }
}

/// Bytes without a separator extend the last piece of what they follow.
proof fn lemma_split_extend(p: Seq<u8>, l: Seq<u8>, sep: u8)
    requires
        !l.contains(sep),
    ensures
        split_bytes(p + l, sep).len() == split_bytes(p, sep).len(),
        split_bytes(p + l, sep) == split_bytes(p, sep).update(
            split_bytes(p, sep).len() - 1,
            split_bytes(p, sep).last() + l,
        ),
    decreases l.len(),
{
    lemma_split_len(p, sep);
    if l.len() == 0 {
        assert(p + l == p);
        assert(split_bytes(p, sep).last() + l == split_bytes(p, sep).last());
        assert(split_bytes(p, sep).update(split_bytes(p, sep).len() - 1, split_bytes(p, sep).last())
            == split_bytes(p, sep));
    } else {
        let init = l.drop_last();
        let x = l.last();
        assert(!init.contains(sep)) by {
            if init.contains(sep) {
                let i = choose|i: int| 0 <= i < init.len() && init[i] == sep;
                assert(l[i] == sep);
            }
        }
        assert(x != sep) by {
            assert(l[l.len() - 1] == x);
        }
        lemma_split_extend(p, init, sep);
        assert((p + l).drop_last() == p + init);
        assert((p + l).last() == x);
        let sp = split_bytes(p, sep);
        let a = split_bytes(p + init, sep);
        assert(a.last() == sp.last() + init);
        assert((sp.last() + init).push(x) =~= sp.last() + l);
        assert(split_bytes(p + l, sep) == a.update(a.len() - 1, a.last().push(x)));
        assert(split_bytes(p + l, sep) =~= split_bytes(p, sep).update(
            split_bytes(p, sep).len() - 1,
            split_bytes(p, sep).last() + l,
        ));
    }
}

/// Splitting pieces joined by a separator that none of them holds gives the pieces
/// back, empty pieces included.
pub proof fn lemma_split_join(pieces: Seq<Seq<u8>>, sep: u8)
    requires
        pieces.len() >= 1,
        forall|k: int| 0 <= k < pieces.len() ==> !(#[trigger] pieces[k]).contains(sep),
    ensures
        split_bytes(join_bytes(pieces, sep), sep) == pieces,
    decreases pieces.len(),
{
    let e = Seq::<u8>::empty();
    if pieces.len() == 1 {
        lemma_split_extend(e, pieces[0], sep);
        assert(e + pieces[0] == pieces[0]);
        assert(split_bytes(e, sep) == seq![e]);
        assert(e + pieces[0] == pieces[0]);
        assert(split_bytes(pieces[0], sep) =~= pieces);
    } else {
        let init = pieces.drop_last();
        let last = pieces.last();
        assert forall|k: int| 0 <= k < init.len() implies !(#[trigger] init[k]).contains(sep) by {
            assert(init[k] == pieces[k]);
        }
        lemma_split_join(init, sep);
        let front = join_bytes(init, sep).push(sep);
        assert(front.drop_last() == join_bytes(init, sep));
        assert(split_bytes(front, sep) == init.push(e));
        assert(!last.contains(sep)) by {
            assert(pieces[pieces.len() - 1] == last);
        }
        lemma_split_extend(front, last, sep);
        assert(e + last == last);
        assert(split_bytes(front + last, sep) =~= pieces);
    }
}

proof fn lemma_nonempty_lines_all(lines: Seq<Seq<u8>>)
    requires
        forall|k: int| 0 <= k < lines.len() ==> (#[trigger] lines[k]).len() > 0,
    ensures
        nonempty_lines(lines) == lines,
    decreases lines.len(),
{
    if lines.len() > 0 {
        let init = lines.drop_last();
        assert forall|k: int| 0 <= k < init.len() implies (#[trigger] init[k]).len() > 0 by {
            assert(init[k] == lines[k]);
        }
        lemma_nonempty_lines_all(init);
        assert(lines.last() == lines[lines.len() - 1]);
        assert(init.push(lines.last()) == lines);
    }
}

/// A log of `n` lines, none of them empty, whose last line may or may not be ended
/// by a newline, holds `n` records, one per line and in the order of the lines, each
/// the line split at its commas: a line with an empty field is a record like any
/// other, and so is a last line that no newline ends.
pub proof fn lemma_records_of_lines(lines: Seq<Seq<u8>>, ends_with_newline: bool)
    requires
        forall|k: int|
            0 <= k < lines.len() ==> (#[trigger] lines[k]).len() > 0 && !lines[k].contains(10u8),
    ensures
        ({
            let bytes = if ends_with_newline {
                join_bytes(lines, 10u8).push(10u8)
            } else {
                join_bytes(lines, 10u8)
            };
            &&& plain_log_records(bytes).len() == lines.len()
            &&& forall|k: int|
                0 <= k < lines.len() ==> #[trigger] plain_log_records(bytes)[k] == line_fields(
                    lines[k],
                )
        }),
{
    let bytes = if ends_with_newline {
        join_bytes(lines, 10u8).push(10u8)
    } else {
        join_bytes(lines, 10u8)
    };
    let e = Seq::<u8>::empty();
    if lines.len() == 0 {
        assert(join_bytes(lines, 10u8) == e);
        assert(split_bytes(e, 10u8) == seq![e]);
        assert(seq![e].drop_last() =~= Seq::<Seq<u8>>::empty());
        assert(seq![e].last() == e);
        assert(nonempty_lines(Seq::<Seq<u8>>::empty()) == Seq::<Seq<u8>>::empty());
        assert(nonempty_lines(seq![e]) == Seq::<Seq<u8>>::empty());
        if ends_with_newline {
            assert(e.push(10u8).drop_last() == e);
            assert(split_bytes(e.push(10u8), 10u8) == seq![e].push(e));
            assert(seq![e].push(e).drop_last() == seq![e]);
        }
    } else {
        lemma_split_join(lines, 10u8);
        lemma_nonempty_lines_all(lines);
        if ends_with_newline {
            assert(bytes.drop_last() == join_bytes(lines, 10u8));
            assert(split_bytes(bytes, 10u8) == lines.push(e));
            assert(lines.push(e).drop_last() == lines);
        }
        assert(nonempty_lines(split_bytes(bytes, 10u8)) == lines);
    }
}

/// The fields of a line made of fields joined by commas, none of which holds a comma,
/// are those fields, empty ones included.
pub proof fn lemma_fields_of_line(fields: Seq<Seq<u8>>)
    requires
        fields.len() >= 1,
        forall|k: int| 0 <= k < fields.len() ==> !(#[trigger] fields[k]).contains(44u8),
    ensures
        line_fields(join_bytes(fields, 44u8)).len() == fields.len(),
        forall|k: int|
            0 <= k < fields.len() ==> #[trigger] line_fields(join_bytes(fields, 44u8))[k]
                == ascii_text(fields[k]),
{
    lemma_split_join(fields, 44u8);
}

/// Every line of a plain log is a commit and is counted: where the series are those
/// of the records of a log of `n` non-empty lines (whose last line may or may not be
/// ended by a newline), the integration and commit series each sum to `n`.
pub proof fn lemma_every_line_counted(
    ts: ActivityTimeSeries,
    lines: Seq<Seq<u8>>,
    ends_with_newline: bool,
)
    requires
        forall|k: int|
            0 <= k < lines.len() ==> (#[trigger] lines[k]).len() > 0 && !lines[k].contains(10u8),
        series_of_log(
            ts,
            plain_log_records(
                if ends_with_newline {
                    join_bytes(lines, 10u8).push(10u8)
                } else {
                    join_bytes(lines, 10u8)
                },
            ),
        ),
    ensures
        seq_sum(ts.integration_frequency@) == lines.len(),
        seq_sum(ts.commit_frequency@) == lines.len(),
{
    lemma_records_of_lines(lines, ends_with_newline);
    let bytes = if ends_with_newline {
        join_bytes(lines, 10u8).push(10u8)
    } else {
        join_bytes(lines, 10u8)
    };
    lemma_every_commit_counted_once(ts, plain_log_records(bytes));
}

/// What the csv reader of the commit logs decodes from the bytes of a log (no header
/// line, `,` as delimiter, no doubled quotes, records of any length): the records
/// before the first one it fails on, and whether it reached the end without failing.
pub uninterp spec fn csv_log_records(bytes: Seq<u8>) -> (Seq<Commit>, bool);

/// Decodes the records of a commit log with the csv crate's reader.
///
/// Trusted: the records returned are those the reader yields, each turned into its
/// fields, up to the first error, and the flag tells whether no error came. What the
/// reader yields for given bytes is named: it follows the csv format. For a plain
/// log (ASCII bytes without quotes or carriage returns) it is stated: the reader
/// then yields one record per line that is not empty, the last line too whether or
/// not a newline ends it, each holding the pieces of the line between commas, empty
/// ones included; ASCII text is valid UTF-8, so no error comes.
#[verifier::external_body]
fn parse_log_records(bytes: &Vec<u8>) -> (decoded: (Vec<Vec<String>>, bool))
    ensures
        (records_view(decoded.0@), decoded.1) == csv_log_records(bytes@),
        is_plain_log(bytes@) ==> decoded.1 && records_view(decoded.0@) == plain_log_records(
            bytes@,
        ),
{
    let mut reader = csv::ReaderBuilder::new().has_headers(false).delimiter(b',').double_quote(
        false,
    ).flexible(true).from_reader(bytes.as_slice());
    let mut records: Vec<Vec<String>> = Vec::new();
    for record in reader.records() {
        match record {
            Ok(record) => records.push(record.iter().map(String::from).collect()),
            Err(_) => return (records, false),
        }
    }
    (records, true)
}

/// The time series can be built from a log without failing: every record up to the
/// first malformed one decodes, and the records decoded are readable.
pub open spec fn log_bytes_readable(bytes: Seq<u8>) -> bool {
    let (commits, complete) = csv_log_records(bytes);
    &&& complete || !all_have_expected_columns(commits)
    &&& log_is_readable(commits)
}

/// The weekly time series of a project, from the bytes of its commit log.
///
/// Returns `None` exactly when a record of the log does not have the expected number
/// of columns; otherwise the series are those of its records.
pub fn extract_activity_time_series_from_log(bytes: &Vec<u8>) -> (result: Option<
    ActivityTimeSeries,
>)
    requires
        log_bytes_readable(bytes@),
    ensures
        match result {
            None => !all_have_expected_columns(csv_log_records(bytes@).0),
            Some(ts) => all_have_expected_columns(csv_log_records(bytes@).0) && series_of_log(
                ts,
                csv_log_records(bytes@).0,
            ),
        },
        is_plain_log(bytes@) ==> csv_log_records(bytes@) == (plain_log_records(bytes@), true),
{
    let (records, _complete) = parse_log_records(bytes);
    extract_activity_time_series(&records)
}

/// Whether the number of spaces in `s` fits a `u32`.
fn space_count_fits(s: &String) -> (fits: bool)
    ensures
        fits == (count_char(s@, ' ') <= u32::MAX),
{
    let mut count: u32 = 0;
    for c in it: s.chars()
        invariant
            it.seq() == s@,
            count == count_char(s@.take(it.index()), ' '),
    {
        proof {
            assert(s@.take(it.index() + 1).drop_last() == s@.take(it.index()));
            assert(s@.take(it.index() + 1).last() == c);
        }
        if c == ' ' {
            if count == u32::MAX {
                proof {
                    lemma_count_char_prefix_monotone(s@, ' ', it.index() + 1);
                }
                return false;
            }
            count += 1;
        }
    }
    proof {
        assert(s@.take(s@.len() as int) == s@);
    }
    true
}

/// Whether decoded records, complete or not, can be turned into time series.
fn records_readable(records: &Vec<Vec<String>>, complete: bool) -> (readable: bool)
    ensures
        readable == ((complete || !all_have_expected_columns(records_view(records@)))
            && log_is_readable(records_view(records@))),
{
    let ghost log = records_view(records@);
    let n = records.len();
    let mut i: usize = 0;
    while i < n
        invariant
            i <= n,
            n == records@.len(),
            log == records_view(records@),
            all_have_expected_columns(log.take(i as int)),
            forall|j: int| 0 <= j < i ==> dates_readable(#[trigger] log[j]),
        decreases n - i,
    {
        proof {
            lemma_record_view(records@, i as int);
            let t = log.take(i + 1);
            assert(t.drop_last() == log.take(i as int));
        }
        if records[i].len() != EXPECTED_CSV_COLUMNS {
            proof {
                assert(!has_expected_columns(log[i as int]));
                assert(!all_have_expected_columns(log));
                assert forall|j: int|
                    0 <= j < log.len() && all_have_expected_columns(
                        #[trigger] log.take(j + 1),
                    ) implies dates_readable(log[j]) by {
                    if j >= i {
                        assert(log.take(j + 1)[i as int] == log[i as int]);
                    }
                }
            }
            return true;
        }
        proof {
            assert(all_have_expected_columns(log.take(i + 1))) by {
                assert forall|j: int| 0 <= j < log.take(i + 1).len() implies has_expected_columns(
                    #[trigger] log.take(i + 1)[j],
                ) by {
                    if j < i {
                        assert(log.take(i + 1)[j] == log.take(i as int)[j]);
                    }
                }
            }
        }
        if parse_i64(&records[i][INTEGRATOR_DATE]).is_none() || parse_i64(
            &records[i][AUTHOR_DATE],
        ).is_none() {
            proof {
                assert(!dates_readable(log[i as int]));
            }
            return false;
        }
        i += 1;
    }
    proof {
        assert(log.take(n as int) == log);
        assert forall|j: int|
            0 <= j < log.len() && all_have_expected_columns(#[trigger] log.take(j + 1)) implies dates_readable(
            log[j],
        ) by {}
    }
    if !complete || n == 0 {
        return false;
    }
    let mut i: usize = 0;
    while i < n
        invariant
            i <= n,
            n == records@.len(),
            log == records_view(records@),
            all_have_expected_columns(log),
            forall|j: int| 0 <= j < n ==> dates_readable(#[trigger] log[j]),
            forall|j: int| 0 <= j < i ==> commit_in_calendar(#[trigger] log[j]),
        decreases n - i,
    {
        proof {
            lemma_record_view(records@, i as int);
            assert(dates_readable(log[i as int]));
            assert(has_expected_columns(log[i as int]));
        }
        let integration_date = parse_i64(&records[i][INTEGRATOR_DATE]).unwrap();
        let author_date = parse_i64(&records[i][AUTHOR_DATE]).unwrap();
        if integration_date < MIN_TIMESTAMP || integration_date > MAX_TIMESTAMP || author_date
            < MIN_TIMESTAMP || author_date > MAX_TIMESTAMP || !space_count_fits(
            &records[i][PARENT_HASHES],
        ) {
            proof {
                assert(!commit_in_calendar(log[i as int]));
            }
            return false;
        }
        i += 1;
    }
    true
}

/// What reading a commit log gives.
pub enum LogReading {
    /// Building the series would fail: a record before the first malformed one does
    /// not decode or has a date that is not an integer, or the log is well-formed but
    /// empty, has a date outside the calendar, or too many parents on a line.
    Unreadable,
    /// A record does not have the expected number of columns.
    Malformed,
    /// The weekly time series of the log.
    Series(ActivityTimeSeries),
}

/// Reads the weekly time series of a project from the bytes of its commit log,
/// telling first whether the log can be read at all.
pub fn read_activity_time_series(bytes: &Vec<u8>) -> (reading: LogReading)
    ensures
        reading is Unreadable <==> !log_bytes_readable(bytes@),
        reading is Malformed ==> !all_have_expected_columns(csv_log_records(bytes@).0),
        reading matches LogReading::Series(ts) ==> all_have_expected_columns(
            csv_log_records(bytes@).0,
        ) && series_of_log(ts, csv_log_records(bytes@).0),
        log_bytes_readable(bytes@) && !all_have_expected_columns(csv_log_records(bytes@).0)
            ==> reading is Malformed,
        is_plain_log(bytes@) ==> csv_log_records(bytes@) == (plain_log_records(bytes@), true),
        is_plain_log(bytes@) ==> (reading matches LogReading::Series(ts) ==> series_of_log(
            ts,
            plain_log_records(bytes@),
        )),
{
    let (records, complete) = parse_log_records(bytes);
    if !records_readable(&records, complete) {
        return LogReading::Unreadable;
    }
    match extract_activity_time_series(&records) {
        None => LogReading::Malformed,
        Some(ts) => LogReading::Series(ts),
    }
}

} // verus!
