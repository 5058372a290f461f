//! The aggregator: accumulated focus time per (application, window) pair.
use vstd::prelude::*;

verus! {

/// One tick's observation: the focused application and its window title.
pub struct Sample {
    pub application_name: String,
    pub window_title: String,
}

/// Time accumulated for one (application, window) pair.
pub struct LogEntry {
    pub application_name: String,
    pub window_name: String,
    pub duration_seconds: u64,
}

/// The mathematical value of a `LogEntry`.
pub struct EntryView {
    pub application: Seq<char>,
    pub window: Seq<char>,
    pub duration: u64,
}

impl View for LogEntry {
    type V = EntryView;

    open spec fn view(&self) -> EntryView {
        EntryView {
            application: self.application_name@,
            window: self.window_name@,
            duration: self.duration_seconds,
        }
    }
}

/// The mathematical value of a `TrackedState`: entries and applications,
/// each in the order in which they were first seen.
pub struct StateView {
    pub entries: Seq<EntryView>,
    pub applications: Seq<Seq<char>>,
}

/// Everything the tracker has accumulated since it was created.
pub struct TrackedState {
    entries: Vec<LogEntry>,
    applications: Vec<String>,
}

/// `d + period`, held at `u64::MAX` rather than wrapping.
pub open spec fn add_period(d: u64, period: u64) -> u64 {
    if d + period > u64::MAX {
        u64::MAX
    } else {
        (d + period) as u64
    }
}

/// The entry at index `i` is the one for (`application`, `window`).
pub open spec fn entry_has_key(
    entries: Seq<EntryView>,
    i: int,
    application: Seq<char>,
    window: Seq<char>,
) -> bool {
    0 <= i < entries.len() && entries[i].application == application && entries[i].window
        == window
}

/// Some entry is kept for (`application`, `window`).
pub open spec fn has_key(entries: Seq<EntryView>, application: Seq<char>, window: Seq<char>) -> bool {
    exists|i: int| entry_has_key(entries, i, application, window)
}

/// `a` and `b` are kept for the same (application, window) pair.
pub open spec fn same_key(a: EntryView, b: EntryView) -> bool {
    a.application == b.application && a.window == b.window
}

/// At most one entry per (application, window) pair, no application listed
/// twice, and every entry's application listed.
pub open spec fn state_wf(s: StateView) -> bool {
    &&& forall|i: int, j: int|
        0 <= i < j < s.entries.len() ==> !same_key(#[trigger] s.entries[i], #[trigger] s.entries[j])
    &&& s.applications.no_duplicates()
    &&& forall|i: int|
        0 <= i < s.entries.len() ==> s.applications.contains(#[trigger] s.entries[i].application)
}

/// The state after one period is attributed to (`application`, `window`):
/// the pair's entry grows by `period`, or a new entry of `period` is added
/// at the end; the application is listed at the end if it is new.
pub open spec fn tracked_after(
    s: StateView,
    application: Seq<char>,
    window: Seq<char>,
    period: u64,
) -> StateView {
    StateView {
        entries: if has_key(s.entries, application, window) {
            let i = choose|i: int| entry_has_key(s.entries, i, application, window);
            s.entries.update(
                i,
                EntryView {
                    application,
                    window,
                    duration: add_period(s.entries[i].duration, period),
                },
            )
        } else {
            s.entries.push(EntryView { application, window, duration: period })
        },
        applications: if s.applications.contains(application) {
            s.applications
        } else {
            s.applications.push(application)
        },
    }
}

impl View for TrackedState {
    type V = StateView;

    closed spec fn view(&self) -> StateView {
        StateView {
            entries: self.entries@.map_values(|e: LogEntry| e@),
            applications: self.applications@.map_values(|a: String| a@),
        }
    }
}

impl TrackedState {
    /// The state invariant holds.
    pub open spec fn wf(&self) -> bool {
        state_wf(self@)
    }

    /// An empty state: nothing tracked yet.
    pub fn new() -> (r: TrackedState)
        ensures
            r.wf(),
            r@.entries.len() == 0,
            r@.applications.len() == 0,
    {
        let r = TrackedState { entries: Vec::new(), applications: Vec::new() };
        assert(r@.entries =~= Seq::<EntryView>::empty());
        assert(r@.applications =~= Seq::<Seq<char>>::empty());
        r
    }

    /// The entries, in the order in which their pairs were first seen.
    pub fn entries(&self) -> (r: &Vec<LogEntry>)
        ensures
            r@.map_values(|e: LogEntry| e@) == self@.entries,
    {
        &self.entries
    }

    /// The applications, in the order in which they were first seen.
    pub fn applications(&self) -> (r: &Vec<String>)
        ensures
            r@.map_values(|a: String| a@) == self@.applications,
    {
        &self.applications
    }

    /// Applies one tick: a present sample gets one period of time, an absent
    /// one changes nothing.
    pub fn update(&mut self, sample: Option<Sample>, period: u64)
        requires
            old(self).wf(),
        ensures
            final(self).wf(),
            match sample {
                None => *final(self) == *old(self),
                Some(s) => final(self)@ == tracked_after(
                    old(self)@,
                    s.application_name@,
                    s.window_title@,
                    period,
                ),
            },
    {
        match sample {
            None => {},
            Some(s) => track_window(self, s.application_name, s.window_title, period),
        }
    }
}

/// Attributing time keeps the state invariant.
pub proof fn lemma_tracked_after_wf(s: StateView, application: Seq<char>, window: Seq<char>, period: u64)
    requires
        state_wf(s),
    ensures
        state_wf(tracked_after(s, application, window, period)),
{
    let t = tracked_after(s, application, window, period);
    if has_key(s.entries, application, window) {
        let i = choose|i: int| entry_has_key(s.entries, i, application, window);
        assert forall|j: int| 0 <= j < t.entries.len() implies same_key(#[trigger] t.entries[j], s.entries[j]) by {}
        assert(s.applications.contains(s.entries[i].application));
    } else {
        let n = s.entries.len() as int;
        assert forall|j: int| 0 <= j < n implies !same_key(#[trigger] t.entries[j], t.entries[n]) by {
            assert(!entry_has_key(s.entries, j, application, window));
        }
        assert(t.applications.contains(application)) by {
            if s.applications.contains(application) {
            } else {
                assert(t.applications[s.applications.len() as int] == application);
            }
        }
        assert forall|j: int| 0 <= j < t.entries.len() implies t.applications.contains(#[trigger] t.entries[j].application) by {
            if j < n {
                let k = choose|k: int| 0 <= k < s.applications.len() && s.applications[k] == s.entries[j].application;
                assert(t.applications[k] == s.entries[j].application);
            }
        }
    }
    if !s.applications.contains(application) {
        assert forall|j: int| 0 <= j < s.entries.len() implies t.applications.contains(#[trigger] s.entries[j].application) by {
            let k = choose|k: int| 0 <= k < s.applications.len() && s.applications[k] == s.entries[j].application;
            assert(t.applications[k] == s.entries[j].application);
        }
    }
}

/// Attributes one period of focus time to `window` of `application`.
pub fn track_window(
    app_windows: &mut TrackedState,
    application: String,
    window: String,
    period: u64,
)
    requires
        old(app_windows).wf(),
    ensures
        final(app_windows).wf(),
        final(app_windows)@ == tracked_after(old(app_windows)@, application@, window@, period),
{
    let ghost s0 = app_windows@;
    proof {
        lemma_tracked_after_wf(s0, application@, window@, period);
    }
    let mut a: usize = 0;
    let mut known = false;
    while a < app_windows.applications.len()
        invariant
            app_windows@ == s0,
            state_wf(s0),
            a <= app_windows.applications@.len(),
            known <==> exists|k: int| 0 <= k < a && app_windows.applications@[k]@ == application@,
        decreases app_windows.applications@.len() - a,
    {
        if app_windows.applications[a] == application {
            known = true;
        }
        a = a + 1;
    }
    if !known {
        app_windows.applications.push(application.clone());
    }
    let ghost s1 = app_windows@;
    assert(s1.applications =~= tracked_after(s0, application@, window@, period).applications) by {
        if known {
            let k = choose|k: int| 0 <= k < a && app_windows.applications@[k]@ == application@;
            assert(s0.applications[k] == application@);
        } else {
            assert forall|k: int| 0 <= k < s0.applications.len() implies s0.applications[k] != application@ by {
                assert(app_windows.applications@[k]@ == s0.applications[k]);
            }
        }
    }
    let mut i: usize = 0;
    let mut found = false;
    while i < app_windows.entries.len() && !found
        invariant
            app_windows@ == s1,
            state_wf(s0),
            s1.entries == s0.entries,
            i <= s0.entries.len(),
            found ==> i < s0.entries.len() && entry_has_key(s0.entries, i as int, application@, window@),
            forall|k: int| 0 <= k < i ==> !entry_has_key(s0.entries, k, application@, window@),
        decreases s0.entries.len() - i + if found { 0int } else { 1int },
    {
        if app_windows.entries[i].application_name == application
            && app_windows.entries[i].window_name == window {
            found = true;
        } else {
            i = i + 1;
        }
    }
    if found {
        proof {
            let j = choose|j: int| entry_has_key(s0.entries, j, application@, window@);
            assert(j == i) by {
                if j < i {
                    assert(same_key(s0.entries[j], s0.entries[i as int]));
                } else if j > i {
                    assert(same_key(s0.entries[i as int], s0.entries[j]));
                }
            }
        }
        let d = app_windows.entries[i].duration_seconds.saturating_add(period);
        app_windows.entries[i].duration_seconds = d;
    } else {
        app_windows.entries.push(
            LogEntry { application_name: application, window_name: window, duration_seconds: period },
        );
    }
    assert(app_windows@.entries =~= tracked_after(s0, application@, window@, period).entries);
}

/// The state after each (application, window) pair of `samples`, in order,
/// has been given one `period`.
pub open spec fn tracked_after_all(
    s: StateView,
    samples: Seq<(Seq<char>, Seq<char>)>,
    period: u64,
) -> StateView
    decreases samples.len(),
{
    if samples.len() == 0 {
        s
    } else {
        tracked_after(
            tracked_after_all(s, samples.drop_last(), period),
            samples.last().0,
            samples.last().1,
            period,
        )
    }
}

/// Every entry of `s` is still at its place in `t`, for the same pair, with
/// no less time.
pub open spec fn grown_from(s: StateView, t: StateView) -> bool {
    &&& s.entries.len() <= t.entries.len()
    &&& forall|i: int|
        0 <= i < s.entries.len() ==> same_key(#[trigger] t.entries[i], s.entries[i])
            && t.entries[i].duration >= s.entries[i].duration
}

/// Durations never decrease: after any sequence of present samples, every
/// entry keeps its pair and place and has at least the time it had.
pub proof fn lemma_durations_monotone(
    s: StateView,
    samples: Seq<(Seq<char>, Seq<char>)>,
    period: u64,
)
    ensures
        grown_from(s, tracked_after_all(s, samples, period)),
    decreases samples.len(),
{
    if samples.len() > 0 {
        let mid = tracked_after_all(s, samples.drop_last(), period);
        lemma_durations_monotone(s, samples.drop_last(), period);
        let t = tracked_after(mid, samples.last().0, samples.last().1, period);
        assert forall|i: int| 0 <= i < mid.entries.len() implies same_key(#[trigger] t.entries[i], mid.entries[i])
            && t.entries[i].duration >= mid.entries[i].duration by {}
        assert forall|i: int| 0 <= i < s.entries.len() implies same_key(#[trigger] t.entries[i], s.entries[i])
            && t.entries[i].duration >= s.entries[i].duration by {
            assert(same_key(mid.entries[i], s.entries[i]));
            assert(same_key(t.entries[i], mid.entries[i]));
        }
    }
}

/// A pair not seen before gets exactly one new entry, at the end, holding
/// one period; every other entry stays as it was.
pub proof fn lemma_new_pair(s: StateView, application: Seq<char>, window: Seq<char>, period: u64)
    requires
        !has_key(s.entries, application, window),
    ensures
        tracked_after(s, application, window, period).entries.len() == s.entries.len() + 1,
        tracked_after(s, application, window, period).entries.last() == (EntryView {
            application,
            window,
            duration: period,
        }),
        tracked_after(s, application, window, period).entries.drop_last() == s.entries,
{
    assert(tracked_after(s, application, window, period).entries.drop_last() =~= s.entries);
}

} // verus!
