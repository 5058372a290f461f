//! The summary: accumulated time grouped by application, for display.
use vstd::prelude::*;
use crate::tracker::{EntryView, LogEntry, StateView, TrackedState};

verus! {

/// One window's line in an application's block.
pub struct WindowLine {
    pub window_name: String,
    pub duration_seconds: u64,
}

/// The mathematical value of a `WindowLine`.
pub struct LineView {
    pub window: Seq<char>,
    pub duration: u64,
}

impl View for WindowLine {
    type V = LineView;

    open spec fn view(&self) -> LineView {
        LineView { window: self.window_name@, duration: self.duration_seconds }
    }
}

/// The time of one application: its total and its windows.
pub struct ApplicationBlock {
    pub application_name: String,
    pub total_seconds: u128,
    pub entries: Vec<WindowLine>,
}

/// The mathematical value of an `ApplicationBlock`.
pub struct BlockView {
    pub application: Seq<char>,
    pub total: int,
    pub lines: Seq<LineView>,
}

impl View for ApplicationBlock {
    type V = BlockView;

    open spec fn view(&self) -> BlockView {
        BlockView {
            application: self.application_name@,
            total: self.total_seconds as int,
            lines: self.entries@.map_values(|l: WindowLine| l@),
        }
    }
}

/// The lines of the entries of `application`, in entry order.
pub open spec fn lines_of(entries: Seq<EntryView>, application: Seq<char>) -> Seq<LineView>
    decreases entries.len(),
{
    if entries.len() == 0 {
        seq![]
    } else {
        let rest = lines_of(entries.drop_last(), application);
        let e = entries.last();
        if e.application == application {
            rest.push(LineView { window: e.window, duration: e.duration })
        } else {
            rest
        }
    }
}

/// `x` placed after the leading lines of `s` whose duration is at least its own.
pub open spec fn insert_desc(s: Seq<LineView>, x: LineView) -> Seq<LineView>
    decreases s.len(),
{
    if s.len() == 0 {
        seq![x]
    } else if s[0].duration >= x.duration {
        seq![s[0]] + insert_desc(s.drop_first(), x)
    } else {
        seq![x] + s
    }
}

/// `s` sorted by duration, longest first; equal durations keep their order.
pub open spec fn sort_desc(s: Seq<LineView>) -> Seq<LineView>
    decreases s.len(),
{
    if s.len() == 0 {
        s
    } else {
        insert_desc(sort_desc(s.drop_last()), s.last())
    }
}

/// Durations never grow along `s`.
pub open spec fn is_desc(s: Seq<LineView>) -> bool {
    forall|i: int, j: int| 0 <= i < j < s.len() ==> s[i].duration >= s[j].duration
}

/// The sum of the durations of `s`.
pub open spec fn sum_lines(s: Seq<LineView>) -> int
    decreases s.len(),
{
    if s.len() == 0 {
        0
    } else {
        s[0].duration + sum_lines(s.drop_first())
    }
}

/// The block of `application` over `entries`: the sum of its entries'
/// durations, and its lines sorted longest first.
pub open spec fn block_of_entries(entries: Seq<EntryView>, application: Seq<char>) -> BlockView {
    BlockView {
        application,
        total: sum_lines(lines_of(entries, application)),
        lines: sort_desc(lines_of(entries, application)),
    }
}

/// The summary of state `s`: one block per application, in first-seen order.
pub open spec fn summary_of(s: StateView) -> Seq<BlockView> {
    s.applications.map_values(|a: Seq<char>| block_of_entries(s.entries, a))
}

proof fn lemma_sum_push(s: Seq<LineView>, x: LineView)
    ensures
        sum_lines(s.push(x)) == sum_lines(s) + x.duration,
    decreases s.len(),
{
    if s.len() > 0 {
        assert(s.push(x).drop_first() =~= s.drop_first().push(x));
        lemma_sum_push(s.drop_first(), x);
    } else {
        assert(s.push(x).drop_first() =~= s);
    }
}

proof fn lemma_sum_insert(s: Seq<LineView>, x: LineView)
    ensures
        sum_lines(insert_desc(s, x)) == sum_lines(s) + x.duration,
    decreases s.len(),
{
    if s.len() > 0 {
        if s[0].duration >= x.duration {
            lemma_sum_insert(s.drop_first(), x);
            assert((seq![s[0]] + insert_desc(s.drop_first(), x)).drop_first() =~= insert_desc(
                s.drop_first(),
                x,
            ));
        } else {
            assert((seq![x] + s).drop_first() =~= s);
        }
    } else {
        assert(seq![x].drop_first() =~= s);
    }
}

proof fn lemma_sum_sort(s: Seq<LineView>)
    ensures
        sum_lines(sort_desc(s)) == sum_lines(s),
    decreases s.len(),
{
    if s.len() > 0 {
        lemma_sort_len(s.drop_last());
        lemma_sum_sort(s.drop_last());
        lemma_sum_insert(sort_desc(s.drop_last()), s.last());
        lemma_sum_push(s.drop_last(), s.last());
        assert(s.drop_last().push(s.last()) =~= s);
    }
}

proof fn lemma_insert_len(s: Seq<LineView>, x: LineView)
    ensures
        insert_desc(s, x).len() == s.len() + 1,
    decreases s.len(),
{
    if s.len() > 0 && s[0].duration >= x.duration {
        lemma_insert_len(s.drop_first(), x);
    }
}

proof fn lemma_sort_len(s: Seq<LineView>)
    ensures
        sort_desc(s).len() == s.len(),
    decreases s.len(),
{
    if s.len() > 0 {
        lemma_sort_len(s.drop_last());
        lemma_insert_len(sort_desc(s.drop_last()), s.last());
    }
}

/// Where `x` goes: after exactly the first `pos` lines, which are all at
/// least as long as `x`, and before a shorter one.
proof fn lemma_insert_at(s: Seq<LineView>, x: LineView, pos: int)
    requires
        0 <= pos <= s.len(),
        forall|k: int| 0 <= k < pos ==> s[k].duration >= x.duration,
        pos < s.len() ==> s[pos].duration < x.duration,
    ensures
        insert_desc(s, x) == s.insert(pos, x),
    decreases s.len(),
{
    if pos == 0 {
        if s.len() > 0 {
            assert(seq![x] + s =~= s.insert(0, x));
        } else {
            assert(seq![x] =~= s.insert(0, x));
        }
    } else {
        lemma_insert_at(s.drop_first(), x, pos - 1);
        assert(seq![s[0]] + s.drop_first().insert(pos - 1, x) =~= s.insert(pos, x));
    }
}

/// Places `line` among `lines` as `insert_desc` says.
fn insert_line(lines: &mut Vec<WindowLine>, line: WindowLine)
    ensures
        final(lines)@.map_values(|l: WindowLine| l@) == insert_desc(
            old(lines)@.map_values(|l: WindowLine| l@),
            line@,
        ),
{
    let ghost s = lines@.map_values(|l: WindowLine| l@);
    let mut pos: usize = 0;
    while pos < lines.len() && lines[pos].duration_seconds >= line.duration_seconds
        invariant
            pos <= lines@.len(),
            s == lines@.map_values(|l: WindowLine| l@),
            forall|k: int| 0 <= k < pos ==> s[k].duration >= line.duration_seconds,
        decreases lines@.len() - pos,
    {
        pos = pos + 1;
    }
    proof {
        lemma_insert_at(s, line@, pos as int);
    }
    lines.insert(pos, line);
    assert(lines@.map_values(|l: WindowLine| l@) =~= s.insert(pos as int, line@));
}

proof fn lemma_insert_bounded(s: Seq<LineView>, x: LineView, b: u64)
    requires
        forall|k: int| 0 <= k < s.len() ==> s[k].duration <= b,
        x.duration <= b,
    ensures
        forall|k: int| 0 <= k < insert_desc(s, x).len() ==> insert_desc(s, x)[k].duration <= b,
    decreases s.len(),
{
    let r = insert_desc(s, x);
    if s.len() > 0 && s[0].duration >= x.duration {
        let t = s.drop_first();
        lemma_insert_bounded(t, x, b);
        assert forall|k: int| 0 <= k < r.len() implies r[k].duration <= b by {
            if k > 0 {
                assert(r[k] == insert_desc(t, x)[k - 1]);
            }
        }
    } else if s.len() > 0 {
        assert forall|k: int| 0 <= k < r.len() implies r[k].duration <= b by {
            if k > 0 {
                assert(r[k] == s[k - 1]);
            }
        }
    }
}

proof fn lemma_insert_desc(s: Seq<LineView>, x: LineView)
    requires
        is_desc(s),
    ensures
        is_desc(insert_desc(s, x)),
    decreases s.len(),
{
    if s.len() > 0 {
        if s[0].duration >= x.duration {
            let t = s.drop_first();
            lemma_insert_desc(t, x);
            lemma_insert_bounded(t, x, s[0].duration);
            let r = insert_desc(s, x);
            assert forall|i: int, j: int| 0 <= i < j < r.len() implies r[i].duration >= r[j].duration by {
                if i > 0 {
                    assert(r[i] == insert_desc(t, x)[i - 1]);
                }
                assert(r[j] == insert_desc(t, x)[j - 1]);
            }
        }
    }
}

proof fn lemma_sort_desc(s: Seq<LineView>)
    ensures
        is_desc(sort_desc(s)),
    decreases s.len(),
{
    if s.len() > 0 {
        lemma_sort_desc(s.drop_last());
        lemma_insert_desc(sort_desc(s.drop_last()), s.last());
    }
}

/// Every block of a summary totals exactly the durations of its lines, and
/// lists them longest first.
pub proof fn lemma_block_totals(s: StateView, k: int)
    requires
        0 <= k < summary_of(s).len(),
    ensures
        summary_of(s)[k].total == sum_lines(summary_of(s)[k].lines),
        is_desc(summary_of(s)[k].lines),
{
    let lines = lines_of(s.entries, s.applications[k]);
    lemma_sum_sort(lines);
    lemma_sort_desc(lines);
}

/// The block of `application` built from `entries`.
fn block_for(entries: &Vec<LogEntry>, application: &String) -> (b: ApplicationBlock)
    ensures
        b@ == block_of_entries(entries@.map_values(|e: LogEntry| e@), application@),
{
    let ghost ev = entries@.map_values(|e: LogEntry| e@);
    let mut lines: Vec<WindowLine> = Vec::new();
    let mut total: u128 = 0;
    let mut e: usize = 0;
    assert(ev.take(0) =~= Seq::<EntryView>::empty());
    assert(lines@.map_values(|l: WindowLine| l@) =~= Seq::<LineView>::empty());
    while e < entries.len()
        invariant
            e <= ev.len(),
            ev == entries@.map_values(|e: LogEntry| e@),
            lines@.map_values(|l: WindowLine| l@) == sort_desc(lines_of(ev.take(e as int), application@)),
            total == sum_lines(lines_of(ev.take(e as int), application@)),
            total <= e * 0xffff_ffff_ffff_ffffu64,
        decreases ev.len() - e,
    {
        let ghost before = lines_of(ev.take(e as int), application@);
        assert(ev.take(e + 1).drop_last() =~= ev.take(e as int));
        if entries[e].application_name == *application {
            let d = entries[e].duration_seconds;
            let line = WindowLine { window_name: entries[e].window_name.clone(), duration_seconds: d };
            proof {
                assert(lines_of(ev.take(e + 1), application@) == before.push(line@));
                assert(before.push(line@).drop_last() =~= before);
                lemma_sum_push(before, line@);
                let m = 0xffff_ffff_ffff_ffffu64 as int;
                assert(total + d <= (e + 1) * m) by (nonlinear_arith)
                    requires total <= e * m, d <= m;
                assert((e + 1) * m <= 0x1_0000_0000_0000_0000 * m) by (nonlinear_arith)
                    requires e + 1 <= 0x1_0000_0000_0000_0000int, m >= 0;
            }
            insert_line(&mut lines, line);
            total = total + d as u128;
        } else {
            assert(lines_of(ev.take(e + 1), application@) == before);
            assert(total <= (e + 1) * 0xffff_ffff_ffff_ffffu64) by (nonlinear_arith)
                requires total <= e * 0xffff_ffff_ffff_ffffu64;
        }
        e = e + 1;
    }
    assert(ev.take(e as int) =~= ev);
    ApplicationBlock { application_name: application.clone(), total_seconds: total, entries: lines }
}

impl TrackedState {
    /// The summary of what has been tracked: one block per application, in
    /// the order applications were first seen; each block's total and its
    /// windows, longest first.
    pub fn render(&self) -> (r: Vec<ApplicationBlock>)
        ensures
            r@.map_values(|b: ApplicationBlock| b@) == summary_of(self@),
    {
        let entries = self.entries();
        let apps = self.applications();
        let ghost s = self@;
        let mut blocks: Vec<ApplicationBlock> = Vec::new();
        let mut a: usize = 0;
        while a < apps.len()
            invariant
                a <= apps@.len(),
                apps@.map_values(|x: String| x@) == s.applications,
                entries@.map_values(|e: LogEntry| e@) == s.entries,
                blocks@.map_values(|b: ApplicationBlock| b@) == summary_of(s).take(a as int),
            decreases apps@.len() - a,
        {
            let block = block_for(entries, &apps[a]);
            assert(apps@[a as int]@ == s.applications[a as int]);
            assert(block@ == summary_of(s)[a as int]);
            let ghost prev = blocks@;
            blocks.push(block);
            assert(blocks@ == prev.push(block));
            assert(blocks@.map_values(|b: ApplicationBlock| b@) =~= prev.map_values(
                |b: ApplicationBlock| b@,
            ).push(block@));
            assert(summary_of(s).take(a + 1) =~= summary_of(s).take(a as int).push(
                summary_of(s)[a as int],
            ));
            a = a + 1;
        }
        assert(summary_of(s).take(a as int) =~= summary_of(s));
        blocks
    }
}

/// A number of seconds as hours, minutes and seconds. Hours do not wrap at
/// a day.
pub struct ClockTime {
    pub hours: u128,
    pub minutes: u8,
    pub seconds: u8,
}

/// Splits `total_seconds` into whole hours, minutes and seconds, rounding down.
pub fn clock_of(total_seconds: u128) -> (c: ClockTime)
    ensures
        c.hours == total_seconds / 3600,
        c.minutes == (total_seconds / 60) % 60,
        c.seconds == total_seconds % 60,
        c.hours * 3600 + c.minutes * 60 + c.seconds == total_seconds,
{
    let hours = total_seconds / 3600;
    let minutes = ((total_seconds / 60) % 60) as u8;
    let seconds = (total_seconds % 60) as u8;
    assert(hours * 3600 + minutes * 60 + seconds == total_seconds) by (nonlinear_arith)
        requires
            hours == total_seconds / 3600,
            minutes == (total_seconds / 60) % 60,
            seconds == total_seconds % 60,
    {
        let t = total_seconds as int;
        assert(t == (t / 60) * 60 + t % 60);
        assert(t / 60 == ((t / 60) / 60) * 60 + (t / 60) % 60);
        assert((t / 60) / 60 == t / 3600);
    }
    ClockTime { hours, minutes, seconds }
}

} // verus!
