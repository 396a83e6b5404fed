//! Grouping a line diff into mismatches with context lines around them.
use std::collections::VecDeque;

use vstd::prelude::*;

use vstd::string::StringExecFns;

verus! {

/// A line of a mismatch.
#[derive(Debug, PartialEq)]
pub enum DiffLine {
    Context(String),
    Expected(String),
    Resulting(String),
}

/// The text of a `DiffLine`, with its kind.
pub enum DiffLineView {
    Context(Seq<char>),
    Expected(Seq<char>),
    Resulting(Seq<char>),
}

impl View for DiffLine {
    type V = DiffLineView;

    open spec fn view(&self) -> DiffLineView {
        match self {
            DiffLine::Context(s) => DiffLineView::Context(s@),
            DiffLine::Expected(s) => DiffLineView::Expected(s@),
            DiffLine::Resulting(s) => DiffLineView::Resulting(s@),
        }
    }
}

/// A run of differing lines, with the line number where it starts.
#[derive(Debug, PartialEq)]
pub struct Mismatch {
    pub line_number: u32,
    pub lines: Vec<DiffLine>,
}

/// A `Mismatch` as a line number and a sequence of lines.
pub struct MismatchView {
    pub line_number: int,
    pub lines: Seq<DiffLineView>,
}

pub open spec fn line_views(lines: Seq<DiffLine>) -> Seq<DiffLineView> {
    lines.map_values(|l: DiffLine| l@)
}

impl View for Mismatch {
    type V = MismatchView;

    open spec fn view(&self) -> MismatchView {
        MismatchView { line_number: self.line_number as int, lines: line_views(self.lines@) }
    }
}

impl Mismatch {
    pub fn new(line_number: u32) -> (r: Mismatch)
        ensures
            r.line_number == line_number,
            r.lines@.len() == 0,
    {
        Mismatch { line_number, lines: Vec::new() }
    }
}

/// An element of a line diff: a line only in the left text, only in the right
/// text, or in both.
pub enum DiffItem {
    Left(String),
    Right(String),
    Both(String, String),
}

/// The text of a `DiffItem`.
pub enum DiffItemView {
    Left(Seq<char>),
    Right(Seq<char>),
    Both(Seq<char>, Seq<char>),
}

impl View for DiffItem {
    type V = DiffItemView;

    open spec fn view(&self) -> DiffItemView {
        match self {
            DiffItem::Left(s) => DiffItemView::Left(s@),
            DiffItem::Right(s) => DiffItemView::Right(s@),
            DiffItem::Both(s, t) => DiffItemView::Both(s@, t@),
        }
    }
}

pub open spec fn item_views(items: Seq<DiffItem>) -> Seq<DiffItemView> {
    items.map_values(|d: DiffItem| d@)
}

/// The state of the grouping after some diff items: the current line number,
/// the context lines waiting for a mismatch, the lines read since the last
/// mismatch, the finished mismatches and the current one.
pub struct DiffState {
    pub line_number: int,
    pub queue: Seq<Seq<char>>,
    pub since_mismatch: int,
    pub results: Seq<MismatchView>,
    pub current: MismatchView,
}

/// The queued context lines, as context lines of a mismatch.
pub open spec fn as_context(queue: Seq<Seq<char>>) -> Seq<DiffLineView> {
    queue.map_values(|s: Seq<char>| DiffLineView::Context(s))
}

/// The state before any item.
pub open spec fn initial_state(context_size: int) -> DiffState {
    DiffState {
        line_number: 1,
        queue: Seq::<Seq<char>>::empty(),
        since_mismatch: context_size + 1,
        results: Seq::<MismatchView>::empty(),
        current: MismatchView { line_number: 0, lines: Seq::<DiffLineView>::empty() },
    }
}

/// A line that differs: when far enough from the last difference, the current
/// mismatch is finished and a new one starts where its context lines start;
/// the queued context lines, then `line`, go into the current mismatch.
pub open spec fn on_change(st: DiffState, context_size: int, line: DiffLineView) -> DiffState {
    let (results, current) = if st.since_mismatch >= context_size && st.since_mismatch > 0 {
        (
            st.results.push(st.current),
            MismatchView {
                line_number: st.line_number - st.queue.len(),
                lines: Seq::<DiffLineView>::empty(),
            },
        )
    } else {
        (st.results, st.current)
    };
    DiffState {
        line_number: st.line_number,
        queue: Seq::<Seq<char>>::empty(),
        since_mismatch: 0,
        results,
        current: MismatchView {
            line_number: current.line_number,
            lines: current.lines + as_context(st.queue) + seq![line],
        },
    }
}

/// The state after one more diff item. A line only in the left text is a
/// resulting line, one only in the right text an expected line (which counts
/// as a line); a common line is context: kept in the current mismatch right
/// after a difference, else queued (at most `context_size` of them).
pub open spec fn diff_step(st: DiffState, context_size: int, item: DiffItemView) -> DiffState {
    match item {
        DiffItemView::Left(s) => on_change(st, context_size, DiffLineView::Resulting(s)),
        DiffItemView::Right(s) => {
            let st1 = on_change(st, context_size, DiffLineView::Expected(s));
            DiffState { line_number: st1.line_number + 1, ..st1 }
        },
        DiffItemView::Both(s, _) => {
            let q = if st.queue.len() >= context_size && st.queue.len() > 0 {
                st.queue.drop_first()
            } else {
                st.queue
            };
            let (q2, current) = if st.since_mismatch < context_size {
                (
                    q,
                    MismatchView {
                        line_number: st.current.line_number,
                        lines: st.current.lines.push(DiffLineView::Context(s)),
                    },
                )
            } else if context_size > 0 {
                (q.push(s), st.current)
            } else {
                (q, st.current)
            };
            DiffState {
                line_number: st.line_number + 1,
                queue: q2,
                since_mismatch: st.since_mismatch + 1,
                results: st.results,
                current,
            }
        },
    }
}

/// The state after all of `items`.
pub open spec fn diff_fold(items: Seq<DiffItemView>, context_size: int) -> DiffState
    decreases items.len(),
{
    if items.len() == 0 {
        initial_state(context_size)
    } else {
        diff_step(diff_fold(items.drop_last(), context_size), context_size, items.last())
    }
}

/// The mismatches of a line diff, each with up to `context_size` common lines
/// before and after its differing lines.
pub open spec fn spec_mismatches(items: Seq<DiffItemView>, context_size: int) -> Seq<MismatchView> {
    let st = diff_fold(items, context_size);
    st.results.push(st.current).drop_first()
}

pub open spec fn string_views(q: Seq<String>) -> Seq<Seq<char>> {
    q.map_values(|s: String| s@)
}

pub open spec fn mismatch_views(ms: Seq<Mismatch>) -> Seq<MismatchView> {
    ms.map_values(|m: Mismatch| m@)
}

/// The queued lines go into `mismatch` as context lines.
fn drain_context(queue: &mut VecDeque<String>, mismatch: &mut Mismatch)
    ensures
        final(queue)@.len() == 0,
        final(mismatch)@ == (MismatchView {
            line_number: old(mismatch)@.line_number,
            lines: old(mismatch)@.lines + as_context(string_views(old(queue)@)),
        }),
{
    let ghost q0 = string_views(queue@);
    let ghost l0 = mismatch@.lines;
    let ghost n0 = mismatch.line_number;
    let ghost mut k: int = 0;
    while queue.len() > 0
        invariant
            0 <= k <= q0.len(),
            string_views(queue@) == q0.skip(k),
            mismatch.line_number == n0,
            mismatch@.lines == l0 + as_context(q0.take(k)),
        decreases queue@.len(),
    {
        let ghost qb = queue@;
        assert(string_views(qb).len() == qb.len());
        assert(k < q0.len());
        let line = queue.pop_front().unwrap();
        let ghost lv = line@;
        proof {
            assert(string_views(qb)[0] == qb[0]@);
            assert(q0.skip(k)[0] == lv);
            assert forall|j: int| 0 <= j < queue@.len() implies string_views(queue@)[j] == q0.skip(
                k + 1,
            )[j] by {
                assert(queue@[j] == qb[j + 1]);
                assert(string_views(qb)[j + 1] == q0.skip(k)[j + 1]);
            }
            assert(string_views(queue@) =~= q0.skip(k + 1));
        }
        let ghost lb = mismatch.lines@;
        mismatch.lines.push(DiffLine::Context(line));
        proof {
            assert(line_views(mismatch.lines@) =~= line_views(lb).push(DiffLineView::Context(lv)));
            assert(as_context(q0.take(k + 1)) =~= as_context(q0.take(k)).push(
                DiffLineView::Context(q0[k]),
            ));
            assert(line_views(mismatch.lines@) =~= l0 + as_context(q0.take(k + 1)));
            k = k + 1;
        }
    }
    proof {
        assert(q0.take(k) =~= q0);
    }
}

/// The grouping state held by the executable variables.
pub open spec fn state_of(
    line_number: u32,
    queue: Seq<String>,
    since_mismatch: usize,
    results: Seq<Mismatch>,
    current: Mismatch,
) -> DiffState {
    DiffState {
        line_number: line_number as int,
        queue: string_views(queue),
        since_mismatch: since_mismatch as int,
        results: mismatch_views(results),
        current: current@,
    }
}

/// A differing line (see `on_change`).
fn on_change_exec(
    line_number: u32,
    queue: &mut VecDeque<String>,
    since_mismatch: &mut usize,
    results: &mut Vec<Mismatch>,
    mismatch: &mut Mismatch,
    context_size: usize,
    line: DiffLine,
)
    requires
        old(queue)@.len() + 1 <= line_number,
    ensures
        state_of(line_number, final(queue)@, *final(since_mismatch), final(results)@, *final(mismatch))
            == on_change(
            state_of(line_number, old(queue)@, *old(since_mismatch), old(results)@, *old(mismatch)),
            context_size as int,
            line@,
        ),
{
    let ghost st = state_of(line_number, queue@, *since_mismatch, results@, *mismatch);
    if *since_mismatch >= context_size && *since_mismatch > 0 {
        let mut finished = Mismatch::new(line_number - queue.len() as u32);
        std::mem::swap(mismatch, &mut finished);
        results.push(finished);
        proof {
            assert(mismatch_views(results@) =~= st.results.push(st.current));
            assert(line_views(mismatch.lines@) =~= Seq::<DiffLineView>::empty());
        }
    }
    let ghost mid = mismatch@;
    drain_context(queue, mismatch);
    mismatch.lines.push(line);
    *since_mismatch = 0;
    proof {
        assert(line_views(mismatch.lines@) =~= mid.lines + as_context(st.queue) + seq![line@]);
        assert(string_views(queue@) =~= Seq::<Seq<char>>::empty());
    }
}

/// The mismatches of the line diff `items` (see `spec_mismatches`).
pub fn mismatches_from_diff(items: &Vec<DiffItem>, context_size: usize) -> (r: Vec<Mismatch>)
    requires
        items@.len() < u32::MAX,
        context_size + 1 + items@.len() <= usize::MAX,
    ensures
        mismatch_views(r@) == spec_mismatches(item_views(items@), context_size as int),
{
    let ghost cs = context_size as int;
    let ghost iv = item_views(items@);
    let mut line_number: u32 = 1;
    let mut context_queue: VecDeque<String> = VecDeque::with_capacity(context_size);
    let mut lines_since_mismatch: usize = context_size + 1;
    let mut results: Vec<Mismatch> = Vec::new();
    let mut mismatch = Mismatch::new(0);
    let mut i: usize = 0;
    proof {
        assert(iv.take(0) =~= Seq::<DiffItemView>::empty());
        assert(line_views(mismatch.lines@) =~= Seq::<DiffLineView>::empty());
        assert(string_views(context_queue@) =~= Seq::<Seq<char>>::empty());
        assert(mismatch_views(results@) =~= Seq::<MismatchView>::empty());
    }
    while i < items.len()
        invariant
            i <= items@.len(),
            items@.len() < u32::MAX,
            context_size + 1 + items@.len() <= usize::MAX,
            cs == context_size,
            iv == item_views(items@),
            line_number <= 1 + i,
            lines_since_mismatch <= context_size + 1 + i,
            context_queue@.len() + 1 <= line_number,
            context_queue@.len() <= context_size,
            diff_fold(iv.take(i as int), cs) == state_of(
                line_number,
                context_queue@,
                lines_since_mismatch,
                results@,
                mismatch,
            ),
        decreases items.len() - i,
    {
        proof {
            assert(iv.take(i + 1).drop_last() =~= iv.take(i as int));
            assert(iv.take(i + 1).last() == items@[i as int]@);
        }
        match &items[i] {
            DiffItem::Left(s) => {
                on_change_exec(
                    line_number,
                    &mut context_queue,
                    &mut lines_since_mismatch,
                    &mut results,
                    &mut mismatch,
                    context_size,
                    DiffLine::Resulting(s.clone()),
                );
            },
            DiffItem::Right(s) => {
                on_change_exec(
                    line_number,
                    &mut context_queue,
                    &mut lines_since_mismatch,
                    &mut results,
                    &mut mismatch,
                    context_size,
                    DiffLine::Expected(s.clone()),
                );
                line_number = line_number + 1;
            },
            DiffItem::Both(s, _) => {
                let ghost st = state_of(line_number, context_queue@, lines_since_mismatch, results@, mismatch);
                if context_queue.len() >= context_size && context_queue.len() > 0 {
                    let _ = context_queue.pop_front();
                }
                proof {
                    assert(string_views(context_queue@) =~= if st.queue.len() >= cs && st.queue.len() > 0 {
                        st.queue.drop_first()
                    } else {
                        st.queue
                    });
                }
                if lines_since_mismatch < context_size {
                    mismatch.lines.push(DiffLine::Context(s.clone()));
                    proof {
                        assert(line_views(mismatch.lines@) =~= st.current.lines.push(DiffLineView::Context(s@)));
                    }
                } else if context_size > 0 {
                    let ghost q = string_views(context_queue@);
                    context_queue.push_back(s.clone());
                    proof {
                        assert(string_views(context_queue@) =~= q.push(s@));
                    }
                }
                line_number = line_number + 1;
                lines_since_mismatch = lines_since_mismatch + 1;
            },
        }
        i = i + 1;
    }
    proof {
        assert(iv.take(i as int) =~= iv);
    }
    let ghost fin = mismatch_views(results@).push(mismatch@);
    results.push(mismatch);
    proof {
        assert(mismatch_views(results@) =~= fin);
    }
    results.remove(0);
    proof {
        assert(mismatch_views(results@) =~= fin.drop_first());
    }
    results
}

/// While every line is common, no mismatch starts: the state keeps no result,
/// an empty current mismatch, and more lines since a mismatch than the context.
proof fn lemma_common_fold(items: Seq<DiffItemView>, context_size: int)
    requires
        context_size >= 0,
        all_common(items),
    ensures
        diff_fold(items, context_size).results.len() == 0,
        diff_fold(items, context_size).current == initial_state(context_size).current,
        diff_fold(items, context_size).since_mismatch >= context_size + 1,
    decreases items.len(),
{
    if items.len() > 0 {
        assert forall|i: int| 0 <= i < items.drop_last().len() implies #[trigger] items.drop_last()[i] is Both by {
            assert(items.drop_last()[i] == items[i]);
        }
        lemma_common_fold(items.drop_last(), context_size);
        assert(items[items.len() - 1] is Both);
    }
}

/// A diff whose lines are all common, such as that of two equal texts, has no
/// mismatch.
pub proof fn lemma_common_lines_no_mismatch(items: Seq<DiffItemView>, context_size: int)
    requires
        context_size >= 0,
        all_common(items),
    ensures
        spec_mismatches(items, context_size).len() == 0,
{
    lemma_common_fold(items, context_size);
}

/// The text of a line of the diff: of a common line, its text in the left
/// input.
pub open spec fn item_text(item: DiffItemView) -> Seq<char> {
    match item {
        DiffItemView::Left(s) => s,
        DiffItemView::Right(s) => s,
        DiffItemView::Both(s, _) => s,
    }
}

/// How a line that differs is shown: a line only in the left input is a
/// resulting line, one only in the right input an expected line.
pub open spec fn changed_line(item: DiffItemView) -> DiffLineView {
    match item {
        DiffItemView::Left(s) => DiffLineView::Resulting(s),
        DiffItemView::Right(s) => DiffLineView::Expected(s),
        DiffItemView::Both(s, _) => DiffLineView::Context(s),
    }
}

/// The last `min(j, context_size)` common lines before position `j`, as text.
pub open spec fn last_common(items: Seq<DiffItemView>, j: int, context_size: int) -> Seq<Seq<char>> {
    let m = if j < context_size {
        j
    } else {
        context_size
    };
    Seq::new(m as nat, |i: int| item_text(items[j - m + i]))
}

/// Over a run of common lines from the start, no mismatch is begun, each line
/// counts, and the last `context_size` of them wait as context.
proof fn lemma_common_run(items: Seq<DiffItemView>, context_size: int, j: int)
    requires
        0 <= context_size,
        0 <= j <= items.len(),
        forall|i: int| 0 <= i < j ==> #[trigger] items[i] is Both,
    ensures
        diff_fold(items.take(j), context_size).results.len() == 0,
        diff_fold(items.take(j), context_size).current == initial_state(context_size).current,
        diff_fold(items.take(j), context_size).line_number == j + 1,
        diff_fold(items.take(j), context_size).since_mismatch == context_size + 1 + j,
        diff_fold(items.take(j), context_size).queue == last_common(items, j, context_size),
    decreases j,
{
    if j == 0 {
        assert(items.take(0) =~= Seq::<DiffItemView>::empty());
        assert(last_common(items, 0, context_size) =~= Seq::<Seq<char>>::empty());
    } else {
        lemma_common_run(items, context_size, j - 1);
        assert(items.take(j).drop_last() =~= items.take(j - 1));
        assert(items.take(j).last() == items[j - 1]);
        let st = diff_fold(items.take(j - 1), context_size);
        let q = st.queue;
        assert(items[j - 1] is Both);
        let next = diff_fold(items.take(j), context_size);
        if context_size > 0 {
            if q.len() >= context_size {
                assert(next.queue =~= q.drop_first().push(item_text(items[j - 1])));
            } else {
                assert(next.queue =~= q.push(item_text(items[j - 1])));
            }
            assert(next.queue =~= last_common(items, j, context_size));
        } else {
            assert(next.queue =~= last_common(items, j, context_size));
        }
    }
}

/// The mismatch at position `idx` of the finished and current mismatches
/// starts on line `line` with the lines `start`.
pub open spec fn starts_at(st: DiffState, idx: int, line: int, start: Seq<DiffLineView>) -> bool {
    let v = st.results.push(st.current);
    &&& 0 <= idx < v.len()
    &&& v[idx].line_number == line
    &&& v[idx].lines.len() >= start.len()
    &&& v[idx].lines.take(start.len() as int) == start
}

/// Later lines only add to the end of a mismatch or start new ones.
proof fn lemma_step_keeps_start(
    st: DiffState,
    context_size: int,
    item: DiffItemView,
    idx: int,
    line: int,
    start: Seq<DiffLineView>,
)
    requires
        starts_at(st, idx, line, start),
    ensures
        starts_at(diff_step(st, context_size, item), idx, line, start),
{
    let v = st.results.push(st.current);
    let nx = diff_step(st, context_size, item);
    let w = nx.results.push(nx.current);
    if nx.results.len() > st.results.len() {
        assert(nx.results == st.results.push(st.current));
        assert(w[idx] == v[idx]);
    } else if idx < st.results.len() {
        assert(w[idx] == st.results[idx]);
        assert(v[idx] == st.results[idx]);
    } else {
        assert(w[idx] == nx.current);
        assert(v[idx] == st.current);
        assert(nx.current.lines.take(start.len() as int) =~= st.current.lines.take(
            start.len() as int,
        ));
    }
}

/// From position `from` on, whatever the lines, a begun mismatch keeps its
/// start.
proof fn lemma_fold_keeps_start(
    items: Seq<DiffItemView>,
    context_size: int,
    from: int,
    j: int,
    idx: int,
    line: int,
    start: Seq<DiffLineView>,
)
    requires
        0 <= from <= j <= items.len(),
        starts_at(diff_fold(items.take(from), context_size), idx, line, start),
    ensures
        starts_at(diff_fold(items.take(j), context_size), idx, line, start),
    decreases j - from,
{
    if j > from {
        lemma_fold_keeps_start(items, context_size, from, j - 1, idx, line, start);
        assert(items.take(j).drop_last() =~= items.take(j - 1));
        lemma_step_keeps_start(
            diff_fold(items.take(j - 1), context_size),
            context_size,
            items[j - 1],
            idx,
            line,
            start,
        );
    }
}

/// The first mismatch, where at least `context_size` common lines come before
/// the first differing line (at position `k`), begins with exactly the last
/// `context_size` of those common lines, then the differing line, and its
/// line number is that of the first of those context lines.
pub proof fn lemma_first_mismatch_context(items: Seq<DiffItemView>, context_size: int, k: int)
    requires
        0 <= context_size <= k < items.len(),
        forall|i: int| 0 <= i < k ==> #[trigger] items[i] is Both,
        !(items[k] is Both),
    ensures
        spec_mismatches(items, context_size).len() >= 1,
        spec_mismatches(items, context_size)[0].line_number == k - context_size + 1,
        spec_mismatches(items, context_size)[0].lines.len() >= context_size + 1,
        forall|i: int|
            0 <= i < context_size ==> spec_mismatches(items, context_size)[0].lines[i]
                == DiffLineView::Context(item_text(#[trigger] items[k - context_size + i])),
        spec_mismatches(items, context_size)[0].lines[context_size] == changed_line(items[k]),
{
    lemma_common_run(items, context_size, k);
    let st = diff_fold(items.take(k), context_size);
    assert(items.take(k + 1).drop_last() =~= items.take(k));
    assert(items.take(k + 1).last() == items[k]);
    let nx = diff_fold(items.take(k + 1), context_size);
    let start = as_context(st.queue).push(changed_line(items[k]));
    assert(nx.results.len() == 1);
    assert(nx.current.line_number == k - context_size + 1);
    assert(nx.current.lines =~= start);
    assert(nx.results.push(nx.current)[1] == nx.current);
    assert(nx.current.lines.take(start.len() as int) =~= start);
    lemma_fold_keeps_start(items, context_size, k + 1, items.len() as int, 1, k - context_size + 1, start);
    assert(items.take(items.len() as int) =~= items);
    let fin = diff_fold(items, context_size);
    let v = fin.results.push(fin.current);
    assert(spec_mismatches(items, context_size)[0] == v[1]);
    assert forall|i: int| 0 <= i < context_size implies spec_mismatches(items, context_size)[0].lines[i]
        == DiffLineView::Context(item_text(#[trigger] items[k - context_size + i])) by {
        assert(v[1].lines.take(start.len() as int)[i] == start[i]);
    }
    assert(v[1].lines.take(start.len() as int)[context_size] == start[context_size]);
}

/// The number of the line at position `j` of a diff: one more than the lines
/// before it that are in the right input (common or expected lines).
pub open spec fn line_of(items: Seq<DiffItemView>, j: int) -> int
    decreases j,
{
    if j <= 0 {
        1
    } else {
        line_of(items, j - 1) + if items[j - 1] is Left {
            0int
        } else {
            1int
        }
    }
}

/// The grouping counts lines as `line_of` does.
proof fn lemma_fold_line(items: Seq<DiffItemView>, context_size: int, j: int)
    requires
        0 <= j <= items.len(),
    ensures
        diff_fold(items.take(j), context_size).line_number == line_of(items, j),
    decreases j,
{
    if j == 0 {
        assert(items.take(0) =~= Seq::<DiffItemView>::empty());
    } else {
        lemma_fold_line(items, context_size, j - 1);
        assert(items.take(j).drop_last() =~= items.take(j - 1));
        assert(items.take(j).last() == items[j - 1]);
    }
}

/// Over a run of common lines, each counts one line.
proof fn lemma_line_of_run(items: Seq<DiffItemView>, b: int, j: int)
    requires
        0 <= b <= j <= items.len(),
        forall|i: int| b <= i < j ==> #[trigger] items[i] is Both,
    ensures
        line_of(items, j) == line_of(items, b) + (j - b),
    decreases j - b,
{
    if j > b {
        lemma_line_of_run(items, b, j - 1);
        assert(items[j - 1] is Both);
    }
}

/// The common lines waiting as context at position `j`, when the lines since
/// the last differing line (at `a - 1`) are all common: those past the first
/// `context_size` of them, at most `context_size`, the last ones.
pub open spec fn context_after(items: Seq<DiffItemView>, a: int, j: int, context_size: int) -> Seq<
    Seq<char>,
> {
    let t = j - a - context_size;
    let m = if t <= 0 {
        0
    } else if t < context_size {
        t
    } else {
        context_size
    };
    Seq::new(m as nat, |i: int| item_text(items[j - m + i]))
}

/// Over a run of common lines after a differing one, no mismatch is finished,
/// the lines since the difference are counted, and the common lines past the
/// trailing context wait as context, at most `context_size` of them.
proof fn lemma_run_after_change(items: Seq<DiffItemView>, context_size: int, a: int, j: int)
    requires
        0 <= context_size,
        1 <= a <= j <= items.len(),
        !(items[a - 1] is Both),
        forall|i: int| a <= i < j ==> #[trigger] items[i] is Both,
    ensures
        diff_fold(items.take(j), context_size).results.len() == diff_fold(
            items.take(a),
            context_size,
        ).results.len(),
        diff_fold(items.take(j), context_size).since_mismatch == j - a,
        diff_fold(items.take(j), context_size).queue == context_after(items, a, j, context_size),
    decreases j - a,
{
    if j == a {
        assert(items.take(a).drop_last() =~= items.take(a - 1));
        assert(items.take(a).last() == items[a - 1]);
        assert(context_after(items, a, a, context_size) =~= Seq::<Seq<char>>::empty());
    } else {
        lemma_run_after_change(items, context_size, a, j - 1);
        assert(items.take(j).drop_last() =~= items.take(j - 1));
        assert(items.take(j).last() == items[j - 1]);
        assert(items[j - 1] is Both);
        let st = diff_fold(items.take(j - 1), context_size);
        let nx = diff_fold(items.take(j), context_size);
        let q = st.queue;
        if st.since_mismatch < context_size {
            assert(q.len() == 0);
            assert(nx.queue =~= context_after(items, a, j, context_size));
        } else if context_size > 0 {
            if q.len() >= context_size {
                assert(nx.queue =~= q.drop_first().push(item_text(items[j - 1])));
            } else {
                assert(nx.queue =~= q.push(item_text(items[j - 1])));
            }
            assert(nx.queue =~= context_after(items, a, j, context_size));
        } else {
            assert(nx.queue =~= context_after(items, a, j, context_size));
        }
    }
}

/// A mismatch whose first differing line (at position `k`) follows a
/// differing line (at `a - 1`) and then common lines, at least twice
/// `context_size` of them (the previous mismatch's trailing context and this
/// one's leading context), begins with exactly the last `context_size` of
/// those common lines, then the differing line; its line number is that of the
/// first of those context lines.
pub proof fn lemma_mismatch_context(items: Seq<DiffItemView>, context_size: int, a: int, k: int)
    requires
        0 <= context_size,
        1 <= a,
        k - a >= 2 * context_size,
        k - a >= 1,
        k < items.len(),
        !(items[a - 1] is Both),
        !(items[k] is Both),
        forall|i: int| a <= i < k ==> #[trigger] items[i] is Both,
    ensures
        exists|idx: int|
            0 <= idx < spec_mismatches(items, context_size).len() && #[trigger] spec_mismatches(
                items,
                context_size,
            )[idx].line_number == line_of(items, k - context_size) && spec_mismatches(
                items,
                context_size,
            )[idx].lines.len() >= context_size + 1 && spec_mismatches(items, context_size)[idx].lines[context_size]
                == changed_line(items[k]) && forall|i: int|
                0 <= i < context_size ==> spec_mismatches(items, context_size)[idx].lines[i]
                    == DiffLineView::Context(item_text(#[trigger] items[k - context_size + i])),
{
    lemma_run_after_change(items, context_size, a, k);
    lemma_fold_line(items, context_size, k);
    lemma_line_of_run(items, k - context_size, k);
    let st = diff_fold(items.take(k), context_size);
    assert(items.take(k + 1).drop_last() =~= items.take(k));
    assert(items.take(k + 1).last() == items[k]);
    let nx = diff_fold(items.take(k + 1), context_size);
    assert(st.queue.len() == context_size);
    let start = as_context(st.queue).push(changed_line(items[k]));
    let idx = nx.results.len() as int;
    assert(nx.results == st.results.push(st.current));
    assert(nx.current.line_number == line_of(items, k - context_size));
    assert(nx.current.lines =~= start);
    assert(nx.results.push(nx.current)[idx] == nx.current);
    assert(nx.current.lines.take(start.len() as int) =~= start);
    let line = line_of(items, k - context_size);
    lemma_fold_keeps_start(items, context_size, k + 1, items.len() as int, idx, line, start);
    assert(items.take(items.len() as int) =~= items);
    let fin = diff_fold(items, context_size);
    let v = fin.results.push(fin.current);
    let ms = spec_mismatches(items, context_size);
    assert(ms[idx - 1] == v[idx]);
    assert forall|i: int| 0 <= i < context_size implies ms[idx - 1].lines[i]
        == DiffLineView::Context(item_text(#[trigger] items[k - context_size + i])) by {
        assert(v[idx].lines.take(start.len() as int)[i] == start[i]);
    }
    assert(v[idx].lines.take(start.len() as int)[context_size] == start[context_size]);
    assert(ms[idx - 1].line_number == line_of(items, k - context_size));
}

/// The line diff of two texts, as `diff::lines` computes it.
pub uninterp spec fn line_diff(left: Seq<char>, right: Seq<char>) -> Seq<DiffItemView>;

/// Whether every item of a line diff is a line of both texts.
pub open spec fn all_common(items: Seq<DiffItemView>) -> bool {
    forall|i: int| 0 <= i < items.len() ==> #[trigger] items[i] is Both
}

/// `diff::lines` of the `diff` crate: the lines of `left` and `right` aligned
/// by a longest common subsequence, each line only in `left`, only in `right`,
/// or in both. The contract names the result (`line_diff`), a function of the
/// two texts, and states one fact of it: of two equal texts every line is
/// common (all lines are leading equals, and a final line feed of both gives
/// a last common item).
#[verifier::external_body]
fn diff_lines(left: &str, right: &str) -> (r: Vec<DiffItem>)
    ensures
        item_views(r@) == line_diff(left@, right@),
        left@ == right@ ==> all_common(item_views(r@)),
{
    diff::lines(left, right).into_iter().map(|d| match d {
        diff::Result::Left(l) => DiffItem::Left(l.to_string()),
        diff::Result::Right(r) => DiffItem::Right(r.to_string()),
        diff::Result::Both(l, r) => DiffItem::Both(l.to_string(), r.to_string()),
    }).collect()
}

/// Produces a diff between the expected output and actual output of the
/// formatter: the mismatches (see `spec_mismatches`) of the line diff of the two
/// texts, with `context_size` lines of context.
pub fn make_diff(expected: &str, actual: &str, context_size: usize) -> (r: Option<Vec<Mismatch>>)
    ensures
        ({
            let items = line_diff(expected@, actual@);
            if items.len() < u32::MAX && context_size + 1 + items.len() <= usize::MAX {
                r matches Some(ms) && mismatch_views(ms@) == spec_mismatches(items, context_size as int)
            } else {
                r is None
            }
        }),
        expected@ == actual@ ==> (r matches Some(ms) ==> ms@.len() == 0),
{
    let items = diff_lines(expected, actual);
    proof {
        if expected@ == actual@ {
            lemma_common_lines_no_mismatch(item_views(items@), context_size as int);
        }
    }
    if items.len() >= 0xffff_ffff || context_size >= usize::MAX - items.len() {
        return None;
    }
    Some(mismatches_from_diff(&items, context_size))
}


/// How a diff line is printed: a mark of its kind (a space for context, `+` for
/// an expected line, `-` for a resulting one), its text, and a return symbol.
pub open spec fn diff_line_text(l: DiffLineView) -> Seq<char> {
    match l {
        DiffLineView::Context(t) => " "@ + t + "\u{23ce}"@,
        DiffLineView::Expected(t) => "+"@ + t + "\u{23ce}"@,
        DiffLineView::Resulting(t) => "-"@ + t + "\u{23ce}"@,
    }
}

impl DiffLine {
    /// How the line is printed (see `diff_line_text`).
    pub fn to_text(&self) -> (r: String)
        ensures
            r@ == diff_line_text(self@),
    {
        let (mark, t) = match self {
            DiffLine::Context(t) => (" ", t),
            DiffLine::Expected(t) => ("+", t),
            DiffLine::Resulting(t) => ("-", t),
        };
        let mut r = String::from_str(mark);
        r.append(t.as_str());
        r.append("\u{23ce}");
        r
    }
}

} // verus!