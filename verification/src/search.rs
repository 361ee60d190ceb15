//! The context window engine: a single-pass, bounded-memory log searcher.
//!
//! The engine consumes one line at a time, decides whether to emit it, and
//! interleaves pre-match context, matched lines, and post-match context. Its
//! auxiliary state is a FIFO buffer of at most `before_context` lines plus a
//! countdown of after-context lines still owed — independent of input size.

use vstd::prelude::*;
use crate::text::{contains_substring, is_substring, lower_of, lowercase};

verus! {

/// Whether a line matches the pattern, with optional case folding of both.
pub open spec fn spec_line_matches(line: Seq<char>, pattern: Seq<char>, case_sensitive: bool) -> bool {
    if case_sensitive {
        is_substring(pattern, line)
    } else {
        is_substring(lower_of(pattern), lower_of(line))
    }
}

/// The before-context buffer after a non-emitted line arrives: FIFO of
/// capacity `cap`, evicting the oldest entry when full. With `cap == 0`
/// nothing is ever buffered.
pub open spec fn spec_push_bounded(buffer: Seq<Seq<char>>, line: Seq<char>, cap: nat) -> Seq<
    Seq<char>,
> {
    if cap == 0 {
        buffer
    } else if buffer.len() == cap {
        buffer.drop_first().push(line)
    } else {
        buffer.push(line)
    }
}

/// One step of the engine on abstract state. Returns
/// `(emitted, new_buffer, new_counter, is_match)`. The three transition rules,
/// in priority order:
/// 1. a match flushes the buffer, emits the line, and re-arms the counter;
/// 2. a pending after-context countdown emits the line and decrements;
/// 3. otherwise the line is buffered (bounded FIFO) and suppressed.
pub open spec fn spec_step(
    buffer: Seq<Seq<char>>,
    counter: nat,
    line: Seq<char>,
    pattern: Seq<char>,
    case_sensitive: bool,
    before: nat,
    after: nat,
) -> (Seq<Seq<char>>, Seq<Seq<char>>, nat, bool) {
    if spec_line_matches(line, pattern, case_sensitive) {
        (buffer.push(line), Seq::empty(), after, true)
    } else if counter > 0 {
        (seq![line], buffer, (counter - 1) as nat, false)
    } else {
        (Seq::<Seq<char>>::empty(), spec_push_bounded(buffer, line, before), 0, false)
    }
}

/// The emitted output and match flag of running the engine over
/// `lines[i..]` starting from the given buffer and counter.
pub open spec fn spec_run_from(
    lines: Seq<Seq<char>>,
    i: int,
    buffer: Seq<Seq<char>>,
    counter: nat,
    pattern: Seq<char>,
    case_sensitive: bool,
    before: nat,
    after: nat,
) -> (Seq<Seq<char>>, bool)
    decreases lines.len() - i,
{
    if i < 0 || i >= lines.len() {
        (Seq::<Seq<char>>::empty(), false)
    } else {
        let step = spec_step(buffer, counter, lines[i], pattern, case_sensitive, before, after);
        let rest = spec_run_from(lines, i + 1, step.1, step.2, pattern, case_sensitive, before, after);
        (step.0 + rest.0, step.3 || rest.1)
    }
}

/// The whole run: output lines in order, and whether any line matched.
/// The engine starts with an empty buffer and no pending after-context, and
/// any lines still buffered at end of stream are discarded unemitted.
pub open spec fn spec_search(
    lines: Seq<Seq<char>>,
    pattern: Seq<char>,
    case_sensitive: bool,
    before: nat,
    after: nat,
) -> (Seq<Seq<char>>, bool) {
    spec_run_from(lines, 0, Seq::empty(), 0, pattern, case_sensitive, before, after)
}

/// The matching predicate as a function value, for stating filter laws.
pub open spec fn matches_pred(pattern: Seq<char>, case_sensitive: bool) -> spec_fn(
    Seq<char>,
) -> bool {
    |l: Seq<char>| spec_line_matches(l, pattern, case_sensitive)
}

/// With both context windows at zero, the engine from position `i` onward is
/// plain filtering of the remaining lines.
proof fn lemma_run_zero_context(lines: Seq<Seq<char>>, i: int, pattern: Seq<char>, case_sensitive: bool)
    requires
        0 <= i <= lines.len(),
    ensures
        spec_run_from(lines, i, Seq::empty(), 0, pattern, case_sensitive, 0, 0).0
            == lines.subrange(i, lines.len() as int).filter(matches_pred(pattern, case_sensitive)),
    decreases lines.len() - i,
{
    let pred = matches_pred(pattern, case_sensitive);
    if i == lines.len() {
        assert(lines.subrange(i, lines.len() as int) =~= Seq::<Seq<char>>::empty());
        assert(Seq::<Seq<char>>::empty().filter(pred) =~= Seq::<Seq<char>>::empty());
    } else {
        lemma_run_zero_context(lines, i + 1, pattern, case_sensitive);
        let head = seq![lines[i]];
        let tail = lines.subrange(i + 1, lines.len() as int);
        assert(lines.subrange(i, lines.len() as int) =~= head + tail);
        Seq::filter_distributes_over_add(head, tail, pred);
        reveal_with_fuel(Seq::filter, 2);
        assert(head.drop_last() =~= Seq::<Seq<char>>::empty());
        assert(head.filter(pred) == if pred(lines[i]) {
            Seq::<Seq<char>>::empty().push(lines[i])
        } else {
            Seq::<Seq<char>>::empty()
        });
        if spec_line_matches(lines[i], pattern, case_sensitive) {
            assert(Seq::<Seq<char>>::empty().push(lines[i]) =~= seq![lines[i]]);
        }
    }
}

/// Zero-context law: with `before_context == after_context == 0` the emitted
/// output is exactly the subsequence of lines that match the pattern, in
/// original order — plain filtering.
pub proof fn lemma_zero_context_is_filter(
    lines: Seq<Seq<char>>,
    pattern: Seq<char>,
    case_sensitive: bool,
)
    ensures
        spec_search(lines, pattern, case_sensitive, 0, 0).0 == lines.filter(
            matches_pred(pattern, case_sensitive),
        ),
{
    lemma_run_zero_context(lines, 0, pattern, case_sensitive);
    assert(lines.subrange(0, lines.len() as int) =~= lines);
}

/// Bounded-memory law: one engine step never grows the before-context buffer
/// past its bound, whatever the input line.
pub proof fn lemma_buffer_stays_bounded(
    buffer: Seq<Seq<char>>,
    counter: nat,
    line: Seq<char>,
    pattern: Seq<char>,
    case_sensitive: bool,
    before: nat,
    after: nat,
)
    requires
        buffer.len() <= before,
    ensures
        spec_step(buffer, counter, line, pattern, case_sensitive, before, after).1.len() <= before,
{
}

/// Priority law: a matching line always re-arms the after-context countdown
/// to exactly `after`, whatever countdown was pending — overlapping context
/// windows are overridden by the newer match, never stacked — and the step
/// emits the buffered lines and the match itself exactly once.
pub proof fn lemma_match_overrides_countdown(
    buffer: Seq<Seq<char>>,
    counter: nat,
    line: Seq<char>,
    pattern: Seq<char>,
    case_sensitive: bool,
    before: nat,
    after: nat,
)
    requires
        spec_line_matches(line, pattern, case_sensitive),
    ensures
        spec_step(buffer, counter, line, pattern, case_sensitive, before, after) == (
            buffer.push(line),
            Seq::<Seq<char>>::empty(),
            after,
            true,
        ),
{
}

/// One step emits at most the buffered lines plus the current line, so the
/// whole remaining run emits at most one line per remaining input line plus
/// the lines already buffered.
proof fn lemma_run_output_bounded(
    lines: Seq<Seq<char>>,
    i: int,
    buffer: Seq<Seq<char>>,
    counter: nat,
    pattern: Seq<char>,
    case_sensitive: bool,
    before: nat,
    after: nat,
)
    requires
        0 <= i <= lines.len(),
    ensures
        spec_run_from(lines, i, buffer, counter, pattern, case_sensitive, before, after).0.len()
            <= (lines.len() - i) + buffer.len(),
    decreases lines.len() - i,
{
    if i < lines.len() {
        let step = spec_step(buffer, counter, lines[i], pattern, case_sensitive, before, after);
        lemma_run_output_bounded(
            lines,
            i + 1,
            step.1,
            step.2,
            pattern,
            case_sensitive,
            before,
            after,
        );
    }
}

/// No line is emitted twice at whole-run level: the output never holds more
/// lines than the input, whatever the context sizes and however the matches
/// overlap.
pub proof fn lemma_output_no_longer_than_input(
    lines: Seq<Seq<char>>,
    pattern: Seq<char>,
    case_sensitive: bool,
    before: nat,
    after: nat,
)
    ensures
        spec_search(lines, pattern, case_sensitive, before, after).0.len() <= lines.len(),
{
    lemma_run_output_bounded(lines, 0, Seq::empty(), 0, pattern, case_sensitive, before, after);
}

/// Inside an after-context window every line up to and including the closing
/// match is emitted exactly once: from a state with an empty buffer and a
/// countdown that lasts until the match at `j`, the run emits `lines[m..=j]`
/// verbatim and continues past `j` with an empty buffer and a re-armed
/// countdown.
proof fn lemma_run_through_window(
    lines: Seq<Seq<char>>,
    m: int,
    j: int,
    counter: nat,
    pattern: Seq<char>,
    case_sensitive: bool,
    before: nat,
    after: nat,
)
    requires
        0 <= m <= j < lines.len(),
        counter >= j - m + 1,
        spec_line_matches(lines[j], pattern, case_sensitive),
        forall|x: int|
            m <= x < j ==> !spec_line_matches(#[trigger] lines[x], pattern, case_sensitive),
    ensures
        spec_run_from(lines, m, Seq::empty(), counter, pattern, case_sensitive, before, after).0
            == lines.subrange(m, j + 1) + spec_run_from(
            lines,
            j + 1,
            Seq::empty(),
            after,
            pattern,
            case_sensitive,
            before,
            after,
        ).0,
        spec_run_from(lines, m, Seq::empty(), counter, pattern, case_sensitive, before, after).1,
    decreases j - m,
{
    let rest = spec_run_from(
        lines,
        j + 1,
        Seq::empty(),
        after,
        pattern,
        case_sensitive,
        before,
        after,
    ).0;
    if m == j {
        assert(Seq::<Seq<char>>::empty().push(lines[j]) =~= lines.subrange(j, j + 1));
    } else {
        lemma_run_through_window(
            lines,
            m + 1,
            j,
            (counter - 1) as nat,
            pattern,
            case_sensitive,
            before,
            after,
        );
        assert(seq![lines[m]] + (lines.subrange(m + 1, j + 1) + rest) =~= lines.subrange(
            m,
            j + 1,
        ) + rest);
    }
}

/// Overlapping windows law, whole-run form: when a second match lands inside
/// the first match's after-context window (`j - i <= after_context`), the run
/// emits the first match with its buffered before-context, then each line up
/// to and including the second match exactly once — never twice, with no
/// before-context re-emitted for the second match — and continues with the
/// countdown re-armed by the second match alone.
pub proof fn lemma_overlapping_match_window(
    lines: Seq<Seq<char>>,
    i: int,
    j: int,
    buffer: Seq<Seq<char>>,
    counter: nat,
    pattern: Seq<char>,
    case_sensitive: bool,
    before: nat,
    after: nat,
)
    requires
        0 <= i < j < lines.len(),
        j - i <= after,
        spec_line_matches(lines[i], pattern, case_sensitive),
        spec_line_matches(lines[j], pattern, case_sensitive),
        forall|x: int|
            i < x < j ==> !spec_line_matches(#[trigger] lines[x], pattern, case_sensitive),
    ensures
        spec_run_from(lines, i, buffer, counter, pattern, case_sensitive, before, after).0
            == buffer + lines.subrange(i, j + 1) + spec_run_from(
            lines,
            j + 1,
            Seq::empty(),
            after,
            pattern,
            case_sensitive,
            before,
            after,
        ).0,
{
    let rest = spec_run_from(
        lines,
        j + 1,
        Seq::empty(),
        after,
        pattern,
        case_sensitive,
        before,
        after,
    ).0;
    lemma_run_through_window(lines, i + 1, j, after, pattern, case_sensitive, before, after);
    assert(buffer.push(lines[i]) + (lines.subrange(i + 1, j + 1) + rest) =~= buffer
        + lines.subrange(i, j + 1) + rest);
}

/// While an after-context countdown is pending the buffer is empty, and one
/// engine step preserves that. So a second match arriving inside the first
/// match's window emits only itself (its before-context was already flushed),
/// not any line twice.
pub proof fn lemma_pending_window_has_empty_buffer(
    buffer: Seq<Seq<char>>,
    counter: nat,
    line: Seq<char>,
    pattern: Seq<char>,
    case_sensitive: bool,
    before: nat,
    after: nat,
)
    requires
        counter > 0 ==> buffer.len() == 0,
    ensures
        ({
            let step = spec_step(buffer, counter, line, pattern, case_sensitive, before, after);
            step.2 > 0 ==> step.1.len() == 0
        }),
{
}

/// Idempotence law: the emitted output and the match flag are a pure function
/// of the input lines and the configuration — two runs over the same input
/// agree exactly. [`search_lines`] pins its result to [`spec_search`], so any
/// two of its results on equal inputs are equal.
pub proof fn lemma_search_deterministic(
    lines: Seq<Seq<char>>,
    pattern: Seq<char>,
    case_sensitive: bool,
    before: nat,
    after: nat,
    first: (Seq<Seq<char>>, bool),
    second: (Seq<Seq<char>>, bool),
)
    requires
        first == spec_search(lines, pattern, case_sensitive, before, after),
        second == spec_search(lines, pattern, case_sensitive, before, after),
    ensures
        first == second,
{
}

/// From position `i` onward, if no remaining line matches and no after-context
/// is pending, nothing is emitted and no match is reported.
proof fn lemma_run_no_match(
    lines: Seq<Seq<char>>,
    i: int,
    buffer: Seq<Seq<char>>,
    pattern: Seq<char>,
    case_sensitive: bool,
    before: nat,
    after: nat,
)
    requires
        0 <= i <= lines.len(),
        forall|j: int|
            i <= j < lines.len() ==> !spec_line_matches(#[trigger] lines[j], pattern, case_sensitive),
    ensures
        spec_run_from(lines, i, buffer, 0, pattern, case_sensitive, before, after).0
            == Seq::<Seq<char>>::empty(),
        !spec_run_from(lines, i, buffer, 0, pattern, case_sensitive, before, after).1,
    decreases lines.len() - i,
{
    if i < lines.len() {
        let step = spec_step(buffer, 0, lines[i], pattern, case_sensitive, before, after);
        lemma_run_no_match(lines, i + 1, step.1, pattern, case_sensitive, before, after);
        assert(step.0 + Seq::<Seq<char>>::empty() =~= Seq::<Seq<char>>::empty());
    }
}

/// No-match law: if no input line matches, the output is empty and the
/// "any match observed" flag is false, whatever the context sizes.
pub proof fn lemma_no_match_no_output(
    lines: Seq<Seq<char>>,
    pattern: Seq<char>,
    case_sensitive: bool,
    before: nat,
    after: nat,
)
    requires
        forall|j: int|
            0 <= j < lines.len() ==> !spec_line_matches(#[trigger] lines[j], pattern, case_sensitive),
    ensures
        spec_search(lines, pattern, case_sensitive, before, after).0 == Seq::<Seq<char>>::empty(),
        !spec_search(lines, pattern, case_sensitive, before, after).1,
{
    lemma_run_no_match(lines, 0, Seq::empty(), pattern, case_sensitive, before, after);
}

/// The stateful engine. Feed it lines in stream order with
/// [`SearchEngine::process_line`]; each call returns the lines to emit for
/// that input line, already in output order.
pub struct SearchEngine {
    pattern: String,
    folded_pattern: String,
    case_sensitive: bool,
    before_context: usize,
    after_context: usize,
    before_buffer: Vec<String>,
    after_counter: usize,
    matched: bool,
}

impl SearchEngine {
    /// The pattern searched for.
    pub closed spec fn spec_pattern(self) -> Seq<char> {
        self.pattern@
    }

    /// Whether matching is case sensitive.
    pub closed spec fn spec_case_sensitive(self) -> bool {
        self.case_sensitive
    }

    /// Configured number of context lines before a match.
    pub closed spec fn spec_before_context(self) -> nat {
        self.before_context as nat
    }

    /// Configured number of context lines after a match.
    pub closed spec fn spec_after_context(self) -> nat {
        self.after_context as nat
    }

    /// The lines currently held in the before-context buffer, oldest first.
    pub closed spec fn buffer_model(self) -> Seq<Seq<char>> {
        self.before_buffer.deep_view()
    }

    /// How many after-context lines are still owed.
    pub closed spec fn counter_model(self) -> nat {
        self.after_counter as nat
    }

    /// Whether any line matched so far.
    pub closed spec fn any_match_model(self) -> bool {
        self.matched
    }

    /// Well-formedness: the buffer respects its bound, the countdown never
    /// exceeds the configured window, and the folded pattern agrees with the
    /// configuration.
    pub closed spec fn wf(self) -> bool {
        &&& self.before_buffer@.len() <= self.before_context
        &&& self.after_counter <= self.after_context
        &&& if self.case_sensitive {
            self.folded_pattern@ == self.pattern@
        } else {
            self.folded_pattern@ == lower_of(self.pattern@)
        }
    }

    /// A fresh engine: empty buffer, no pending after-context, no match seen.
    pub fn new(
        pattern: String,
        case_sensitive: bool,
        before_context: usize,
        after_context: usize,
    ) -> (engine: Self)
        ensures
            engine.wf(),
            engine.spec_pattern() == pattern@,
            engine.spec_case_sensitive() == case_sensitive,
            engine.spec_before_context() == before_context as nat,
            engine.spec_after_context() == after_context as nat,
            engine.buffer_model() == Seq::<Seq<char>>::empty(),
            engine.counter_model() == 0,
            !engine.any_match_model(),
    {
        let folded_pattern = if case_sensitive {
            pattern.clone()
        } else {
            lowercase(pattern.as_str())
        };
        let engine = SearchEngine {
            pattern,
            folded_pattern,
            case_sensitive,
            before_context,
            after_context,
            before_buffer: Vec::new(),
            after_counter: 0,
            matched: false,
        };
        proof {
            assert(engine.buffer_model() =~= Seq::<Seq<char>>::empty());
        }
        engine
    }

    /// Whether `line` matches the configured pattern.
    pub fn line_matches(&self, line: &str) -> (r: bool)
        requires
            self.wf(),
        ensures
            r == spec_line_matches(line@, self.spec_pattern(), self.spec_case_sensitive()),
    {
        if self.case_sensitive {
            contains_substring(line, self.pattern.as_str())
        } else {
            let folded_line = lowercase(line);
            contains_substring(folded_line.as_str(), self.folded_pattern.as_str())
        }
    }

    /// Consume one input line; return the lines to emit for it, in order.
    ///
    /// A match flushes the buffered before-context (oldest first) followed by
    /// the matched line and re-arms the after-context countdown — a new match
    /// always takes priority over an in-progress countdown and resets it
    /// rather than stacking. A non-matching line is emitted alone while the
    /// countdown is pending, and otherwise suppressed into the bounded FIFO
    /// buffer.
    pub fn process_line(&mut self, line: String) -> (emitted: Vec<String>)
        requires
            old(self).wf(),
        ensures
            final(self).wf(),
            final(self).spec_pattern() == old(self).spec_pattern(),
            final(self).spec_case_sensitive() == old(self).spec_case_sensitive(),
            final(self).spec_before_context() == old(self).spec_before_context(),
            final(self).spec_after_context() == old(self).spec_after_context(),
            ({
                let step = spec_step(
                    old(self).buffer_model(),
                    old(self).counter_model(),
                    line@,
                    old(self).spec_pattern(),
                    old(self).spec_case_sensitive(),
                    old(self).spec_before_context(),
                    old(self).spec_after_context(),
                );
                &&& emitted.deep_view() == step.0
                &&& final(self).buffer_model() == step.1
                &&& final(self).counter_model() == step.2
                &&& final(self).any_match_model() == (old(self).any_match_model() || step.3)
            }),
    {
        let ghost step = spec_step(
            old(self).buffer_model(),
            old(self).counter_model(),
            line@,
            old(self).spec_pattern(),
            old(self).spec_case_sensitive(),
            old(self).spec_before_context(),
            old(self).spec_after_context(),
        );
        let is_match = self.line_matches(line.as_str());
        let mut emitted: Vec<String> = Vec::new();
        if is_match {
            let mut i: usize = 0;
            let n = self.before_buffer.len();
            while i < n
                invariant
                    n == self.before_buffer@.len(),
                    i <= n,
                    emitted.deep_view() == self.before_buffer.deep_view().subrange(0, i as int),
                decreases n - i,
            {
                let ghost pre = emitted.deep_view();
                emitted.push(self.before_buffer[i].clone());
                proof {
                    assert forall|k: int| 0 <= k < pre.len() + 1 implies emitted.deep_view()[k]
                        == self.before_buffer.deep_view().subrange(0, i + 1)[k] by {
                        if k < pre.len() {
                            assert(emitted.deep_view()[k] == pre[k]);
                        } else {
                            assert(emitted.deep_view()[k] == self.before_buffer@[i as int]@);
                        }
                    }
                    assert(emitted.deep_view() =~= self.before_buffer.deep_view().subrange(
                        0,
                        i + 1,
                    ));
                }
                i += 1;
            }
            emitted.push(line);
            self.before_buffer = Vec::new();
            self.after_counter = self.after_context;
            self.matched = true;
            proof {
                assert(old(self).buffer_model().subrange(
                    0,
                    old(self).buffer_model().len() as int,
                ) =~= old(self).buffer_model());
                assert(emitted.deep_view() =~= step.0);
                assert(self.buffer_model() =~= step.1);
            }
        } else if self.after_counter > 0 {
            emitted.push(line);
            self.after_counter = self.after_counter - 1;
            proof {
                assert(emitted.deep_view() =~= step.0);
            }
        } else {
            if self.before_context > 0 {
                if self.before_buffer.len() == self.before_context {
                    self.before_buffer.remove(0);
                    proof {
                        assert(self.buffer_model() =~= old(self).buffer_model().drop_first());
                    }
                }
                self.before_buffer.push(line);
            }
            proof {
                assert(emitted.deep_view() =~= step.0);
                assert(self.buffer_model() =~= step.1);
            }
        }
        emitted
    }

    /// Whether any line has matched so far: the run's result signal.
    pub fn any_match(&self) -> (r: bool)
        ensures
            r == self.any_match_model(),
    {
        self.matched
    }
}

/// Run the engine over a whole sequence of lines. Returns the emitted lines
/// in output order and whether any line matched. Output and flag are exactly
/// [`spec_search`] of the input — a pure function of lines and configuration,
/// so two runs on the same input are identical.
pub fn search_lines(
    lines: &Vec<String>,
    pattern: String,
    case_sensitive: bool,
    before_context: usize,
    after_context: usize,
) -> (result: (Vec<String>, bool))
    ensures
        result.0.deep_view() == spec_search(
            lines.deep_view(),
            pattern@,
            case_sensitive,
            before_context as nat,
            after_context as nat,
        ).0,
        result.1 == spec_search(
            lines.deep_view(),
            pattern@,
            case_sensitive,
            before_context as nat,
            after_context as nat,
        ).1,
{
    let ghost pat = pattern@;
    let ghost all = lines.deep_view();
    let mut engine = SearchEngine::new(pattern, case_sensitive, before_context, after_context);
    let mut output: Vec<String> = Vec::new();
    let mut i: usize = 0;
    let n = lines.len();
    proof {
        assert(output.deep_view() =~= Seq::<Seq<char>>::empty());
    }
    while i < n
        invariant
            n == lines@.len(),
            all == lines.deep_view(),
            i <= n,
            engine.wf(),
            engine.spec_pattern() == pat,
            engine.spec_case_sensitive() == case_sensitive,
            engine.spec_before_context() == before_context as nat,
            engine.spec_after_context() == after_context as nat,
            spec_search(all, pat, case_sensitive, before_context as nat, after_context as nat).0
                == output.deep_view() + spec_run_from(
                all,
                i as int,
                engine.buffer_model(),
                engine.counter_model(),
                pat,
                case_sensitive,
                before_context as nat,
                after_context as nat,
            ).0,
            spec_search(all, pat, case_sensitive, before_context as nat, after_context as nat).1
                == (engine.any_match_model() || spec_run_from(
                all,
                i as int,
                engine.buffer_model(),
                engine.counter_model(),
                pat,
                case_sensitive,
                before_context as nat,
                after_context as nat,
            ).1),
        decreases n - i,
    {
        let emitted = engine.process_line(lines[i].clone());
        let ghost old_output = output.deep_view();
        let ghost emitted_view = emitted.deep_view();
        let mut emitted = emitted;
        let mut j: usize = 0;
        let m = emitted.len();
        while j < m
            invariant
                m == emitted@.len(),
                j <= m,
                emitted_view == emitted.deep_view(),
                output.deep_view() == old_output + emitted.deep_view().subrange(0, j as int),
            decreases m - j,
        {
            let ghost pre = output.deep_view();
            let s = emitted[j].clone();
            output.push(s);
            proof {
                assert forall|k: int| 0 <= k < pre.len() + 1 implies output.deep_view()[k]
                    == (old_output + emitted.deep_view().subrange(0, j + 1))[k] by {
                    if k < pre.len() {
                        assert(output.deep_view()[k] == pre[k]);
                    } else {
                        assert(output.deep_view()[k] == emitted@[j as int]@);
                    }
                }
                assert(output.deep_view().len() == pre.len() + 1);
                assert(pre.len() == old_output.len() + j);
                assert(output.deep_view() =~= old_output + emitted.deep_view().subrange(
                    0,
                    j + 1,
                ));
            }
            j += 1;
        }
        proof {
            assert(emitted.deep_view().subrange(0, m as int) =~= emitted_view);
            assert(output.deep_view() =~= old_output + emitted_view);
        }
        i += 1;
    }
    proof {
        assert(output.deep_view() + Seq::<Seq<char>>::empty() =~= output.deep_view());
    }
    let matched = engine.any_match();
    (output, matched)
}

} // verus!
