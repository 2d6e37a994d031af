use vstd::prelude::*;
use crate::config::AiConfig;
use crate::json::{first_of, get_first, get_member, get_text, json_from_str, json_parse, member, member_of, text_of, JsonModel};
use crate::pattern::{captures_all, group, regex_captures};
use crate::types::{BuildResult, Language, LintDiagnostic, LintResult};
use crate::text::{
    contains, decimal, decimal_string, join, join_lines, lemma_lines_have_no_cr, lemma_lines_have_no_newline, lemma_lines_of_join, no_cr, no_newline, reads_back, str_eq, trim, trimmed, join_range, lines, parse_usize, parse_usize_chars, split_lines, starts_with,
    starts_with_chars, str_contains, string_of, to_chars, views,
};

verus! {

// ---------------------------------------------------------------------------
// The code around a diagnostic
// ---------------------------------------------------------------------------

/// The first line of the window of `radius` lines around line `line`
/// (counted from 1), as an index into the lines.
pub open spec fn window_start(line: int, radius: int) -> int {
    if line - (radius + 1) < 0 { 0 } else { line - (radius + 1) }
}

/// The index just after the window of `radius` lines around line `line`,
/// for a text of `count` lines.
pub open spec fn window_end(line: int, radius: int, count: int) -> int {
    if line + radius < count { line + radius } else { count }
}

/// `radius` lines on either side of line `line` of `source` (counted from 1),
/// joined by newlines.
pub fn extract_context(source: &str, line: usize, radius: usize) -> (r: String)
    requires
        radius < usize::MAX,
        line + radius <= usize::MAX,
        window_start(line as int, radius as int) <= window_end(line as int, radius as int, lines(source@).len() as int),
    ensures
        r@ == join_lines(lines(source@).subrange(
            window_start(line as int, radius as int),
            window_end(line as int, radius as int, lines(source@).len() as int),
        )),
{
    let ls = split_lines(source);
    let start = line.saturating_sub(radius + 1);
    let end = if line + radius < ls.len() { line + radius } else { ls.len() };
    join_range(&ls, start, end)
}

/// `source` with the window of `radius` lines around line `line` replaced by
/// the lines of `fixed`.
pub open spec fn spec_apply_context_fix(source: Seq<char>, line: int, radius: int, fixed: Seq<char>) -> Seq<char> {
    let ls = lines(source);
    let start = window_start(line, radius);
    let end = window_end(line, radius, ls.len() as int);
    join_lines(ls.take(start) + lines(fixed) + if end < ls.len() { ls.skip(end) } else { seq![] })
}

/// Replaces the window of `radius` lines around line `line` of `source` by
/// the lines of `fixed`.
pub fn apply_context_fix(source: &str, line: usize, radius: usize, fixed: &str) -> (r: String)
    requires
        radius < usize::MAX,
        line + radius <= usize::MAX,
        window_start(line as int, radius as int) <= lines(source@).len(),
    ensures
        r@ == spec_apply_context_fix(source@, line as int, radius as int, fixed@),
{
    let ls = split_lines(source);
    let start = line.saturating_sub(radius + 1);
    let end = if line + radius < ls.len() { line + radius } else { ls.len() };
    let fixed_lines = split_lines(fixed);
    let mut result: Vec<String> = Vec::new();
    let mut i: usize = 0;
    while i < start
        invariant
            i <= start <= ls@.len(),
            views(result@) == views(ls@).take(i as int),
        decreases start - i,
    {
        let ghost prev = result@;
        result.push(ls[i].clone());
        assert(views(result@) =~= views(ls@).take(i + 1)) by {
            assert(views(result@) =~= views(prev).push(ls@[i as int]@));
        }
        i = i + 1;
    }
    let ghost head = views(result@);
    let mut j: usize = 0;
    while j < fixed_lines.len()
        invariant
            j <= fixed_lines@.len(),
            views(result@) == head + views(fixed_lines@).take(j as int),
        decreases fixed_lines.len() - j,
    {
        let ghost prev = result@;
        result.push(fixed_lines[j].clone());
        assert(views(result@) =~= head + views(fixed_lines@).take(j + 1)) by {
            assert(views(result@) =~= views(prev).push(fixed_lines@[j as int]@));
        }
        j = j + 1;
    }
    assert(views(fixed_lines@).take(fixed_lines@.len() as int) =~= views(fixed_lines@));
    let ghost mid = views(result@);
    if end < ls.len() {
        let mut k = end;
        while k < ls.len()
            invariant
                end <= k <= ls@.len(),
                views(result@) == mid + views(ls@).subrange(end as int, k as int),
            decreases ls.len() - k,
        {
            let ghost prev = result@;
            result.push(ls[k].clone());
            assert(views(result@) =~= mid + views(ls@).subrange(end as int, k + 1)) by {
                assert(views(result@) =~= views(prev).push(ls@[k as int]@));
            }
            k = k + 1;
        }
        assert(views(ls@).subrange(end as int, ls@.len() as int) =~= views(ls@).skip(end as int));
    } else {
        assert(mid + seq![] =~= mid);
    }
    join(&result)
}

/// Law: putting back the very context that `extract_context` took out gives
/// the text back, its lines joined by single newlines, whenever the lines of
/// that context read back as themselves (none ends with a carriage return,
/// and the last is not empty).
pub proof fn lemma_context_round_trip(source: Seq<char>, line: int, radius: int)
    requires
        0 <= line,
        0 <= radius,
        window_start(line, radius) <= window_end(line, radius, lines(source).len() as int),
        reads_back(lines(source).subrange(window_start(line, radius), window_end(line, radius, lines(source).len() as int))),
    ensures
        spec_apply_context_fix(
            source,
            line,
            radius,
            join_lines(lines(source).subrange(window_start(line, radius), window_end(line, radius, lines(source).len() as int))),
        ) == join_lines(lines(source)),
{
    let ls = lines(source);
    let start = window_start(line, radius);
    let end = window_end(line, radius, ls.len() as int);
    let w = ls.subrange(start, end);
    lemma_lines_have_no_newline(source, seq![]);
    assert forall|i: int| 0 <= i < w.len() implies no_newline(#[trigger] w[i]) by {
        assert(w[i] == ls[start + i]);
    }
    lemma_lines_of_join(w);
    assert(ls.take(start) + w + (if end < ls.len() { ls.skip(end) } else { seq![] }) =~= ls);
}

/// Law: on a text without carriage returns, putting back the very context
/// that `extract_context` took out gives the text back, its lines joined by
/// single newlines, unless the window ends with an empty line.
pub proof fn lemma_context_round_trip_plain(source: Seq<char>, line: int, radius: int)
    requires
        0 <= line,
        0 <= radius,
        window_start(line, radius) <= lines(source).len(),
        no_cr(source),
        window_start(line, radius) == window_end(line, radius, lines(source).len() as int)
            || lines(source)[window_end(line, radius, lines(source).len() as int) - 1].len() > 0,
    ensures
        spec_apply_context_fix(
            source,
            line,
            radius,
            join_lines(lines(source).subrange(window_start(line, radius), window_end(line, radius, lines(source).len() as int))),
        ) == join_lines(lines(source)),
{
    let ls = lines(source);
    let start = window_start(line, radius);
    let end = window_end(line, radius, ls.len() as int);
    let w = ls.subrange(start, end);
    lemma_lines_have_no_cr(source, seq![]);
    assert forall|i: int| 0 <= i < w.len() && (#[trigger] w[i]).len() > 0 implies w[i].last() != '\r' by {
        assert(w[i] == ls[start + i]);
        assert(no_cr(ls[start + i]));
    }
    if w.len() > 0 {
        assert(w.last() == ls[end - 1]);
    }
    assert(reads_back(w));
    lemma_context_round_trip(source, line, radius);
}

// ---------------------------------------------------------------------------
// Hunks
// ---------------------------------------------------------------------------

/// What a line of a hunk does: a context line is kept (and must match the
/// file), a removed line goes, an added line comes.
#[derive(Clone, Copy, Debug, PartialEq, Eq, Structural)]
pub enum HunkOp {
    Keep,
    Remove,
    Add,
}

/// The lines of a hunk as plain values.
pub open spec fn op_views(ops: Seq<(HunkOp, String)>) -> Seq<(HunkOp, Seq<char>)> {
    ops.map_values(|p: (HunkOp, String)| (p.0, p.1@))
}

/// The lines of a hunk that stand in the file before it is applied: its
/// context and removed lines, in order.
pub open spec fn old_side(ops: Seq<(HunkOp, Seq<char>)>) -> Seq<(HunkOp, Seq<char>)>
    decreases ops.len(),
{
    if ops.len() == 0 {
        seq![]
    } else {
        old_side(ops.drop_last()) + if ops.last().0 == HunkOp::Add { seq![] } else { seq![ops.last()] }
    }
}

/// The lines of a hunk that stand in the file after it is applied: its
/// context and added lines, in order.
pub open spec fn new_side(ops: Seq<(HunkOp, Seq<char>)>) -> Seq<Seq<char>>
    decreases ops.len(),
{
    if ops.len() == 0 {
        seq![]
    } else {
        new_side(ops.drop_last()) + if ops.last().0 == HunkOp::Remove { seq![] } else { seq![ops.last().1] }
    }
}

/// The old side of a hunk lies within `lines` from index `at` on, and each of
/// its context lines equals the line of the file it stands for (removed
/// lines are not compared).
pub open spec fn hunk_fits(lines: Seq<Seq<char>>, at: int, ops: Seq<(HunkOp, Seq<char>)>) -> bool {
    &&& 0 <= at
    &&& at + old_side(ops).len() <= lines.len()
    &&& forall|i: int|
        0 <= i < old_side(ops).len() && (#[trigger] old_side(ops)[i]).0 == HunkOp::Keep ==> lines[at + i] == old_side(ops)[i].1
}

/// What applying a hunk does to `lines` and to the running `offset`: when it
/// fits at `start + offset`, its old side is replaced there by its new side
/// and the offset grows by the difference; otherwise nothing changes.
pub open spec fn spec_apply_hunk(lines: Seq<Seq<char>>, start: int, offset: int, ops: Seq<(HunkOp, Seq<char>)>) -> (
    Seq<Seq<char>>,
    int,
) {
    let at = start + offset;
    if hunk_fits(lines, at, ops) {
        (
            lines.take(at) + new_side(ops) + lines.skip(at + old_side(ops).len()),
            offset + new_side(ops).len() - old_side(ops).len(),
        )
    } else {
        (lines, offset)
    }
}

proof fn lemma_sides_bounded(ops: Seq<(HunkOp, Seq<char>)>)
    ensures
        old_side(ops).len() <= ops.len(),
        new_side(ops).len() <= ops.len(),
    decreases ops.len(),
{
    if ops.len() > 0 {
        lemma_sides_bounded(ops.drop_last());
    }
}

/// The old side of a prefix of a hunk is a prefix of the hunk's old side.
proof fn lemma_old_side_prefix(ops: Seq<(HunkOp, Seq<char>)>, m: int)
    requires
        0 <= m <= ops.len(),
    ensures
        old_side(ops.take(m)).len() <= old_side(ops).len(),
        forall|i: int| 0 <= i < old_side(ops.take(m)).len() ==> old_side(ops)[i] == #[trigger] old_side(ops.take(m))[i],
    decreases ops.len() - m,
{
    if m == ops.len() {
        assert(ops.take(m) =~= ops);
    } else {
        lemma_old_side_prefix(ops, m + 1);
        let t = ops.take(m + 1);
        assert(t.drop_last() =~= ops.take(m));
        assert(t.last() == ops[m]);
        let a = old_side(ops.take(m));
        let b = old_side(t);
        assert(b == a + (if ops[m].0 == HunkOp::Add { Seq::<(HunkOp, Seq<char>)>::empty() } else { seq![ops[m]] }));
        assert forall|i: int| 0 <= i < a.len() implies old_side(ops)[i] == #[trigger] a[i] by {
            assert(b[i] == a[i]);
        }
    }
}

/// Applies one hunk to `lines` at `start + offset` (see `spec_apply_hunk`),
/// and records in `offset` how many lines the file grew by.
pub fn apply_hunk(lines: &mut Vec<String>, start: usize, offset: &mut isize, ops: &[(HunkOp, String)])
    requires
        isize::MIN + ops@.len() <= *old(offset) <= isize::MAX - ops@.len(),
    ensures
        (views(final(lines)@), *final(offset) as int) == spec_apply_hunk(
            views(old(lines)@),
            start as int,
            *old(offset) as int,
            op_views(ops@),
        ),
{
    let ghost before = views(lines@);
    let ghost o = op_views(ops@);
    proof {
        lemma_sides_bounded(o);
    }
    let off = *offset;
    let at: usize = if off >= 0 {
        let up = off as usize;
        assert(up as int == off as int);
        if start > usize::MAX - up {
            // the hunk starts past anything a vector can hold
            let count = lines.len();
            assert(before.len() == count);
            assert(!hunk_fits(before, start + off, o));
            return;
        }
        start + up
    } else {
        let down = (0 - (off as i128)) as usize;
        if start < down {
            // the hunk would start before the first line
            assert(!hunk_fits(before, start + off, o));
            return;
        }
        start - down
    };
    assert(at as int == start as int + off as int);
    if at > lines.len() {
        assert(!hunk_fits(before, at as int, o));
        return;
    }
    let mut pos: usize = at;
    let mut k: usize = 0;
    assert(o.take(0) =~= Seq::<(HunkOp, Seq<char>)>::empty());
    while k < ops.len()
        invariant
            o == op_views(ops@),
            before == views(lines@),
            before == views(old(lines)@),
            lines@ == old(lines)@,
            *offset == *old(offset),
            at as int == start as int + *old(offset) as int,
            at <= pos <= lines@.len(),
            k <= ops@.len(),
            pos == at + old_side(o.take(k as int)).len(),
            forall|i: int|
                0 <= i < old_side(o.take(k as int)).len() && (#[trigger] old_side(o.take(k as int))[i]).0 == HunkOp::Keep
                    ==> before[at + i] == old_side(o.take(k as int))[i].1,
        decreases ops.len() - k,
    {
        let ghost prev = old_side(o.take(k as int));
        proof {
            assert(o.take(k + 1).drop_last() =~= o.take(k as int));
            assert(o.take(k + 1).last() == o[k as int]);
            lemma_old_side_prefix(o, k + 1);
        }
        let kind = ops[k].0;
        assert(o[k as int] == (ops@[k as int].0, ops@[k as int].1@));
        if kind != HunkOp::Add {
            assert(old_side(o.take(k + 1)) == prev + seq![o[k as int]]);
            if pos >= lines.len() {
                assert(!hunk_fits(before, at as int, o));
                return;
            }
            if kind == HunkOp::Keep && !str_eq(lines[pos].as_str(), ops[k].1.as_str()) {
                proof {
                    let i = pos - at;
                    assert(old_side(o.take(k + 1))[i] == o[k as int]);
                    assert(old_side(o)[i] == old_side(o.take(k + 1))[i]);
                    assert(before[at + i] == lines@[pos as int]@);
                    assert(before[at + i] != old_side(o)[i].1);
                    assert(old_side(o)[i].0 == HunkOp::Keep);
                    assert(!hunk_fits(before, at as int, o));
                }
                return;
            }
            pos = pos + 1;
        }
        k = k + 1;
    }
    assert(o.take(ops@.len() as int) =~= o);
    let ghost old_count = old_side(o).len();
    assert(hunk_fits(before, at as int, o));
    let mut result: Vec<String> = Vec::new();
    let mut i: usize = 0;
    while i < at
        invariant
            at <= lines@.len(),
            before == views(lines@),
            i <= at,
            views(result@) == before.take(i as int),
        decreases at - i,
    {
        let ghost p = result@;
        result.push(lines[i].clone());
        assert(views(result@) =~= views(p).push(before[i as int]));
        assert(before.take(i + 1) =~= before.take(i as int).push(before[i as int]));
        i = i + 1;
    }
    let mut added: usize = 0;
    let mut k: usize = 0;
    assert(new_side(o.take(0)) =~= Seq::<Seq<char>>::empty());
    while k < ops.len()
        invariant
            o == op_views(ops@),
            at <= before.len(),
            k <= ops@.len(),
            views(result@) == before.take(at as int) + new_side(o.take(k as int)),
            added == new_side(o.take(k as int)).len(),
            added <= k,
        decreases ops.len() - k,
    {
        proof {
            assert(o.take(k + 1).drop_last() =~= o.take(k as int));
            assert(o.take(k + 1).last() == o[k as int]);
        }
        if ops[k].0 != HunkOp::Remove {
            let ghost p = result@;
            result.push(ops[k].1.clone());
            assert(views(result@) =~= views(p).push(o[k as int].1));
            added = added + 1;
        }
        assert(views(result@) =~= before.take(at as int) + new_side(o.take(k + 1)));
        k = k + 1;
    }
    let ghost mid = views(result@);
    let mut j: usize = pos;
    while j < lines.len()
        invariant
            before == views(lines@),
            pos <= j <= lines@.len(),
            views(result@) == mid + before.subrange(pos as int, j as int),
        decreases lines.len() - j,
    {
        let ghost p = result@;
        result.push(lines[j].clone());
        assert(views(result@) =~= views(p).push(before[j as int]));
        assert(before.subrange(pos as int, j + 1) =~= before.subrange(pos as int, j as int).push(before[j as int]));
        j = j + 1;
    }
    assert(before.subrange(pos as int, before.len() as int) =~= before.skip(pos as int));
    *lines = result;
    *offset = (off as i128 + added as i128 - (pos - at) as i128) as isize;
}

// ---------------------------------------------------------------------------
// Unified diffs
// ---------------------------------------------------------------------------

/// The header of a hunk: `@@ -` followed by the number of its first line.
pub const HUNK_HEADER_PATTERN: &'static str = r"@@ -(\d+)";

/// Where the work of applying a unified diff stands: the file's lines, whether
/// a hunk has begun, the index where the current hunk starts, how many lines
/// earlier hunks added, and the lines of the current hunk read so far.
pub struct DiffState {
    pub lines: Seq<Seq<char>>,
    pub in_hunk: bool,
    pub start: int,
    pub offset: int,
    pub ops: Seq<(HunkOp, Seq<char>)>,
}

/// The index of the first line of a hunk, from its header line: the number
/// after `@@ -`, less one (not below zero); `None` when the header holds no
/// such number.
pub open spec fn hunk_header_start(line: Seq<char>) -> Option<int> {
    match regex_captures(HUNK_HEADER_PATTERN@, line) {
        Some(caps) => if caps.len() > 0 && caps[0].len() > 1 && caps[0][1] is Some {
            match parse_usize(group(caps[0], 1)) {
                Some(n) => Some(if n >= 1 { n - 1 } else { 0 }),
                None => None,
            }
        } else {
            None
        },
        None => None,
    }
}

/// Applies the pending hunk, if it has any line (where it fits: see
/// `spec_apply_hunk`; a hunk that would start before the first line does not
/// fit), and empties it.
pub open spec fn flush_hunk(st: DiffState) -> DiffState {
    if st.in_hunk && st.ops.len() > 0 {
        let applied = spec_apply_hunk(st.lines, st.start, st.offset, st.ops);
        DiffState { lines: applied.0, in_hunk: st.in_hunk, start: st.start, offset: applied.1, ops: seq![] }
    } else {
        st
    }
}

/// The state once the line `(kind, text)` is added to the current hunk.
pub open spec fn with_op(st: DiffState, kind: HunkOp, text: Seq<char>) -> DiffState {
    DiffState { lines: st.lines, in_hunk: st.in_hunk, start: st.start, offset: st.offset, ops: st.ops.push((kind, text)) }
}

/// Reads one line of a diff: a hunk header applies the hunk before it and
/// starts a new one; inside a hunk, a line starting with `-` is removed, one
/// starting with `+` is added, one starting with a space (or an empty line)
/// is context; anything else is passed over.
pub open spec fn diff_step(st: DiffState, line: Seq<char>) -> Option<DiffState> {
    if starts_with(line, "@@"@) {
        let s = flush_hunk(st);
        match hunk_header_start(line) {
            None => None,
            Some(h) => Some(DiffState { lines: s.lines, in_hunk: true, start: h, offset: s.offset, ops: s.ops }),
        }
    } else if st.in_hunk && starts_with(line, "-"@) {
        Some(with_op(st, HunkOp::Remove, line.drop_first()))
    } else if st.in_hunk && starts_with(line, "+"@) {
        Some(with_op(st, HunkOp::Add, line.drop_first()))
    } else if st.in_hunk && starts_with(line, " "@) {
        Some(with_op(st, HunkOp::Keep, line.drop_first()))
    } else if st.in_hunk && line.len() == 0 {
        Some(with_op(st, HunkOp::Keep, line))
    } else {
        Some(st)
    }
}

/// Reads the lines `ls` of a diff one after the other.
pub open spec fn diff_run(st: DiffState, ls: Seq<Seq<char>>) -> Option<DiffState>
    decreases ls.len(),
{
    if ls.len() == 0 {
        Some(st)
    } else {
        match diff_step(st, ls[0]) {
            None => None,
            Some(s) => diff_run(s, ls.drop_first()),
        }
    }
}

/// The state before a diff is read.
pub open spec fn diff_start(source: Seq<char>) -> DiffState {
    DiffState { lines: lines(source), in_hunk: false, start: 0, offset: 0, ops: seq![] }
}

/// `source` with the unified diff `diff` applied, each hunk where it fits
/// (see `spec_apply_hunk`): `None` when the diff holds no hunk or a hunk
/// header without a line number.
pub open spec fn spec_try_apply_unified_diff(source: Seq<char>, diff: Seq<char>) -> Option<Seq<char>> {
    match diff_run(diff_start(source), lines(diff)) {
        None => None,
        Some(st) => if st.in_hunk {
            Some(join_lines(flush_hunk(st).lines))
        } else {
            None
        },
    }
}

/// The first line of the hunk whose header is `line`.
fn hunk_start_of(line: &str) -> (r: Option<usize>)
    ensures
        match r {
            Some(n) => hunk_header_start(line@) == Some(n as int),
            None => hunk_header_start(line@) is None,
        },
{
    match captures_all(HUNK_HEADER_PATTERN, line) {
        Some(caps) => {
            if caps.len() > 0 && caps[0].len() > 1 {
                assert(caps.deep_view()[0] == caps@[0].deep_view());
                match &caps[0][1] {
                    Some(digits) => {
                        let cs = to_chars(digits.as_str());
                        match parse_usize_chars(cs.as_slice()) {
                            Some(n) => Some(n.saturating_sub(1)),
                            None => None,
                        }
                    },
                    None => None,
                }
            } else {
                proof {
                    if caps.len() > 0 {
                        assert(caps.deep_view()[0] == caps@[0].deep_view());
                    }
                }
                None
            }
        },
        None => None,
    }
}

/// The state that the working values stand for.
pub open spec fn state_of(
    lines: Seq<String>,
    in_hunk: bool,
    start: usize,
    offset: isize,
    ops: Seq<(HunkOp, String)>,
) -> DiffState {
    DiffState { lines: views(lines), in_hunk, start: start as int, offset: offset as int, ops: op_views(ops) }
}

/// Applies the pending hunk of the working values, as `flush_hunk` does.
fn flush_exec(
    lines: &mut Vec<String>,
    in_hunk: bool,
    start: usize,
    offset: &mut isize,
    ops: &mut Vec<(HunkOp, String)>,
    Ghost(bound): Ghost<int>,
)
    requires
        (if *old(offset) < 0 { -*old(offset) } else { *old(offset) as int }) + old(ops)@.len() <= bound,
        bound < isize::MAX,
    ensures
        flush_hunk(state_of(old(lines)@, in_hunk, start, *old(offset), old(ops)@))
            == state_of(final(lines)@, in_hunk, start, *final(offset), final(ops)@),
        (if *final(offset) < 0 { -*final(offset) } else { *final(offset) as int }) + final(ops)@.len() <= bound,
{
    if in_hunk && ops.len() > 0 {
        proof {
            lemma_sides_bounded(op_views(ops@));
        }
        apply_hunk(lines, start, offset, ops.as_slice());
        ops.clear();
        assert(op_views(ops@) =~= seq![]);
    }
}

/// Applies a unified diff to `source` (see `spec_try_apply_unified_diff`).
pub fn try_apply_unified_diff(source: &str, diff: &str) -> (r: Option<String>)
    requires
        diff@.len() + 2 < isize::MAX,
    ensures
        match r {
            Some(s) => spec_try_apply_unified_diff(source@, diff@) == Some(s@),
            None => spec_try_apply_unified_diff(source@, diff@) is None,
        },
{
    let mut file_lines = split_lines(source);
    let diff_lines = split_lines(diff);
    proof {
        lemma_lines_count_top(diff@);
    }
    let mut in_hunk = false;
    let mut hunk_start: usize = 0;
    let mut offset: isize = 0;
    let mut ops: Vec<(HunkOp, String)> = Vec::new();
    let ghost total = lines(diff@);
    assert(op_views(ops@) =~= seq![]);
    assert(total.skip(0) =~= total);
    let mut k: usize = 0;
    while k < diff_lines.len()
        invariant
            views(diff_lines@) == total,
            total == lines(diff@),
            total.len() <= diff@.len() + 1,
            diff@.len() + 2 < isize::MAX,
            k <= diff_lines@.len(),
            (if offset < 0 { -offset } else { offset as int }) + ops@.len() <= k,
            diff_run(diff_start(source@), total) == diff_run(state_of(file_lines@, in_hunk, hunk_start, offset, ops@), total.skip(k as int)),
        decreases diff_lines.len() - k,
    {
        let ghost st = state_of(file_lines@, in_hunk, hunk_start, offset, ops@);
        let line = &diff_lines[k];
        assert(total.skip(k as int)[0] == line@);
        assert(total.skip(k as int).drop_first() =~= total.skip(k + 1));
        let cs = to_chars(line.as_str());
        let at_at = to_chars("@@");
        let minus = to_chars("-");
        let plus = to_chars("+");
        let space = to_chars(" ");
        proof {
            reveal_strlit("-");
            reveal_strlit("+");
            reveal_strlit(" ");
        }
        if starts_with_chars(cs.as_slice(), at_at.as_slice()) {
            flush_exec(&mut file_lines, in_hunk, hunk_start, &mut offset, &mut ops, Ghost(k as int));
            in_hunk = true;
            match hunk_start_of(line.as_str()) {
                Some(h) => {
                    hunk_start = h;
                },
                None => {
                    return None;
                },
            }
        } else if in_hunk && (starts_with_chars(cs.as_slice(), minus.as_slice()) || starts_with_chars(cs.as_slice(), plus.as_slice())
            || starts_with_chars(cs.as_slice(), space.as_slice()) || cs.len() == 0) {
            let kind = if starts_with_chars(cs.as_slice(), minus.as_slice()) {
                HunkOp::Remove
            } else if starts_with_chars(cs.as_slice(), plus.as_slice()) {
                HunkOp::Add
            } else {
                HunkOp::Keep
            };
            let text = if cs.len() == 0 { String::new() } else { string_of(cs.as_slice(), 1, cs.len()) };
            assert(cs.len() > 0 ==> text@ == line@.drop_first());
            assert(cs.len() == 0 ==> text@ == line@);
            let ghost prev = ops@;
            ops.push((kind, text));
            assert(op_views(ops@) =~= op_views(prev).push((kind, text@)));
        }
        k = k + 1;
    }
    assert(total.skip(k as int) =~= seq![]);
    let last_in_hunk = in_hunk;
    flush_exec(&mut file_lines, in_hunk, hunk_start, &mut offset, &mut ops, Ghost(k as int));
    if last_in_hunk {
        Some(join(&file_lines))
    } else {
        None
    }
}

proof fn lemma_lines_count_top(s: Seq<char>)
    ensures
        lines(s).len() <= s.len() + 1,
{
    crate::text::lemma_lines_count(s, seq![]);
}

// ---------------------------------------------------------------------------
// Applying what the model answered
// ---------------------------------------------------------------------------

/// The answer looks like a unified diff.
pub open spec fn looks_like_diff(answer: Seq<char>) -> bool {
    contains(answer, "---"@) && contains(answer, "+++"@) && contains(answer, "@@"@)
}

/// `source` changed by the model's answer: as a unified diff when it looks
/// like one and applies, otherwise as the replacement of the window of
/// `radius` lines around line `line`.
pub open spec fn spec_apply_diff(source: Seq<char>, answer: Seq<char>, line: int, radius: int) -> Seq<char> {
    if looks_like_diff(answer) && spec_try_apply_unified_diff(source, answer) is Some {
        spec_try_apply_unified_diff(source, answer)->Some_0
    } else {
        spec_apply_context_fix(source, line, radius, answer)
    }
}

/// The window of `radius` lines around line `line` can be replaced: its
/// bounds fit in a `usize` and it does not start past the end of `source`.
pub open spec fn context_fix_possible(source: Seq<char>, line: int, radius: int) -> bool {
    &&& radius < usize::MAX
    &&& line + radius <= usize::MAX
    &&& window_start(line, radius) <= lines(source).len()
}

/// Applies the model's answer to `source` (see `spec_apply_diff`): a diff
/// that applies needs nothing more; a replacement in context needs its
/// window (see `context_fix_possible`).
pub fn apply_diff(source: &str, answer: &str, line: usize, radius: usize) -> (r: String)
    requires
        answer@.len() + 2 < isize::MAX,
        (looks_like_diff(answer@) && spec_try_apply_unified_diff(source@, answer@) is Some)
            || context_fix_possible(source@, line as int, radius as int),
    ensures
        r@ == spec_apply_diff(source@, answer@, line as int, radius as int),
{
    if str_contains(answer, "---") && str_contains(answer, "+++") && str_contains(answer, "@@") {
        match try_apply_unified_diff(source, answer) {
            Some(result) => {
                return result;
            },
            None => {},
        }
    }
    apply_context_fix(source, line, radius, answer)
}

/// Applies the model's answer to `source` where that can be done: `Some` of
/// `spec_apply_diff` when the answer is a diff that applies or the window
/// around line `line` can be replaced, `None` otherwise.
pub fn apply_answer(source: &str, answer: &str, line: usize, radius: usize) -> (r: Option<String>)
    requires
        answer@.len() + 2 < isize::MAX,
    ensures
        match r {
            Some(t) => t@ == spec_apply_diff(source@, answer@, line as int, radius as int),
            None => !(looks_like_diff(answer@) && spec_try_apply_unified_diff(source@, answer@) is Some)
                && !context_fix_possible(source@, line as int, radius as int),
        },
{
    if str_contains(answer, "---") && str_contains(answer, "+++") && str_contains(answer, "@@") {
        match try_apply_unified_diff(source, answer) {
            Some(result) => {
                return Some(result);
            },
            None => {},
        }
    }
    if radius < usize::MAX && line <= usize::MAX - radius {
        let count = split_lines(source).len();
        let start = line.saturating_sub(radius + 1);
        if start <= count {
            return Some(apply_diff(source, answer, line, radius));
        }
    }
    None
}

// ---------------------------------------------------------------------------
// Counting errors and keeping or undoing a fix
// ---------------------------------------------------------------------------

/// The number of errors a project shows: the build's errors (at least one
/// when the build failed) plus the linter's diagnostics; a step that could
/// not run counts for nothing.
pub open spec fn spec_error_count(build: Option<BuildResult>, lint: Option<LintResult>) -> int {
    (match build {
        Some(b) => if !b.success && b.errors@.len() == 0 { 1 } else { b.errors@.len() as int },
        None => 0,
    }) + match lint {
        Some(l) => l.diagnostics@.len() as int,
        None => 0,
    }
}

/// Counts a project's errors from its build and lint results.
pub fn error_count(build: Option<&BuildResult>, lint: Option<&LintResult>) -> (r: usize)
    requires
        spec_error_count(
            match build { Some(b) => Some(*b), None => None },
            match lint { Some(l) => Some(*l), None => None },
        ) <= usize::MAX,
    ensures
        r == spec_error_count(
            match build { Some(b) => Some(*b), None => None },
            match lint { Some(l) => Some(*l), None => None },
        ),
{
    let mut count: usize = 0;
    match build {
        Some(b) => {
            count = b.errors.len();
            if !b.success && count < 1 {
                count = 1;
            }
        },
        None => {},
    }
    match lint {
        Some(l) => {
            count = count + l.diagnostics.len();
        },
        None => {},
    }
    count
}

/// What became of the attempt to fix one diagnostic.
#[derive(Clone, Copy, Debug, PartialEq, Eq, Structural)]
pub enum FixOutcome {
    /// The fix lowered the error count and was kept.
    Applied,
    /// The fix did not lower the error count and was undone.
    RolledBack,
    /// The file could not be read, or no fix could be had.
    Failed,
}

/// A fix is kept exactly when it lowers the project's error count.
pub fn judge_fix(errors_before: usize, errors_after: usize) -> (r: FixOutcome)
    ensures
        r == if errors_after < errors_before { FixOutcome::Applied } else { FixOutcome::RolledBack },
{
    if errors_after >= errors_before {
        FixOutcome::RolledBack
    } else {
        FixOutcome::Applied
    }
}

/// How many fixes were kept, failed, and were undone.
#[derive(Debug)]
pub struct FixReport {
    pub fixed: usize,
    pub failed: usize,
    pub rolled_back: usize,
}

impl FixReport {
    /// A report of no attempts.
    pub fn new() -> (r: Self)
        ensures
            r.fixed == 0 && r.failed == 0 && r.rolled_back == 0,
    {
        FixReport { fixed: 0, failed: 0, rolled_back: 0 }
    }

    /// The number of attempts recorded.
    pub open spec fn attempts(&self) -> int {
        self.fixed + self.failed + self.rolled_back
    }

    /// Records one attempt: exactly the counter of its outcome grows by one.
    pub fn record(&mut self, outcome: FixOutcome)
        requires
            old(self).attempts() < usize::MAX,
        ensures
            final(self).fixed == old(self).fixed + if outcome == FixOutcome::Applied { 1int } else { 0 },
            final(self).rolled_back == old(self).rolled_back + if outcome == FixOutcome::RolledBack { 1int } else { 0 },
            final(self).failed == old(self).failed + if outcome == FixOutcome::Failed { 1int } else { 0 },
            final(self).attempts() == old(self).attempts() + 1,
    {
        match outcome {
            FixOutcome::Applied => {
                self.fixed = self.fixed + 1;
            },
            FixOutcome::RolledBack => {
                self.rolled_back = self.rolled_back + 1;
            },
            FixOutcome::Failed => {
                self.failed = self.failed + 1;
            },
        }
    }
}

/// What happened to one diagnostic of a fix session.
#[derive(Clone, Copy, Debug, PartialEq, Eq, Structural)]
pub enum FixEvent {
    /// The file that holds it could not be read.
    Unreadable,
    /// No fix could be had from the service.
    NoAnswer,
    /// A fix was written, and the project's error count was taken before and
    /// after.
    Checked { before: usize, after: usize },
}

/// What to do with the file after an event: keep it as it is, or write back
/// the text it had before the fix.
#[derive(Clone, Copy, Debug, PartialEq, Eq, Structural)]
pub enum FixAction {
    Keep,
    Restore,
}

/// The outcome of an event: a checked fix is judged by the error counts; an
/// unreadable file or a missing answer is a failure.
pub open spec fn event_outcome(e: FixEvent) -> FixOutcome {
    match e {
        FixEvent::Unreadable => FixOutcome::Failed,
        FixEvent::NoAnswer => FixOutcome::Failed,
        FixEvent::Checked { before, after } => if after < before { FixOutcome::Applied } else { FixOutcome::RolledBack },
    }
}

impl FixReport {
    /// Takes one event of a session: records its outcome and says what to do
    /// with the file, which is restored exactly when the fix was undone.
    pub fn step(&mut self, e: FixEvent) -> (a: FixAction)
        requires
            old(self).attempts() < usize::MAX,
        ensures
            a == (if event_outcome(e) == FixOutcome::RolledBack { FixAction::Restore } else { FixAction::Keep }),
            final(self).fixed == old(self).fixed + if event_outcome(e) == FixOutcome::Applied { 1int } else { 0 },
            final(self).rolled_back == old(self).rolled_back + if event_outcome(e) == FixOutcome::RolledBack { 1int } else { 0 },
            final(self).failed == old(self).failed + if event_outcome(e) == FixOutcome::Failed { 1int } else { 0 },
    {
        let outcome = match e {
            FixEvent::Unreadable => FixOutcome::Failed,
            FixEvent::NoAnswer => FixOutcome::Failed,
            FixEvent::Checked { before, after } => judge_fix(before, after),
        };
        self.record(outcome);
        match outcome {
            FixOutcome::RolledBack => FixAction::Restore,
            _ => FixAction::Keep,
        }
    }
}

/// The file a diagnostic points at: its file name when that is an absolute
/// (Unix) path, else the name under the project's directory.
pub open spec fn spec_resolve_in_project(project: Seq<char>, file: Seq<char>) -> Seq<char> {
    if file.len() > 0 && file[0] == '/' {
        file
    } else if project.len() == 0 {
        file
    } else if project.last() == '/' {
        project + file
    } else {
        project + "/"@ + file
    }
}

/// The file a diagnostic points at (see `spec_resolve_in_project`).
pub fn resolve_in_project(project: &str, file: &str) -> (r: String)
    ensures
        r@ == spec_resolve_in_project(project@, file@),
{
    let f = to_chars(file);
    let p = to_chars(project);
    if f.len() > 0 && f[0] == '/' {
        String::from_str(file)
    } else if p.len() == 0 {
        String::from_str(file)
    } else if p[p.len() - 1] == '/' {
        let mut r = String::from_str(project);
        r.append(file);
        r
    } else {
        let mut r = String::from_str(project);
        r.append("/");
        r.append(file);
        r
    }
}

/// The report after the outcomes `outcomes`, one per diagnostic, in order.
pub open spec fn count_outcomes(outcomes: Seq<FixOutcome>, which: FixOutcome) -> int
    decreases outcomes.len(),
{
    if outcomes.len() == 0 {
        0
    } else {
        count_outcomes(outcomes.drop_last(), which) + if outcomes.last() == which { 1int } else { 0 }
    }
}

/// The report of a whole session: each outcome counted under its kind.
pub fn summarize(outcomes: &Vec<FixOutcome>) -> (r: FixReport)
    ensures
        r.fixed == count_outcomes(outcomes@, FixOutcome::Applied),
        r.rolled_back == count_outcomes(outcomes@, FixOutcome::RolledBack),
        r.failed == count_outcomes(outcomes@, FixOutcome::Failed),
        r.attempts() == outcomes@.len(),
{
    let mut report = FixReport::new();
    let mut k: usize = 0;
    while k < outcomes.len()
        invariant
            k <= outcomes@.len(),
            report.fixed == count_outcomes(outcomes@.take(k as int), FixOutcome::Applied),
            report.rolled_back == count_outcomes(outcomes@.take(k as int), FixOutcome::RolledBack),
            report.failed == count_outcomes(outcomes@.take(k as int), FixOutcome::Failed),
            report.attempts() == k,
        decreases outcomes.len() - k,
    {
        assert(outcomes@.take(k + 1).drop_last() =~= outcomes@.take(k as int));
        report.record(outcomes[k]);
        k = k + 1;
    }
    assert(outcomes@.take(outcomes@.len() as int) =~= outcomes@);
    report
}

/// Law: in every session each diagnostic is counted exactly once, as kept,
/// failed or undone.
pub proof fn lemma_outcomes_partition(outcomes: Seq<FixOutcome>)
    ensures
        count_outcomes(outcomes, FixOutcome::Applied) + count_outcomes(outcomes, FixOutcome::RolledBack)
            + count_outcomes(outcomes, FixOutcome::Failed) == outcomes.len(),
    decreases outcomes.len(),
{
    if outcomes.len() > 0 {
        lemma_outcomes_partition(outcomes.drop_last());
    }
}

// ---------------------------------------------------------------------------
// The language of a directory
// ---------------------------------------------------------------------------

/// Which manifest files a directory holds.
#[derive(Clone, Copy, Debug)]
pub struct ManifestPresence {
    pub cargo_toml: bool,
    pub go_mod: bool,
    pub package_json: bool,
    pub cmake_lists: bool,
    pub makefile: bool,
    pub pyproject_toml: bool,
    pub build_zig: bool,
}

/// The language of a directory: from the first manifest it holds, in the
/// order Rust, Go, TypeScript, C, Python, Zig; otherwise from the
/// directory's extension, C when that says nothing.
pub open spec fn spec_detect_language(m: ManifestPresence, extension: Seq<char>) -> Language {
    if m.cargo_toml {
        Language::Rust
    } else if m.go_mod {
        Language::Go
    } else if m.package_json {
        Language::TypeScript
    } else if m.cmake_lists || m.makefile {
        Language::C
    } else if m.pyproject_toml {
        Language::Python
    } else if m.build_zig {
        Language::Zig
    } else if extension == "rs"@ {
        Language::Rust
    } else if extension == "go"@ {
        Language::Go
    } else if extension == "ts"@ || extension == "tsx"@ || extension == "js"@ || extension == "jsx"@ {
        Language::TypeScript
    } else if extension == "py"@ {
        Language::Python
    } else if extension == "zig"@ {
        Language::Zig
    } else {
        Language::C
    }
}

/// The language of a directory from the manifests it holds and its
/// extension (empty when it has none).
pub fn detect_language(m: &ManifestPresence, extension: &str) -> (r: Language)
    ensures
        r == spec_detect_language(*m, extension@),
{
    if m.cargo_toml {
        Language::Rust
    } else if m.go_mod {
        Language::Go
    } else if m.package_json {
        Language::TypeScript
    } else if m.cmake_lists || m.makefile {
        Language::C
    } else if m.pyproject_toml {
        Language::Python
    } else if m.build_zig {
        Language::Zig
    } else if str_eq(extension, "rs") {
        Language::Rust
    } else if str_eq(extension, "go") {
        Language::Go
    } else if str_eq(extension, "ts") || str_eq(extension, "tsx") || str_eq(extension, "js") || str_eq(extension, "jsx") {
        Language::TypeScript
    } else if str_eq(extension, "py") {
        Language::Python
    } else if str_eq(extension, "zig") {
        Language::Zig
    } else {
        Language::C
    }
}

// ---------------------------------------------------------------------------
// Asking a model
// ---------------------------------------------------------------------------

/// The kinds of service a fix can be asked of.
#[derive(Clone, Copy, Debug, PartialEq, Eq, Structural)]
pub enum Provider {
    Anthropic,
    Ollama,
    OpenAiCompatible,
}

/// The service a provider name stands for: `anthropic` and `ollama` name
/// their services; any other name means an OpenAI-compatible endpoint.
pub open spec fn provider_named(name: Seq<char>) -> Provider {
    if name == "anthropic"@ {
        Provider::Anthropic
    } else if name == "ollama"@ {
        Provider::Ollama
    } else {
        Provider::OpenAiCompatible
    }
}

/// The service a provider name stands for (see `provider_named`).
pub fn provider_for(name: &str) -> (r: Provider)
    ensures
        r == provider_named(name@),
{
    if str_eq(name, "anthropic") {
        Provider::Anthropic
    } else if str_eq(name, "ollama") {
        Provider::Ollama
    } else {
        Provider::OpenAiCompatible
    }
}

/// The request that asks for a fix of `diag` in `file`, shown the code
/// `context` around it.
pub open spec fn spec_prompt(file: Seq<char>, context: Seq<char>, diag: LintDiagnostic) -> Seq<char> {
    "Fix this error in `"@ + file + "`.\n\nError: "@ + diag.message@ + " ["@ + diag.rule@ + "] at line "@
        + decimal(diag.line as nat) + ":"@ + decimal(diag.col as nat) + "\n"@ + match diag.suggestion {
        Some(s) => s@,
        None => seq![],
    } + "\n\nCode context:\n```\n"@ + context + "\n```\n\nReturn a unified diff (--- a/file, +++ b/file, @@ hunks) for the fix. If you cannot produce a valid diff, return ONLY the fixed code for the context shown. No explanations."@
}

/// The request text for a fix.
pub fn build_prompt(file: &str, context: &str, diag: &LintDiagnostic) -> (r: String)
    ensures
        r@ == spec_prompt(file@, context@, *diag),
{
    let mut p = String::from_str("Fix this error in `");
    p.append(file);
    p.append("`.\n\nError: ");
    p.append(diag.message.as_str());
    p.append(" [");
    p.append(diag.rule.as_str());
    p.append("] at line ");
    let line = decimal_string(diag.line);
    p.append(line.as_str());
    p.append(":");
    let col = decimal_string(diag.col);
    p.append(col.as_str());
    p.append("\n");
    match &diag.suggestion {
        Some(s) => {
            p.append(s.as_str());
        },
        None => {
            assert(p@ + seq![] =~= p@);
        },
    }
    p.append("\n\nCode context:\n```\n");
    p.append(context);
    p.append(
        "\n```\n\nReturn a unified diff (--- a/file, +++ b/file, @@ hunks) for the fix. If you cannot produce a valid diff, return ONLY the fixed code for the context shown. No explanations.",
    );
    p
}

/// Where Anthropic's service takes requests.
pub const ANTHROPIC_URL: &'static str = "https://api.anthropic.com/v1/messages";

/// The lines on either side of a diagnostic's line that a fix request shows
/// and that a fix in context replaces.
pub const CONTEXT_RADIUS: usize = 10;

/// A request for a fix: which service to ask, where, and what.
#[derive(Debug)]
pub struct FixRequest {
    pub provider: Provider,
    pub url: String,
    pub prompt: String,
}

/// Where an Ollama server takes requests.
pub fn ollama_url(endpoint: &str) -> (r: String)
    ensures
        r@ == endpoint@ + "/api/generate"@,
{
    let mut u = String::from_str(endpoint);
    u.append("/api/generate");
    u
}

/// Where an OpenAI-compatible service takes requests.
pub fn openai_url(endpoint: &str) -> (r: String)
    ensures
        r@ == endpoint@ + "/v1/chat/completions"@,
{
    let mut u = String::from_str(endpoint);
    u.append("/v1/chat/completions");
    u
}

/// Why no fix could be read from a service's reply.
#[derive(Clone, Copy, Debug, PartialEq, Eq, Structural)]
pub enum ReplyError {
    /// The reply is not JSON.
    NotJson,
    /// The reply holds no text where the service puts its answer.
    NoText,
}

/// `text` without white space at either end.
pub open spec fn is_trim_of(r: Seq<char>, text: Seq<char>) -> bool {
    exists|lo: int, hi: int| trimmed(text, lo, hi) && r == text.subrange(lo, hi)
}

/// The answer in a reply whose JSON is `reply`, found by `locate`.
pub open spec fn reply_answer(reply: Seq<char>, text: spec_fn(JsonModel) -> Option<Seq<char>>, r: Result<String, ReplyError>) -> bool {
    match json_parse(reply) {
        None => r == Err::<String, ReplyError>(ReplyError::NotJson),
        Some(v) => match text(v) {
            None => r == Err::<String, ReplyError>(ReplyError::NoText),
            Some(t) => r is Ok && is_trim_of(r->Ok_0@, t),
        },
    }
}

/// Where Ollama puts its answer: the string `response`.
pub open spec fn ollama_text(v: JsonModel) -> Option<Seq<char>> {
    text_of(member(v, "response"@))
}

/// Where Anthropic puts its answer: `text` of the first block of `content`.
pub open spec fn anthropic_text(v: JsonModel) -> Option<Seq<char>> {
    text_of(member_of(first_of(member(v, "content"@)), "text"@))
}

/// Where an OpenAI-compatible service puts its answer: `content` of the
/// `message` of the first of `choices`.
pub open spec fn openai_text(v: JsonModel) -> Option<Seq<char>> {
    text_of(member_of(member_of(first_of(member(v, "choices"@)), "message"@), "content"@))
}

fn trimmed_answer(found: Option<String>) -> (r: Result<String, ReplyError>)
    ensures
        match found {
            None => r == Err::<String, ReplyError>(ReplyError::NoText),
            Some(t) => r is Ok && is_trim_of(r->Ok_0@, t@),
        },
{
    match found {
        Some(t) => Ok(trim(t.as_str())),
        None => Err(ReplyError::NoText),
    }
}

/// The answer in an Ollama reply.
pub fn ollama_answer(reply: &str) -> (r: Result<String, ReplyError>)
    ensures
        reply_answer(reply@, |v: JsonModel| ollama_text(v), r),
{
    match json_from_str(reply) {
        None => Err(ReplyError::NotJson),
        Some(v) => trimmed_answer(get_text(get_member(Some(&v), "response"))),
    }
}

/// The answer in an Anthropic reply.
pub fn anthropic_answer(reply: &str) -> (r: Result<String, ReplyError>)
    ensures
        reply_answer(reply@, |v: JsonModel| anthropic_text(v), r),
{
    match json_from_str(reply) {
        None => Err(ReplyError::NotJson),
        Some(v) => trimmed_answer(get_text(get_member(get_first(get_member(Some(&v), "content")), "text"))),
    }
}

/// The answer in an OpenAI-compatible reply.
pub fn openai_answer(reply: &str) -> (r: Result<String, ReplyError>)
    ensures
        reply_answer(reply@, |v: JsonModel| openai_text(v), r),
{
    match json_from_str(reply) {
        None => Err(ReplyError::NotJson),
        Some(v) => trimmed_answer(
            get_text(get_member(get_member(get_first(get_member(Some(&v), "choices")), "message"), "content")),
        ),
    }
}

// ---------------------------------------------------------------------------
// The fixer
// ---------------------------------------------------------------------------

/// Fixes diagnostics by asking a language model.
#[derive(Debug)]
pub struct AiFixer {
    pub config: AiConfig,
}

impl AiFixer {
    /// A fixer with the given settings.
    pub fn new(config: AiConfig) -> (r: Self)
        ensures
            r.config == config,
    {
        AiFixer { config }
    }

    /// The fixer with the provider and the model replaced where given.
    pub fn with_overrides(self, provider: Option<&str>, model: Option<&str>) -> (r: Self)
        ensures
            r.config.provider@ == match provider { Some(p) => p@, None => self.config.provider@ },
            r.config.model@ == match model { Some(m) => m@, None => self.config.model@ },
            r.config.endpoint == self.config.endpoint,
    {
        let mut s = self;
        match provider {
            Some(p) => {
                s.config.provider = String::from_str(p);
            },
            None => {},
        }
        match model {
            Some(m) => {
                s.config.model = String::from_str(m);
            },
            None => {},
        }
        s
    }

    /// What to send for a fix of `diag` in `file`, shown the code `context`
    /// around it: the service, where it takes requests, and the request
    /// text. Anthropic is reached at its fixed address; Ollama and
    /// OpenAI-compatible services at their paths under the configured
    /// endpoint.
    pub fn fix_request(&self, file: &str, context: &str, diag: &LintDiagnostic) -> (r: FixRequest)
        ensures
            r.provider == provider_named(self.config.provider@),
            r.url@ == match r.provider {
                Provider::Anthropic => ANTHROPIC_URL@,
                Provider::Ollama => self.config.endpoint@ + "/api/generate"@,
                Provider::OpenAiCompatible => self.config.endpoint@ + "/v1/chat/completions"@,
            },
            r.prompt@ == spec_prompt(file@, context@, *diag),
    {
        let provider = self.provider();
        let url = match provider {
            Provider::Anthropic => String::from_str(ANTHROPIC_URL),
            Provider::Ollama => ollama_url(self.config.endpoint.as_str()),
            Provider::OpenAiCompatible => openai_url(self.config.endpoint.as_str()),
        };
        FixRequest { provider, url, prompt: build_prompt(file, context, diag) }
    }

    /// The service this fixer asks.
    pub fn provider(&self) -> (r: Provider)
        ensures
            r == provider_named(self.config.provider@),
    {
        provider_for(self.config.provider.as_str())
    }
}

} // verus!
