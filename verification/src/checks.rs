//! The findings of a validation and how they are printed.
use vstd::prelude::*;

use crate::text::{gather, lemma_gather_ends, lemma_gather_step, lemma_occurs_in_gather,
    lemma_occurs_whole, occurs_in};

verus! {

/// How a check came out.
#[derive(Clone, Copy, Debug, PartialEq, Eq, Structural)]
pub enum CheckResult {
    Pass,
    Warn,
    Error,
}

/// One line of a validation report.
#[derive(Debug)]
pub struct Check {
    pub result: CheckResult,
    pub message: String,
}

/// The mathematical model of a [`Check`].
pub struct CheckView {
    pub result: CheckResult,
    pub message: Seq<char>,
}

impl View for Check {
    type V = CheckView;

    open spec fn view(&self) -> CheckView {
        CheckView { result: self.result, message: self.message@ }
    }
}

/// The contents of several checks.
pub open spec fn check_views(v: Seq<Check>) -> Seq<CheckView> {
    Seq::new(v.len(), |i: int| v[i]@)
}

pub open spec fn ok_check(message: Seq<char>) -> CheckView {
    CheckView { result: CheckResult::Pass, message }
}

pub open spec fn warning(message: Seq<char>) -> CheckView {
    CheckView { result: CheckResult::Warn, message }
}

pub open spec fn error(message: Seq<char>) -> CheckView {
    CheckView { result: CheckResult::Error, message }
}

/// How many checks came out as `result`.
pub open spec fn count_of(checks: Seq<CheckView>, result: CheckResult) -> nat
    decreases checks.len(),
{
    if checks.len() == 0 {
        0
    } else {
        count_of(checks.drop_last(), result) + if checks.last().result == result {
            1nat
        } else {
            0nat
        }
    }
}

/// No more checks come out as `result` than there are, and none does if no single one does.
pub proof fn lemma_count_of(checks: Seq<CheckView>, result: CheckResult)
    ensures
        count_of(checks, result) <= checks.len(),
        count_of(checks, result) == 0 <==> (forall|i: int|
            0 <= i < checks.len() ==> (#[trigger] checks[i]).result != result),
    decreases checks.len(),
{
    if checks.len() > 0 {
        let front = checks.drop_last();
        lemma_count_of(front, result);
        if count_of(checks, result) == 0 {
            assert forall|i: int| 0 <= i < checks.len() implies (#[trigger] checks[i]).result
                != result by {
                if i < front.len() {
                    assert(front[i].result != result);
                }
            }
        }
        if forall|i: int| 0 <= i < checks.len() ==> (#[trigger] checks[i]).result != result {
            assert forall|i: int| 0 <= i < front.len() implies (#[trigger] front[i]).result
                != result by {
                assert(checks[i].result != result);
            }
            assert(checks[checks.len() - 1].result != result);
        }
    }
}

/// The checks of two lists are counted one list after the other.
pub proof fn lemma_count_of_concat(a: Seq<CheckView>, b: Seq<CheckView>, result: CheckResult)
    ensures
        count_of(a + b, result) == count_of(a, result) + count_of(b, result),
    decreases b.len(),
{
    if b.len() == 0 {
        assert(a + b =~= a);
    } else {
        assert((a + b).drop_last() =~= a + b.drop_last());
        lemma_count_of_concat(a, b.drop_last(), result);
    }
}

/// How many checks came out as `result`.
pub fn count_checks(checks: &Vec<Check>, result: CheckResult) -> (r: usize)
    ensures
        r == count_of(check_views(checks@), result),
{
    let ghost all = check_views(checks@);
    let mut n: usize = 0;
    for i in 0..checks.len()
        invariant
            all == check_views(checks@),
            n <= i,
            n == count_of(all.take(i as int), result),
    {
        assert(all.take(i + 1).drop_last() =~= all.take(i as int));
        assert(all.take(i + 1).last() == all[i as int]);
        if checks[i].result == result {
            n = n + 1;
        }
    }
    assert(all.take(checks@.len() as int) =~= all);
    n
}

/// The label of a result.
pub open spec fn label_text(result: CheckResult) -> Seq<char> {
    match result {
        CheckResult::Pass => "ok"@,
        CheckResult::Warn => "warn"@,
        CheckResult::Error => "err"@,
    }
}

/// The terminal code of the colour that a result is shown in.
pub open spec fn color_text(result: CheckResult) -> Seq<char> {
    match result {
        CheckResult::Pass => "\x1b[32m"@,
        CheckResult::Warn => "\x1b[33m"@,
        CheckResult::Error => "\x1b[31m"@,
    }
}

/// A check as it is printed, without its line feed.
pub open spec fn check_text(check: CheckView, use_colors: bool) -> Seq<char> {
    let label = label_text(check.result);
    let tag = if use_colors {
        color_text(check.result) + label + "\x1b[0m"@
    } else {
        label
    };
    "  ["@ + tag + "] "@ + check.message
}

pub open spec fn check_line(use_colors: bool) -> spec_fn(CheckView) -> Seq<char> {
    |check: CheckView| check_text(check, use_colors) + "\n"@
}

/// Checks as they are printed, one on each line.
pub open spec fn checks_text(checks: Seq<CheckView>, use_colors: bool) -> Seq<char> {
    gather(checks, check_line(use_colors))
}

/// Writes one line of a validation report.
pub fn print_check(writer: &mut String, result: CheckResult, msg: &str, use_colors: bool)
    ensures
        final(writer)@ == old(writer)@ + check_line(use_colors)(
            (CheckView { result, message: msg@ }),
        ),
{
    let label = match result {
        CheckResult::Pass => "ok",
        CheckResult::Warn => "warn",
        CheckResult::Error => "err",
    };
    let mut tag = String::new();
    if use_colors {
        let color = match result {
            CheckResult::Pass => "\x1b[32m",
            CheckResult::Warn => "\x1b[33m",
            CheckResult::Error => "\x1b[31m",
        };
        tag.append(color);
        tag.append(label);
        tag.append("\x1b[0m");
        assert(tag@ =~= color_text(result) + label_text(result) + "\x1b[0m"@);
    } else {
        tag.append(label);
        assert(tag@ =~= label_text(result));
    }
    let mut line = "  [".to_owned();
    line.append(tag.as_str());
    line.append("] ");
    line.append(msg);
    line.append("\n");
    writer.append(line.as_str());
}

/// Writes the lines of a validation report.
pub fn print_checks(writer: &mut String, checks: &Vec<Check>, use_colors: bool)
    ensures
        final(writer)@ == old(writer)@ + checks_text(check_views(checks@), use_colors),
{
    let ghost all = check_views(checks@);
    let ghost before = writer@;
    proof {
        lemma_gather_ends(all, check_line(use_colors));
    }
    assert(writer@ =~= before + checks_text(all.take(0), use_colors));
    for i in 0..checks.len()
        invariant
            all == check_views(checks@),
            writer@ == before + checks_text(all.take(i as int), use_colors),
    {
        proof {
            lemma_gather_step(all, i as int, check_line(use_colors));
        }
        let ghost here = writer@;
        print_check(writer, checks[i].result, checks[i].message.as_str(), use_colors);
        assert(writer@ =~= before + (checks_text(all.take(i as int), use_colors) + check_line(
            use_colors,
        )(all[i as int])));
    }
    proof {
        lemma_gather_ends(all, check_line(use_colors));
    }
}

// ---------------------------------------------------------------------------
// Laws
// ---------------------------------------------------------------------------
pub open spec fn came_out_as(result: CheckResult) -> spec_fn(CheckView) -> bool {
    |c: CheckView| c.result == result
}

/// The count of a result is the number of checks that came out so.
pub proof fn law_counting_counts_checks(checks: Seq<CheckView>, result: CheckResult)
    ensures
        count_of(checks, result) == checks.filter(came_out_as(result)).len(),
    decreases checks.len(),
{
    reveal(Seq::filter);
    if checks.len() > 0 {
        law_counting_counts_checks(checks.drop_last(), result);
    }
}

/// Every check is printed, on a line of its own, behind a label for its result.
pub proof fn law_every_check_is_printed(checks: Seq<CheckView>, i: int)
    requires
        0 <= i < checks.len(),
    ensures
        occurs_in(
            checks_text(checks, false),
            match checks[i].result {
                CheckResult::Pass => "  [ok] "@,
                CheckResult::Warn => "  [warn] "@,
                CheckResult::Error => "  [err] "@,
            } + checks[i].message + "\n"@,
        ),
        occurs_in(
            checks_text(checks, true),
            match checks[i].result {
                CheckResult::Pass => "  [\x1b[32mok\x1b[0m] "@,
                CheckResult::Warn => "  [\x1b[33mwarn\x1b[0m] "@,
                CheckResult::Error => "  [\x1b[31merr\x1b[0m] "@,
            } + checks[i].message + "\n"@,
        ),
{
    reveal_strlit("  [");
    reveal_strlit("] ");
    reveal_strlit("ok");
    reveal_strlit("warn");
    reveal_strlit("err");
    reveal_strlit("  [ok] ");
    reveal_strlit("  [warn] ");
    reveal_strlit("  [err] ");
    reveal_strlit("\x1b[0m");
    reveal_strlit("\x1b[32m");
    reveal_strlit("\x1b[33m");
    reveal_strlit("\x1b[31m");
    reveal_strlit("  [\x1b[32mok\x1b[0m] ");
    reveal_strlit("  [\x1b[33mwarn\x1b[0m] ");
    reveal_strlit("  [\x1b[31merr\x1b[0m] ");
    let c = checks[i];
    let plain = match c.result {
        CheckResult::Pass => "  [ok] "@,
        CheckResult::Warn => "  [warn] "@,
        CheckResult::Error => "  [err] "@,
    } + c.message + "\n"@;
    let colored = match c.result {
        CheckResult::Pass => "  [\x1b[32mok\x1b[0m] "@,
        CheckResult::Warn => "  [\x1b[33mwarn\x1b[0m] "@,
        CheckResult::Error => "  [\x1b[31merr\x1b[0m] "@,
    } + c.message + "\n"@;
    assert(check_line(false)(c) =~= plain);
    assert(check_line(true)(c) =~= colored);
    lemma_occurs_whole(plain);
    lemma_occurs_whole(colored);
    lemma_occurs_in_gather(checks, check_line(false), i, plain);
    lemma_occurs_in_gather(checks, check_line(true), i, colored);
}

/// Checks are seen as they are, in their places.
pub proof fn law_checks_keep_their_places(checks: Seq<Check>, i: int)
    requires
        0 <= i < checks.len(),
    ensures
        check_views(checks).len() == checks.len(),
        check_views(checks)[i].result == checks[i].result,
        check_views(checks)[i].message == checks[i].message@,
{
}

} // verus!
