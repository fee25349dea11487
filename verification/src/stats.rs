//! The statistics report printed by the `stats` command.
use vstd::prelude::*;

use crate::storage::{rejected_total, GroupStats};
use crate::text::{decimal, push_decimal, push_signed_decimal, push_str, signed_decimal};

verus! {

broadcast use vstd::string::group_string_axioms;

/// One counter line of the report.
pub open spec fn count_line(label: Seq<char>, n: u64) -> Seq<char> {
    label + decimal(n as nat) + "\n"@
}

/// The approvals line, with the approval rate given as text.
pub open spec fn approved_line(n: u64, approval_pct: Seq<char>) -> Seq<char> {
    "  approved:   "@ + decimal(n as nat) + " ("@ + approval_pct + "%)\n"@
}

/// The counters of one block of the report, each on its own line; the
/// approval rate is given as text (one decimal).
pub open spec fn stats_block(s: GroupStats, approval_pct: Seq<char>) -> Seq<char> {
    count_line("  attempts:   "@, s.attempts)
        + approved_line(s.approved, approval_pct)
        + count_line("  rejected:   "@, rejected_total(s) as u64)
        + count_line("    wrong_answer: "@, s.rejected_wrong)
        + count_line("    no_button:    "@, s.rejected_no_button)
        + count_line("    no_answer:    "@, s.rejected_no_answer)
        + count_line("    llm_error:    "@, s.rejected_llm_error)
        + count_line("    cooldown:     "@, s.rejected_cooldown)
        + count_line("  unique users: "@, s.unique_users)
}

fn push_count_line(out: &mut String, label: &str, n: u64)
    ensures
        final(out)@ == old(out)@ + count_line(label@, n),
{
    push_str(out, label);
    push_decimal(out, n);
    push_str(out, "\n");
    assert(final(out)@ =~= old(out)@ + count_line(label@, n));
}

fn push_approved_line(out: &mut String, n: u64, approval_pct: &str)
    ensures
        final(out)@ == old(out)@ + approved_line(n, approval_pct@),
{
    push_str(out, "  approved:   ");
    push_decimal(out, n);
    push_str(out, " (");
    push_str(out, approval_pct);
    push_str(out, "%)\n");
    assert(final(out)@ =~= old(out)@ + approved_line(n, approval_pct@));
}

/// Appends the block of counters for `stats` to `out`.
pub fn write_stats(out: &mut String, stats: &GroupStats, approval_pct: &str)
    requires
        rejected_total(*stats) <= u64::MAX,
    ensures
        final(out)@ == old(out)@ + stats_block(*stats, approval_pct@),
{
    let rejected = stats.rejected();
    let mut b = String::new();
    push_count_line(&mut b, "  attempts:   ", stats.attempts);
    assert(b@ =~= count_line("  attempts:   "@, stats.attempts));
    push_approved_line(&mut b, stats.approved, approval_pct);
    push_count_line(&mut b, "  rejected:   ", rejected);
    push_count_line(&mut b, "    wrong_answer: ", stats.rejected_wrong);
    push_count_line(&mut b, "    no_button:    ", stats.rejected_no_button);
    push_count_line(&mut b, "    no_answer:    ", stats.rejected_no_answer);
    push_count_line(&mut b, "    llm_error:    ", stats.rejected_llm_error);
    push_count_line(&mut b, "    cooldown:     ", stats.rejected_cooldown);
    push_count_line(&mut b, "  unique users: ", stats.unique_users);
    push_str(out, b.as_str());
}

/// Whether the report covers group `id`.
pub open spec fn covered(only_group: Option<i64>, id: i64) -> bool {
    only_group matches Some(g) ==> g == id
}

/// The blocks of the covered groups among `entries`, in order.
pub open spec fn group_blocks(entries: Seq<(i64, GroupStats, String)>, only_group: Option<i64>) -> Seq<char>
    decreases entries.len(),
{
    if entries.len() == 0 {
        Seq::empty()
    } else {
        let e = entries.last();
        group_blocks(entries.drop_last(), only_group) + if covered(only_group, e.0) {
            "Group "@ + signed_decimal(e.0 as int) + "\n"@ + stats_block(e.1, e.2@) + "\n"@
        } else {
            Seq::empty()
        }
    }
}

/// The blocks of a list of groups are the blocks of its first part followed
/// by those of the rest: no covered group is dropped, repeated or moved.
pub proof fn lemma_group_blocks_concat(
    a: Seq<(i64, GroupStats, String)>,
    b: Seq<(i64, GroupStats, String)>,
    only_group: Option<i64>,
)
    ensures
        group_blocks(a + b, only_group) == group_blocks(a, only_group) + group_blocks(b, only_group),
    decreases b.len(),
{
    if b.len() == 0 {
        assert(a + b =~= a);
        assert(group_blocks(a, only_group) + group_blocks(b, only_group) =~= group_blocks(a, only_group));
    } else {
        lemma_group_blocks_concat(a, b.drop_last(), only_group);
        assert((a + b).drop_last() =~= a + b.drop_last());
        assert((a + b).last() == b.last());
        let e = b.last();
        let block = if covered(only_group, e.0) {
            "Group "@ + signed_decimal(e.0 as int) + "\n"@ + stats_block(e.1, e.2@) + "\n"@
        } else {
            Seq::empty()
        };
        assert(group_blocks(a, only_group) + group_blocks(b.drop_last(), only_group) + block
            =~= group_blocks(a, only_group) + (group_blocks(b.drop_last(), only_group) + block));
    }
}

/// A single group's block: a `Group <id>` line, its counters and a blank
/// line when the report covers it, nothing otherwise.
pub proof fn lemma_group_blocks_single(e: (i64, GroupStats, String), only_group: Option<i64>)
    ensures
        covered(only_group, e.0) ==> group_blocks(seq![e], only_group)
            == "Group "@ + signed_decimal(e.0 as int) + "\n"@ + stats_block(e.1, e.2@) + "\n"@,
        !covered(only_group, e.0) ==> group_blocks(seq![e], only_group) == Seq::<char>::empty(),
{
    let s = seq![e];
    assert(s.drop_last() =~= Seq::<(i64, GroupStats, String)>::empty());
    assert(group_blocks(s.drop_last(), only_group) == Seq::<char>::empty());
    let block = "Group "@ + signed_decimal(e.0 as int) + "\n"@ + stats_block(e.1, e.2@) + "\n"@;
    assert(Seq::<char>::empty() + block =~= block);
    assert(Seq::<char>::empty() + Seq::<char>::empty() =~= Seq::<char>::empty());
}

/// The report: the global block unless one group is asked for, then each
/// covered group's block, or a note that there is nothing to report.
pub open spec fn report(only_group: Option<i64>, global: Option<(GroupStats, String)>,
    per_group: Seq<(i64, GroupStats, String)>) -> Seq<char>
{
    let head = match (only_group, global) {
        (None, Some((g, pct))) => "Global\n"@ + stats_block(g, pct@) + "\n"@,
        _ => Seq::empty(),
    };
    if exists|i: int| 0 <= i < per_group.len() && covered(only_group, #[trigger] per_group[i].0) {
        head + group_blocks(per_group, only_group)
    } else {
        head + "No verification records in range.\n"@
    }
}

/// Renders the report from the global statistics (present when no single
/// group is asked for) and the per-group statistics in chat order, each
/// with its approval rate as text.
pub fn render(only_group: Option<i64>, global: Option<(GroupStats, String)>, per_group: &Vec<(i64, GroupStats, String)>) -> (r: String)
    requires
        only_group is None ==> global is Some,
        global matches Some(g) ==> rejected_total(g.0) <= u64::MAX,
        forall|i: int| 0 <= i < per_group@.len() ==> rejected_total(#[trigger] per_group@[i].1) <= u64::MAX,
    ensures
        r@ == report(only_group, global, per_group@),
{
    let mut out = String::new();
    if only_group.is_none() {
        match &global {
            Some(g) => {
                push_str(&mut out, "Global\n");
                write_stats(&mut out, &g.0, g.1.as_str());
                push_str(&mut out, "\n");
            },
            None => {},
        }
    }
    let ghost head = out@;
    let mut blocks = String::new();
    let mut any = false;
    let mut i: usize = 0;
    while i < per_group.len()
        invariant
            i <= per_group@.len(),
            forall|k: int| 0 <= k < per_group@.len() ==> rejected_total(#[trigger] per_group@[k].1) <= u64::MAX,
            blocks@ == group_blocks(per_group@.take(i as int), only_group),
            any == exists|k: int| 0 <= k < i && covered(only_group, #[trigger] per_group@[k].0),
        decreases per_group@.len() - i,
    {
        let e = &per_group[i];
        let ghost before = blocks@;
        let inc = match only_group {
            Some(g) => g == e.0,
            None => true,
        };
        if inc {
            push_str(&mut blocks, "Group ");
            push_signed_decimal(&mut blocks, e.0);
            push_str(&mut blocks, "\n");
            write_stats(&mut blocks, &e.1, e.2.as_str());
            push_str(&mut blocks, "\n");
            any = true;
        }
        proof {
            let t = per_group@.take(i + 1);
            assert(t.drop_last() =~= per_group@.take(i as int));
            assert(t.last() == per_group@[i as int]);
            assert(blocks@ =~= group_blocks(t, only_group));
        }
        i += 1;
    }
    assert(per_group@.take(per_group@.len() as int) =~= per_group@);
    if !any {
        push_str(&mut out, "No verification records in range.\n");
        return out;
    }
    push_str(&mut out, blocks.as_str());
    out
}

} // verus!
