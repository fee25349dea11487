use bouncer::stats::{render, write_stats};
use bouncer::storage::GroupStats;

fn stats(approved: u64, wrong: u64) -> GroupStats {
    GroupStats {
        attempts: approved + wrong,
        approved,
        rejected_wrong: wrong,
        rejected_no_button: 0,
        rejected_no_answer: 0,
        rejected_llm_error: 0,
        rejected_cooldown: 0,
        unique_users: approved + wrong,
    }
}

#[test]
fn stats_block_lists_every_counter() {
    let mut out = String::new();
    write_stats(&mut out, &stats(1, 3), "25.0");
    assert_eq!(
        out,
        "  attempts:   4\n  approved:   1 (25.0%)\n  rejected:   3\n    wrong_answer: 3\n    no_button:    0\n    no_answer:    0\n    llm_error:    0\n    cooldown:     0\n  unique users: 4\n"
    );
}

#[test]
fn report_for_one_group_skips_global() {
    let per_group = vec![(-1, stats(1, 0), "100.0".to_string()), (-2, stats(0, 1), "0.0".to_string())];
    let out = render(Some(-2), None, &per_group);
    assert!(out.starts_with("Group -2\n"));
    assert!(!out.contains("Global"));
    assert!(!out.contains("Group -1"));
}

#[test]
fn report_without_records_says_so() {
    let out = render(None, Some((stats(0, 0), "0.0".to_string())), &Vec::new());
    assert!(out.starts_with("Global\n"));
    assert!(out.ends_with("\nNo verification records in range.\n"));
    assert_eq!(render(Some(5), None, &vec![(-1, stats(1, 0), "100.0".to_string())]), "No verification records in range.\n");
}
