use askman::rank::{rank, is_trusted_source, QueryMatch, SCORE_THRESHOLD};

fn mk(cmd: &str, desc: &str, ex_desc: &str, ex_cmd: &str, score: u32) -> QueryMatch {
    QueryMatch {
        command: cmd.to_string(),
        description: desc.to_string(),
        example_description: ex_desc.to_string(),
        example_command: ex_cmd.to_string(),
        score,
    }
}

#[test]
fn below_threshold_matches_are_dropped() {
    let ms = vec![
        mk("ls", "Lists files.", "a", "ls -a", 699_999),
        mk("cp", "Copies.", "b", "cp x y", 700_000),
    ];
    let r = rank(&ms);
    assert_eq!(r.len(), 1);
    assert_eq!(r[0].command, "cp");
    assert_eq!(r[0].score, 700_000);
}

#[test]
fn all_below_threshold_yields_empty_result() {
    let ms = vec![
        mk("ls", "Lists files.", "a", "ls -a", 100_000),
        mk("cp", "Copies.", "b", "cp x y", 699_999),
    ];
    let r = rank(&ms);
    assert!(r.is_empty());
}

#[test]
fn trusted_source_score_is_boosted_by_six_fifths() {
    let ms = vec![mk(
        "tar",
        "Archiving utility. More information: <https://man7.org/linux/man-pages/man1/tar.1.html>.",
        "Create an archive",
        "tar -cf a.tar dir",
        800_000,
    )];
    let r = rank(&ms);
    assert_eq!(r.len(), 1);
    assert_eq!(r[0].score, 960_000);
}

#[test]
fn untrusted_source_score_is_unchanged() {
    let ms = vec![mk("tar", "Community page: example.com.", "d", "tar -tf a.tar", 800_000)];
    let r = rank(&ms);
    assert_eq!(r[0].score, 800_000);
}

#[test]
fn trusted_match_ranks_at_or_above_equal_untrusted_one() {
    let ms = vec![
        mk("plaintar", "Archiving utility from a community wiki.", "Create", "plaintar -c", 750_000),
        mk("tar", "Archiving utility, see man7.org.", "Create", "tar -c", 750_000),
    ];
    let r = rank(&ms);
    assert_eq!(r.len(), 2);
    assert_eq!(r[0].command, "tar");
    assert_eq!(r[0].score, 900_000);
    assert_eq!(r[1].command, "plaintar");
    assert_eq!(r[1].score, 750_000);
}

#[test]
fn equal_scores_keep_arrival_order() {
    let ms = vec![
        mk("first", "d1", "a", "c1", 800_000),
        mk("second", "d2", "b", "c2", 800_000),
    ];
    let r = rank(&ms);
    assert_eq!(r[0].command, "first");
    assert_eq!(r[1].command, "second");
}

#[test]
fn matches_group_by_command_keeping_first_score() {
    let ms = vec![
        mk("ls", "Lists files.", "one", "ls -a", 900_000),
        mk("cp", "Copies.", "x", "cp a b", 850_000),
        mk("ls", "Lists files.", "two", "ls -l", 720_000),
    ];
    let r = rank(&ms);
    assert_eq!(r.len(), 2);
    assert_eq!(r[0].command, "ls");
    assert_eq!(r[0].score, 900_000);
    assert_eq!(r[0].examples.len(), 2);
    assert_eq!(r[0].examples[0].description, "one");
    assert_eq!(r[0].examples[1].description, "two");
    assert_eq!(r[1].command, "cp");
}

#[test]
fn at_most_three_commands_and_third_keeps_one_example() {
    let ms = vec![
        mk("a", "d", "a1", "c", 990_000),
        mk("b", "d", "b1", "c", 980_000),
        mk("b", "d", "b2", "c", 975_000),
        mk("c", "d", "c1", "c", 970_000),
        mk("c", "d", "c2", "c", 960_000),
        mk("c", "d", "c3", "c", 950_000),
        mk("d", "d", "d1", "c", 940_000),
    ];
    let r = rank(&ms);
    assert_eq!(r.len(), 3);
    assert_eq!(r[0].command, "a");
    assert_eq!(r[1].command, "b");
    assert_eq!(r[1].examples.len(), 2);
    assert_eq!(r[2].command, "c");
    assert_eq!(r[2].examples.len(), 1);
    assert_eq!(r[2].examples[0].description, "c1");
}

#[test]
fn repeated_queries_return_identical_results() {
    let ms = vec![
        mk("ls", "Lists files, man7.org.", "one", "ls -a", 900_000),
        mk("cp", "Copies.", "x", "cp a b", 900_000),
        mk("mv", "Moves.", "y", "mv a b", 720_000),
    ];
    let r1 = rank(&ms);
    let r2 = rank(&ms);
    assert_eq!(r1, r2);
}

#[test]
fn threshold_is_inclusive() {
    let ms = vec![mk("ls", "d", "a", "c", SCORE_THRESHOLD)];
    let r = rank(&ms);
    assert_eq!(r.len(), 1);
}

#[test]
fn trusted_source_markers_are_recognized() {
    assert!(is_trusted_source(&"See https://www.gnu.org/software/coreutils/.".to_string()));
    assert!(is_trusted_source(&"docs at kernel.org".to_string()));
    assert!(is_trusted_source(&"manual: man7.org".to_string()));
    assert!(is_trusted_source(&"manned.org entry".to_string()));
    assert!(is_trusted_source(&"https://linux.die.net/man/1/ls".to_string()));
    assert!(is_trusted_source(&"https://man.openbsd.org/ls".to_string()));
    assert!(is_trusted_source(&"https://man.freebsd.org/ls".to_string()));
    assert!(is_trusted_source(&"https://greenwoodsoftware.com/less/".to_string()));
    assert!(!is_trusted_source(&"a community wiki".to_string()));
    assert!(!is_trusted_source(&"".to_string()));
}
