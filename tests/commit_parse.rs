use ci_tool::commit_parse::{group_by_kind, parse_commit_list, render_changelog, render_groups};

#[test]
fn test_parse() {
    let r = render_changelog(
        r#"d0aec01 chore(web): bump deps
d0aec01 chore(web): bump deps
d0aec01 fix(web): bump deps
d0aec01 chore(web): bump deps"#,
    )
    .unwrap();
    println!("{r}");
    assert_eq!(
        r,
        "## Chore\n\n- `d0aec01` chore: bump deps\n- `d0aec01` chore: bump deps\n\
         - `d0aec01` chore: bump deps\n## Fix\n\n- `d0aec01` fix: bump deps\n"
    );
}

#[test]
fn chore_and_fix_sections_in_order() {
    let log = "d0aec01 chore(web): bump deps\nd0aec01 fix(web): patch bug";
    let msgs = parse_commit_list(log).unwrap();
    assert_eq!(msgs.len(), 2);
    assert_eq!(msgs[0].hash, "d0aec01");
    assert_eq!(msgs[0].kind, "chore");
    assert_eq!(msgs[0].msg, "bump deps");
    assert_eq!(msgs[1].kind, "fix");
    assert_eq!(msgs[1].msg, "patch bug");
    let groups = group_by_kind(&msgs);
    assert_eq!(groups[1].len(), 1);
    assert_eq!(groups[1][0].msg.trim(), "bump deps");
    assert_eq!(groups[5].len(), 1);
    assert_eq!(groups[5][0].msg.trim(), "patch bug");
    let r = render_changelog(log).unwrap();
    assert_eq!(
        r,
        "## Chore\n\n- `d0aec01` chore: bump deps\n## Fix\n\n- `d0aec01` fix: patch bug\n"
    );
}

#[test]
fn conventional_line_without_scope() {
    let msgs = parse_commit_list("abc123 feat: add thing").unwrap();
    assert_eq!(msgs[0].hash, "abc123");
    assert_eq!(msgs[0].kind, "feat");
    assert_eq!(msgs[0].msg, "add thing");
    let msgs = parse_commit_list("a1 wip: x").unwrap();
    assert_eq!(msgs[0].kind, "wip");
    assert_eq!(msgs[0].msg, "x");
}

#[test]
fn fallback_line_is_mix() {
    let msgs = parse_commit_list("  abc123   Merge branch 'x'  ").unwrap();
    assert_eq!(msgs.len(), 1);
    assert_eq!(msgs[0].hash, "abc123");
    assert_eq!(msgs[0].kind, "mix");
    assert_eq!(msgs[0].msg, "Merge branch 'x'");
    let r = render_changelog("abc123 Merge branch 'x'").unwrap();
    assert_eq!(r, "## Mixture\n\n- `abc123` mix: Merge branch 'x'\n");
}

#[test]
fn malformed_line_is_an_error() {
    let e = parse_commit_list("abc123 ok: fine\n  nospace  \n").unwrap_err();
    assert_eq!(e.line, "nospace");
    assert!(render_changelog("!!! bad").is_err());
}

#[test]
fn blank_lines_are_skipped() {
    let msgs = parse_commit_list("\n  \nabc fix: x\n\n").unwrap();
    assert_eq!(msgs.len(), 1);
    assert_eq!(parse_commit_list("").unwrap().len(), 0);
}

#[test]
fn empty_log_renders_nothing() {
    assert_eq!(render_changelog("").unwrap(), "");
    let groups = group_by_kind(&Vec::new());
    assert_eq!(groups.len(), 11);
    assert_eq!(render_groups(&groups), "");
}

#[test]
fn first_category_in_order_wins() {
    let msgs = parse_commit_list("a1 cifeat: x\na2 prefixfix: y\na3 wip(ci): z").unwrap();
    let groups = group_by_kind(&msgs);
    assert_eq!(groups[2].len(), 1);
    assert_eq!(groups[2][0].hash, "a1");
    assert_eq!(groups[5].len(), 1);
    assert_eq!(groups[5][0].hash, "a2");
    let total: usize = groups.iter().map(|g| g.len()).sum();
    assert_eq!(total, 2);
}

#[test]
fn grouping_twice_gives_the_same_groups() {
    let msgs = parse_commit_list("a1 feat: x\na2 fix: y\na3 docs: z\na4 feat: w").unwrap();
    let g1 = group_by_kind(&msgs);
    let g2 = group_by_kind(&msgs);
    assert_eq!(g1.len(), g2.len());
    for c in 0..g1.len() {
        let h1: Vec<&String> = g1[c].iter().map(|m| &m.hash).collect();
        let h2: Vec<&String> = g2[c].iter().map(|m| &m.hash).collect();
        assert_eq!(h1, h2);
    }
    assert_eq!(render_groups(&g1), render_groups(&g2));
}

#[test]
fn scope_closes_at_first_paren_colon() {
    let msgs = parse_commit_list("a1 feat(a): b): c").unwrap();
    assert_eq!(msgs[0].kind, "feat");
    assert_eq!(msgs[0].msg, "b): c");
    let msgs = parse_commit_list("a1 feat(a) b").unwrap();
    assert_eq!(msgs[0].kind, "mix");
    assert_eq!(msgs[0].msg, "feat(a) b");
}

#[test]
fn scope_is_not_matched_for_category() {
    let r = render_changelog("a1 feature: x\na2 testfix: y\na3 wip(ci): z").unwrap();
    assert_eq!(r, "## Feature\n\n- `a1` feature: x\n## Fix\n\n- `a2` testfix: y\n");
}
