use tvm_devirt::diag::{DivergedDiag, FlagProbe, PinArm, Sink, SplitDiag, StopDiag, SwitchArm, SwitchProbe};
use tvm_devirt::ir::{Block, BlockId, Cfg, CfgIssues, Image, Ref, Section, Terminator};
use tvm_devirt::report::{
    block_id_json, block_list, count_map, count_unresolved, divergence_json, hex, issue_summary,
    issues_json, non_executable_targets, opt_hex, q, render_json, split_for_block, split_json,
    stop_for_block, targets,
};

fn id(handler: u64, vip: Option<u64>) -> BlockId {
    BlockId { handler, vip }
}

fn block(bid: BlockId, terminator: Terminator) -> Block {
    Block { id: bid, terminator, cost: 0, preds: Vec::new() }
}

#[test]
fn a_non_executable_target_makes_the_combined_validation_fail() {
    let issues = CfgIssues::default();
    let target = BlockId { handler: 0x1234, vip: None };
    let json = issues_json(&issues, &[target]);

    assert!(json.contains("\"clean\":false"), "{json}");
    assert!(json.contains("non_executable_targets 1"), "{json}");
}

#[test]
fn duplicate_rendered_count_keys_are_merged() {
    let json = count_map(&[("same".into(), 2), ("same".into(), 3)]);
    assert_eq!(json, "{\"same\":5}");
}

#[test]
fn a_final_pass_block_never_inherits_a_first_pass_diagnostic() {
    let id = BlockId { handler: 0x1234, vip: Some(0x40) };
    let sink = Sink {
        final_pass: 2,
        stops: vec![StopDiag { pass: 1, handler: id.handler, vip: id.vip, ..Default::default() }],
        ..Default::default()
    };

    assert!(stop_for_block(&sink, &id).is_none());
}

#[test]
fn hex_values_are_lower_case_without_padding() {
    assert_eq!(hex(0), "\"0x0\"");
    assert_eq!(hex(0x1234abcd), "\"0x1234abcd\"");
    assert_eq!(hex(u64::MAX), "\"0xffffffffffffffff\"");
    assert_eq!(opt_hex(None), "null");
    assert_eq!(opt_hex(Some(0x40)), "\"0x40\"");
}

#[test]
fn quoting_escapes_what_json_requires() {
    assert_eq!(q("plain"), "\"plain\"");
    assert_eq!(q("a\"b\\c"), "\"a\\\"b\\\\c\"");
    assert_eq!(q("l1\nl2\r\t"), "\"l1\\nl2\\r\\t\"");
    assert_eq!(q("\u{1}\u{1f}"), "\"\\u0001\\u001f\"");
    assert_eq!(q("é→"), "\"é→\"");
    assert_eq!(q(""), "\"\"");
}

#[test]
fn escaped_text_reads_back_as_the_original() {
    let original = "x\"\\\n\r\t\u{0}\u{7}\u{1b}é z";
    let escaped = tvm_devirt::text::escape(original);
    let mut decoded = String::new();
    let mut chars = escaped.chars();
    while let Some(c) = chars.next() {
        if c != '\\' {
            decoded.push(c);
            continue;
        }
        match chars.next().unwrap() {
            'n' => decoded.push('\n'),
            'r' => decoded.push('\r'),
            't' => decoded.push('\t'),
            'u' => {
                let code: String = (0..4).map(|_| chars.next().unwrap()).collect();
                decoded.push(char::from_u32(u32::from_str_radix(&code, 16).unwrap()).unwrap());
            }
            other => decoded.push(other),
        }
    }
    assert_eq!(decoded, original);
}

#[test]
fn block_identities_render_as_objects() {
    assert_eq!(block_id_json(&id(0x10, None)), "{\"handler\":\"0x10\",\"vip\":null}");
    assert_eq!(block_list(&[]), "[]");
    assert_eq!(
        block_list(&[id(0x10, Some(0x2)), id(0x20, None)]),
        "[{\"handler\":\"0x10\",\"vip\":\"0x2\"},{\"handler\":\"0x20\",\"vip\":null}]"
    );
}

#[test]
fn every_terminator_names_its_targets() {
    let a = id(1, None);
    let b = id(2, Some(3));
    assert_eq!(targets(&Terminator::Jump(a)), vec![a]);
    assert_eq!(targets(&Terminator::Branch { taken: a, not_taken: b }), vec![a, b]);
    assert_eq!(targets(&Terminator::Switch { targets: vec![b, a, b] }), vec![b, a, b]);
    assert_eq!(targets(&Terminator::AdoptedSwitch { targets: vec![a] }), vec![a]);
    assert_eq!(targets(&Terminator::Backedge { target: b }), vec![b]);
    assert_eq!(targets(&Terminator::Adopted { taken: b, not_taken: a }), vec![b, a]);
    assert!(targets(&Terminator::Return).is_empty());
    assert!(targets(&Terminator::Unresolved { reason: "x".into() }).is_empty());
}

fn image() -> Image {
    Image {
        sections: vec![
            Section { va: 0x1000, virtual_size: 0x100, raw_size: 0x200, executable: true },
            Section { va: 0x3000, virtual_size: 0x100, raw_size: 0, executable: false },
        ],
        vm_section: Some(Section { va: 0x1000, virtual_size: 0x80, raw_size: 0x40, executable: true }),
    }
}

#[test]
fn executable_memory_follows_the_larger_section_size() {
    let img = image();
    assert!(img.is_executable(0x1000));
    assert!(img.is_executable(0x11ff));
    assert!(!img.is_executable(0x1200));
    assert!(!img.is_executable(0xfff));
    assert!(!img.is_executable(0x3000));
}

#[test]
fn non_executable_targets_are_listed_once_in_first_seen_order() {
    let img = image();
    let x = id(0x5000, None);
    let y = id(0x3000, Some(1));
    let ok = id(0x1010, None);
    let cfg = Cfg {
        blocks: vec![
            block(id(0x1000, None), Terminator::Branch { taken: x, not_taken: ok }),
            block(id(0x1010, None), Terminator::Switch { targets: vec![y, x, y] }),
            block(id(0x1020, None), Terminator::Unresolved { reason: "r".into() }),
        ],
        total_steps: 0,
        timed_out: false,
    };
    assert_eq!(non_executable_targets(&img, &cfg), vec![x, y]);
    assert_eq!(count_unresolved(&cfg), 1);
}

#[test]
fn summaries_name_each_problem_and_the_non_executable_targets() {
    let clean = CfgIssues::default();
    assert_eq!(issue_summary(&clean, &[]), "clean");
    assert_eq!(issue_summary(&clean, &[id(1, None), id(2, None)]), "non_executable_targets 2");
    let mut issues = CfgIssues::default();
    issues.dead_params = 2;
    issues.orphans = vec![id(7, None)];
    assert!(!issues.is_clean());
    assert_eq!(issues.summary(), "dead_params 2, orphans 1");
    assert_eq!(
        issue_summary(&issues, &[id(1, None)]),
        "dead_params 2, orphans 1, non_executable_targets 1"
    );
    let json = issues_json(&clean, &[]);
    assert!(json.starts_with("{\"summary\":\"clean\",\"clean\":true,\"dead_params\":0,"), "{json}");
}

#[test]
fn issues_render_every_category() {
    let mut issues = CfgIssues::default();
    issues.dangling_edges = vec![(id(1, None), id(2, Some(3)))];
    issues.nondominating_params = vec![(id(4, None), Ref(9))];
    let json = issues_json(&issues, &[]);
    assert_eq!(
        json,
        "{\"summary\":\"dangling_edges 1, nondominating_params 1\",\"clean\":false,\"dead_params\":0,\
\"dangling_edges\":[[{\"handler\":\"0x1\",\"vip\":null},{\"handler\":\"0x2\",\"vip\":\"0x3\"}]],\
\"unidentified_blocks\":[],\"orphans\":[],\"duplicate_ids\":[],\"degenerate_branches\":[],\"cannot_reach_exit\":[],\
\"nondominating_params\":[[{\"handler\":\"0x4\",\"vip\":null},9]],\"non_executable_targets\":[]}"
    );
}

#[test]
fn counts_merge_by_label_in_first_seen_order() {
    assert_eq!(count_map(&[]), "{}");
    let json = count_map(&[
        ("b".into(), 1),
        ("a\"".into(), 4),
        ("b".into(), 10),
        ("c".into(), 0),
        ("a\"".into(), 1),
    ]);
    assert_eq!(json, "{\"b\":11,\"a\\\"\":5,\"c\":0}");
}

#[test]
fn the_latest_record_of_the_final_pass_describes_a_block() {
    let bid = id(0x1234, Some(0x40));
    let split = |pass: u32, site: u64| SplitDiag { pass, handler: bid.handler, vip: bid.vip, site, ..Default::default() };
    let sink = Sink {
        final_pass: 2,
        splits: vec![split(2, 1), split(1, 2), split(2, 3), split(1, 4)],
        stops: vec![
            StopDiag { pass: 2, handler: bid.handler, vip: bid.vip, site: 5, ..Default::default() },
            StopDiag { pass: 2, handler: bid.handler, vip: None, site: 6, ..Default::default() },
        ],
        ..Default::default()
    };
    assert_eq!(split_for_block(&sink, &bid).unwrap().site, 3);
    assert_eq!(stop_for_block(&sink, &bid).unwrap().site, 5);
    assert!(split_for_block(&sink, &id(0x1234, None)).is_none());
    assert_eq!(stop_for_block(&sink, &id(0x1234, None)).unwrap().site, 6);
}

#[test]
fn a_split_record_renders_its_probes() {
    let d = SplitDiag {
        pass: 2,
        site: 0xab,
        arg_dependent: true,
        leaf_total: 3,
        dest_width: "64".into(),
        dest_expr: "x+1".into(),
        leaves: vec!["x".into(), "y".into()],
        flag_candidates: vec![FlagProbe {
            expr: "zf".into(),
            prior_pin: Some(1),
            arms: vec![PinArm { value: 0, target: Some(0x10), executable: true, in_vm_section: false, vip: None, naive_target: None }],
        }],
        narrow_indices: vec![SwitchProbe {
            expr: "i".into(),
            span: 1,
            arms: vec![
                SwitchArm { value: 0, target: None, executable: false, in_vm_section: false, vip: None },
                SwitchArm { value: 1, target: Some(0x20), executable: true, in_vm_section: true, vip: Some(0x5) },
            ],
            unfolded: true,
            non_executable_arms: 1,
        }],
        ..Default::default()
    };
    assert_eq!(
        split_json(&d),
        "{\"pass\":2,\"site\":\"0xab\",\"arg_dependent\":true,\"leaf_total\":3,\"dest_width\":\"64\",\
\"dest_expr\":\"x+1\",\"leaves\":[\"x\",\"y\"],\
\"flag_candidates\":[{\"expr\":\"zf\",\"prior_pin\":\"0x1\",\"arms\":[{\"value\":0,\"target\":\"0x10\",\"executable\":true,\"in_vm_section\":false,\"vip\":null,\"naive_target\":null}]}],\
\"narrow_indices\":[{\"expr\":\"i\",\"span\":1,\"unfolded\":true,\"non_executable_arms\":1,\"arms\":[\
{\"value\":0,\"target\":null,\"executable\":false,\"in_vm_section\":false,\"vip\":null},\
{\"value\":1,\"target\":\"0x20\",\"executable\":true,\"in_vm_section\":true,\"vip\":\"0x5\"}]}]}"
    );
}

#[test]
fn divergence_records_render_with_merged_counts() {
    let d = DivergedDiag {
        pass: 1,
        handler: 0x10,
        vip: None,
        site: 0x11,
        nodes: 5,
        dag_total: 6,
        by_kind: vec![("add".into(), 2), ("add".into(), 1)],
        by_width: vec![("64".into(), 3)],
        edges: 4,
        shared: 1,
        max_indegree: 2,
        top_shared: vec![],
        live_dag: 3,
        entry: 0,
    };
    assert_eq!(divergence_json(&[]), "[]");
    assert_eq!(
        divergence_json(&[d]),
        "[{\"pass\":1,\"handler\":\"0x10\",\"vip\":null,\"site\":\"0x11\",\"nodes\":5,\"dag_total\":6,\
\"live_dag\":3,\"edges\":4,\"shared\":1,\"max_indegree\":2,\"by_kind\":{\"add\":3},\"by_width\":{\"64\":3},\
\"top_shared\":{}}]"
    );
}

#[test]
fn the_whole_report_lists_unresolved_blocks_with_their_records() {
    let img = image();
    let bid = id(0x1040, Some(0x7));
    let cfg = Cfg {
        blocks: vec![
            block(id(0x1000, None), Terminator::Jump(bid)),
            Block {
                id: bid,
                terminator: Terminator::Unresolved { reason: "no split".into() },
                cost: 12,
                preds: vec![id(0x1000, None)],
            },
        ],
        total_steps: 99,
        timed_out: false,
    };
    let sink = Sink {
        final_pass: 1,
        stops: vec![StopDiag { pass: 1, handler: bid.handler, vip: bid.vip, stop: "Budget".into(), site: 0x1044, ..Default::default() }],
        ..Default::default()
    };
    let issues = CfgIssues::default();
    let ne = non_executable_targets(&img, &cfg);
    let json = render_json(&img, 0x1000, 0x7000, &cfg, &sink, &issues, &ne);
    assert_eq!(
        json,
        "{\"entry\":\"0x1000\",\"stack_base\":\"0x7000\",\"blocks\":2,\"unresolved_blocks\":1,\"total_steps\":99,\"timed_out\":false,\
\"vm_section\":{\"lo\":\"0x1000\",\"hi\":\"0x1080\"},\
\"issues\":{\"summary\":\"clean\",\"clean\":true,\"dead_params\":0,\"dangling_edges\":[],\"unidentified_blocks\":[],\"orphans\":[],\
\"duplicate_ids\":[],\"degenerate_branches\":[],\"cannot_reach_exit\":[],\"nondominating_params\":[],\"non_executable_targets\":[]},\
\"unresolved\":[{\"handler\":\"0x1040\",\"vip\":\"0x7\",\"reason\":\"no split\",\"cost\":12,\"preds\":[{\"handler\":\"0x1000\",\"vip\":null}],\
\"handler_executable\":true,\"handler_in_vm_section\":true,\"stop\":\"Budget\",\"site\":\"0x1044\",\"stop_pass\":1,\"detail\":null}],\
\"divergence\":[]}"
    );
}

#[test]
fn an_image_without_a_vm_section_reports_an_empty_range() {
    let img = Image { sections: vec![], vm_section: None };
    let cfg = Cfg {
        blocks: vec![block(id(0x10, None), Terminator::Unresolved { reason: "r".into() })],
        total_steps: 0,
        timed_out: true,
    };
    let sink = Sink::default();
    let json = render_json(&img, 0x10, 0, &cfg, &sink, &CfgIssues::default(), &[]);
    assert!(json.contains("\"vm_section\":{\"lo\":\"0x0\",\"hi\":\"0x0\"}"), "{json}");
    assert!(json.contains("\"handler_executable\":false,\"handler_in_vm_section\":false,"), "{json}");
    assert!(json.contains("\"stop\":null,\"site\":null,\"stop_pass\":null,\"detail\":null}"), "{json}");
    assert!(json.contains("\"timed_out\":true"), "{json}");
}
