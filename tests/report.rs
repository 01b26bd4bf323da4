use pipeline_monitor::model::{Edge, Forward, Hazard, Pipeline, Stage};
use pipeline_monitor::report::{
    clock_trigger, generate_forward_report, generate_hazard_report, generate_stage_report,
    generate_testbench,
};

fn stage(name: &str, stall: Option<&str>, flush: Option<&str>) -> Stage {
    Stage {
        name: name.to_string(),
        description: format!("{} stage", name),
        stall: stall.map(|s| s.to_string()),
        flush: flush.map(|s| s.to_string()),
    }
}

fn hazard(name: &str, condition: &str) -> Hazard {
    Hazard {
        name: name.to_string(),
        description: "foo".to_string(),
        condition: condition.to_string(),
    }
}

fn forward(name: &str, condition: &str, from: usize, to: usize) -> Forward {
    Forward {
        name: name.to_string(),
        description: "foo".to_string(),
        condition: condition.to_string(),
        from,
        to,
    }
}

fn sample() -> Pipeline {
    Pipeline {
        name: "RISCV".to_string(),
        description: "Custom RISC-V (RV32I) CPU".to_string(),
        clock: Edge::Posedge("clock".to_string()),
        stages: vec![
            stage("IF", Some("stall_fetch"), Some("warp")),
            stage("ID", Some("stall_decode"), Some("warp")),
            stage("IF", Some("stall_execute"), Some("warp")),
            stage("WB", None, None),
        ],
        hazards: vec![
            hazard("ID/EX", "conflict_decode_1 || conflict_decode_2"),
            hazard("EX/EX", "conflict_execute_1 || conflict_execute_2"),
        ],
        forwards: vec![
            forward("ID/EX (rs1)", "conflict_decode_1", 1, 2),
            forward("ID/EX (rs2)", "conflict_decode_2", 1, 2),
            forward("EX/EX (rs1)", "conflict_execute_1 && !cannot_forward_execute", 2, 2),
            forward("EX/EX (rs2)", "conflict_execute_2 && !cannot_forward_execute", 2, 2),
        ],
    }
}

fn single_stage(clock: Edge) -> Pipeline {
    Pipeline {
        name: "P".to_string(),
        description: "one stage".to_string(),
        clock,
        stages: vec![stage("EX", Some("s1"), None)],
        hazards: vec![],
        forwards: vec![],
    }
}

const SAMPLE_MONITOR: &str = r#"function string status(input stall, flush);

    case (1'b1)
        flush:   return "\x1B[1;31m【FLUSH】 \x1B[0m";
        stall:   return "\x1B[1;33m【STALL】 \x1B[0m";
        default: return "\x1B[1;32m【ACTIVE】\x1B[0m";
    endcase

endfunction
        
function string hazard_mark(input condition);

    if (condition) return "\x1B[1;33m ⚠ ";
    else           return "\x1B[1;32m ∅ ";

endfunction

function string forward_mark(input condition);

    if (condition) return "\x1B[1;33m → ";
    else           return "\x1B[1;37m ∅ ";

endfunction

initial begin

    $display("███   RISCV: Custom RISC-V (RV32I) CPU   ███");
    $display();
    $display();

end

always @(posedge clock) begin

	$display("───────────────────────────────────────────────────");
	$display();

    $display("= STAGES =");
    $display("%s IF\x1B[0m", status(stall_fetch, warp));
    $display("%s ID\x1B[0m", status(stall_decode, warp));
    $display("%s IF\x1B[0m", status(stall_execute, warp));
    $display("%s WB\x1B[0m", status(1'b0, 1'b0));

    $display();
    $display("= HAZARDS =");
    $display("%s ID/EX\x1B[0m", hazard_mark(conflict_decode_1 || conflict_decode_2));
    $display("%s EX/EX\x1B[0m", hazard_mark(conflict_execute_1 || conflict_execute_2));

    $display();
    $display("= FORWARDS =");
    $display("%s ID/EX (rs1)\x1B[0m", forward_mark(conflict_decode_1));
    $display("%s ID/EX (rs2)\x1B[0m", forward_mark(conflict_decode_2));
    $display("%s EX/EX (rs1)\x1B[0m", forward_mark(conflict_execute_1 && !cannot_forward_execute));
    $display("%s EX/EX (rs2)\x1B[0m", forward_mark(conflict_execute_2 && !cannot_forward_execute));

    $display();

end"#;

#[test]
fn stage_line_uses_conditions() {
    let s = stage("IF", Some("stall_fetch"), Some("warp"));
    assert_eq!(
        generate_stage_report(&s),
        r#"$display("%s IF\x1B[0m", status(stall_fetch, warp));"#
    );
}

#[test]
fn stage_line_defaults_absent_conditions() {
    let s = stage("WB", None, None);
    assert_eq!(
        generate_stage_report(&s),
        r#"$display("%s WB\x1B[0m", status(1'b0, 1'b0));"#
    );
    let s = stage("MEM", None, Some("warp"));
    assert_eq!(
        generate_stage_report(&s),
        r#"$display("%s MEM\x1B[0m", status(1'b0, warp));"#
    );
}

#[test]
fn hazard_line() {
    let h = hazard("ID/EX", "a || b");
    assert_eq!(
        generate_hazard_report(&h),
        r#"$display("%s ID/EX\x1B[0m", hazard_mark(a || b));"#
    );
}

#[test]
fn forward_line_ignores_linked_stages() {
    let f = forward("EX/EX (rs1)", "c && !d", 2, 0);
    let g = forward("EX/EX (rs1)", "c && !d", 7, 9);
    assert_eq!(
        generate_forward_report(&f),
        r#"$display("%s EX/EX (rs1)\x1B[0m", forward_mark(c && !d));"#
    );
    assert_eq!(generate_forward_report(&f), generate_forward_report(&g));
}

#[test]
fn clock_triggers() {
    assert_eq!(clock_trigger(&Edge::Posedge("clk".to_string())), "posedge clk");
    assert_eq!(clock_trigger(&Edge::Negedge("clk".to_string())), "negedge clk");
    assert_eq!(clock_trigger(&Edge::Edge("sys".to_string())), "edge sys");
}

#[test]
fn sample_monitor_text() {
    assert_eq!(generate_testbench(&sample()), SAMPLE_MONITOR);
}

#[test]
fn single_stage_end_to_end() {
    let out = generate_testbench(&single_stage(Edge::Posedge("clk".to_string())));
    let stage_lines: Vec<&str> = out.lines().filter(|l| l.contains("status(")).collect();
    let display_lines: Vec<&str> = stage_lines
        .iter()
        .copied()
        .filter(|l| l.contains("$display("))
        .collect();
    assert_eq!(display_lines.len(), 1);
    assert!(display_lines[0].contains("s1"));
    assert!(display_lines[0].contains("1'b0"));
    assert_eq!(
        display_lines[0].trim(),
        r#"$display("%s EX\x1B[0m", status(s1, 1'b0));"#
    );
    assert!(out.contains("always @(posedge clk) begin"));
}

#[test]
fn negedge_trigger_end_to_end() {
    let out = generate_testbench(&single_stage(Edge::Negedge("clk_n".to_string())));
    assert!(out.contains("always @(negedge clk_n) begin"));
    let out = generate_testbench(&single_stage(Edge::Edge("clk".to_string())));
    assert!(out.contains("always @(edge clk) begin"));
}

#[test]
fn no_hazards_leaves_section_empty() {
    let out = generate_testbench(&single_stage(Edge::Posedge("clk".to_string())));
    let expected = "    $display(\"= HAZARDS =\");\n    \n    $display();\n    $display(\"= FORWARDS =\");\n";
    assert!(out.contains(expected));
    let after = out.split("= HAZARDS =").nth(1).unwrap();
    let before_next = after.split("= FORWARDS =").next().unwrap();
    assert!(!before_next.contains("hazard_mark("));
}

#[test]
fn monitor_is_deterministic() {
    assert_eq!(generate_testbench(&sample()), generate_testbench(&sample()));
    let one = single_stage(Edge::Posedge("clk".to_string()));
    let two = single_stage(Edge::Posedge("clk".to_string()));
    assert_eq!(generate_testbench(&one), generate_testbench(&two));
}

#[test]
fn banner_carries_name_and_description() {
    let out = generate_testbench(&sample());
    assert!(out.contains("$display(\"███   RISCV: Custom RISC-V (RV32I) CPU   ███\");"));
    assert!(out.starts_with("function string status(input stall, flush);\n"));
    assert!(out.ends_with("\n    $display();\n\nend"));
}
