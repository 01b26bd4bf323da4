//! One renderer per entity kind, and the assembler of the whole monitor.

use vstd::prelude::*;

use crate::model::{
    opt_text, Edge, EdgeView, Forward, ForwardView, Hazard, HazardView, Pipeline, PipelineView, Stage,
    StageView,
};
use crate::template::{join, lemma_unfiltered, no_predicates, template};
use crate::text::indent_text;

verus! {

/// The condition that stands in for an absent stall or flush expression.
pub const NEVER: &'static str = "1'b0";

/// The helper routines of the monitor and the start of its one-time banner.
pub const MONITOR_HEAD: &'static str = r#"function string status(input stall, flush);

    case (1'b1)
        flush:   return "\x1B[1;31m【FLUSH】 \x1B[0m";
        stall:   return "\x1B[1;33m【STALL】 \x1B[0m";
        default: return "\x1B[1;32m【ACTIVE】\x1B[0m";
    endcase

endfunction
        
function string hazard_mark(input condition);

    if (condition) return "\x1B[1;33m ⚠ ";
    else           return "\x1B[1;32m ∅ ";

endfunction

function string forward_mark(input condition);

    if (condition) return "\x1B[1;33m → ";
    else           return "\x1B[1;37m ∅ ";

endfunction

initial begin

    $display("███   "#;

/// The end of the banner and the start of the clocked block.
pub const BANNER_TAIL: &'static str = r#"   ███");
    $display();
    $display();

end

always @("#;

/// From the clock trigger to the place of the stage lines.
pub const STAGES_HEADER: &'static str = r#") begin

	$display("───────────────────────────────────────────────────");
	$display();

    $display("= STAGES =");
    "#;

/// From the stage lines to the place of the hazard lines.
pub const HAZARDS_HEADER: &'static str = r#"
    $display();
    $display("= HAZARDS =");
    "#;

/// From the hazard lines to the place of the forward lines.
pub const FORWARDS_HEADER: &'static str = r#"
    $display();
    $display("= FORWARDS =");
    "#;

/// The end of the clocked block.
pub const MONITOR_TAIL: &'static str = r#"
    $display();

end"#;

/// A stall or flush expression, or the never-true condition where it is absent.
pub open spec fn condition_or_never(c: Option<Seq<char>>) -> Seq<char> {
    match c {
        Some(t) => t,
        None => NEVER@,
    }
}

/// A display statement that prints the marker that `call` returns, then `name`.
pub open spec fn display_line(name: Seq<char>, call: Seq<char>) -> Seq<char> {
    r#"$display("%s "#@ + name + r#"\x1B[0m", "#@ + call + "));"@
}

/// The report line of a stage: its status from its stall and flush conditions.
pub open spec fn stage_line(s: StageView) -> Seq<char> {
    display_line(
        s.name,
        "status("@ + condition_or_never(s.stall) + ", "@ + condition_or_never(s.flush),
    )
}

/// The report line of a hazard: the hazard marker of its condition.
pub open spec fn hazard_line(h: HazardView) -> Seq<char> {
    display_line(h.name, "hazard_mark("@ + h.condition)
}

/// The report line of a forward: the forward marker of its condition.
pub open spec fn forward_line(f: ForwardView) -> Seq<char> {
    display_line(f.name, "forward_mark("@ + f.condition)
}

/// The trigger expression of a clock edge.
pub open spec fn trigger_text(e: EdgeView) -> Seq<char> {
    match e {
        EdgeView::Posedge(s) => "posedge "@ + s,
        EdgeView::Negedge(s) => "negedge "@ + s,
        EdgeView::Edge(s) => "edge "@ + s,
    }
}

/// Report lines one per line, continuation lines indented by four spaces.
pub open spec fn section(lines: Seq<Seq<char>>) -> Seq<char> {
    indent_text(4, join(lines, "\n"@))
}

/// The whole monitor for a pipeline.
pub open spec fn testbench_text(p: PipelineView) -> Seq<char> {
    MONITOR_HEAD@ + p.name + ": "@ + p.description + BANNER_TAIL@ + trigger_text(p.clock)
        + STAGES_HEADER@ + section(p.stages.map_values(|s: StageView| stage_line(s)))
        + HAZARDS_HEADER@ + section(p.hazards.map_values(|h: HazardView| hazard_line(h)))
        + FORWARDS_HEADER@ + section(p.forwards.map_values(|f: ForwardView| forward_line(f)))
        + MONITOR_TAIL@
}

fn display_line_of(name: &str, call: &str) -> (r: String)
    ensures
        r@ == display_line(name@, call@),
{
    let mut out = String::new();
    out.append(r#"$display("%s "#);
    out.append(name);
    out.append(r#"\x1B[0m", "#);
    out.append(call);
    out.append("));");
    assert(out@ =~= display_line(name@, call@));
    out
}

fn append_condition(out: &mut String, c: &Option<String>)
    ensures
        final(out)@ == old(out)@ + condition_or_never(opt_text(*c)),
{
    match c {
        Some(t) => out.append(t.as_str()),
        None => out.append(NEVER),
    }
}

/// The report line of one stage.
pub fn generate_stage_report(stage: &Stage) -> (r: String)
    ensures
        r@ == stage_line(stage@),
{
    let mut call = String::new();
    call.append("status(");
    append_condition(&mut call, &stage.stall);
    call.append(", ");
    append_condition(&mut call, &stage.flush);
    assert(call@ =~= "status("@ + condition_or_never(stage@.stall) + ", "@ + condition_or_never(
        stage@.flush,
    ));
    display_line_of(stage.name.as_str(), call.as_str())
}

/// The report line of one hazard.
pub fn generate_hazard_report(hazard: &Hazard) -> (r: String)
    ensures
        r@ == hazard_line(hazard@),
{
    let mut call = String::new();
    call.append("hazard_mark(");
    call.append(hazard.condition.as_str());
    assert(call@ =~= "hazard_mark("@ + hazard@.condition);
    display_line_of(hazard.name.as_str(), call.as_str())
}

/// The report line of one forward. The stages it links are not part of it.
pub fn generate_forward_report(forward: &Forward) -> (r: String)
    ensures
        r@ == forward_line(forward@),
{
    let mut call = String::new();
    call.append("forward_mark(");
    call.append(forward.condition.as_str());
    assert(call@ =~= "forward_mark("@ + forward@.condition);
    display_line_of(forward.name.as_str(), call.as_str())
}

/// The trigger expression of a clock edge: `posedge`, `negedge` or `edge`,
/// then the signal name.
pub fn clock_trigger(clock: &Edge) -> (r: String)
    ensures
        r@ == trigger_text(clock@),
{
    let mut out = String::new();
    match clock {
        Edge::Posedge(s) => {
            out.append("posedge ");
            out.append(s.as_str());
        },
        Edge::Negedge(s) => {
            out.append("negedge ");
            out.append(s.as_str());
        },
        Edge::Edge(s) => {
            out.append("edge ");
            out.append(s.as_str());
        },
    }
    assert(out@ =~= trigger_text(clock@));
    out
}

/// The whole monitor for `pipe`: its helper routines, its banner, and a
/// block on the clock edge that prints every stage, hazard and forward.
pub fn generate_testbench(pipe: &Pipeline) -> (r: String)
    ensures
        r@ == testbench_text(pipe@),
{
    let clock = clock_trigger(&pipe.clock);

    let any_stage = |s: &Stage| -> (b: bool)
        ensures
            b,
        { true };
    let no_stage_filter = no_predicates(&any_stage);
    let stage_report = |s: &Stage| -> (r: String)
        ensures
            r@ == stage_line(s@),
        { generate_stage_report(s) };
    let stages = template(&pipe.stages, &no_stage_filter, Some("\n"), Some(4), stage_report);
    proof {
        lemma_unfiltered(
            stages@,
            pipe.stages@,
            no_stage_filter@,
            "\n"@,
            Some(4),
            stage_report,
            |s: Stage| stage_line(s@),
        );
        assert(pipe.stages@.map_values(|s: Stage| stage_line(s@)) =~= pipe@.stages.map_values(
            |s: StageView| stage_line(s),
        ));
    }

    let any_hazard = |h: &Hazard| -> (b: bool)
        ensures
            b,
        { true };
    let no_hazard_filter = no_predicates(&any_hazard);
    let hazard_report = |h: &Hazard| -> (r: String)
        ensures
            r@ == hazard_line(h@),
        { generate_hazard_report(h) };
    let hazards = template(&pipe.hazards, &no_hazard_filter, Some("\n"), Some(4), hazard_report);
    proof {
        lemma_unfiltered(
            hazards@,
            pipe.hazards@,
            no_hazard_filter@,
            "\n"@,
            Some(4),
            hazard_report,
            |h: Hazard| hazard_line(h@),
        );
        assert(pipe.hazards@.map_values(|h: Hazard| hazard_line(h@)) =~= pipe@.hazards.map_values(
            |h: HazardView| hazard_line(h),
        ));
    }

    let any_forward = |f: &Forward| -> (b: bool)
        ensures
            b,
        { true };
    let no_forward_filter = no_predicates(&any_forward);
    let forward_report = |f: &Forward| -> (r: String)
        ensures
            r@ == forward_line(f@),
        { generate_forward_report(f) };
    let forwards = template(&pipe.forwards, &no_forward_filter, Some("\n"), Some(4), forward_report);
    proof {
        lemma_unfiltered(
            forwards@,
            pipe.forwards@,
            no_forward_filter@,
            "\n"@,
            Some(4),
            forward_report,
            |f: Forward| forward_line(f@),
        );
        assert(pipe.forwards@.map_values(|f: Forward| forward_line(f@)) =~= pipe@.forwards.map_values(
            |f: ForwardView| forward_line(f),
        ));
    }

    let mut out = String::new();
    out.append(MONITOR_HEAD);
    out.append(pipe.name.as_str());
    out.append(": ");
    out.append(pipe.description.as_str());
    out.append(BANNER_TAIL);
    out.append(clock.as_str());
    out.append(STAGES_HEADER);
    out.append(stages.as_str());
    out.append(HAZARDS_HEADER);
    out.append(hazards.as_str());
    out.append(FORWARDS_HEADER);
    out.append(forwards.as_str());
    out.append(MONITOR_TAIL);
    assert(out@ =~= testbench_text(pipe@));
    out
}

/// The monitor text depends on the pipeline's view alone: two pipelines that
/// hold the same values render to the same text, character for character.
pub proof fn lemma_deterministic(a: Pipeline, b: Pipeline)
    requires
        a@ == b@,
    ensures
        testbench_text(a@) == testbench_text(b@),
{
}

} // verus!
