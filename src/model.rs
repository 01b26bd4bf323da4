//! The entities that a monitor reports on, and their mathematical views.

use vstd::prelude::*;

verus! {

/// The clock transition that triggers the monitor, with the clock's signal name.
pub enum Edge {
    Posedge(String),
    Negedge(String),
    Edge(String),
}

/// One phase of instruction processing.
pub struct Stage {
    pub name: String,
    pub description: String,
    /// Expression that stalls the stage; absent where it never stalls.
    pub stall: Option<String>,
    /// Expression that flushes the stage; absent where it never flushes.
    pub flush: Option<String>,
}

/// A detected condition that puts the pipeline's correctness at risk.
pub struct Hazard {
    pub name: String,
    pub description: String,
    pub condition: String,
}

/// A bypass path from one stage to another. `from` and `to` are positions in
/// the owning pipeline's `stages`; nothing checks that they are in range.
pub struct Forward {
    pub name: String,
    pub description: String,
    pub condition: String,
    pub from: usize,
    pub to: usize,
}

/// The root aggregate: owns the stages that forwards refer to by position.
pub struct Pipeline {
    pub name: String,
    pub description: String,
    pub clock: Edge,
    pub stages: Vec<Stage>,
    pub hazards: Vec<Hazard>,
    pub forwards: Vec<Forward>,
}

pub enum EdgeView {
    Posedge(Seq<char>),
    Negedge(Seq<char>),
    Edge(Seq<char>),
}

pub struct StageView {
    pub name: Seq<char>,
    pub description: Seq<char>,
    pub stall: Option<Seq<char>>,
    pub flush: Option<Seq<char>>,
}

pub struct HazardView {
    pub name: Seq<char>,
    pub description: Seq<char>,
    pub condition: Seq<char>,
}

pub struct ForwardView {
    pub name: Seq<char>,
    pub description: Seq<char>,
    pub condition: Seq<char>,
    pub from: nat,
    pub to: nat,
}

pub struct PipelineView {
    pub name: Seq<char>,
    pub description: Seq<char>,
    pub clock: EdgeView,
    pub stages: Seq<StageView>,
    pub hazards: Seq<HazardView>,
    pub forwards: Seq<ForwardView>,
}

/// The text of an optional string.
pub open spec fn opt_text(o: Option<String>) -> Option<Seq<char>> {
    match o {
        Some(s) => Some(s@),
        None => None,
    }
}

impl View for Edge {
    type V = EdgeView;

    open spec fn view(&self) -> EdgeView {
        match self {
            Edge::Posedge(s) => EdgeView::Posedge(s@),
            Edge::Negedge(s) => EdgeView::Negedge(s@),
            Edge::Edge(s) => EdgeView::Edge(s@),
        }
    }
}

impl View for Stage {
    type V = StageView;

    open spec fn view(&self) -> StageView {
        StageView {
            name: self.name@,
            description: self.description@,
            stall: opt_text(self.stall),
            flush: opt_text(self.flush),
        }
    }
}

impl View for Hazard {
    type V = HazardView;

    open spec fn view(&self) -> HazardView {
        HazardView {
            name: self.name@,
            description: self.description@,
            condition: self.condition@,
        }
    }
}

impl View for Forward {
    type V = ForwardView;

    open spec fn view(&self) -> ForwardView {
        ForwardView {
            name: self.name@,
            description: self.description@,
            condition: self.condition@,
            from: self.from as nat,
            to: self.to as nat,
        }
    }
}

impl View for Pipeline {
    type V = PipelineView;

    open spec fn view(&self) -> PipelineView {
        PipelineView {
            name: self.name@,
            description: self.description@,
            clock: self.clock@,
            stages: self.stages@.map_values(|s: Stage| s@),
            hazards: self.hazards@.map_values(|h: Hazard| h@),
            forwards: self.forwards@.map_values(|f: Forward| f@),
        }
    }
}

} // verus!
