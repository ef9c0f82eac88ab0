use vstd::prelude::*;
use vstd::string::*;
use vstd::utf8::encode_utf8;

use crate::sanitize::{path_view, RelPath};

verus! {

pub open spec fn opt_path_view(p: Option<RelPath>) -> Option<Seq<Seq<char>>> {
    match p {
        Some(p) => Some(path_view(p)),
        None => None,
    }
}

/// A child entry of a manifest partition.
#[derive(Debug)]
pub struct PartitionEntry {
    pub class_name: String,
    pub ignore_unknown_instances: bool,
    pub path: Option<RelPath>,
}

pub struct EntryView {
    pub class_name: Seq<char>,
    pub ignore_unknown_instances: bool,
    pub path: Option<Seq<Seq<char>>>,
}

impl View for PartitionEntry {
    type V = EntryView;

    open spec fn view(&self) -> EntryView {
        EntryView {
            class_name: self.class_name@,
            ignore_unknown_instances: self.ignore_unknown_instances,
            path: opt_path_view(self.path),
        }
    }
}

/// An entry of the project manifest: a node represented by configuration
/// rather than by a literal file.
#[derive(Debug)]
pub struct TreePartition {
    pub class_name: String,
    /// Named child entries; no two share a name.
    pub children: Vec<(String, PartitionEntry)>,
    pub ignore_unknown_instances: bool,
    pub path: Option<RelPath>,
}

pub struct PartitionView {
    pub class_name: Seq<char>,
    pub children: Seq<(Seq<char>, EntryView)>,
    pub ignore_unknown_instances: bool,
    pub path: Option<Seq<Seq<char>>>,
}

pub open spec fn entries_view(c: Seq<(String, PartitionEntry)>) -> Seq<(Seq<char>, EntryView)> {
    c.map_values(|e: (String, PartitionEntry)| (e.0@, e.1@))
}

impl View for TreePartition {
    type V = PartitionView;

    open spec fn view(&self) -> PartitionView {
        PartitionView {
            class_name: self.class_name@,
            children: entries_view(self.children@),
            ignore_unknown_instances: self.ignore_unknown_instances,
            path: opt_path_view(self.path),
        }
    }
}

/// No two entries share a name.
pub open spec fn unique_names(c: Seq<(Seq<char>, EntryView)>) -> bool {
    forall|a: int, b: int| 0 <= a < b < c.len() ==> #[trigger] c[a].0 != #[trigger] c[b].0
}

impl TreePartition {
    /// The child entries are keyed by name.
    pub open spec fn wf(&self) -> bool {
        unique_names(self@.children)
    }
}

/// One step of materializing the tree, applied in order by a sink.
#[derive(Debug)]
pub enum Instruction {
    AddToTree { name: String, partition: TreePartition },
    CreateFile { filename: RelPath, contents: Vec<u8> },
    CreateFolder { folder: RelPath },
}

pub enum InstructionView {
    AddToTree { name: Seq<char>, partition: PartitionView },
    CreateFile { filename: Seq<Seq<char>>, contents: Seq<u8> },
    CreateFolder { folder: Seq<Seq<char>> },
}

impl View for Instruction {
    type V = InstructionView;

    open spec fn view(&self) -> InstructionView {
        match self {
            Instruction::AddToTree { name, partition } => InstructionView::AddToTree {
                name: name@,
                partition: partition@,
            },
            Instruction::CreateFile { filename, contents } => InstructionView::CreateFile {
                filename: path_view(*filename),
                contents: contents@,
            },
            Instruction::CreateFolder { folder } => InstructionView::CreateFolder {
                folder: path_view(*folder),
            },
        }
    }
}

/// An item of the plan that the traversal produces: an instruction, or a request
/// to encode a node's subtree, without its scripts, into a model file.
#[derive(Debug)]
pub enum Step {
    Apply(Instruction),
    EncodeModel { filename: RelPath, node: usize },
}

pub enum StepView {
    Apply(InstructionView),
    EncodeModel { filename: Seq<Seq<char>>, node: int },
}

impl View for Step {
    type V = StepView;

    open spec fn view(&self) -> StepView {
        match self {
            Step::Apply(i) => StepView::Apply(i@),
            Step::EncodeModel { filename, node } => StepView::EncodeModel {
                filename: path_view(*filename),
                node: *node as int,
            },
        }
    }
}

pub open spec fn steps_view(s: Seq<Step>) -> Seq<StepView> {
    s.map_values(|x: Step| x@)
}

/// The sidecar that tells the sync tool how to treat a directory; it carries
/// no class override.
pub struct MetaFile {
    pub ignore_unknown_instances: bool,
}

/// The text of a meta sidecar: a pretty-printed JSON object.
pub open spec fn meta_text(ignore_unknown_instances: bool) -> Seq<char> {
    if ignore_unknown_instances {
        "{\n  \"ignoreUnknownInstances\": true\n}"@
    } else {
        "{\n  \"ignoreUnknownInstances\": false\n}"@
    }
}

impl MetaFile {
    /// The UTF-8 bytes of the sidecar's JSON text.
    pub fn to_json(&self) -> (r: Vec<u8>)
        ensures
            r@ == encode_utf8(meta_text(self.ignore_unknown_instances)),
    {
        let text = if self.ignore_unknown_instances {
            "{\n  \"ignoreUnknownInstances\": true\n}"
        } else {
            "{\n  \"ignoreUnknownInstances\": false\n}"
        };
        text.as_bytes_vec()
    }
}

/// Receives the instructions of a run, in order.
pub trait InstructionReader {
    /// The instructions received so far, in order.
    spec fn received(&self) -> Seq<InstructionView>;

    /// For each call of `finish_instructions` so far, how many instructions had
    /// been received by then.
    spec fn finishes(&self) -> Seq<nat>;

    fn read_instruction(&mut self, instruction: Instruction)
        ensures
            final(self).received() == old(self).received().push(instruction@),
            final(self).finishes() == old(self).finishes(),
    ;

    fn finish_instructions(&mut self)
        ensures
            final(self).received() == old(self).received(),
            final(self).finishes() == old(self).finishes().push(old(self).received().len()),
    ;
}

/// A reader that keeps what it receives.
pub struct InstructionLog {
    pub instructions: Vec<Instruction>,
    pub finished_after: Vec<usize>,
}

impl InstructionLog {
    pub fn new() -> (r: InstructionLog)
        ensures
            r.received() == Seq::<InstructionView>::empty(),
            r.finishes() == Seq::<nat>::empty(),
    {
        let r = InstructionLog { instructions: Vec::new(), finished_after: Vec::new() };
        assert(r.received() =~= Seq::<InstructionView>::empty());
        assert(r.finishes() =~= Seq::<nat>::empty());
        r
    }
}

impl InstructionReader for InstructionLog {
    open spec fn received(&self) -> Seq<InstructionView> {
        self.instructions@.map_values(|x: Instruction| x@)
    }

    open spec fn finishes(&self) -> Seq<nat> {
        self.finished_after@.map_values(|n: usize| n as nat)
    }

    fn read_instruction(&mut self, instruction: Instruction) {
        let ghost v = instruction@;
        self.instructions.push(instruction);
        assert(self.received() =~= old(self).received().push(v));
        assert(self.finishes() =~= old(self).finishes());
    }

    fn finish_instructions(&mut self) {
        self.finished_after.push(self.instructions.len());
        assert(self.finishes() =~= old(self).finishes().push(old(self).received().len()));
        assert(self.received() =~= old(self).received());
    }
}

} // verus!
