//! Cells of a notebook: what a kernel's messages do to them, what is saved of them, and
//! what is shown.
//!
//! The text of a cell is edited elsewhere; a cell holds the text as it is now and whether
//! it was changed. Rich data is kept as JSON text, apart from what is shown of it, so that
//! saving never depends on the choice of what to show.

use vstd::prelude::*;
use vstd::string::*;

use crate::text::{
    chars_of, find_from, join, joined, lemma_position, position, same, string_of, texts,
};

verus! {

/// A JSON value as text.
pub type JsonText = String;

/// Where a cell stands in its notebook.
#[derive(Debug, Copy, Clone, PartialEq, Eq, Structural)]
pub enum CellPosition {
    First,
    Middle,
    Last,
}

/// The icon of a control.
#[derive(Debug, Copy, Clone, PartialEq, Eq, Structural)]
pub enum IconName {
    PlayFilled,
    ArrowCircle,
    Stop,
    ListX,
    Ellipsis,
    ChevronDown,
    ChevronRight,
}

/// A control of a cell.
#[derive(Debug, Copy, Clone, PartialEq, Eq, Structural)]
pub enum CellControlType {
    RunCell,
    RerunCell,
    StopCell,
    ClearCell,
    CellOptions,
    CollapseCell,
    ExpandCell,
}

impl CellControlType {
    /// The icon of a control.
    pub fn icon_name(&self) -> (r: IconName)
        ensures
            r == match *self {
                CellControlType::RunCell => IconName::PlayFilled,
                CellControlType::RerunCell => IconName::ArrowCircle,
                CellControlType::StopCell => IconName::Stop,
                CellControlType::ClearCell => IconName::ListX,
                CellControlType::CellOptions => IconName::Ellipsis,
                CellControlType::CollapseCell => IconName::ChevronDown,
                CellControlType::ExpandCell => IconName::ChevronRight,
            },
    {
        match self {
            CellControlType::RunCell => IconName::PlayFilled,
            CellControlType::RerunCell => IconName::ArrowCircle,
            CellControlType::StopCell => IconName::Stop,
            CellControlType::ClearCell => IconName::ListX,
            CellControlType::CellOptions => IconName::Ellipsis,
            CellControlType::CollapseCell => IconName::ChevronDown,
            CellControlType::ExpandCell => IconName::ChevronRight,
        }
    }

    /// The id of a control's element.
    pub fn id(&self) -> (r: &'static str)
        ensures
            r@ == match *self {
                CellControlType::RunCell => "CellControlType::RunCell"@,
                CellControlType::RerunCell => "CellControlType::RerunCell"@,
                CellControlType::StopCell => "CellControlType::StopCell"@,
                CellControlType::ClearCell => "CellControlType::ClearCell"@,
                CellControlType::CellOptions => "CellControlType::CellOptions"@,
                CellControlType::CollapseCell => "CellControlType::CollapseCelln"@,
                CellControlType::ExpandCell => "CellControlType::ExpandCell"@,
            },
    {
        match self {
            CellControlType::RunCell => "CellControlType::RunCell",
            CellControlType::RerunCell => "CellControlType::RerunCell",
            CellControlType::StopCell => "CellControlType::StopCell",
            CellControlType::ClearCell => "CellControlType::ClearCell",
            CellControlType::CellOptions => "CellControlType::CellOptions",
            CellControlType::CollapseCell => "CellControlType::CollapseCelln",
            CellControlType::ExpandCell => "CellControlType::ExpandCell",
        }
    }
}

/// What is saved of one output.
#[derive(Debug)]
pub enum OutputData {
    Stream { name: String, text: String },
    DisplayData { data: JsonText, metadata: JsonText },
    ExecuteResult { execution_count: u64, data: JsonText, metadata: JsonText },
    Error { ename: String, evalue: String, traceback: Vec<String> },
}

/// What is saved of one output, on the level of specifications.
pub enum OutputView {
    Stream { name: Seq<char>, text: Seq<char> },
    DisplayData { data: Seq<char>, metadata: Seq<char> },
    ExecuteResult { execution_count: u64, data: Seq<char>, metadata: Seq<char> },
    Error { ename: Seq<char>, evalue: Seq<char>, traceback: Seq<Seq<char>> },
}

impl OutputData {
    pub open spec fn view(self) -> OutputView {
        match self {
            OutputData::Stream { name, text } => OutputView::Stream { name: name@, text: text@ },
            OutputData::DisplayData { data, metadata } => OutputView::DisplayData {
                data: data@,
                metadata: metadata@,
            },
            OutputData::ExecuteResult { execution_count, data, metadata } => {
                OutputView::ExecuteResult { execution_count, data: data@, metadata: metadata@ }
            },
            OutputData::Error { ename, evalue, traceback } => OutputView::Error {
                ename: ename@,
                evalue: evalue@,
                traceback: texts(traceback@),
            },
        }
    }

    /// A copy of what is saved of an output.
    pub fn copy(&self) -> (r: OutputData)
        ensures
            r.view() == self.view(),
    {
        match self {
            OutputData::Stream { name, text } => OutputData::Stream {
                name: name.clone(),
                text: text.clone(),
            },
            OutputData::DisplayData { data, metadata } => OutputData::DisplayData {
                data: data.clone(),
                metadata: metadata.clone(),
            },
            OutputData::ExecuteResult { execution_count, data, metadata } => {
                OutputData::ExecuteResult {
                    execution_count: *execution_count,
                    data: data.clone(),
                    metadata: metadata.clone(),
                }
            },
            OutputData::Error { ename, evalue, traceback } => OutputData::Error {
                ename: ename.clone(),
                evalue: evalue.clone(),
                traceback: copy_texts(traceback),
            },
        }
    }
}

fn copy_texts(v: &Vec<String>) -> (r: Vec<String>)
    ensures
        texts(r@) == texts(v@),
{
    let mut r: Vec<String> = Vec::new();
    let mut i: usize = 0;
    while i < v.len()
        invariant
            i <= v@.len(),
            r@.len() == i,
            forall|j: int| 0 <= j < i ==> (#[trigger] r@[j])@ == v@[j]@,
        decreases v@.len() - i,
    {
        r.push(v[i].clone());
        i = i + 1;
    }
    proof {
        assert(texts(r@) =~= texts(v@));
    }
    r
}

/// An output of a cell, and the id under which a kernel may change it later.
#[derive(Debug)]
pub struct NotebookOutput {
    pub data: OutputData,
    pub display_id: Option<String>,
}

/// An output, on the level of specifications.
pub struct NotebookOutputView {
    pub data: OutputView,
    pub display_id: Option<Seq<char>>,
}

impl NotebookOutput {
    pub open spec fn view(self) -> NotebookOutputView {
        NotebookOutputView {
            data: self.data.view(),
            display_id: match self.display_id {
                Some(id) => Some(id@),
                None => None,
            },
        }
    }
}

/// What is shown of an output.
#[derive(Debug)]
pub enum ShownOutput {
    /// Text as a terminal shows it.
    Terminal { text: String },
    /// One of the forms of the data.
    Rich { data: JsonText },
    Error { ename: String, evalue: String, traceback: String },
}

impl NotebookOutput {
    /// Keeps an output.
    pub fn new(data: OutputData, display_id: Option<String>) -> (r: NotebookOutput)
        ensures
            r.data == data,
            r.display_id == display_id,
    {
        NotebookOutput { data, display_id }
    }

    /// What is shown of the output.
    pub fn shown(&self) -> (r: ShownOutput)
        ensures
            match self.data {
                OutputData::Stream { text, .. } => r matches ShownOutput::Terminal { text: t } && t@
                    == text@,
                OutputData::DisplayData { data, .. } => r matches ShownOutput::Rich { data: d }
                    && d@ == data@,
                OutputData::ExecuteResult { data, .. } => r matches ShownOutput::Rich { data: d }
                    && d@ == data@,
                OutputData::Error { ename, evalue, traceback } => {
                    &&& r matches ShownOutput::Error { ename: n, evalue: v, traceback: t }
                    &&& n@ == ename@
                    &&& v@ == evalue@
                    &&& t@ == joined(texts(traceback@), "\n"@)
                },
            },
    {
        match &self.data {
            OutputData::Stream { text, .. } => ShownOutput::Terminal { text: text.clone() },
            OutputData::DisplayData { data, .. } => ShownOutput::Rich { data: data.clone() },
            OutputData::ExecuteResult { data, .. } => ShownOutput::Rich { data: data.clone() },
            OutputData::Error { ename, evalue, traceback } => ShownOutput::Error {
                ename: ename.clone(),
                evalue: evalue.clone(),
                traceback: join(traceback, "\n"),
            },
        }
    }
}

/// Outputs, on the level of specifications.
pub open spec fn output_views(v: Seq<NotebookOutput>) -> Seq<NotebookOutputView> {
    v.map_values(|o: NotebookOutput| o.view())
}

/// What a kernel says.
#[derive(Debug)]
pub enum KernelMessage {
    Stream { stderr: bool, text: String },
    DisplayData { data: JsonText, metadata: JsonText, display_id: Option<String> },
    ExecuteResult {
        execution_count: u64,
        data: JsonText,
        metadata: JsonText,
        display_id: Option<String>,
    },
    ExecuteInput { execution_count: u64 },
    ExecuteReply,
    Error { ename: String, evalue: String, traceback: Vec<String> },
    ClearOutput { wait: bool },
    UpdateDisplayData { data: JsonText, metadata: JsonText, display_id: Option<String> },
    Other,
}

/// The text of a cell in its editor.
#[derive(Debug)]
pub struct CellEditor {
    pub text: String,
    /// Whether the text was changed since it was saved.
    pub dirty: bool,
}

/// What a new code cell is made of.
#[derive(Debug)]
pub enum CellSource {
    /// A new, empty cell.
    Fresh,
    /// A cell of a saved notebook.
    Existing { execution_count: Option<i32>, outputs: Vec<OutputData> },
}

/// A cell with code.
#[derive(Debug)]
pub struct CodeCell {
    pub id: String,
    pub metadata: JsonText,
    pub execution_count: Option<i32>,
    pub source: String,
    pub editor: CellEditor,
    pub outputs: Vec<NotebookOutput>,
    /// Grows with every change of the outputs.
    pub output_revision: u64,
    pub saved_output_revision: u64,
    /// Whether the outputs are cleared before the next one is added.
    pub clear_before_next_output: bool,
    pub selected: bool,
    pub cell_position: Option<CellPosition>,
    /// When the execution that is under way began, in nanoseconds.
    pub execution_start_time: Option<u64>,
    /// How long the last execution took, in nanoseconds.
    pub execution_duration: Option<u64>,
    pub is_executing: bool,
}

/// The parts of a code cell that a kernel changes, on the level of specifications.
pub struct RunView {
    pub execution_count: Option<i32>,
    pub outputs: Seq<NotebookOutputView>,
    pub output_revision: int,
    pub clear_before_next_output: bool,
    pub execution_start_time: Option<u64>,
    pub execution_duration: Option<u64>,
    pub is_executing: bool,
}

/// The state after the outputs were cleared.
pub open spec fn cleared(s: RunView) -> RunView {
    RunView {
        outputs: Seq::empty(),
        output_revision: if s.outputs.len() > 0 {
            s.output_revision + 1
        } else {
            s.output_revision
        },
        clear_before_next_output: false,
        execution_duration: None,
        ..s
    }
}

/// The state after an output was added.
pub open spec fn pushed(s: RunView, data: OutputView, display_id: Option<Seq<char>>) -> RunView {
    let s = if s.clear_before_next_output {
        cleared(s)
    } else {
        s
    };
    RunView {
        outputs: s.outputs.push(NotebookOutputView { data, display_id }),
        output_revision: s.output_revision + 1,
        ..s
    }
}

/// The state after an execution ended.
pub open spec fn finished(s: RunView, now: u64) -> RunView {
    RunView {
        execution_start_time: None,
        execution_duration: match s.execution_start_time {
            Some(start) => Some(
                if now > start {
                    (now - start) as u64
                } else {
                    0
                },
            ),
            None => s.execution_duration,
        },
        is_executing: false,
        ..s
    }
}

/// Whether a change of the display with this id changes an output.
pub open spec fn is_updated(o: NotebookOutputView, display_id: Seq<char>) -> bool {
    o.display_id == Some(display_id) && (o.data is DisplayData || o.data is ExecuteResult)
}

/// An output after a change of the display with this id.
pub open spec fn updated_output(
    o: NotebookOutputView,
    display_id: Seq<char>,
    data: Seq<char>,
    metadata: Seq<char>,
) -> NotebookOutputView {
    if !is_updated(o, display_id) {
        o
    } else {
        NotebookOutputView {
            data: match o.data {
                OutputView::DisplayData { .. } => OutputView::DisplayData { data, metadata },
                OutputView::ExecuteResult { execution_count, .. } => OutputView::ExecuteResult {
                    execution_count,
                    data,
                    metadata,
                },
                other => other,
            },
            ..o
        }
    }
}

/// How many outputs a change of the display with this id changes.
pub open spec fn updated_count(outputs: Seq<NotebookOutputView>, display_id: Seq<char>) -> nat
    decreases outputs.len(),
{
    if outputs.len() == 0 {
        0
    } else {
        updated_count(outputs.drop_last(), display_id) + if is_updated(outputs.last(), display_id) {
            1nat
        } else {
            0
        }
    }
}

/// The state after a change of the display with this id.
pub open spec fn updated(
    s: RunView,
    display_id: Seq<char>,
    data: Seq<char>,
    metadata: Seq<char>,
) -> RunView {
    RunView {
        outputs: s.outputs.map_values(
            |o: NotebookOutputView| updated_output(o, display_id, data, metadata),
        ),
        output_revision: s.output_revision + updated_count(s.outputs, display_id),
        ..s
    }
}

/// The text of an optional string.
pub open spec fn id_text(id: Option<String>) -> Option<Seq<char>> {
    match id {
        Some(id) => Some(id@),
        None => None,
    }
}

/// The state after a message of the kernel.
pub open spec fn after_message(s: RunView, message: KernelMessage, now: u64) -> RunView {
    match message {
        KernelMessage::Stream { stderr, text } => pushed(
            s,
            OutputView::Stream {
                name: if stderr {
                    "stderr"@
                } else {
                    "stdout"@
                },
                text: text@,
            },
            None,
        ),
        KernelMessage::DisplayData { data, metadata, display_id } => pushed(
            s,
            OutputView::DisplayData { data: data@, metadata: metadata@ },
            id_text(display_id),
        ),
        KernelMessage::ExecuteResult { execution_count, data, metadata, display_id } => pushed(
            s,
            OutputView::ExecuteResult { execution_count, data: data@, metadata: metadata@ },
            id_text(display_id),
        ),
        KernelMessage::ExecuteInput { execution_count } => RunView {
            execution_count: if execution_count <= i32::MAX {
                Some(execution_count as i32)
            } else {
                None
            },
            output_revision: s.output_revision + 1,
            ..s
        },
        KernelMessage::ExecuteReply => finished(s, now),
        KernelMessage::Error { ename, evalue, traceback } => pushed(
            s,
            OutputView::Error { ename: ename@, evalue: evalue@, traceback: texts(traceback@) },
            None,
        ),
        KernelMessage::ClearOutput { wait } => if wait {
            RunView { clear_before_next_output: true, ..s }
        } else {
            cleared(s)
        },
        KernelMessage::UpdateDisplayData { data, metadata, display_id } => match display_id {
            Some(id) => updated(s, id@, data@, metadata@),
            None => s,
        },
        KernelMessage::Other => s,
    }
}

/// What a cell emits.
#[derive(Debug)]
pub enum CellEvent {
    Run(String),
    FocusedIn(String),
}

/// What is shown of an execution.
#[derive(Debug, Copy, Clone, PartialEq, Eq, Structural)]
pub enum ExecutionStatus {
    Running,
    /// It took this many nanoseconds.
    Took(u64),
}

/// What is shown of a code cell.
#[derive(Debug)]
pub struct CodeCellView {
    pub spacer_above: bool,
    pub spacer_below: bool,
    pub selected: bool,
    pub control: CellControlType,
    pub execution_count: Option<i32>,
    pub language: Option<String>,
    /// What is below the code, if anything is.
    pub below: Option<OutputArea>,
}

/// What is shown below the code of a cell.
#[derive(Debug, Copy, Clone)]
pub struct OutputArea {
    pub status: Option<ExecutionStatus>,
    /// Whether there is a control for the outputs.
    pub control: bool,
    /// How many outputs there are.
    pub outputs: usize,
    /// The area scrolls beyond this many lines.
    pub max_lines: Option<usize>,
}

/// Whether there is a spacer before the first or after the last cell.
pub open spec fn has_spacer(position: Option<CellPosition>, above: bool) -> bool {
    (position == Some(CellPosition::First) && above) || (position == Some(CellPosition::Last)
        && !above)
}

/// Whether there is a spacer above or below a cell.
pub fn cell_position_spacer(position: Option<CellPosition>, above: bool) -> (r: bool)
    ensures
        r == has_spacer(position, above),
{
    match position {
        Some(CellPosition::First) => above,
        Some(CellPosition::Last) => !above,
        _ => false,
    }
}

impl CellSource {
    /// The execution count and the outputs of a cell that is made of this.
    pub fn into_outputs(self) -> (r: (Option<i32>, Vec<OutputData>))
        ensures
            match self {
                CellSource::Fresh => r.0 is None && r.1@.len() == 0,
                CellSource::Existing { execution_count, outputs } => r == (
                    execution_count,
                    outputs,
                ),
            },
    {
        match self {
            CellSource::Fresh => (None, Vec::new()),
            CellSource::Existing { execution_count, outputs } => (execution_count, outputs),
        }
    }
}

impl CodeCell {
    /// The parts that a kernel changes.
    pub open spec fn run_view(self) -> RunView {
        RunView {
            execution_count: self.execution_count,
            outputs: output_views(self.outputs@),
            output_revision: self.output_revision as int,
            clear_before_next_output: self.clear_before_next_output,
            execution_start_time: self.execution_start_time,
            execution_duration: self.execution_duration,
            is_executing: self.is_executing,
        }
    }

    /// The parts that a kernel does not change are the same.
    pub open spec fn same_cell(self, other: CodeCell) -> bool {
        &&& self.id == other.id
        &&& self.metadata == other.metadata
        &&& self.source == other.source
        &&& self.editor == other.editor
        &&& self.saved_output_revision == other.saved_output_revision
        &&& self.selected == other.selected
        &&& self.cell_position == other.cell_position
    }

    /// There is room for the changes of one message.
    pub open spec fn revision_room(self) -> bool {
        self.output_revision + self.outputs@.len() + 1 <= u64::MAX
    }

    /// Makes a code cell.
    pub fn new(cell_source: CellSource, id: String, metadata: JsonText, source: String) -> (r:
        CodeCell)
        ensures
            r.id == id,
            r.metadata == metadata,
            r.source == source,
            r.editor.text@ == source@,
            !r.editor.dirty,
            r.saved_output_revision == 0,
            !r.selected,
            r.cell_position is None,
            r.run_view() == (RunView {
                execution_count: match cell_source {
                    CellSource::Fresh => None,
                    CellSource::Existing { execution_count, .. } => execution_count,
                },
                outputs: match cell_source {
                    CellSource::Fresh => Seq::empty(),
                    CellSource::Existing { outputs, .. } => saved_outputs(outputs@),
                },
                output_revision: 0,
                clear_before_next_output: false,
                execution_start_time: None,
                execution_duration: None,
                is_executing: false,
            }),
    {
        let (execution_count, data) = cell_source.into_outputs();
        let ghost all = data@;
        let mut data = data;
        let mut outputs: Vec<NotebookOutput> = Vec::new();
        let count: usize = data.len();
        let mut i: usize = 0;
        proof {
            assert(all.skip(0) =~= all);
        }
        while i < count
            invariant
                i <= count,
                count == all.len(),
                data@ == all.skip(i as int),
                outputs@.len() == i,
                forall|j: int|
                    0 <= j < i ==> (#[trigger] outputs@[j]).data == all[j]
                        && outputs@[j].display_id is None,
            decreases count - i,
        {
            let first = data.remove(0);
            outputs.push(NotebookOutput::new(first, None));
            proof {
                assert(all.skip(i as int).remove(0) =~= all.skip(i + 1));
            }
            i = i + 1;
        }
        proof {
            assert(output_views(outputs@) =~= saved_outputs(all));
            if cell_source is Fresh {
                assert(saved_outputs(all) =~= Seq::<NotebookOutputView>::empty());
            }
        }
        let text = source.clone();
        CodeCell {
            id,
            metadata,
            execution_count,
            source,
            editor: CellEditor { text, dirty: false },
            outputs,
            output_revision: 0,
            saved_output_revision: 0,
            clear_before_next_output: false,
            selected: false,
            cell_position: None,
            execution_start_time: None,
            execution_duration: None,
            is_executing: false,
        }
    }

    /// The text of the cell as it is now.
    pub fn current_source(&self) -> (r: String)
        ensures
            r@ == self.editor.text@,
    {
        self.editor.text.clone()
    }

    /// Whether the text or an output was changed since it was saved.
    pub open spec fn dirty(self) -> bool {
        self.output_revision != self.saved_output_revision || self.editor.dirty
    }

    /// Whether the text or an output was changed since it was saved.
    pub fn is_dirty(&self) -> (r: bool)
        ensures
            r == self.dirty(),
    {
        self.output_revision != self.saved_output_revision || self.editor.dirty
    }

    /// The number of the current state of the outputs.
    pub fn output_revision(&self) -> (r: u64)
        ensures
            r == self.output_revision,
    {
        self.output_revision
    }

    /// Notes that the outputs were saved as of a revision.
    pub fn mark_outputs_saved(&mut self, revision: u64)
        ensures
            *final(self) == (CodeCell { saved_output_revision: revision, ..*old(self) }),
    {
        self.saved_output_revision = revision;
    }

    /// What is saved of the cell.
    pub fn to_nbformat_cell(&self) -> (r: SavedCell)
        ensures
            r.view() == (SavedCellView::Code {
                id: self.id@,
                metadata: self.metadata@,
                execution_count: self.execution_count,
                source: source_lines(self.editor.text@),
                outputs: self.run_view().outputs.map_values(|o: NotebookOutputView| o.data),
            }),
    {
        let mut outputs: Vec<OutputData> = Vec::new();
        let mut i: usize = 0;
        while i < self.outputs.len()
            invariant
                i <= self.outputs@.len(),
                outputs@.len() == i,
                forall|j: int|
                    0 <= j < i ==> (#[trigger] outputs@[j]).view() == self.outputs@[j].data.view(),
            decreases self.outputs@.len() - i,
        {
            outputs.push(self.outputs[i].data.copy());
            i = i + 1;
        }
        let cell = SavedCell::Code {
            id: self.id.clone(),
            metadata: self.metadata.clone(),
            execution_count: self.execution_count,
            source: split_lines(self.editor.text.as_str()),
            outputs,
        };
        proof {
            assert(data_views(outputs@) =~= self.run_view().outputs.map_values(
                |o: NotebookOutputView| o.data,
            ));
        }
        cell
    }

    /// Whether there are outputs.
    pub fn has_outputs(&self) -> (r: bool)
        ensures
            r == (self.outputs@.len() > 0),
    {
        self.outputs.len() > 0
    }

    /// Removes the outputs.
    pub fn clear_outputs(&mut self)
        requires
            old(self).revision_room(),
        ensures
            final(self).same_cell(*old(self)),
            final(self).run_view() == cleared(old(self).run_view()),
    {
        if self.outputs.len() > 0 {
            self.output_revision = self.output_revision + 1;
        }
        self.outputs = Vec::new();
        self.clear_before_next_output = false;
        self.execution_duration = None;
        proof {
            assert(output_views(self.outputs@) =~= Seq::<NotebookOutputView>::empty());
        }
    }

    fn push_output(&mut self, data: OutputData, display_id: Option<String>)
        requires
            old(self).revision_room(),
        ensures
            final(self).same_cell(*old(self)),
            final(self).run_view() == pushed(
                old(self).run_view(),
                data.view(),
                id_text(display_id),
            ),
    {
        if self.clear_before_next_output {
            self.clear_outputs();
        }
        let ghost before = self.run_view().outputs;
        let output = NotebookOutput::new(data, display_id);
        self.outputs.push(output);
        self.output_revision = self.output_revision + 1;
        proof {
            assert(output_views(self.outputs@) =~= before.push(output.view()));
        }
    }

    /// Notes that the code starts to run.
    pub fn start_execution(&mut self, now: u64)
        ensures
            *final(self) == (CodeCell {
                execution_start_time: Some(now),
                execution_duration: None,
                is_executing: true,
                ..*old(self)
            }),
    {
        self.execution_start_time = Some(now);
        self.execution_duration = None;
        self.is_executing = true;
    }

    /// Notes that the code has run.
    pub fn finish_execution(&mut self, now: u64)
        ensures
            final(self).same_cell(*old(self)),
            final(self).run_view() == finished(old(self).run_view(), now),
    {
        if let Some(start) = self.execution_start_time {
            self.execution_duration = Some(now.saturating_sub(start));
        }
        self.execution_start_time = None;
        self.is_executing = false;
    }

    /// Whether the code is running.
    pub fn is_executing(&self) -> (r: bool)
        ensures
            r == self.is_executing,
    {
        self.is_executing
    }

    /// Shows that the kernel could not run the code, so that the cell does not seem to run
    /// for ever.
    pub fn show_kernel_error(&mut self, error_message: &str)
        requires
            old(self).revision_room(),
        ensures
            final(self).same_cell(*old(self)),
            final(self).run_view() == after_kernel_error(old(self).run_view(), error_message@),
    {
        let mut traceback: Vec<String> = Vec::new();
        traceback.push(error_message.to_owned());
        proof {
            assert(texts(traceback@) =~= seq![error_message@]);
        }
        self.push_output(
            OutputData::Error {
                ename: "Kernel Error".to_owned(),
                evalue: "cell could not be executed".to_owned(),
                traceback,
            },
            None,
        );
        self.execution_start_time = None;
        self.is_executing = false;
    }

    /// How long the last execution took, in nanoseconds.
    pub fn execution_duration(&self) -> (r: Option<u64>)
        ensures
            r == self.execution_duration,
    {
        self.execution_duration
    }

    /// Takes in a message of the kernel.
    pub fn handle_message(&mut self, message: KernelMessage, now: u64)
        requires
            old(self).revision_room(),
        ensures
            final(self).same_cell(*old(self)),
            final(self).run_view() == after_message(old(self).run_view(), message, now),
    {
        match message {
            KernelMessage::Stream { stderr, text } => {
                let name = if stderr {
                    "stderr".to_owned()
                } else {
                    "stdout".to_owned()
                };
                self.push_output(OutputData::Stream { name, text }, None);
            },
            KernelMessage::DisplayData { data, metadata, display_id } => {
                self.push_output(OutputData::DisplayData { data, metadata }, display_id);
            },
            KernelMessage::ExecuteResult { execution_count, data, metadata, display_id } => {
                self.push_output(
                    OutputData::ExecuteResult { execution_count, data, metadata },
                    display_id,
                );
            },
            KernelMessage::ExecuteInput { execution_count } => {
                self.execution_count = if execution_count <= 0x7fff_ffff {
                    Some(execution_count as i32)
                } else {
                    None
                };
                self.output_revision = self.output_revision + 1;
            },
            KernelMessage::ExecuteReply => {
                self.finish_execution(now);
            },
            KernelMessage::Error { ename, evalue, traceback } => {
                self.push_output(OutputData::Error { ename, evalue, traceback }, None);
            },
            KernelMessage::ClearOutput { wait } => {
                if wait {
                    self.clear_before_next_output = true;
                } else {
                    self.clear_outputs();
                }
            },
            KernelMessage::UpdateDisplayData { data, metadata, display_id } => {
                if let Some(id) = display_id {
                    self.update_display(id.as_str(), &data, &metadata);
                }
            },
            KernelMessage::Other => {},
        }
    }

    /// Changes every output that was shown under an id.
    fn update_display(&mut self, display_id: &str, data: &JsonText, metadata: &JsonText)
        requires
            old(self).revision_room(),
        ensures
            final(self).same_cell(*old(self)),
            final(self).run_view() == updated(
                old(self).run_view(),
                display_id@,
                data@,
                metadata@,
            ),
    {
        let ghost before = output_views(self.outputs@);
        let count: usize = self.outputs.len();
        let ghost base = self.output_revision;
        let mut i: usize = 0;
        while i < count
            invariant
                i <= count,
                count == self.outputs@.len(),
                count == before.len(),
                base == old(self).output_revision,
                base + count + 1 <= u64::MAX,
                before == output_views(old(self).outputs@),
                self.same_cell(*old(self)),
                self.execution_count == old(self).execution_count,
                self.clear_before_next_output == old(self).clear_before_next_output,
                self.execution_start_time == old(self).execution_start_time,
                self.execution_duration == old(self).execution_duration,
                self.is_executing == old(self).is_executing,
                self.output_revision == base + updated_count(before.take(i as int), display_id@),
                updated_count(before.take(i as int), display_id@) <= i,
                forall|j: int|
                    0 <= j < i ==> (#[trigger] self.outputs@[j]).view() == updated_output(
                        before[j],
                        display_id@,
                        data@,
                        metadata@,
                    ),
                forall|j: int|
                    i <= j < count ==> (#[trigger] self.outputs@[j]).view() == before[j],
            decreases count - i,
        {
            proof {
                assert(before.take(i + 1).drop_last() =~= before.take(i as int));
                assert(self.outputs@[i as int].view() == before[i as int]);
            }
            let matching = match &self.outputs[i].display_id {
                Some(id) => same(id.as_str(), display_id),
                None => false,
            };
            if matching {
                let fresh = match &self.outputs[i].data {
                    OutputData::DisplayData { .. } => Some(
                        OutputData::DisplayData { data: data.clone(), metadata: metadata.clone() },
                    ),
                    OutputData::ExecuteResult { execution_count, .. } => Some(
                        OutputData::ExecuteResult {
                            execution_count: *execution_count,
                            data: data.clone(),
                            metadata: metadata.clone(),
                        },
                    ),
                    _ => None,
                };
                if let Some(fresh) = fresh {
                    self.outputs.set(
                        i,
                        NotebookOutput { data: fresh, display_id: Some(display_id.to_owned()) },
                    );
                    self.output_revision = self.output_revision + 1;
                }
            }
            i = i + 1;
        }
        proof {
            assert(before.take(count as int) =~= before);
            assert(output_views(self.outputs@) =~= before.map_values(
                |o: NotebookOutputView| updated_output(o, display_id@, data@, metadata@),
            ));
        }
    }

    /// The control of the cell: stop it while it runs, else run it.
    pub open spec fn control_of(self) -> CellControlType {
        if self.is_executing {
            CellControlType::StopCell
        } else if self.outputs@.len() > 0 {
            CellControlType::RerunCell
        } else {
            CellControlType::RunCell
        }
    }

    /// The control of the cell.
    pub fn control(&self) -> (r: CellControlType)
        ensures
            r == self.control_of(),
    {
        if self.is_executing {
            CellControlType::StopCell
        } else if self.has_outputs() {
            CellControlType::RerunCell
        } else {
            CellControlType::RunCell
        }
    }

    /// What a click on the control does: `None` interrupts the kernel.
    pub fn control_clicked(&self) -> (r: Option<CellEvent>)
        ensures
            self.is_executing ==> r is None,
            !self.is_executing ==> (r matches Some(CellEvent::Run(id)) && id@ == self.id@),
    {
        if self.is_executing {
            None
        } else {
            Some(self.run())
        }
    }

    /// Asks for the cell to be run.
    pub fn run(&self) -> (r: CellEvent)
        ensures
            r matches CellEvent::Run(id) && id@ == self.id@,
    {
        CellEvent::Run(self.id.clone())
    }

    /// How often code had run when this cell did; a count that is not positive is none.
    pub fn execution_count(&self) -> (r: Option<i32>)
        ensures
            r == match self.execution_count {
                Some(count) => if count > 0 {
                    Some(count)
                } else {
                    None
                },
                None => None,
            },
    {
        match self.execution_count {
            Some(count) => if count > 0 {
                Some(count)
            } else {
                None
            },
            None => None,
        }
    }

    /// Sets how often code had run when this cell did.
    pub fn set_execution_count(&mut self, count: i32)
        ensures
            *final(self) == (CodeCell { execution_count: Some(count), ..*old(self) }),
    {
        self.execution_count = Some(count);
    }

    /// Selects the cell, or not.
    pub fn set_selected(&mut self, selected: bool)
        ensures
            *final(self) == (CodeCell { selected, ..*old(self) }),
    {
        self.selected = selected;
    }

    /// Notes where the cell stands.
    pub fn set_cell_position(&mut self, cell_position: CellPosition)
        ensures
            *final(self) == (CodeCell { cell_position: Some(cell_position), ..*old(self) }),
    {
        self.cell_position = Some(cell_position);
    }

    /// Whether there is anything to show below the code.
    pub open spec fn shows_area(self) -> bool {
        self.outputs@.len() > 0 || self.execution_duration is Some || self.is_executing
    }

    /// What is shown of the execution.
    pub open spec fn status_of(self) -> Option<ExecutionStatus> {
        if self.is_executing {
            Some(ExecutionStatus::Running)
        } else {
            match self.execution_duration {
                Some(d) => Some(ExecutionStatus::Took(d)),
                None => None,
            }
        }
    }

    /// What is shown of the cell. `output_max_height_lines` of zero means no limit.
    pub fn render(&self, language: Option<&str>, output_max_height_lines: usize) -> (r:
        CodeCellView)
        ensures
            r.spacer_above == has_spacer(self.cell_position, true),
            r.spacer_below == has_spacer(self.cell_position, false),
            r.selected == self.selected,
            r.control == self.control_of(),
            r.execution_count == self.execution_count,
            match language {
                Some(name) => r.language is Some && r.language->0@ == name@,
                None => r.language is None,
            },
            r.below is Some <==> self.shows_area(),
            r.below is Some ==> {
                let area = r.below->0;
                &&& area.status == self.status_of()
                &&& area.control == (self.outputs@.len() > 0)
                &&& area.outputs == self.outputs@.len()
                &&& area.max_lines == if output_max_height_lines > 0 {
                    Some(output_max_height_lines)
                } else {
                    None
                }
            },
    {
        let has_outputs = self.has_outputs();
        let below = if has_outputs || self.execution_duration.is_some() || self.is_executing {
            let status = if self.is_executing {
                Some(ExecutionStatus::Running)
            } else {
                match self.execution_duration {
                    Some(d) => Some(ExecutionStatus::Took(d)),
                    None => None,
                }
            };
            let max_lines: Option<usize> = if output_max_height_lines > 0 {
                Some(output_max_height_lines)
            } else {
                None
            };
            Some(
                OutputArea { status, control: has_outputs, outputs: self.outputs.len(), max_lines },
            )
        } else {
            None
        };
        CodeCellView {
            spacer_above: cell_position_spacer(self.cell_position, true),
            spacer_below: cell_position_spacer(self.cell_position, false),
            selected: self.selected,
            control: self.control(),
            execution_count: self.execution_count,
            language: match language {
                Some(name) => Some(name.to_owned()),
                None => None,
            },
            below,
        }
    }
}

/// The outputs of a saved cell, which no kernel can change any more.
pub open spec fn saved_outputs(v: Seq<OutputData>) -> Seq<NotebookOutputView> {
    v.map_values(|o: OutputData| NotebookOutputView { data: o.view(), display_id: None })
}

/// Saved outputs, on the level of specifications.
pub open spec fn data_views(v: Seq<OutputData>) -> Seq<OutputView> {
    v.map_values(|o: OutputData| o.view())
}

/// A cell as it is saved.
#[derive(Debug)]
pub enum SavedCell {
    Markdown {
        id: String,
        metadata: JsonText,
        source: Vec<String>,
        attachments: Option<JsonText>,
    },
    Code {
        id: String,
        metadata: JsonText,
        execution_count: Option<i32>,
        source: Vec<String>,
        outputs: Vec<OutputData>,
    },
    Raw { id: String, metadata: JsonText, source: Vec<String> },
}

/// A saved cell, on the level of specifications.
pub enum SavedCellView {
    Markdown {
        id: Seq<char>,
        metadata: Seq<char>,
        source: Seq<Seq<char>>,
        attachments: Option<Seq<char>>,
    },
    Code {
        id: Seq<char>,
        metadata: Seq<char>,
        execution_count: Option<i32>,
        source: Seq<Seq<char>>,
        outputs: Seq<OutputView>,
    },
    Raw { id: Seq<char>, metadata: Seq<char>, source: Seq<Seq<char>> },
}

impl SavedCell {
    pub open spec fn view(self) -> SavedCellView {
        match self {
            SavedCell::Markdown { id, metadata, source, attachments } => SavedCellView::Markdown {
                id: id@,
                metadata: metadata@,
                source: texts(source@),
                attachments: id_text(attachments),
            },
            SavedCell::Code { id, metadata, execution_count, source, outputs } => {
                SavedCellView::Code {
                    id: id@,
                    metadata: metadata@,
                    execution_count,
                    source: texts(source@),
                    outputs: data_views(outputs@),
                }
            },
            SavedCell::Raw { id, metadata, source } => SavedCellView::Raw {
                id: id@,
                metadata: metadata@,
                source: texts(source@),
            },
        }
    }
}

/// The lines of a text, each with the line feed that ends it.
pub open spec fn source_lines(s: Seq<char>) -> Seq<Seq<char>>
    decreases s.len(),
    via source_lines_decreases
{
    let k = position(s, '\n');
    if s.len() == 0 {
        Seq::empty()
    } else if k < s.len() {
        seq![s.take(k + 1)] + source_lines(s.skip(k + 1))
    } else {
        seq![s]
    }
}

#[via_fn]
proof fn source_lines_decreases(s: Seq<char>) {
    lemma_position(s, '\n');
}

/// The lines of a text, each with the line feed that ends it.
pub fn split_lines(s: &str) -> (r: Vec<String>)
    ensures
        texts(r@) == source_lines(s@),
{
    let v = chars_of(s);
    let mut r: Vec<String> = Vec::new();
    let mut start: usize = 0;
    proof {
        assert(v@.skip(0) =~= v@);
        assert(texts(r@) + source_lines(v@.skip(0)) =~= source_lines(v@));
    }
    while start < v.len()
        invariant
            start <= v@.len(),
            v@ == s@,
            texts(r@) + source_lines(v@.skip(start as int)) == source_lines(s@),
        decreases v@.len() - start,
    {
        let k = find_from(&v, start, '\n');
        let ghost before = texts(r@);
        let ghost rest = v@.skip(start as int);
        proof {
            lemma_position(rest, '\n');
        }
        let end: usize = if k < v.len() {
            k + 1
        } else {
            k
        };
        let line = string_of(&v, start, end);
        r.push(line);
        proof {
            assert(texts(r@) =~= before.push(line@));
            assert(line@ =~= rest.take(end - start));
            assert(rest.skip(end - start) =~= v@.skip(end as int));
            if k < v@.len() {
                assert(texts(r@) + source_lines(v@.skip(end as int)) =~= before + source_lines(
                    rest,
                ));
            } else {
                assert(rest.take(end - start) =~= rest);
                assert(source_lines(v@.skip(end as int)) =~= Seq::<Seq<char>>::empty());
                assert(texts(r@) + source_lines(v@.skip(end as int)) =~= before + source_lines(
                    rest,
                ));
            }
        }
        start = end;
    }
    proof {
        assert(source_lines(v@.skip(start as int)) =~= Seq::<Seq<char>>::empty());
        assert(texts(r@) =~= source_lines(s@));
    }
    r
}

/// Texts one after the other.
pub open spec fn flat(lines: Seq<Seq<char>>) -> Seq<char>
    decreases lines.len(),
{
    if lines.len() == 0 {
        Seq::empty()
    } else {
        flat(lines.drop_last()) + lines.last()
    }
}

/// The text that saved lines make.
pub fn join_lines(lines: &Vec<String>) -> (r: String)
    ensures
        r@ == flat(texts(lines@)),
{
    let mut r = String::new();
    let mut i: usize = 0;
    while i < lines.len()
        invariant
            i <= lines@.len(),
            r@ == flat(texts(lines@).take(i as int)),
        decreases lines@.len() - i,
    {
        proof {
            assert(texts(lines@).take(i + 1).drop_last() =~= texts(lines@).take(i as int));
        }
        r.append(lines[i].as_str());
        i = i + 1;
    }
    proof {
        assert(texts(lines@).take(i as int) =~= texts(lines@));
    }
    r
}

/// What a text cell emits.
#[derive(Debug)]
pub enum MarkdownCellEvent {
    FinishedEditing,
    Run(String),
}

/// A cell with formatted text.
#[derive(Debug)]
pub struct MarkdownCell {
    pub id: String,
    pub metadata: JsonText,
    pub attachments: Option<JsonText>,
    /// The text that is shown.
    pub source: String,
    pub editor: CellEditor,
    pub editing: bool,
    pub selected: bool,
    pub cell_position: Option<CellPosition>,
}

/// What is shown of a text cell.
#[derive(Debug)]
pub struct MarkdownCellView {
    pub spacer_above: bool,
    pub spacer_below: bool,
    pub selected: bool,
    /// The editor, or the formatted text.
    pub editing: bool,
}

impl MarkdownCell {
    /// Makes a text cell; one without a text is edited at once.
    pub fn new(id: String, metadata: JsonText, source: String) -> (r: MarkdownCell)
        ensures
            r.id == id,
            r.metadata == metadata,
            r.attachments is None,
            r.source == source,
            r.editor.text@ == source@,
            !r.editor.dirty,
            r.editing == (source@.len() == 0),
            !r.selected,
            r.cell_position is None,
    {
        let editing = source.as_str().is_empty();
        let text = source.clone();
        MarkdownCell {
            id,
            metadata,
            attachments: None,
            source,
            editor: CellEditor { text, dirty: false },
            editing,
            selected: false,
            cell_position: None,
        }
    }

    /// The text of the cell as it is now.
    pub fn current_source(&self) -> (r: String)
        ensures
            r@ == self.editor.text@,
    {
        self.editor.text.clone()
    }

    /// Whether the text was changed since it was saved.
    pub fn is_dirty(&self) -> (r: bool)
        ensures
            r == self.editor.dirty,
    {
        self.editor.dirty
    }

    /// What is saved of the cell.
    pub fn to_nbformat_cell(&self) -> (r: SavedCell)
        ensures
            r.view() == (SavedCellView::Markdown {
                id: self.id@,
                metadata: self.metadata@,
                source: source_lines(self.editor.text@),
                attachments: id_text(self.attachments),
            }),
    {
        SavedCell::Markdown {
            id: self.id.clone(),
            metadata: self.metadata.clone(),
            source: split_lines(self.editor.text.as_str()),
            attachments: match &self.attachments {
                Some(a) => Some(a.clone()),
                None => None,
            },
        }
    }

    /// Whether the cell is edited.
    pub fn is_editing(&self) -> (r: bool)
        ensures
            r == self.editing,
    {
        self.editing
    }

    /// Edits the cell, or not.
    pub fn set_editing(&mut self, editing: bool)
        ensures
            *final(self) == (MarkdownCell { editing, ..*old(self) }),
    {
        self.editing = editing;
    }

    /// Takes over the text of the editor.
    pub fn reparse_markdown(&mut self)
        ensures
            final(self).source@ == old(self).editor.text@,
            *final(self) == (MarkdownCell { source: final(self).source, ..*old(self) }),
    {
        self.source = self.editor.text.clone();
    }

    /// Ends editing, if it is under way, because the editor lost the focus. Returns whether
    /// it was.
    pub fn blurred(&mut self) -> (r: bool)
        ensures
            r == old(self).editing,
            *final(self) == (MarkdownCell { editing: false, ..*old(self) }),
    {
        let editing = self.editing;
        self.editing = false;
        editing
    }

    /// Ends editing, if it is under way, and asks to go on to the next cell.
    pub fn run(&mut self) -> (r: Vec<MarkdownCellEvent>)
        ensures
            *final(self) == (MarkdownCell { editing: false, ..*old(self) }),
            !old(self).editing ==> r@.len() == 0,
            old(self).editing ==> {
                &&& r@.len() == 2
                &&& r@[0] is FinishedEditing
                &&& r@[1] is Run
                &&& r@[1]->Run_0@ == old(self).id@
            },
    {
        let mut events: Vec<MarkdownCellEvent> = Vec::new();
        if self.editing {
            self.editing = false;
            events.push(MarkdownCellEvent::FinishedEditing);
            events.push(MarkdownCellEvent::Run(self.id.clone()));
        }
        events
    }

    /// What is shown of the cell.
    pub fn render(&self) -> (r: MarkdownCellView)
        ensures
            r.spacer_above == has_spacer(self.cell_position, true),
            r.spacer_below == has_spacer(self.cell_position, false),
            r.selected == self.selected,
            r.editing == self.editing,
    {
        MarkdownCellView {
            spacer_above: cell_position_spacer(self.cell_position, true),
            spacer_below: cell_position_spacer(self.cell_position, false),
            selected: self.selected,
            editing: self.editing,
        }
    }
}

/// A cell whose text is kept as it is.
#[derive(Debug)]
pub struct RawCell {
    pub id: String,
    pub metadata: JsonText,
    pub source: String,
    pub selected: bool,
    pub cell_position: Option<CellPosition>,
}

impl RawCell {
    /// What is saved of the cell.
    pub fn to_nbformat_cell(&self) -> (r: SavedCell)
        ensures
            r.view() == (SavedCellView::Raw {
                id: self.id@,
                metadata: self.metadata@,
                source: source_lines(self.source@),
            }),
    {
        SavedCell::Raw {
            id: self.id.clone(),
            metadata: self.metadata.clone(),
            source: split_lines(self.source.as_str()),
        }
    }
}

/// A cell of a notebook.
#[derive(Debug)]
pub enum Cell {
    Code(CodeCell),
    Markdown(MarkdownCell),
    Raw(RawCell),
}

/// Where the cursor goes in an editor.
#[derive(Debug, Copy, Clone, PartialEq, Eq, Structural)]
pub enum MovementDirection {
    Start,
    End,
}

/// What is saved of a cell that is loaded from this one and not changed: the same, with its
/// text cut into lines anew.
pub open spec fn resaved(c: SavedCellView) -> SavedCellView {
    match c {
        SavedCellView::Markdown { id, metadata, source, attachments } => SavedCellView::Markdown {
            id,
            metadata,
            source: source_lines(flat(source)),
            attachments,
        },
        SavedCellView::Code { id, metadata, execution_count, source, outputs } => {
            SavedCellView::Code {
                id,
                metadata,
                execution_count,
                source: source_lines(flat(source)),
                outputs,
            }
        },
        SavedCellView::Raw { id, metadata, source } => SavedCellView::Raw {
            id,
            metadata,
            source: source_lines(flat(source)),
        },
    }
}

impl Cell {
    /// What is saved of the cell.
    pub open spec fn saved(self) -> SavedCellView {
        match self {
            Cell::Code(c) => SavedCellView::Code {
                id: c.id@,
                metadata: c.metadata@,
                execution_count: c.execution_count,
                source: source_lines(c.editor.text@),
                outputs: c.run_view().outputs.map_values(|o: NotebookOutputView| o.data),
            },
            Cell::Markdown(c) => SavedCellView::Markdown {
                id: c.id@,
                metadata: c.metadata@,
                source: source_lines(c.editor.text@),
                attachments: id_text(c.attachments),
            },
            Cell::Raw(c) => SavedCellView::Raw {
                id: c.id@,
                metadata: c.metadata@,
                source: source_lines(c.source@),
            },
        }
    }

    /// The id of the cell.
    pub open spec fn id_of(self) -> Seq<char> {
        match self {
            Cell::Code(c) => c.id@,
            Cell::Markdown(c) => c.id@,
            Cell::Raw(c) => c.id@,
        }
    }

    /// The text of the cell.
    pub open spec fn text_of(self) -> Seq<char> {
        match self {
            Cell::Code(c) => c.editor.text@,
            Cell::Markdown(c) => c.editor.text@,
            Cell::Raw(c) => c.source@,
        }
    }

    /// Whether the cell was changed since it was saved.
    pub open spec fn dirty(self) -> bool {
        match self {
            Cell::Code(c) => c.dirty(),
            Cell::Markdown(c) => c.editor.dirty,
            Cell::Raw(_) => false,
        }
    }

    /// The id of the cell.
    pub fn id(&self) -> (r: &str)
        ensures
            r@ == self.id_of(),
    {
        match self {
            Cell::Code(c) => c.id.as_str(),
            Cell::Markdown(c) => c.id.as_str(),
            Cell::Raw(c) => c.id.as_str(),
        }
    }

    /// The text of the cell as it is now.
    pub fn current_source(&self) -> (r: String)
        ensures
            r@ == self.text_of(),
    {
        match self {
            Cell::Code(c) => c.current_source(),
            Cell::Markdown(c) => c.current_source(),
            Cell::Raw(c) => c.source.clone(),
        }
    }

    /// What is saved of the cell.
    pub fn to_nbformat_cell(&self) -> (r: SavedCell)
        ensures
            r.view() == self.saved(),
    {
        match self {
            Cell::Code(c) => c.to_nbformat_cell(),
            Cell::Markdown(c) => c.to_nbformat_cell(),
            Cell::Raw(c) => c.to_nbformat_cell(),
        }
    }

    /// Whether the cell was changed since it was saved.
    pub fn is_dirty(&self) -> (r: bool)
        ensures
            r == self.dirty(),
    {
        match self {
            Cell::Code(c) => c.is_dirty(),
            Cell::Markdown(c) => c.is_dirty(),
            Cell::Raw(_) => false,
        }
    }

    /// Loads a saved cell.
    pub fn load(cell: SavedCell) -> (r: Cell)
        ensures
            r.saved() == resaved(cell.view()),
            !r.dirty(),
            match cell {
                SavedCell::Markdown { source, .. } => {
                    &&& r matches Cell::Markdown(c)
                    &&& c.source@ == flat(texts(source@))
                    &&& c.editor.text@ == flat(texts(source@))
                    &&& c.editing == (flat(texts(source@)).len() == 0)
                    &&& !c.selected && c.cell_position is None
                },
                SavedCell::Code { source, .. } => {
                    &&& r matches Cell::Code(c)
                    &&& c.source@ == flat(texts(source@))
                    &&& c.editor.text@ == flat(texts(source@))
                    &&& c.output_revision == 0
                    &&& !c.is_executing && !c.clear_before_next_output
                    &&& c.execution_duration is None && c.execution_start_time is None
                    &&& !c.selected && c.cell_position is None
                },
                SavedCell::Raw { source, .. } => {
                    &&& r matches Cell::Raw(c)
                    &&& c.source@ == flat(texts(source@))
                    &&& !c.selected && c.cell_position is None
                },
            },
    {
        match cell {
            SavedCell::Markdown { id, metadata, source, attachments } => {
                let mut c = MarkdownCell::new(id, metadata, join_lines(&source));
                c.attachments = attachments;
                Cell::Markdown(c)
            },
            SavedCell::Code { id, metadata, execution_count, source, outputs } => {
                let ghost data = outputs@;
                let c = CodeCell::new(
                    CellSource::Existing { execution_count, outputs },
                    id,
                    metadata,
                    join_lines(&source),
                );
                proof {
                    assert(c.run_view().outputs.map_values(|o: NotebookOutputView| o.data)
                        =~= data_views(data));
                }
                Cell::Code(c)
            },
            SavedCell::Raw { id, metadata, source } => Cell::Raw(
                RawCell {
                    id,
                    metadata,
                    source: join_lines(&source),
                    selected: false,
                    cell_position: None,
                },
            ),
        }
    }

    /// Moves the cursor into the cell; a text cell is edited then. Returns where the cursor
    /// goes, where the cell has an editor.
    pub fn move_to(&mut self, direction: MovementDirection) -> (r: Option<MovementDirection>)
        ensures
            *final(self) == match *old(self) {
                Cell::Markdown(c) => Cell::Markdown(MarkdownCell { editing: true, ..c }),
                other => other,
            },
            r == if *old(self) is Raw {
                None
            } else {
                Some(direction)
            },
    {
        match self {
            Cell::Code(_) => Some(direction),
            Cell::Markdown(c) => {
                c.set_editing(true);
                Some(direction)
            },
            Cell::Raw(_) => None,
        }
    }
}

proof fn lemma_flat_concat(a: Seq<Seq<char>>, b: Seq<Seq<char>>)
    ensures
        flat(a + b) == flat(a) + flat(b),
    decreases b.len(),
{
    if b.len() == 0 {
        assert(a + b =~= a);
        assert(flat(a) + flat(b) =~= flat(a));
    } else {
        lemma_flat_concat(a, b.drop_last());
        assert((a + b).drop_last() =~= a + b.drop_last());
        assert(flat(a + b) =~= flat(a) + flat(b));
    }
}

/// A text survives being cut into lines and put together again.
pub proof fn law_lines_make_the_text(s: Seq<char>)
    ensures
        flat(source_lines(s)) == s,
    decreases s.len(),
{
    let k = position(s, '\n');
    lemma_position(s, '\n');
    reveal_with_fuel(flat, 2);
    if s.len() > 0 {
        if k < s.len() {
            let rest = s.skip(k + 1);
            law_lines_make_the_text(rest);
            let first = seq![s.take(k + 1)];
            lemma_flat_concat(first, source_lines(rest));
            assert(first.drop_last() =~= Seq::<Seq<char>>::empty());
            assert(flat(first) =~= s.take(k + 1));
            assert(flat(source_lines(s)) =~= s.take(k + 1) + rest);
            assert(s.take(k + 1) + rest =~= s);
        } else {
            let only = seq![s];
            assert(only.drop_last() =~= Seq::<Seq<char>>::empty());
            assert(flat(only) =~= s);
        }
    }
}

/// Saving, loading and saving a notebook again changes nothing: what was saved once is saved
/// the same, with its text, its attachments and every output.
pub proof fn law_saved_cells_survive(cell: Cell)
    ensures
        resaved(cell.saved()) == cell.saved(),
{
    law_lines_make_the_text(cell.text_of());
}

/// A cell that is loaded has the text of the saved one.
pub proof fn law_loading_keeps_the_text(c: SavedCellView)
    ensures
        match (c, resaved(c)) {
            (
                SavedCellView::Markdown { source: a, .. },
                SavedCellView::Markdown { source: b, .. },
            ) => flat(a) == flat(b),
            (SavedCellView::Code { source: a, .. }, SavedCellView::Code { source: b, .. }) => flat(
                a,
            ) == flat(b),
            (SavedCellView::Raw { source: a, .. }, SavedCellView::Raw { source: b, .. }) => flat(a)
                == flat(b),
            _ => false,
        },
{
    match c {
        SavedCellView::Markdown { source, .. } => law_lines_make_the_text(flat(source)),
        SavedCellView::Code { source, .. } => law_lines_make_the_text(flat(source)),
        SavedCellView::Raw { source, .. } => law_lines_make_the_text(flat(source)),
    }
}

/// A message that changes the outputs or the execution count of a cell changes its revision,
/// so that a save that began before does not count for what came after: the revision never
/// falls, and where it stays, so do the outputs and the count.
pub proof fn law_changed_outputs_change_the_revision(s: RunView, message: KernelMessage, now: u64)
    ensures
        ({
            let t = after_message(s, message, now);
            &&& t.output_revision >= s.output_revision
            &&& t.output_revision == s.output_revision ==> t.outputs == s.outputs
                && t.execution_count == s.execution_count
        }),
{
    let t = after_message(s, message, now);
    match message {
        KernelMessage::UpdateDisplayData { data, metadata, display_id } => {
            if let Some(id) = display_id {
                if updated_count(s.outputs, id@) == 0 {
                    lemma_no_update(s.outputs, id@);
                    assert(t.outputs =~= s.outputs);
                }
            }
        },
        KernelMessage::ClearOutput { wait } => {
            if !wait && s.outputs.len() == 0 {
                assert(t.outputs =~= s.outputs);
            }
        },
        _ => {},
    }
}

proof fn lemma_no_update(outputs: Seq<NotebookOutputView>, display_id: Seq<char>)
    requires
        updated_count(outputs, display_id) == 0,
    ensures
        forall|i: int| 0 <= i < outputs.len() ==> !is_updated(#[trigger] outputs[i], display_id),
    decreases outputs.len(),
{
    if outputs.len() > 0 {
        lemma_no_update(outputs.drop_last(), display_id);
        assert forall|i: int| 0 <= i < outputs.len() implies !is_updated(
            #[trigger] outputs[i],
            display_id,
        ) by {
            if i < outputs.len() - 1 {
                assert(outputs.drop_last()[i] == outputs[i]);
            }
        }
    }
}

/// Outputs that are to be cleared stay until the next one arrives, and then are replaced by
/// it alone.
pub proof fn law_waiting_clear_keeps_outputs_until_the_next(
    s: RunView,
    now: u64,
    data: OutputView,
    display_id: Option<Seq<char>>,
)
    ensures
        ({
            let waiting = after_message(s, KernelMessage::ClearOutput { wait: true }, now);
            &&& waiting.outputs == s.outputs
            &&& waiting.output_revision == s.output_revision
            &&& pushed(waiting, data, display_id).outputs == seq![
                NotebookOutputView { data, display_id },
            ]
            &&& !pushed(waiting, data, display_id).clear_before_next_output
        }),
{
    let waiting = after_message(s, KernelMessage::ClearOutput { wait: true }, now);
    assert(pushed(waiting, data, display_id).outputs =~= seq![
        NotebookOutputView { data, display_id },
    ]);
}

/// The outputs that a new one is put behind: none where they were to be cleared before it.
pub open spec fn kept_outputs(s: RunView) -> Seq<NotebookOutputView> {
    if s.clear_before_next_output {
        Seq::empty()
    } else {
        s.outputs
    }
}

/// A message that adds an output, and the output that it adds.
pub open spec fn added_output(message: KernelMessage, output: NotebookOutputView) -> bool {
    match message {
        KernelMessage::Stream { stderr, text } => {
            &&& output.display_id is None
            &&& output.data matches OutputView::Stream { name, text: t }
            &&& t == text@
            &&& stderr ==> name == "stderr"@
            &&& !stderr ==> name == "stdout"@
        },
        KernelMessage::DisplayData { data, metadata, display_id } => {
            &&& output.display_id is Some <==> display_id is Some
            &&& display_id is Some ==> output.display_id->0 == display_id->0@
            &&& output.data matches OutputView::DisplayData { data: d, metadata: m }
            &&& d == data@ && m == metadata@
        },
        KernelMessage::ExecuteResult { execution_count, data, metadata, display_id } => {
            &&& output.display_id is Some <==> display_id is Some
            &&& display_id is Some ==> output.display_id->0 == display_id->0@
            &&& output.data matches OutputView::ExecuteResult {
                execution_count: c,
                data: d,
                metadata: m,
            }
            &&& c == execution_count && d == data@ && m == metadata@
        },
        KernelMessage::Error { ename, evalue, traceback } => {
            &&& output.display_id is None
            &&& output.data matches OutputView::Error { ename: n, evalue: v, traceback: t }
            &&& n == ename@ && v == evalue@ && t.len() == traceback@.len()
            &&& forall|i: int| 0 <= i < t.len() ==> #[trigger] t[i] == traceback@[i]@
        },
        _ => false,
    }
}

/// Whatever a program prints or shows is shown: each stream, display, result or error adds
/// exactly one output, with what the message holds, behind those that were not to be cleared,
/// and the cell is changed by it. Nothing else of its run is.
pub proof fn law_every_output_is_shown(s: RunView, message: KernelMessage, now: u64)
    requires
        message is Stream || message is DisplayData || message is ExecuteResult
            || message is Error,
    ensures
        ({
            let t = after_message(s, message, now);
            let n = kept_outputs(s).len() as int;
            &&& t.outputs.len() == n + 1
            &&& added_output(message, t.outputs[n])
            &&& forall|i: int| 0 <= i < n ==> #[trigger] t.outputs[i] == s.outputs[i]
            &&& t.output_revision > s.output_revision
            &&& !t.clear_before_next_output
            &&& t.execution_count == s.execution_count
            &&& t.execution_start_time == s.execution_start_time
            &&& t.is_executing == s.is_executing
            &&& !s.clear_before_next_output ==> t.execution_duration == s.execution_duration
        }),
{
    let t = after_message(s, message, now);
    if let KernelMessage::Error { ename, evalue, traceback } = message {
        assert(texts(traceback@).len() == traceback@.len());
    }
}

/// Only an output, a clearing that does not wait, or an update changes the outputs, and only
/// the start of an execution changes its count.
pub proof fn law_other_messages_keep_the_outputs(s: RunView, message: KernelMessage, now: u64)
    requires
        message is ExecuteInput || message is ExecuteReply || message is Other || message == (
        KernelMessage::ClearOutput { wait: true }),
    ensures
        ({
            let t = after_message(s, message, now);
            &&& t.outputs == s.outputs
            &&& !(message is ExecuteInput) ==> t.execution_count == s.execution_count
                && t.output_revision == s.output_revision
            &&& !(message is ClearOutput) ==> t.clear_before_next_output
                == s.clear_before_next_output
            &&& message is ClearOutput ==> t.clear_before_next_output
            &&& !(message is ExecuteReply) ==> t.is_executing == s.is_executing
                && t.execution_start_time == s.execution_start_time && t.execution_duration
                == s.execution_duration
            &&& message is Other ==> t == s
        }),
{
}

/// The number of an execution is shown once it starts, where it is small enough to be one.
pub proof fn law_executions_are_numbered(s: RunView, execution_count: u64, now: u64)
    ensures
        ({
            let t = after_message(s, KernelMessage::ExecuteInput { execution_count }, now);
            &&& execution_count <= 0x7fff_ffff ==> t.execution_count is Some
                && t.execution_count->0 == execution_count
            &&& execution_count > 0x7fff_ffff ==> t.execution_count is None
            &&& t.output_revision > s.output_revision
        }),
{
}

/// An execution ends with its reply, and took the time since it started.
pub proof fn law_replies_end_executions(s: RunView, now: u64)
    ensures
        ({
            let t = after_message(s, KernelMessage::ExecuteReply, now);
            &&& !t.is_executing
            &&& t.execution_start_time is None
            &&& s.execution_start_time is Some && s.execution_start_time->0 <= now
                ==> t.execution_duration is Some && s.execution_start_time->0
                + t.execution_duration->0 == now
            &&& s.execution_start_time is None ==> t.execution_duration == s.execution_duration
        }),
{
}

/// Outputs that are cleared are gone, and the cell is changed by it where it had any.
pub proof fn law_cleared_outputs_are_gone(s: RunView, now: u64)
    ensures
        ({
            let t = after_message(s, KernelMessage::ClearOutput { wait: false }, now);
            &&& t.outputs.len() == 0
            &&& !t.clear_before_next_output
            &&& t.execution_duration is None
            &&& s.outputs.len() > 0 ==> t.output_revision > s.output_revision
            &&& s.outputs.len() == 0 ==> t.output_revision == s.output_revision
            &&& t.execution_count == s.execution_count
            &&& t.is_executing == s.is_executing
        }),
{
}

/// An update reaches every display and every result with its id, and nothing else: those show
/// the new data in their place, and a result keeps its number.
pub proof fn law_updates_reach_their_displays(
    s: RunView,
    data: String,
    metadata: String,
    display_id: String,
    now: u64,
    i: int,
)
    requires
        0 <= i < s.outputs.len(),
    ensures
        ({
            let message = KernelMessage::UpdateDisplayData {
                data,
                metadata,
                display_id: Some(display_id),
            };
            let t = after_message(s, message, now);
            let before = s.outputs[i];
            let after = t.outputs[i];
            let meant = before.display_id == Some(display_id@);
            &&& t.outputs.len() == s.outputs.len()
            &&& after.display_id == before.display_id
            &&& meant && before.data is DisplayData ==> after.data == (OutputView::DisplayData {
                data: data@,
                metadata: metadata@,
            })
            &&& meant && before.data is ExecuteResult ==> after.data == (
            OutputView::ExecuteResult {
                execution_count: before.data->ExecuteResult_execution_count,
                data: data@,
                metadata: metadata@,
            })
            &&& !meant || before.data is Stream || before.data is Error ==> after == before
            &&& meant && (before.data is DisplayData || before.data is ExecuteResult)
                ==> t.output_revision > s.output_revision
        }),
{
    lemma_update_counts(s.outputs, display_id@, i);
}

proof fn lemma_update_counts(outputs: Seq<NotebookOutputView>, display_id: Seq<char>, i: int)
    requires
        0 <= i < outputs.len(),
    ensures
        is_updated(outputs[i], display_id) ==> updated_count(outputs, display_id) > 0,
    decreases outputs.len(),
{
    if i < outputs.len() - 1 {
        lemma_update_counts(outputs.drop_last(), display_id, i);
        assert(outputs.drop_last()[i] == outputs[i]);
    }
}

/// What is saved of a cell is what is in it: its id, its metadata, the text of its editor, and
/// for code the number of its execution and the data of every output, in order.
pub proof fn law_saved_cells_hold_the_cell(cell: Cell)
    ensures
        match (cell, cell.saved()) {
            (
                Cell::Code(c),
                SavedCellView::Code { id, metadata, execution_count, source, outputs },
            ) => {
                &&& id == c.id@ && metadata == c.metadata@
                &&& execution_count == c.execution_count
                &&& flat(source) == c.editor.text@
                &&& outputs.len() == c.outputs@.len()
                &&& forall|i: int|
                    0 <= i < outputs.len() ==> #[trigger] outputs[i] == c.outputs@[i].data.view()
            },
            (
                Cell::Markdown(c),
                SavedCellView::Markdown { id, metadata, source, attachments },
            ) => {
                &&& id == c.id@ && metadata == c.metadata@
                &&& flat(source) == c.editor.text@
                &&& attachments is Some <==> c.attachments is Some
                &&& attachments is Some ==> attachments->0 == c.attachments->0@
            },
            (Cell::Raw(c), SavedCellView::Raw { id, metadata, source }) => {
                &&& id == c.id@ && metadata == c.metadata@
                &&& flat(source) == c.source@
            },
            _ => false,
        },
{
    law_lines_make_the_text(cell.text_of());
}

/// A cell that is loaded holds what was saved: its id, its metadata, its text, and for code
/// the number and every output, in order.
pub proof fn law_loading_keeps_the_cell(c: SavedCellView)
    ensures
        match (c, resaved(c)) {
            (
                SavedCellView::Code { id, metadata, execution_count, source, outputs },
                SavedCellView::Code {
                    id: i,
                    metadata: m,
                    execution_count: e,
                    source: s,
                    outputs: o,
                },
            ) => id == i && metadata == m && execution_count == e && flat(source) == flat(s)
                && outputs == o,
            (
                SavedCellView::Markdown { id, metadata, source, attachments },
                SavedCellView::Markdown { id: i, metadata: m, source: s, attachments: a },
            ) => id == i && metadata == m && flat(source) == flat(s) && attachments == a,
            (
                SavedCellView::Raw { id, metadata, source },
                SavedCellView::Raw { id: i, metadata: m, source: s },
            ) => id == i && metadata == m && flat(source) == flat(s),
            _ => false,
        },
{
    law_loading_keeps_the_text(c);
}

/// A text is saved in lines: each but the last ends in a line feed, no line is empty, and
/// there is no other line feed in it.
pub proof fn law_lines_end_in_line_feeds(s: Seq<char>, i: int)
    requires
        0 <= i < source_lines(s).len(),
    ensures
        ({
            let line = source_lines(s)[i];
            &&& line.len() > 0
            &&& i < source_lines(s).len() - 1 ==> line.last() == '\n'
            &&& forall|k: int| 0 <= k < line.len() - 1 ==> #[trigger] line[k] != '\n'
        }),
    decreases s.len(),
{
    let k = position(s, '\n');
    lemma_position(s, '\n');
    if s.len() > 0 && k < s.len() {
        if i > 0 {
            law_lines_end_in_line_feeds(s.skip(k + 1), i - 1);
            assert(source_lines(s)[i] == source_lines(s.skip(k + 1))[i - 1]);
        }
    }
}

/// Lines that are put together give their characters in order: two lists one after the other
/// give the text of the one and then that of the other.
pub proof fn law_texts_follow_each_other(a: Seq<Seq<char>>, b: Seq<Seq<char>>)
    ensures
        flat(a + b) == flat(a) + flat(b),
        flat(Seq::<Seq<char>>::empty()).len() == 0,
    decreases b.len(),
{
    if b.len() == 0 {
        assert(a + b =~= a);
        assert(flat(a) + flat(b) =~= flat(a));
    } else {
        law_texts_follow_each_other(a, b.drop_last());
        assert((a + b).drop_last() =~= a + b.drop_last());
        assert(flat(a) + (flat(b.drop_last()) + b.last()) =~= flat(a) + flat(b.drop_last())
            + b.last());
    }
}

/// A cell is changed as long as its outputs changed since they were saved, or its text did.
pub proof fn law_changes_are_noticed(c: CodeCell)
    ensures
        c.editor.dirty ==> c.dirty(),
        c.output_revision != c.saved_output_revision ==> c.dirty(),
        !c.editor.dirty && c.output_revision == c.saved_output_revision ==> !c.dirty(),
{
}

/// A cell that runs can be stopped; one that does not can be run, again where it has outputs.
/// What is below it is shown as long as there is something to show.
pub proof fn law_controls_follow_the_run(c: CodeCell)
    ensures
        c.is_executing ==> c.control_of() == CellControlType::StopCell && c.status_of() == Some(
            ExecutionStatus::Running,
        ),
        !c.is_executing && c.outputs@.len() > 0 ==> c.control_of() == CellControlType::RerunCell,
        !c.is_executing && c.outputs@.len() == 0 ==> c.control_of() == CellControlType::RunCell,
        !c.is_executing && c.execution_duration is Some ==> c.status_of() == Some(
            ExecutionStatus::Took(c.execution_duration->0),
        ),
        !c.is_executing && c.execution_duration is None ==> c.status_of() is None,
        c.shows_area() <==> c.is_executing || c.outputs@.len() > 0 || c.execution_duration is Some,
{
}

/// Only the first cell has space above it, and only the last has space below.
pub proof fn law_spacers_are_at_the_ends(position: Option<CellPosition>)
    ensures
        has_spacer(position, true) <==> position == Some(CellPosition::First),
        has_spacer(position, false) <==> position == Some(CellPosition::Last),
{
}

/// A cell after the kernel could not execute it.
pub open spec fn after_kernel_error(s: RunView, message: Seq<char>) -> RunView {
    RunView {
        execution_start_time: None,
        is_executing: false,
        ..pushed(
            s,
            OutputView::Error {
                ename: "Kernel Error"@,
                evalue: "cell could not be executed"@,
                traceback: seq![message],
            },
            None,
        )
    }
}

/// An error of the kernel is shown below the cell, with its text, and the cell runs no more.
pub proof fn law_kernel_errors_are_shown(s: RunView, message: Seq<char>)
    ensures
        ({
            let t = after_kernel_error(s, message);
            let n = kept_outputs(s).len() as int;
            &&& !t.is_executing
            &&& t.execution_start_time is None
            &&& t.outputs.len() == n + 1
            &&& t.outputs[n].data matches OutputView::Error { ename, evalue, traceback }
            &&& ename == "Kernel Error"@
            &&& traceback.len() == 1 && traceback[0] == message
            &&& forall|i: int| 0 <= i < n ==> #[trigger] t.outputs[i] == s.outputs[i]
            &&& t.output_revision > s.output_revision
            &&& t.execution_count == s.execution_count
        }),
{
}

/// The outputs of a cell that is loaded are those that were saved, in order, and no update
/// reaches them.
pub proof fn law_loaded_outputs_are_the_saved_ones(v: Seq<OutputData>, i: int)
    requires
        0 <= i < v.len(),
    ensures
        saved_outputs(v).len() == v.len(),
        saved_outputs(v)[i].data == v[i].view(),
        saved_outputs(v)[i].display_id is None,
        data_views(v).len() == v.len(),
        data_views(v)[i] == v[i].view(),
{
}

/// An output is seen as what it holds.
pub proof fn law_outputs_are_seen_as_they_are(o: OutputData, n: NotebookOutput)
    ensures
        o matches OutputData::Stream { name, text } ==> o.view() == (OutputView::Stream {
            name: name@,
            text: text@,
        }),
        o matches OutputData::DisplayData { data, metadata } ==> o.view() == (
        OutputView::DisplayData { data: data@, metadata: metadata@ }),
        o matches OutputData::ExecuteResult { execution_count, data, metadata } ==> o.view() == (
        OutputView::ExecuteResult { execution_count, data: data@, metadata: metadata@ }),
        n.view().data == n.data.view(),
        n.display_id is Some <==> n.view().display_id is Some,
        n.display_id is Some ==> n.view().display_id->0 == n.display_id->0@,
{
}

/// A text cell is changed exactly where its text is, and a raw one never; a code cell also
/// where its outputs are.
pub proof fn law_cells_know_their_changes(code: CodeCell, text: MarkdownCell, raw: RawCell)
    ensures
        Cell::Markdown(text).dirty() <==> text.editor.dirty,
        !Cell::Raw(raw).dirty(),
        Cell::Code(code).dirty() <==> code.editor.dirty || code.output_revision
            != code.saved_output_revision,
{
}

proof fn lemma_nothing_to_update(outputs: Seq<NotebookOutputView>, display_id: Seq<char>)
    requires
        forall|i: int| 0 <= i < outputs.len() ==> !is_updated(#[trigger] outputs[i], display_id),
    ensures
        updated_count(outputs, display_id) == 0,
    decreases outputs.len(),
{
    if outputs.len() > 0 {
        assert(!is_updated(outputs[outputs.len() - 1], display_id));
        assert forall|i: int| 0 <= i < outputs.drop_last().len() implies !is_updated(
            #[trigger] outputs.drop_last()[i],
            display_id,
        ) by {
            assert(!is_updated(outputs[i], display_id));
        }
        lemma_nothing_to_update(outputs.drop_last(), display_id);
    }
}

/// An update for an id that no output has changes nothing.
pub proof fn law_unknown_displays_are_not_updated(
    s: RunView,
    data: String,
    metadata: String,
    display_id: String,
    now: u64,
)
    requires
        forall|i: int|
            0 <= i < s.outputs.len() ==> (#[trigger] s.outputs[i]).display_id != Some(display_id@),
    ensures
        ({
            let message = KernelMessage::UpdateDisplayData {
                data,
                metadata,
                display_id: Some(display_id),
            };
            let t = after_message(s, message, now);
            &&& t.outputs == s.outputs
            &&& t.output_revision == s.output_revision
        }),
{
    assert forall|i: int| 0 <= i < s.outputs.len() implies !is_updated(
        #[trigger] s.outputs[i],
        display_id@,
    ) by {
        assert(s.outputs[i].display_id != Some(display_id@));
    }
    lemma_nothing_to_update(s.outputs, display_id@);
    let t = updated(s, display_id@, data@, metadata@);
    assert(t.outputs =~= s.outputs);
}

/// What a kernel sees of a cell is what the cell holds.
pub proof fn law_runs_are_what_cells_hold(c: CodeCell, i: int)
    requires
        0 <= i < c.outputs@.len(),
    ensures
        ({
            let s = c.run_view();
            &&& s.execution_count == c.execution_count
            &&& s.outputs.len() == c.outputs@.len()
            &&& s.outputs[i] == c.outputs@[i].view()
            &&& s.output_revision == c.output_revision
            &&& s.clear_before_next_output == c.clear_before_next_output
            &&& s.execution_start_time == c.execution_start_time
            &&& s.execution_duration == c.execution_duration
            &&& s.is_executing == c.is_executing
        }),
{
}

/// A kernel changes nothing of a cell but its run: not its text, not its id, and not what was
/// saved of it.
pub proof fn law_kernels_keep_the_cell(a: CodeCell, b: CodeCell)
    requires
        a.same_cell(b),
    ensures
        a.id == b.id,
        a.metadata == b.metadata,
        a.source == b.source,
        a.editor == b.editor,
        a.saved_output_revision == b.saved_output_revision,
        a.selected == b.selected,
        a.cell_position == b.cell_position,
{
}

/// The id and the text of a cell are those that it was made with or edited to.
pub proof fn law_cells_have_an_id_and_a_text(code: CodeCell, text: MarkdownCell, raw: RawCell)
    ensures
        Cell::Code(code).id_of() == code.id@,
        Cell::Markdown(text).id_of() == text.id@,
        Cell::Raw(raw).id_of() == raw.id@,
        Cell::Code(code).text_of() == code.editor.text@,
        Cell::Markdown(text).text_of() == text.editor.text@,
        Cell::Raw(raw).text_of() == raw.source@,
{
}

} // verus!
