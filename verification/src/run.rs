//! The steps of formatting one file. The work between the steps (running
//! the embedded formatter, parsing, generating and printing) is done by the
//! caller; this module decides what comes next.
use vstd::prelude::*;

use crate::chars::copy_chars;
use crate::format::{changed, changed_text, parse_error_message, parse_error_text, strip_bom, without_bom, FormatMode};

verus! {

/// Where a run stands.
#[derive(Clone, Copy, PartialEq, Eq, Structural, Debug)]
pub enum FormatStage {
    Start,
    Embedding,
    Parsing,
    Reparsing,
    Printing,
    Finished,
}

/// Where and why a text failed to parse: a range of its characters and a message.
pub struct ParseError {
    pub start: usize,
    pub end: usize,
    pub message: String,
}

/// What parsing a text gave.
pub enum ParseOutcome {
    /// The text asks not to be formatted.
    IgnoreFile,
    /// The text parsed.
    SourceFile,
    /// The text failed to parse.
    Failed(ParseError),
}

/// The view of a parse result.
pub enum ParseView {
    IgnoreFile,
    SourceFile,
    Failed(int, int, Seq<char>),
}

/// The view of a parse result.
pub open spec fn parse_view(p: ParseOutcome) -> ParseView {
    match p {
        ParseOutcome::IgnoreFile => ParseView::IgnoreFile,
        ParseOutcome::SourceFile => ParseView::SourceFile,
        ParseOutcome::Failed(e) => ParseView::Failed(e.start as int, e.end as int, e.message@),
    }
}

/// What the caller reports to a run.
pub enum FormatEvent {
    /// The run is started.
    Begin,
    /// The embedded formatter ran on the ESM and JSX blocks: the text with
    /// the formatted blocks spliced in, or nothing when none changed.
    Embedded(Option<Vec<char>>),
    /// The text of the last `Parse` action was parsed.
    Parsed(ParseOutcome),
    /// The parsed file was printed.
    Printed(Vec<char>),
}

/// What the caller does next.
pub enum FormatAction {
    /// Run the embedded formatter on the ESM and JSX blocks of this text.
    FormatEmbedded(Vec<char>),
    /// Check this text for the ignore-file directive and parse it.
    Parse(Vec<char>),
    /// Generate and print the file parsed from this text, with print
    /// settings taken from the text without its byte order mark.
    Print(Vec<char>),
    /// The run ends with this result: the new text, or nothing when the
    /// file is ignored or unchanged.
    Finish(Option<Vec<char>>),
    /// The run ends with this message of the error of the last parse.
    Fail(String),
}

/// A run of the formatter on one file.
pub struct FormatRun {
    pub file_text: Vec<char>,
    pub mode: FormatMode,
    pub original: Vec<char>,
    pub embedded: Option<Vec<char>>,
    pub stage: FormatStage,
}

/// The view of a run.
pub struct RunView {
    pub file_text: Seq<char>,
    pub mode: FormatMode,
    pub original: Seq<char>,
    pub embedded: Option<Seq<char>>,
    pub stage: FormatStage,
}

/// The view of an event.
pub enum EventView {
    Begin,
    Embedded(Option<Seq<char>>),
    Parsed(ParseView),
    Printed(Seq<char>),
}

/// The view of an action.
pub enum ActionView {
    FormatEmbedded(Seq<char>),
    Parse(Seq<char>),
    Print(Seq<char>),
    Finish(Option<Seq<char>>),
    Fail(Seq<char>),
}

/// The view of an optional character vector.
pub open spec fn opt_view(o: Option<Vec<char>>) -> Option<Seq<char>> {
    match o {
        Some(v) => Some(v@),
        None => None,
    }
}

impl FormatRun {
    pub open spec fn view(&self) -> RunView {
        RunView {
            file_text: self.file_text@,
            mode: self.mode,
            original: self.original@,
            embedded: opt_view(self.embedded),
            stage: self.stage,
        }
    }
}

/// The view of an event.
pub open spec fn event_view(e: FormatEvent) -> EventView {
    match e {
        FormatEvent::Begin => EventView::Begin,
        FormatEvent::Embedded(t) => EventView::Embedded(opt_view(t)),
        FormatEvent::Parsed(p) => EventView::Parsed(parse_view(p)),
        FormatEvent::Printed(t) => EventView::Printed(t@),
    }
}

/// The view of an action.
pub open spec fn action_view(a: FormatAction) -> ActionView {
    match a {
        FormatAction::FormatEmbedded(t) => ActionView::FormatEmbedded(t@),
        FormatAction::Parse(t) => ActionView::Parse(t@),
        FormatAction::Print(t) => ActionView::Print(t@),
        FormatAction::Finish(t) => ActionView::Finish(opt_view(t)),
        FormatAction::Fail(m) => ActionView::Fail(m@),
    }
}

/// The event fits the run: `Begin` at the start, the embedded result while
/// embedding, a parse result while parsing (with an error range inside the
/// parsed text), the printed text while printing.
pub open spec fn accepts(r: RunView, e: EventView) -> bool {
    match e {
        EventView::Begin => r.stage == FormatStage::Start,
        EventView::Embedded(_) => r.stage == FormatStage::Embedding,
        EventView::Parsed(p) => (r.stage == FormatStage::Parsing || r.stage == FormatStage::Reparsing) && (
        p matches ParseView::Failed(start, end, _) ==> 0 <= start <= end <= parsed_text(r).len() && 4
            * parsed_text(r).len() <= usize::MAX),
        EventView::Printed(_) => r.stage == FormatStage::Printing,
    }
}

/// The text of the parse that the run waits for: the first parse text while
/// parsing, the text without its byte order mark while parsing again.
pub open spec fn parsed_text(r: RunView) -> Seq<char> {
    if r.stage == FormatStage::Parsing {
        first_parse_text(r)
    } else {
        r.original
    }
}

/// The text that is parsed first: the text with formatted embedded blocks
/// when there is one, otherwise the text without its byte order mark.
pub open spec fn first_parse_text(r: RunView) -> Seq<char> {
    match r.embedded {
        Some(t) => t,
        None => r.original,
    }
}

/// One step of a run: the new run and the action for the caller.
pub open spec fn step(r: RunView, e: EventView) -> (RunView, ActionView) {
    match e {
        EventView::Begin => {
            let original = without_bom(r.file_text);
            if r.mode == FormatMode::Mdx {
                (RunView { original, stage: FormatStage::Embedding, ..r }, ActionView::FormatEmbedded(original))
            } else {
                (RunView { original, stage: FormatStage::Parsing, ..r }, ActionView::Parse(original))
            }
        },
        EventView::Embedded(t) => {
            let r2 = RunView { embedded: t, stage: FormatStage::Parsing, ..r };
            (r2, ActionView::Parse(first_parse_text(r2)))
        },
        EventView::Parsed(p) => match p {
            ParseView::IgnoreFile => (RunView { stage: FormatStage::Finished, ..r }, ActionView::Finish(None)),
            ParseView::SourceFile => (RunView { stage: FormatStage::Printing, ..r }, ActionView::Print(parsed_text(r))),
            ParseView::Failed(start, end, message) => {
                if r.stage == FormatStage::Parsing && r.embedded is Some {
                    (RunView { stage: FormatStage::Reparsing, ..r }, ActionView::Parse(r.original))
                } else {
                    (
                        RunView { stage: FormatStage::Finished, ..r },
                        ActionView::Fail(parse_error_text(parsed_text(r), start, end, message)),
                    )
                }
            },
        },
        EventView::Printed(t) => (
            RunView { stage: FormatStage::Finished, ..r },
            ActionView::Finish(changed(r.file_text, Some(t))),
        ),
    }
}

impl FormatRun {
    /// The text of the parse that the run waits for.
    fn parsed_text_exec(&self) -> (r: &[char])
        ensures
            r@ == parsed_text(self.view()),
    {
        if self.stage == FormatStage::Parsing {
            match &self.embedded {
                Some(t) => t.as_slice(),
                None => self.original.as_slice(),
            }
        } else {
            self.original.as_slice()
        }
    }

    /// The printer settings of the run: the configured line width, and the
    /// newline chosen for the text without its byte order mark (which the
    /// run holds as `original` from its first step on).
    pub fn print_settings(&self, line_width: u32, kind: crate::format::NewLineKind) -> (r: crate::format::PrintSettings)
        ensures
            r.indent_width == 1,
            r.max_width == line_width,
            !r.use_tabs,
            r.new_line_text@ == crate::format::newline_for(kind, self.view().original),
    {
        let text = crate::chars::chars_to_string(self.original.as_slice());
        crate::format::config_to_print_options(text.as_str(), line_width, kind)
    }

    /// A run on `file_text` in `mode`, before it starts.
    pub fn new(file_text: Vec<char>, mode: FormatMode) -> (r: FormatRun)
        ensures
            r.view() == (RunView {
                file_text: file_text@,
                mode,
                original: Seq::empty(),
                embedded: None,
                stage: FormatStage::Start,
            }),
    {
        let r = FormatRun { file_text, mode, original: Vec::new(), embedded: None, stage: FormatStage::Start };
        assert(r.original@ =~= Seq::<char>::empty());
        r
    }

    /// Takes the event that the caller reports and returns what to do next.
    pub fn next(&mut self, event: FormatEvent) -> (action: FormatAction)
        requires
            accepts(old(self).view(), event_view(event)),
        ensures
            (final(self).view(), action_view(action)) == step(old(self).view(), event_view(event)),
    {
        match event {
            FormatEvent::Begin => {
                let original = copy_chars(strip_bom(self.file_text.as_slice()));
                let action_text = copy_chars(original.as_slice());
                self.original = original;
                if self.mode == FormatMode::Mdx {
                    self.stage = FormatStage::Embedding;
                    FormatAction::FormatEmbedded(action_text)
                } else {
                    self.stage = FormatStage::Parsing;
                    FormatAction::Parse(action_text)
                }
            },
            FormatEvent::Embedded(t) => {
                self.embedded = t;
                self.stage = FormatStage::Parsing;
                let text = match &self.embedded {
                    Some(t) => copy_chars(t.as_slice()),
                    None => copy_chars(self.original.as_slice()),
                };
                FormatAction::Parse(text)
            },
            FormatEvent::Parsed(p) => match p {
                ParseOutcome::IgnoreFile => {
                    self.stage = FormatStage::Finished;
                    FormatAction::Finish(None)
                },
                ParseOutcome::SourceFile => {
                    let text = copy_chars(self.parsed_text_exec());
                    self.stage = FormatStage::Printing;
                    FormatAction::Print(text)
                },
                ParseOutcome::Failed(error) => {
                    if self.stage == FormatStage::Parsing && self.embedded.is_some() {
                        self.stage = FormatStage::Reparsing;
                        FormatAction::Parse(copy_chars(self.original.as_slice()))
                    } else {
                        let message = parse_error_message(
                            self.parsed_text_exec(),
                            error.start,
                            error.end,
                            error.message.as_str(),
                        );
                        self.stage = FormatStage::Finished;
                        FormatAction::Fail(message)
                    }
                },
            },
            FormatEvent::Printed(t) => {
                self.stage = FormatStage::Finished;
                FormatAction::Finish(changed_text(self.file_text.as_slice(), Some(t)))
            },
        }
    }
}

/// The view of a run on `file_text` in `mode`, before it starts.
pub open spec fn start_view(file_text: Seq<char>, mode: FormatMode) -> RunView {
    RunView { file_text, mode, original: Seq::empty(), embedded: None, stage: FormatStage::Start }
}

/// Starts formatting `file_text` as Markdown. The caller then reports
/// `FormatEvent::Begin` and carries out the actions that the run returns;
/// the run ends with the new text, or nothing when the file is ignored or
/// unchanged, or with the error of the failed parse.
pub fn format_text(file_text: &str) -> (r: FormatRun)
    ensures
        r.view() == start_view(file_text@, FormatMode::Markdown),
{
    FormatRun::new(crate::chars::to_chars(file_text), FormatMode::Markdown)
}

/// Starts formatting `file_text` in the mode that the extension of
/// `file_path` selects: MDX for `.mdx`, Markdown otherwise.
pub fn format_text_for_file_path(file_path: &str, file_text: &str) -> (r: FormatRun)
    ensures
        r.view() == start_view(file_text@, r.mode),
        crate::format::simple_path(file_path@) ==> r.mode == crate::format::mode_for(
            crate::format::path_extension_of(file_path@),
        ),
{
    let mode = FormatMode::from_path(file_path);
    FormatRun::new(crate::chars::to_chars(file_text), mode)
}

} // verus!
