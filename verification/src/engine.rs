//! The command engine: selector resolution and command execution.
//!
//! The resolver is a pure function from an abstract selector, the cursor
//! line and the buffer length to concrete 1-based line bounds. The engine
//! owns the buffer, cursor and clipboard, resolves each command's selector
//! and applies its action. File work is never done here: `Edit` and `Write`
//! come back to the caller as `Outcome` requests carrying plain values, and
//! `Print` emits events into a caller-supplied sink.
use crate::buffer::Buffer;
use crate::buffer::lemma_lines_text_snoc;
use crate::buffer::lines_text;
use crate::buffer::spec_split_lines;
use crate::ex::Action;
use crate::ex::Command;
use crate::ex::Locator;
use crate::ex::ParseError;
use crate::ex::Selector;
use vstd::prelude::*;

verus! {

/// Whether the editor is taking ex commands or ordinary keys.
#[derive(Debug)]
pub enum Mode {
    Ex,
    Normal,
}

/// The editor's notion of the current position; both coordinates 1-based.
#[derive(Debug, PartialEq)]
pub struct CursorLocator {
    pub line: usize,
    pub col: usize,
}

impl CursorLocator {
    pub fn new() -> (r: CursorLocator)
        ensures
            r.line == 1,
            r.col == 1,
    {
        CursorLocator { line: 1, col: 1 }
    }
}

/// Failure of selector resolution.
#[derive(Debug, PartialEq)]
pub enum SelectorError {
    /// A resolved bound lies outside `1..=bufferLength`.
    OutOfRange,
    /// The resolved start exceeds the resolved end.
    ReversedRange,
    /// A `Back(k)` locator reaches above the first line.
    Underflow,
    /// The buffer has no lines to address.
    EmptyBuffer,
}

/// Failure during command execution proper.
#[derive(Debug, PartialEq)]
pub enum EngineError {
    CannotOpen(String),
    WriteFailed(String),
    NoFilenameSpecified,
    NotImplemented,
}

/// Any failure the editor core can report to its caller.
#[derive(Debug, PartialEq)]
pub enum EditorError {
    Parse(ParseError),
    Selector(SelectorError),
    Engine(EngineError),
}

/// One line printed for the caller to render.
#[derive(Debug, PartialEq)]
pub struct PrintEvent {
    pub line_number: usize,
    pub text: String,
}

/// What the caller should do after a successfully executed command.
#[derive(Debug, PartialEq)]
pub enum Outcome {
    /// Keep accepting commands.
    Continue,
    /// The command was Quit: stop, cooperatively.
    Exit,
    /// Read the named file and hand its lines back via `replace_buffer`.
    Edit(String),
    /// Write `text` to the file at `path`.
    Write { path: String, text: String },
}

/// The line a locator denotes, before range validation. `as_end` selects
/// how `All` reads: line 1 as a start, the final line as an end.
pub open spec fn spec_locator_line(loc: Locator, cursor: int, len: int, as_end: bool) -> Result<
    int,
    SelectorError,
> {
    match loc {
        Locator::Here => Ok(cursor),
        Locator::Last => Ok(len),
        Locator::All => Ok(if as_end { len } else { 1 }),
        Locator::Ahead(k) => Ok(cursor + k),
        Locator::Back(k) => if k > cursor {
            Err(SelectorError::Underflow)
        } else {
            Ok(cursor - k)
        },
        Locator::Line(n) => Ok(n as int),
    }
}

/// Resolve a selector against the cursor line and buffer length into
/// concrete 1-based bounds. An omitted end denotes the start line alone,
/// except that a bare `All` start denotes the whole buffer. Bounds outside
/// the buffer fail `OutOfRange`; a start above the end fails
/// `ReversedRange`; any resolution against an empty buffer fails
/// `EmptyBuffer`.
pub open spec fn spec_resolve(sel: Selector, cursor: int, len: int) -> Result<
    (int, int),
    SelectorError,
> {
    if len == 0 {
        Err(SelectorError::EmptyBuffer)
    } else {
        match spec_locator_line(sel.start, cursor, len, false) {
            Err(er) => Err(er),
            Ok(s) => {
                let end_res = match sel.end {
                    Some(loc) => spec_locator_line(loc, cursor, len, true),
                    None => Ok(
                        if sel.start is All {
                            len
                        } else {
                            s
                        },
                    ),
                };
                match end_res {
                    Err(er) => Err(er),
                    Ok(e) => if !(1 <= s <= len) || !(1 <= e <= len) {
                        Err(SelectorError::OutOfRange)
                    } else if s > e {
                        Err(SelectorError::ReversedRange)
                    } else {
                        Ok((s, e))
                    },
                }
            },
        }
    }
}

/// Exec counterpart of `spec_locator_line`; the wide result type leaves
/// room for `Ahead` offsets past the buffer, which validation rejects.
fn locator_line(loc: &Locator, cursor: usize, len: usize, as_end: bool) -> (r: Result<
    u128,
    SelectorError,
>)
    ensures
        match r {
            Ok(v) => spec_locator_line(*loc, cursor as int, len as int, as_end)
                == Ok::<int, SelectorError>(v as int),
            Err(e) => spec_locator_line(*loc, cursor as int, len as int, as_end)
                == Err::<int, SelectorError>(e),
        },
{
    match loc {
        Locator::Here => Ok(cursor as u128),
        Locator::Last => Ok(len as u128),
        Locator::All => Ok(if as_end { len as u128 } else { 1 }),
        Locator::Ahead(k) => Ok(cursor as u128 + *k as u128),
        Locator::Back(k) => if *k > cursor {
            Err(SelectorError::Underflow)
        } else {
            Ok((cursor - *k) as u128)
        },
        Locator::Line(n) => Ok(*n as u128),
    }
}

/// Resolve `selector` to concrete inclusive 1-based bounds, or say exactly
/// why it does not denote a valid range.
pub fn resolve(selector: &Selector, cursor_line: usize, buffer_len: usize) -> (r: Result<
    (usize, usize),
    SelectorError,
>)
    ensures
        match r {
            Ok(p) => spec_resolve(*selector, cursor_line as int, buffer_len as int)
                == Ok::<(int, int), SelectorError>((p.0 as int, p.1 as int)) && 1 <= p.0 <= p.1
                <= buffer_len,
            Err(e) => spec_resolve(*selector, cursor_line as int, buffer_len as int) == Err::<
                (int, int),
                SelectorError,
            >(e),
        },
{
    if buffer_len == 0 {
        return Err(SelectorError::EmptyBuffer);
    }
    let s = match locator_line(&selector.start, cursor_line, buffer_len, false) {
        Ok(v) => v,
        Err(er) => {
            return Err(er);
        },
    };
    let e = match &selector.end {
        Some(loc) => match locator_line(loc, cursor_line, buffer_len, true) {
            Ok(v) => v,
            Err(er) => {
                return Err(er);
            },
        },
        None => match &selector.start {
            Locator::All => buffer_len as u128,
            _ => s,
        },
    };
    if !(1 <= s && s <= buffer_len as u128) || !(1 <= e && e <= buffer_len as u128) {
        return Err(SelectorError::OutOfRange);
    }
    if s > e {
        return Err(SelectorError::ReversedRange);
    }
    Ok((s as usize, e as usize))
}

/// Law: a valid absolute line number with no end resolves to itself, as a
/// single-line range, whatever the cursor.
pub proof fn lemma_line_number_resolves(n: usize, cursor: int, len: int)
    requires
        1 <= n as int <= len,
    ensures
        spec_resolve((Selector { start: Locator::Line(n), end: None }), cursor, len) == Ok::<
            (int, int),
            SelectorError,
        >((n as int, n as int)),
{
}

/// Law: `Back(k)` against cursor line `c` fails with `Underflow` whenever
/// `k > c`, for all such `k` and `c`, whatever the end locator.
pub proof fn lemma_back_underflow(k: usize, c: usize, end: Option<Locator>, len: int)
    requires
        len >= 1,
        k > c,
    ensures
        spec_resolve((Selector { start: Locator::Back(k), end }), c as int, len) == Err::<
            (int, int),
            SelectorError,
        >(SelectorError::Underflow),
{
}

/// Law: resolving any selector at all against an empty buffer fails with
/// `EmptyBuffer`.
pub proof fn lemma_empty_buffer_resolution(sel: Selector, cursor: int)
    ensures
        spec_resolve(sel, cursor, 0) == Err::<(int, int), SelectorError>(
            SelectorError::EmptyBuffer,
        ),
{
}

/// Law: when both bounds resolve in range but the start exceeds the end,
/// resolution fails with `ReversedRange`.
pub proof fn lemma_reversed_range(sel: Selector, cursor: int, len: int, s: int, e: int)
    requires
        len >= 1,
        spec_locator_line(sel.start, cursor, len, false) == Ok::<int, SelectorError>(s),
        match sel.end {
            Some(loc) => spec_locator_line(loc, cursor, len, true) == Ok::<int, SelectorError>(
                e,
            ),
            None => e == if sel.start is All {
                len
            } else {
                s
            },
        },
        1 <= s <= len,
        1 <= e <= len,
        s > e,
    ensures
        spec_resolve(sel, cursor, len) == Err::<(int, int), SelectorError>(
            SelectorError::ReversedRange,
        ),
{
}

/// Law: a reversed range never resolves; successful resolution always
/// yields an ordered range inside the buffer.
pub proof fn lemma_resolution_ordered(sel: Selector, cursor: int, len: int, s: int, e: int)
    requires
        spec_resolve(sel, cursor, len) == Ok::<(int, int), SelectorError>((s, e)),
    ensures
        1 <= s <= e <= len,
{
}

/// Where the cursor lands after the buffer shrinks to `len` lines: clamped
/// to the final line, with a floor of line 1 for an empty buffer.
pub open spec fn clamped_line(cursor: int, len: int) -> int {
    if len == 0 {
        1
    } else if cursor > len {
        len
    } else {
        cursor
    }
}

/// The command engine: owns the buffer, cursor and clipboard.
pub struct Engine {
    pub buffer: Buffer,
    pub cursor: CursorLocator,
    pub clipboard: String,
    pub mode: Mode,
}

impl Engine {
    /// The engine's invariant: the cursor names a valid position, and a
    /// valid buffer line whenever the buffer has any.
    pub open spec fn wf(self) -> bool {
        &&& self.cursor.line >= 1
        &&& self.cursor.col >= 1
        &&& self.buffer.content@.len() > 0 ==> self.cursor.line <= self.buffer.content@.len()
    }
}

/// Law: a Global-wrapped Yank over the whole buffer (`%` with no end)
/// accumulates every line, ascending and newline-terminated, into one final
/// clipboard value, and touches nothing else.
pub proof fn lemma_global_yank_all(
    pre: Engine,
    cmd: Command,
    post: Engine,
    ev0: Seq<PrintEvent>,
    ev1: Seq<PrintEvent>,
    r: Result<Outcome, EditorError>,
)
    requires
        pre.buffer.content@.len() >= 1,
        cmd.selector == (Selector { start: Locator::All, end: None::<Locator> }),
        cmd.action matches Action::Global(inner) && *inner == Action::Yank,
        execute_post(pre, cmd, post, ev0, ev1, r),
    ensures
        post.clipboard@ == lines_text(
            pre.buffer.content@,
            1,
            pre.buffer.content@.len() as int,
        ),
        post.buffer == pre.buffer,
        post.cursor == pre.cursor,
        ev1 == ev0,
        r == Ok::<Outcome, EditorError>(Outcome::Continue),
{
    reveal_with_fuel(action_post, 2);
    let len = pre.buffer.content@.len() as int;
    assert(spec_resolve(cmd.selector, pre.cursor.line as int, len) == Ok::<
        (int, int),
        SelectorError,
    >((1, len)));
}

/// Law: a Global-wrapped Delete over the whole buffer (`%` with no end)
/// leaves the buffer empty and the cursor on line 1: every captured line is
/// deleted even as earlier deletions shift the later ones down.
pub proof fn lemma_global_delete_all(
    pre: Engine,
    cmd: Command,
    post: Engine,
    ev0: Seq<PrintEvent>,
    ev1: Seq<PrintEvent>,
    r: Result<Outcome, EditorError>,
)
    requires
        pre.buffer.content@.len() >= 1,
        cmd.selector == (Selector { start: Locator::All, end: None::<Locator> }),
        cmd.action matches Action::Global(inner) && *inner == Action::Delete,
        execute_post(pre, cmd, post, ev0, ev1, r),
    ensures
        post.buffer.content@.len() == 0,
        post.cursor.line == 1,
        ev1 == ev0,
        r == Ok::<Outcome, EditorError>(Outcome::Continue),
{
    reveal_with_fuel(action_post, 2);
    let len = pre.buffer.content@.len() as int;
    assert(spec_resolve(cmd.selector, pre.cursor.line as int, len) == Ok::<
        (int, int),
        SelectorError,
    >((1, len)));
    let orig = pre.buffer.content@;
    assert(post.buffer.content@ == orig.subrange(0, 0) + orig.subrange(len, len));
}

/// Law: executing Print over the whole buffer (`%` with no end) emits
/// exactly one event per line, numbered 1..=N ascending with the line text
/// unchanged, and leaves the engine state untouched.
pub proof fn lemma_print_all(
    pre: Engine,
    cmd: Command,
    post: Engine,
    ev0: Seq<PrintEvent>,
    ev1: Seq<PrintEvent>,
    r: Result<Outcome, EditorError>,
)
    requires
        pre.buffer.content@.len() >= 1,
        cmd.selector == (Selector { start: Locator::All, end: None::<Locator> }),
        cmd.action == Action::Print,
        execute_post(pre, cmd, post, ev0, ev1, r),
    ensures
        post == pre,
        r == Ok::<Outcome, EditorError>(Outcome::Continue),
        ev1.len() == ev0.len() + pre.buffer.content@.len(),
        forall|i: int| 0 <= i < ev0.len() ==> ev1[i] == ev0[i],
        forall|i: int|
            0 <= i < pre.buffer.content@.len() ==> #[trigger] ev1[ev0.len() + i].line_number
                == 1 + i && ev1[ev0.len() + i].text@ == pre.buffer.content@[i]@,
{
    let len = pre.buffer.content@.len() as int;
    assert(spec_resolve(cmd.selector, pre.cursor.line as int, len) == Ok::<
        (int, int),
        SelectorError,
    >((1, len)));
    assert(printed_range(pre.buffer.content@, 1, len, ev0, ev1));
}

/// `ev1` extends `ev0` with one event per line of `lines[s..=e]`
/// (1-based), ascending, each carrying its line number and text.
pub open spec fn printed_range(
    lines: Seq<String>,
    s: int,
    e: int,
    ev0: Seq<PrintEvent>,
    ev1: Seq<PrintEvent>,
) -> bool {
    &&& ev1.len() == ev0.len() + (e - s + 1)
    &&& forall|i: int| 0 <= i < ev0.len() ==> ev1[i] == ev0[i]
    &&& forall|i: int|
        0 <= i < e - s + 1 ==> #[trigger] ev1[ev0.len() + i].line_number == s + i
            && ev1[ev0.len() + i].text@ == lines[s - 1 + i]@
}

/// How one action, over the already-resolved range `s..=e`, relates the
/// engine state before (`pre`) and after (`post`), the print-event sink
/// before (`ev0`) and after (`ev1`), and the returned value.
pub open spec fn action_post(
    a: Action,
    s: int,
    e: int,
    pre: Engine,
    post: Engine,
    ev0: Seq<PrintEvent>,
    ev1: Seq<PrintEvent>,
    r: Result<Outcome, EditorError>,
) -> bool
    decreases a,
{
    match a {
        Action::Go => {
            &&& post.buffer == pre.buffer
            &&& post.clipboard == pre.clipboard
            &&& post.mode == pre.mode
            &&& post.cursor.line == e
            &&& post.cursor.col == 1
            &&& ev1 == ev0
            &&& r == Ok::<Outcome, EditorError>(Outcome::Continue)
        },
        Action::Print => {
            &&& post == pre
            &&& r == Ok::<Outcome, EditorError>(Outcome::Continue)
            &&& printed_range(pre.buffer.content@, s, e, ev0, ev1)
        },
        Action::Yank => {
            &&& post.buffer == pre.buffer
            &&& post.cursor == pre.cursor
            &&& post.mode == pre.mode
            &&& post.clipboard@ == lines_text(pre.buffer.content@, s, e)
            &&& ev1 == ev0
            &&& r == Ok::<Outcome, EditorError>(Outcome::Continue)
        },
        Action::Delete => {
            let orig = pre.buffer.content@;
            &&& post.buffer.content@ == orig.subrange(0, s - 1) + orig.subrange(
                e,
                orig.len() as int,
            )
            &&& post.buffer.filename == pre.buffer.filename
            &&& post.buffer.top_visible == pre.buffer.top_visible
            &&& post.cursor.line == clamped_line(
                pre.cursor.line as int,
                orig.len() - (e - s + 1),
            )
            &&& post.cursor.col == pre.cursor.col
            &&& post.clipboard == pre.clipboard
            &&& post.mode == pre.mode
            &&& ev1 == ev0
            &&& r == Ok::<Outcome, EditorError>(Outcome::Continue)
        },
        Action::Append => {
            &&& post == pre
            &&& ev1 == ev0
            &&& r == Err::<Outcome, EditorError>(
                EditorError::Engine(EngineError::NotImplemented),
            )
        },
        Action::Put => {
            let new = spec_split_lines(pre.clipboard@);
            let orig = pre.buffer.content@;
            &&& post.buffer.content@.len() == orig.len() + new.len()
            &&& forall|i: int| 0 <= i < e ==> post.buffer.content@[i] == orig[i]
            &&& forall|i: int|
                0 <= i < new.len() ==> #[trigger] post.buffer.content@[e + i]@ == new[i]
            &&& forall|i: int|
                e <= i < orig.len() ==> #[trigger] post.buffer.content@[i + new.len()]
                    == orig[i]
            &&& post.buffer.filename == pre.buffer.filename
            &&& post.buffer.top_visible == pre.buffer.top_visible
            &&& post.cursor == pre.cursor
            &&& post.clipboard == pre.clipboard
            &&& post.mode == pre.mode
            &&& ev1 == ev0
            &&& r == Ok::<Outcome, EditorError>(Outcome::Continue)
        },
        Action::Edit(f) => {
            &&& post == pre
            &&& ev1 == ev0
            &&& r matches Ok(Outcome::Edit(p)) && p@ == f@
        },
        Action::Write(opt) => {
            &&& post == pre
            &&& ev1 == ev0
            &&& match opt {
                Some(p) => r matches Ok(Outcome::Write { path, text }) && path@ == p@ && text@
                    == lines_text(pre.buffer.content@, s, e),
                None => match pre.buffer.filename {
                    Some(p) => r matches Ok(Outcome::Write { path, text }) && path@ == p@
                        && text@ == lines_text(pre.buffer.content@, s, e),
                    None => r == Err::<Outcome, EditorError>(
                        EditorError::Engine(EngineError::NoFilenameSpecified),
                    ),
                },
            }
        },
        Action::Quit => {
            &&& post == pre
            &&& ev1 == ev0
            &&& r == Ok::<Outcome, EditorError>(Outcome::Exit)
        },
        Action::Global(inner) => match *inner {
            Action::Go | Action::Print | Action::Yank | Action::Delete => action_post(
                *inner,
                s,
                e,
                pre,
                post,
                ev0,
                ev1,
                r,
            ),
            _ => {
                &&& post == pre
                &&& ev1 == ev0
                &&& r == Err::<Outcome, EditorError>(
                    EditorError::Engine(EngineError::NotImplemented),
                )
            },
        },
    }
}

/// What `Engine::execute` does: a failed resolution short-circuits with the
/// corresponding error and touches nothing; otherwise the action's own
/// relation holds over the resolved range.
pub open spec fn execute_post(
    pre: Engine,
    cmd: Command,
    post: Engine,
    ev0: Seq<PrintEvent>,
    ev1: Seq<PrintEvent>,
    r: Result<Outcome, EditorError>,
) -> bool {
    match spec_resolve(cmd.selector, pre.cursor.line as int, pre.buffer.content@.len() as int) {
        Err(se) => r == Err::<Outcome, EditorError>(EditorError::Selector(se)) && post == pre
            && ev1 == ev0,
        Ok(p) => action_post(cmd.action, p.0, p.1, pre, post, ev0, ev1, r),
    }
}

impl Engine {
    /// A fresh engine: empty buffer, cursor at (1,1), empty clipboard.
    pub fn new() -> (r: Engine)
        ensures
            r.wf(),
            r.buffer.filename is None,
            r.buffer.content@.len() == 0,
            r.buffer.top_visible == 0,
            r.cursor.line == 1,
            r.cursor.col == 1,
            r.clipboard@.len() == 0,
            r.mode is Normal,
    {
        Engine {
            buffer: Buffer::new(),
            cursor: CursorLocator::new(),
            clipboard: String::new(),
            mode: Mode::Normal,
        }
    }

    /// Install a freshly opened buffer and reset the cursor to (1,1), as a
    /// successful Edit must.
    pub fn replace_buffer(&mut self, buffer: Buffer)
        ensures
            final(self).wf(),
            final(self).buffer == buffer,
            final(self).cursor.line == 1,
            final(self).cursor.col == 1,
            final(self).clipboard == old(self).clipboard,
            final(self).mode == old(self).mode,
    {
        self.buffer = buffer;
        self.cursor = CursorLocator::new();
    }

    /// The text of lines `s..=e`, each newline-terminated.
    fn range_text(&self, s: usize, e: usize) -> (r: String)
        requires
            1 <= s <= e <= self.buffer.content@.len(),
        ensures
            r@ == lines_text(self.buffer.content@, s as int, e as int),
    {
        let mut acc = String::new();
        let count = e - s + 1;
        let mut i: usize = 0;
        while i < count
            invariant
                i <= count,
                count == e - s + 1,
                1 <= s <= e <= self.buffer.content@.len(),
                acc@ == lines_text(self.buffer.content@, s as int, s - 1 + i),
            decreases count - i,
        {
            let l = &self.buffer.content[s - 1 + i];
            acc.append(l.as_str());
            acc.append("\n");
            proof {
                reveal_strlit("\n");
                assert("\n"@ =~= seq!['\n']);
                lemma_lines_text_snoc(self.buffer.content@, s as int, s + i as int);
            }
            i = i + 1;
        }
        acc
    }

    /// Emit one `PrintEvent` per line of `s..=e`, ascending, into `events`.
    fn print_range(&self, s: usize, e: usize, events: &mut Vec<PrintEvent>)
        requires
            1 <= s <= e <= self.buffer.content@.len(),
        ensures
            printed_range(self.buffer.content@, s as int, e as int, old(events)@, final(events)@),
    {
        let count = e - s + 1;
        let mut i: usize = 0;
        while i < count
            invariant
                i <= count,
                count == e - s + 1,
                1 <= s <= e <= self.buffer.content@.len(),
                printed_range(self.buffer.content@, s as int, s - 1 + i, old(events)@, events@),
            decreases count - i,
        {
            let text = self.buffer.content[s - 1 + i].clone();
            let ghost before = events@;
            events.push(PrintEvent { line_number: s + i, text });
            i = i + 1;
            proof {
                assert forall|j: int|
                    0 <= j < i implies #[trigger] events@[old(events)@.len() + j].line_number
                    == s + j && events@[old(events)@.len() + j].text@
                    == self.buffer.content@[s - 1 + j]@ by {
                    if j < i - 1 {
                        assert(before[old(events)@.len() + j].line_number == s + j);
                        assert(events@[old(events)@.len() + j] == before[old(events)@.len()
                            + j]);
                    } else {
                        assert(events@[old(events)@.len() + j] == events@.last());
                    }
                }
            }
        }
    }

    /// Clamp the cursor line to the buffer, flooring at line 1.
    fn clamp_cursor(&mut self)
        ensures
            final(self).cursor.line == clamped_line(
                old(self).cursor.line as int,
                old(self).buffer.content@.len() as int,
            ),
            final(self).cursor.col == old(self).cursor.col,
            final(self).buffer == old(self).buffer,
            final(self).clipboard == old(self).clipboard,
            final(self).mode == old(self).mode,
    {
        let len = self.buffer.content.len();
        if len == 0 {
            self.cursor.line = 1;
        } else if self.cursor.line > len {
            self.cursor.line = len;
        }
    }

    /// Apply `inner` independently to every line of `s..=e`, ascending, on
    /// the snapshot of line numbers captured before any mutation. Only the
    /// non-recursive buffer-local actions broadcast; anything else is
    /// refused rather than guessed at.
    fn execute_global(
        &mut self,
        inner: &Action,
        s: usize,
        e: usize,
        events: &mut Vec<PrintEvent>,
    ) -> (r: Result<Outcome, EditorError>)
        requires
            old(self).wf(),
            1 <= s <= e <= old(self).buffer.content@.len(),
        ensures
            final(self).wf(),
            match *inner {
                Action::Go | Action::Print | Action::Yank | Action::Delete => action_post(
                    *inner,
                    s as int,
                    e as int,
                    *old(self),
                    *final(self),
                    old(events)@,
                    final(events)@,
                    r,
                ),
                _ => *final(self) == *old(self) && final(events)@ == old(events)@ && r == Err::<
                    Outcome,
                    EditorError,
                >(EditorError::Engine(EngineError::NotImplemented)),
            },
    {
        match inner {
            Action::Go => {
                self.global_go(s, e);
                Ok(Outcome::Continue)
            },
            Action::Print => {
                // Print mutates nothing, so its per-line broadcast emits
                // exactly the events of printing the whole range.
                self.print_range(s, e, events);
                Ok(Outcome::Continue)
            },
            Action::Yank => {
                self.global_yank(s, e);
                Ok(Outcome::Continue)
            },
            Action::Delete => {
                self.global_delete(s, e);
                Ok(Outcome::Continue)
            },
            _ => Err(EditorError::Engine(EngineError::NotImplemented)),
        }
    }

    /// Per-line broadcast of Go: the cursor visits every line of the range
    /// in order and ends on the last.
    fn global_go(&mut self, s: usize, e: usize)
        requires
            1 <= s <= e <= old(self).buffer.content@.len(),
        ensures
            final(self).buffer == old(self).buffer,
            final(self).clipboard == old(self).clipboard,
            final(self).mode == old(self).mode,
            final(self).cursor.line == e,
            final(self).cursor.col == 1,
    {
        let count = e - s + 1;
        let mut i: usize = 0;
        while i < count
            invariant
                i <= count,
                count == e - s + 1,
                1 <= s <= e,
                self.buffer == old(self).buffer,
                self.clipboard == old(self).clipboard,
                self.mode == old(self).mode,
                i == 0 ==> self.cursor == old(self).cursor,
                i >= 1 ==> self.cursor.line == s - 1 + i && self.cursor.col == 1,
            decreases count - i,
        {
            self.cursor = CursorLocator { line: s + i, col: 1 };
            i = i + 1;
        }
    }

    /// Per-line broadcast of Yank: each application appends its one-line
    /// yank, in ascending order, into one final clipboard value.
    fn global_yank(&mut self, s: usize, e: usize)
        requires
            1 <= s <= e <= old(self).buffer.content@.len(),
        ensures
            final(self).buffer == old(self).buffer,
            final(self).cursor == old(self).cursor,
            final(self).mode == old(self).mode,
            final(self).clipboard@ == lines_text(old(self).buffer.content@, s as int, e as int),
    {
        self.clipboard = String::new();
        let count = e - s + 1;
        let mut i: usize = 0;
        while i < count
            invariant
                i <= count,
                count == e - s + 1,
                1 <= s <= e <= self.buffer.content@.len(),
                self.buffer == old(self).buffer,
                self.cursor == old(self).cursor,
                self.mode == old(self).mode,
                self.clipboard@ == lines_text(self.buffer.content@, s as int, s - 1 + i),
            decreases count - i,
        {
            let l = &self.buffer.content[s - 1 + i];
            self.clipboard.append(l.as_str());
            self.clipboard.append("\n");
            proof {
                reveal_strlit("\n");
                assert("\n"@ =~= seq!['\n']);
                lemma_lines_text_snoc(self.buffer.content@, s as int, s + i as int);
            }
            i = i + 1;
        }
    }

    /// Per-line broadcast of Delete: the line numbers of the range are
    /// captured up front; because each deletion shifts later lines down,
    /// each captured number is re-targeted by the deletions done so far.
    fn global_delete(&mut self, s: usize, e: usize)
        requires
            old(self).wf(),
            1 <= s <= e <= old(self).buffer.content@.len(),
        ensures
            final(self).wf(),
            final(self).buffer.content@ == old(self).buffer.content@.subrange(0, s - 1) + old(
                self,
            ).buffer.content@.subrange(e as int, old(self).buffer.content@.len() as int),
            final(self).buffer.filename == old(self).buffer.filename,
            final(self).buffer.top_visible == old(self).buffer.top_visible,
            final(self).cursor.line == clamped_line(
                old(self).cursor.line as int,
                old(self).buffer.content@.len() - (e - s + 1),
            ),
            final(self).cursor.col == old(self).cursor.col,
            final(self).clipboard == old(self).clipboard,
            final(self).mode == old(self).mode,
    {
        let ghost orig = old(self).buffer.content@;
        let count = e - s + 1;
        let mut deleted: usize = 0;
        let mut i: usize = 0;
        while i < count
            invariant
                i <= count,
                count == e - s + 1,
                1 <= s <= e <= orig.len(),
                deleted == i,
                old(self).wf(),
                self.buffer.content@ == orig.take(s - 1) + orig.skip(s - 1 + i),
                self.buffer.filename == old(self).buffer.filename,
                self.buffer.top_visible == old(self).buffer.top_visible,
                self.clipboard == old(self).clipboard,
                self.mode == old(self).mode,
                self.cursor.col == old(self).cursor.col,
                i == 0 ==> self.cursor == old(self).cursor,
                i >= 1 ==> self.cursor.line == clamped_line(
                    old(self).cursor.line as int,
                    orig.len() - i,
                ),
            decreases count - i,
        {
            let captured = s + i;
            let target = captured - deleted;
            assert(target == s);
            self.buffer.delete(target, target);
            deleted = deleted + 1;
            self.clamp_cursor();
            i = i + 1;
            proof {
                assert(self.buffer.content@ =~= orig.take(s - 1) + orig.skip(s - 1 + i));
            }
        }
        proof {
            assert(orig.take(s - 1) + orig.skip(s - 1 + count) =~= orig.subrange(0, s - 1)
                + orig.subrange(e as int, orig.len() as int));
        }
    }

    /// Build the Write request: the explicit path if given, else the
    /// buffer's own, else refuse; the text is the resolved range, each line
    /// newline-terminated.
    fn write_request(&self, s: usize, e: usize, explicit: &Option<String>) -> (r: Result<
        Outcome,
        EditorError,
    >)
        requires
            1 <= s <= e <= self.buffer.content@.len(),
        ensures
            match explicit {
                Some(p) => r matches Ok(Outcome::Write { path, text }) && path@ == p@ && text@
                    == lines_text(self.buffer.content@, s as int, e as int),
                None => match self.buffer.filename {
                    Some(p) => r matches Ok(Outcome::Write { path, text }) && path@ == p@
                        && text@ == lines_text(self.buffer.content@, s as int, e as int),
                    None => r == Err::<Outcome, EditorError>(
                        EditorError::Engine(EngineError::NoFilenameSpecified),
                    ),
                },
            },
    {
        let path: String = match explicit {
            Some(p) => p.clone(),
            None => match &self.buffer.filename {
                Some(p) => p.clone(),
                None => {
                    return Err(EditorError::Engine(EngineError::NoFilenameSpecified));
                },
            },
        };
        let text = self.range_text(s, e);
        Ok(Outcome::Write { path, text })
    }

    /// Execute one parsed command: resolve its selector, then apply its
    /// action. A resolution failure returns the corresponding error and
    /// mutates nothing. Print events go into `events`; `Edit` and `Write`
    /// come back as requests for the caller, which owns all file work.
    pub fn execute(&mut self, command: &Command, events: &mut Vec<PrintEvent>) -> (r: Result<
        Outcome,
        EditorError,
    >)
        requires
            old(self).wf(),
        ensures
            final(self).wf(),
            execute_post(*old(self), *command, *final(self), old(events)@, final(events)@, r),
    {
        let len = self.buffer.content.len();
        let (s, e) = match resolve(&command.selector, self.cursor.line, len) {
            Ok(p) => p,
            Err(er) => {
                return Err(EditorError::Selector(er));
            },
        };
        match &command.action {
            Action::Go => {
                self.cursor = CursorLocator { line: e, col: 1 };
                Ok(Outcome::Continue)
            },
            Action::Print => {
                self.print_range(s, e, events);
                Ok(Outcome::Continue)
            },
            Action::Yank => {
                let text = self.range_text(s, e);
                self.clipboard = text;
                Ok(Outcome::Continue)
            },
            Action::Delete => {
                self.buffer.delete(s, e);
                self.clamp_cursor();
                Ok(Outcome::Continue)
            },
            Action::Append => Err(EditorError::Engine(EngineError::NotImplemented)),
            Action::Put => {
                let text = self.clipboard.clone();
                self.buffer.insert(e, text.as_str());
                Ok(Outcome::Continue)
            },
            Action::Edit(f) => Ok(Outcome::Edit(f.clone())),
            Action::Write(opt) => self.write_request(s, e, opt),
            Action::Quit => Ok(Outcome::Exit),
            Action::Global(inner) => self.execute_global(inner, s, e, events),
        }
    }
}

} // verus!
