//! Error values for the parser: a source span with a caret rendering, and the
//! error kinds that a parse can end in.
use vstd::prelude::*;
use crate::utils;

verus! {

/// A precise source location: originating file (if any), 1-based line and
/// column, and the text of the offending line.
#[derive(Debug, Clone)]
pub struct SourceSpan {
    pub path: Option<String>,
    pub line: usize,
    pub column: usize,
    pub line_text: String,
}

/// Caret line that `display` puts under the source line: one cell per
/// character before the failing column, tabs expanded to the next multiple
/// of eight columns, then a `^`.
pub open spec fn spec_pointer(text: Seq<char>, i: int, stop: int, visual: int) -> Seq<char>
    decreases stop - i,
{
    if i >= stop || i >= text.len() {
        seq!['^']
    } else if text[i] == '\t' {
        let next = ((visual / 8) + 1) * 8;
        utils::repeat_char(' ', (next - visual) as nat) + spec_pointer(text, i + 1, stop, next)
    } else {
        seq![' '] + spec_pointer(text, i + 1, stop, visual + 1)
    }
}

/// The location header of `display`.
pub open spec fn spec_span_location(path: Option<Seq<char>>, line: int, column: int) -> Seq<char> {
    match path {
        Some(p) => "File \""@ + p + "\", line "@ + utils::spec_u64_text(line as nat) + ", column "@
            + utils::spec_u64_text(column as nat) + ":"@,
        None => "Line "@ + utils::spec_u64_text(line as nat) + ", column "@ + utils::spec_u64_text(
            column as nat,
        ) + ":"@,
    }
}

/// Everything `display` returns: header, offending line, caret line.
pub open spec fn spec_span_display(
    path: Option<Seq<char>>,
    line: int,
    column: int,
    line_text: Seq<char>,
) -> Seq<char> {
    spec_span_location(path, line, column) + seq!['\n'] + line_text + seq!['\n'] + spec_pointer(
        line_text,
        0,
        if column == 0 {
            0
        } else {
            column - 1
        },
        0,
    )
}

impl SourceSpan {
    pub open spec fn path_view(&self) -> Option<Seq<char>> {
        match self.path {
            Some(ref p) => Some(p@),
            None => None,
        }
    }

    /// Renders the location, the source line, and a caret marker under the
    /// failing column, tabs expanded to eight-column stops.
    pub fn display(&self) -> (r: String)
        ensures
            r@ == spec_span_display(
                self.path_view(),
                self.line as int,
                self.column as int,
                self.line_text@,
            ),
    {
        let mut out: String = String::new();
        match &self.path {
            Some(p) => {
                out.append("File \"");
                out.append(p.as_str());
                out.append("\", line ");
                let lt = utils::u64_text(self.line as u64);
                out.append(lt.as_str());
                out.append(", column ");
                let ct = utils::u64_text(self.column as u64);
                out.append(ct.as_str());
                out.append(":");
            },
            None => {
                out.append("Line ");
                let lt = utils::u64_text(self.line as u64);
                out.append(lt.as_str());
                out.append(", column ");
                let ct = utils::u64_text(self.column as u64);
                out.append(ct.as_str());
                out.append(":");
            },
        }
        out.push('\n');
        out.append(self.line_text.as_str());
        out.push('\n');
        let stop: usize = if self.column == 0 {
            0
        } else {
            self.column - 1
        };
        let text = utils::to_char_vec(self.line_text.as_str());
        let mut ptr: String = String::new();
        let mut i: usize = 0;
        let mut visual: u128 = 0;
        while i < stop && i < text.len()
            invariant
                text@ == self.line_text@,
                i <= text@.len(),
                0 <= visual <= 8 * (i as int) + 8,
                ptr@ + spec_pointer(text@, i as int, stop as int, visual as int) == spec_pointer(
                    text@,
                    0,
                    stop as int,
                    0,
                ),
            decreases stop - i,
        {
            let ghost pre = ptr@;
            if text[i] == '\t' {
                let next: u128 = ((visual / 8) + 1) * 8;
                let pad: usize = (next - visual) as usize;
                let mut k: usize = 0;
                while k < pad
                    invariant
                        k <= pad,
                        ptr@ == pre + utils::repeat_char(' ', k as nat),
                    decreases pad - k,
                {
                    ptr.push(' ');
                    proof {
                        assert(ptr@ =~= pre + utils::repeat_char(' ', (k + 1) as nat));
                    }
                    k = k + 1;
                }
                proof {
                    assert(ptr@ + spec_pointer(text@, i + 1, stop as int, next as int)
                        =~= pre + spec_pointer(text@, i as int, stop as int, visual as int));
                }
                visual = next;
            } else {
                ptr.push(' ');
                proof {
                    assert(seq![' '] =~= utils::repeat_char(' ', 1nat));
                    assert(ptr@ + spec_pointer(text@, i + 1, stop as int, visual as int + 1)
                        =~= pre + spec_pointer(text@, i as int, stop as int, visual as int));
                }
                visual = visual + 1;
            }
            i = i + 1;
        }
        ptr.push('^');
        proof {
            assert(ptr@ =~= spec_pointer(text@, 0, stop as int, 0));
        }
        out.append(ptr.as_str());
        out
    }
}

/// The error kinds a parse can end in: a filesystem failure reported by the
/// caller, a malformed line or literal (optionally with its source span), a
/// reference to a struct that was never declared, and a primary key missing
/// from the target struct's index.
#[derive(Debug)]
pub enum TycoError {
    Io(String),
    Parse { message: String, span: Option<SourceSpan> },
    UnknownStruct(String),
    Reference(String),
}

impl TycoError {
    /// A parse error carrying a message and no span.
    pub fn parse(msg: String) -> (r: TycoError)
        ensures
            r matches TycoError::Parse { message, span } && message@ == msg@ && span is None,
    {
        TycoError::Parse { message: msg, span: None }
    }

    /// A parse error carrying a message and a span.
    pub fn parse_with_span(msg: String, span: SourceSpan) -> (r: TycoError)
        ensures
            r matches TycoError::Parse { message, span: sp } && message@ == msg@ && sp is Some,
    {
        TycoError::Parse { message: msg, span: Some(span) }
    }

    /// Attaches a span to a parse error; other kinds pass through unchanged.
    pub fn with_span(self, span: SourceSpan) -> (r: TycoError)
        ensures
            self matches TycoError::Parse { message, span: _ } ==> (r matches TycoError::Parse {
                message: m2,
                span: sp2,
            } && m2 == message && sp2 is Some),
            !(self is Parse) ==> r == self,
    {
        match self {
            TycoError::Parse { message, span: _ } => TycoError::Parse {
                message,
                span: Some(span),
            },
            other => other,
        }
    }

    /// True of the `Parse` kind; lets callers outside the crate branch on it.
    pub fn is_parse(&self) -> (r: bool)
        ensures
            r == (*self is Parse),
    {
        match self {
            TycoError::Parse { .. } => true,
            _ => false,
        }
    }
}

} // verus!
