//! The plain-text form of a diagnostic, printed when rendering it fails.
use crate::text::push_str;
use vstd::prelude::*;

verus! {

broadcast use {vstd::std_specs::vec::group_vec_axioms, vstd::seq::group_seq_axioms};

/// How severe a diagnostic is.
#[derive(Clone, Copy, Debug, PartialEq, Eq, Structural, PartialOrd, Ord, Hash)]
pub enum ReportSeverity {
    /// An unexpected bug.
    Bug,
    /// An error.
    Error,
    /// A warning.
    Warning,
    /// A note.
    Note,
    /// A help message.
    Help,
}

/// The word a severity is printed as.
pub open spec fn severity_text(s: ReportSeverity) -> Seq<char> {
    match s {
        ReportSeverity::Bug => "BUG"@,
        ReportSeverity::Error => "Error"@,
        ReportSeverity::Warning => "Warning"@,
        ReportSeverity::Note => "Note"@,
        ReportSeverity::Help => "Help"@,
    }
}

/// The strings as character sequences.
pub open spec fn texts(s: Seq<String>) -> Seq<Seq<char>> {
    s.map_values(|t: String| t@)
}

/// One line per label: its message, then that its place is unknown.
pub open spec fn labels_text(s: Seq<Seq<char>>) -> Seq<char>
    decreases s.len(),
{
    if s.len() == 0 {
        Seq::empty()
    } else {
        labels_text(s.drop_last()) + "   "@ + s.last() + " at <Unknown>\n"@
    }
}

/// One line per note, after ` = `.
pub open spec fn notes_text(s: Seq<Seq<char>>) -> Seq<char>
    decreases s.len(),
{
    if s.len() == 0 {
        Seq::empty()
    } else {
        notes_text(s.drop_last()) + " = "@ + s.last() + "\n"@
    }
}

/// The plain-text form of a diagnostic: a heading line, then the severity, the code in
/// brackets (if any) and the message on one line, then the labels and the notes.
pub open spec fn fallback_text(
    severity: ReportSeverity,
    code: Option<Seq<char>>,
    message: Seq<char>,
    labels: Seq<Seq<char>>,
    notes: Seq<Seq<char>>,
) -> Seq<char> {
    "Original Diagnostic:\n"@ + severity_text(severity) + match code {
        Some(c) => " ["@ + c + "]"@,
        None => Seq::empty(),
    } + ": "@ + message + "\n"@ + labels_text(labels) + notes_text(notes)
}

fn push_severity(out: &mut String, severity: ReportSeverity)
    ensures
        final(out)@ == old(out)@ + severity_text(severity),
{
    match severity {
        ReportSeverity::Bug => push_str(out, "BUG"),
        ReportSeverity::Error => push_str(out, "Error"),
        ReportSeverity::Warning => push_str(out, "Warning"),
        ReportSeverity::Note => push_str(out, "Note"),
        ReportSeverity::Help => push_str(out, "Help"),
    }
}

fn push_lines(out: &mut String, lines: &Vec<String>, before: &str, after: &str)
    ensures
        before@ == "   "@ && after@ == " at <Unknown>\n"@ ==> final(out)@ == old(out)@ + labels_text(
            texts(lines@),
        ),
        before@ == " = "@ && after@ == "\n"@ ==> final(out)@ == old(out)@ + notes_text(texts(lines@)),
{
    let mut i: usize = 0;
    assert(texts(lines@).take(0) =~= Seq::<Seq<char>>::empty());
    assert(old(out)@ + Seq::<char>::empty() =~= old(out)@);
    while i < lines.len()
        invariant
            i <= lines@.len(),
            before@ == "   "@ && after@ == " at <Unknown>\n"@ ==> out@ == old(out)@ + labels_text(
                texts(lines@).take(i as int),
            ),
            before@ == " = "@ && after@ == "\n"@ ==> out@ == old(out)@ + notes_text(
                texts(lines@).take(i as int),
            ),
        decreases lines@.len() - i,
    {
        assert(texts(lines@).take(i + 1).drop_last() =~= texts(lines@).take(i as int));
        assert(texts(lines@).take(i + 1).last() == lines@[i as int]@);
        push_str(out, before);
        push_str(out, lines[i].as_str());
        push_str(out, after);
        assert(before@ == "   "@ && after@ == " at <Unknown>\n"@ ==> out@ =~= old(out)@ + labels_text(
            texts(lines@).take(i + 1),
        ));
        assert(before@ == " = "@ && after@ == "\n"@ ==> out@ =~= old(out)@ + notes_text(
            texts(lines@).take(i + 1),
        ));
        i += 1;
    }
    assert(texts(lines@).take(lines@.len() as int) =~= texts(lines@));
}

/// The plain-text form of a diagnostic, for when it cannot be rendered: the heading
/// `Original Diagnostic:`, the severity with the code in brackets and the message, each
/// label's message `at <Unknown>`, and each note after ` = `, one per line.
pub fn fallback_report(
    severity: ReportSeverity,
    code: Option<&str>,
    message: &str,
    labels: &Vec<String>,
    notes: &Vec<String>,
) -> (r: String)
    ensures
        r@ == fallback_text(
            severity,
            match code {
                Some(c) => Some(c@),
                None => None,
            },
            message@,
            texts(labels@),
            texts(notes@),
        ),
{
    let mut out = String::new();
    push_str(&mut out, "Original Diagnostic:\n");
    push_severity(&mut out, severity);
    match code {
        Some(c) => {
            push_str(&mut out, " [");
            push_str(&mut out, c);
            push_str(&mut out, "]");
        },
        None => {},
    }
    push_str(&mut out, ": ");
    push_str(&mut out, message);
    push_str(&mut out, "\n");
    proof {
        reveal_strlit("   ");
        reveal_strlit(" at <Unknown>\n");
        reveal_strlit(" = ");
        reveal_strlit("\n");
    }
    push_lines(&mut out, labels, "   ", " at <Unknown>\n");
    push_lines(&mut out, notes, " = ", "\n");
    assert(out@ =~= fallback_text(
        severity,
        match code {
            Some(c) => Some(c@),
            None => None,
        },
        message@,
        texts(labels@),
        texts(notes@),
    ));
    out
}

} // verus!
