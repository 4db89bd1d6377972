use vstd::prelude::*;

use crate::text::{chars_of, string_of};

verus! {

/// What `strip_ansi_escapes::strip_str` leaves of `s`: its text without terminal escape
/// sequences.
pub uninterp spec fn ansi_stripped(s: Seq<char>) -> Seq<char>;

/// Relies on `strip_ansi_escapes::strip_str`, which removes the escape sequences from a
/// string; the result depends on the string alone.
#[verifier::external_body]
fn strip_ansi(s: &str) -> (r: String)
    ensures
        r@ == ansi_stripped(s@),
{
    strip_ansi_escapes::strip_str(s)
}

/// The marker that ends a truncated label.
pub open spec fn ellipsis() -> Seq<char> {
    seq!['.', '.', '.']
}

/// `s` cut to `max_len` characters: a longer string keeps `max_len - 3` of them and ends
/// in an ellipsis.
pub open spec fn truncated(s: Seq<char>, max_len: nat) -> Seq<char> {
    if s.len() > max_len {
        s.subrange(0, max_len - 3) + ellipsis()
    } else {
        s
    }
}

/// Newlines, carriage returns and tabs each become a space.
pub open spec fn flat(s: Seq<char>) -> Seq<char> {
    s.map_values(|c: char| if c == '\n' || c == '\r' || c == '\t' { ' ' } else { c })
}

/// `s` cut to `max_len` characters, the last three of which are then `...`.
pub fn truncate_string(s: &str, max_len: usize) -> (r: String)
    requires
        s@.len() > max_len ==> max_len >= 3,
    ensures
        r@ == truncated(s@, max_len as nat),
{
    let cs = chars_of(s);
    if cs.len() > max_len {
        let mut head: Vec<char> = Vec::new();
        let mut i: usize = 0;
        while i < max_len - 3
            invariant
                max_len >= 3,
                i <= max_len - 3,
                max_len < cs@.len(),
                head@ == cs@.subrange(0, i as int),
            decreases max_len - 3 - i,
        {
            head.push(cs[i]);
            i += 1;
            assert(head@ =~= cs@.subrange(0, i as int));
        }
        head.push('.');
        head.push('.');
        head.push('.');
        assert(head@ =~= cs@.subrange(0, max_len - 3) + ellipsis());
        string_of(head.as_slice())
    } else {
        string_of(cs.as_slice())
    }
}

/// The label as a row shows it: line breaks and tabs flattened to spaces, escape sequences
/// removed, and the rest cut to `max_len` characters.
pub fn sanitize_label(label: &str, max_len: usize) -> (r: String)
    requires
        max_len >= 3,
    ensures
        r@ == truncated(ansi_stripped(flat(label@)), max_len as nat),
{
    let cs = chars_of(label);
    let mut out: Vec<char> = Vec::new();
    let mut i: usize = 0;
    while i < cs.len()
        invariant
            i <= cs@.len(),
            cs@ == label@,
            out@ == flat(cs@.subrange(0, i as int)),
        decreases cs@.len() - i,
    {
        let c = cs[i];
        let d = if c == '\n' || c == '\r' || c == '\t' {
            ' '
        } else {
            c
        };
        out.push(d);
        i += 1;
        assert(out@ =~= flat(cs@.subrange(0, i as int)));
    }
    assert(cs@.subrange(0, i as int) =~= cs@);
    let flattened = string_of(out.as_slice());
    let stripped = strip_ansi(flattened.as_str());
    truncate_string(stripped.as_str(), max_len)
}

/// How many characters of a row are left for its label on a terminal `columns` wide: ten
/// go to the highlight and choice markers and a margin, and at least three remain.
pub open spec fn row_label_width(columns: u16) -> nat {
    if columns >= 13 {
        (columns - 10) as nat
    } else {
        3
    }
}

/// The width that a label may take in a row on a terminal `columns` wide.
pub fn label_width(columns: u16) -> (r: usize)
    ensures
        r == row_label_width(columns),
{
    if columns >= 13 {
        (columns - 10) as usize
    } else {
        3
    }
}

/// One row of the selector: a highlight marker, a choice box and the label.
pub open spec fn row_text(highlighted: bool, chosen: bool, label: Seq<char>) -> Seq<char> {
    (if highlighted {
        seq!['>', ' ']
    } else {
        seq![' ', ' ']
    }) + (if chosen {
        seq!['[', 'x', ']', ' ']
    } else {
        seq!['[', ' ', ']', ' ']
    }) + label
}

/// The text of a selector row whose label is `label`, prepared for a terminal row of
/// `columns` columns.
pub fn format_row(highlighted: bool, chosen: bool, label: &str, columns: u16) -> (r: String)
    ensures
        r@ == row_text(
            highlighted,
            chosen,
            truncated(ansi_stripped(flat(label@)), row_label_width(columns)),
        ),
{
    let mut out: Vec<char> = Vec::new();
    if highlighted {
        out.push('>');
    } else {
        out.push(' ');
    }
    out.push(' ');
    out.push('[');
    if chosen {
        out.push('x');
    } else {
        out.push(' ');
    }
    out.push(']');
    out.push(' ');
    let body = chars_of(sanitize_label(label, label_width(columns)).as_str());
    let ghost head = out@;
    let mut i: usize = 0;
    while i < body.len()
        invariant
            i <= body@.len(),
            out@ == head + body@.subrange(0, i as int),
        decreases body@.len() - i,
    {
        out.push(body[i]);
        i += 1;
        assert(out@ =~= head + body@.subrange(0, i as int));
    }
    assert(body@.subrange(0, i as int) =~= body@);
    assert(head =~= (if highlighted {
        seq!['>', ' ']
    } else {
        seq![' ', ' ']
    }) + (if chosen {
        seq!['[', 'x', ']', ' ']
    } else {
        seq!['[', ' ', ']', ' ']
    }));
    string_of(out.as_slice())
}

/// How many columns `prompt` takes on the terminal: its characters, escape sequences left
/// out.
pub fn display_width(prompt: &str) -> (r: usize)
    ensures
        r == ansi_stripped(prompt@).len(),
{
    let visible = strip_ansi(prompt);
    chars_of(visible.as_str()).len()
}

/// The terminal column of the cursor: the prompt's width plus the cursor's index, capped
/// at the largest column the terminal can address.
pub fn cursor_column(prompt: &str, cursor: usize) -> (r: u16)
    ensures
        r == if ansi_stripped(prompt@).len() + cursor <= u16::MAX {
            (ansi_stripped(prompt@).len() + cursor) as u16
        } else {
            u16::MAX
        },
{
    let w = display_width(prompt);
    if w <= u16::MAX as usize && cursor <= u16::MAX as usize - w {
        (w + cursor) as u16
    } else {
        u16::MAX
    }
}

} // verus!
