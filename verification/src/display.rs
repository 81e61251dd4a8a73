//! The texts that the screen shows: one line for each binding, and the status
//! line.

use crate::binding::{BindingView, PortBinding};
use crate::decimal::{decimal, decimal_string};
use vstd::prelude::*;

verus! {

/// `count` spaces.
pub open spec fn spaces(count: nat) -> Seq<char> {
    Seq::new(count, |i: int| ' ')
}

/// `text`, with spaces behind it to make `width` characters where it has
/// fewer.
pub open spec fn padded_right(text: Seq<char>, width: nat) -> Seq<char> {
    if text.len() >= width {
        text
    } else {
        text + spaces((width - text.len()) as nat)
    }
}

/// `text`, with spaces before it to make `width` characters where it has
/// fewer.
pub open spec fn padded_left(text: Seq<char>, width: nat) -> Seq<char> {
    if text.len() >= width {
        text
    } else {
        spaces((width - text.len()) as nat) + text
    }
}

/// The line that shows a binding: a colon and the port, set left in six
/// columns; the transport in four; the process identifier, set right in six;
/// then the name of the process.
pub open spec fn row_text_of(binding: BindingView) -> Seq<char> {
    ":"@ + padded_right(decimal(binding.port), 6) + " "@ + padded_right(
        binding.protocol.label_text(),
        4,
    ) + " "@ + padded_left(decimal(binding.pid), 6) + "  "@ + binding.name
}

/// What each key does, in short.
pub open spec fn key_legend() -> Seq<char> {
    "\u{2191}/\u{2193}:Navigate  Enter/d:Kill  r:Refresh  q:Quit"@
}

/// The status line: the message, where there is one, a bar, and the key
/// legend.
pub open spec fn status_line_of(message: Option<Seq<char>>) -> Seq<char> {
    match message {
        Some(text) => text + " | "@ + key_legend(),
        None => key_legend(),
    }
}

/// Writes the spaces that `text` of `len` characters lacks to `width`.
fn push_padding(out: &mut String, len: usize, width: usize)
    ensures
        final(out)@ == old(out)@ + if len >= width {
            Seq::<char>::empty()
        } else {
            spaces((width - len) as nat)
        },
{
    proof {
        reveal_strlit(" ");
    }
    let mut at: usize = len;
    assert(out@ == old(out)@ + spaces(0));
    while at < width
        invariant
            len <= at,
            len < width ==> at <= width,
            len >= width ==> at == len,
            " "@ == seq![' '],
            out@ == old(out)@ + spaces((at - len) as nat),
        decreases width - at,
    {
        out.append(" ");
        at += 1;
        assert(out@ == old(out)@ + spaces((at - len) as nat));
    }
    assert(spaces(0) =~= Seq::<char>::empty());
}

/// The line that shows `binding` in the list.
pub fn row_text(binding: &PortBinding) -> (row: String)
    ensures
        row@ == row_text_of(binding@),
{
    let port = decimal_string(binding.port() as u64);
    let label = binding.protocol().label();
    let pid = decimal_string(binding.pid() as u64);
    let mut row = String::new();
    row.append(":");
    row.append(port.as_str());
    push_padding(&mut row, port.as_str().unicode_len(), 6);
    row.append(" ");
    row.append(label);
    push_padding(&mut row, label.unicode_len(), 4);
    row.append(" ");
    let ghost before = row@;
    push_padding(&mut row, pid.as_str().unicode_len(), 6);
    row.append(pid.as_str());
    assert(row@ == before + padded_left(decimal(binding@.pid), 6));
    row.append("  ");
    row.append(binding.name());
    assert(row@ == row_text_of(binding@));
    row
}

/// The status line for the last message.
pub fn status_line(message: Option<&str>) -> (line: String)
    ensures
        line@ == status_line_of(
            match message {
                Some(text) => Some(text@),
                None => None,
            },
        ),
{
    let mut line = String::new();
    match message {
        Some(text) => {
            line.append(text);
            line.append(" | ");
        },
        None => {},
    }
    line.append("\u{2191}/\u{2193}:Navigate  Enter/d:Kill  r:Refresh  q:Quit");
    assert(line@ == status_line_of(
        match message {
            Some(text) => Some(text@),
            None => None,
        },
    ));
    line
}

} // verus!
