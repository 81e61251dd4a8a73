//! Reading the report of a socket listing utility.
//!
//! The report is a table: a header line, then one line for each listening
//! socket. Its columns are separated by white space. The first column names
//! the process, the second holds its identifier, the fifth and the eighth may
//! name the transport, and the ninth holds the address, which ends in a colon
//! and the port.

use crate::binding::{views, BindingView, PortBinding, Protocol};
use crate::decimal::{parse_u16, parse_u32, parse_unsigned};
use crate::scan_laws::{ascending_by_port, distinct_pids, lemma_scan_shape, ports_in_range};
use crate::text::{
    chars_of, contains, contains_text, field_spans, fields_of, line_end, line_len, lines_of,
    spans_in,
};
use std::collections::HashSet;
use vstd::prelude::*;
use vstd::slice::slice_subrange;

verus! {

/// How many columns a line needs to describe a socket.
pub const COLUMNS: usize = 9;

/// The name of the listing utility.
pub const SCAN_PROGRAM: &'static str = "lsof";

/// What the listing utility is handed: the internet sockets of TCP and of
/// UDP, of TCP those that listen, with ports and hosts as numbers.
pub fn scan_arguments() -> (arguments: Vec<&'static str>)
    ensures
        arguments@.len() == 5,
        arguments@[0]@ == "-iTCP"@,
        arguments@[1]@ == "-iUDP"@,
        arguments@[2]@ == "-sTCP:LISTEN"@,
        arguments@[3]@ == "-P"@,
        arguments@[4]@ == "-n"@,
{
    vec!["-iTCP", "-iUDP", "-sTCP:LISTEN", "-P", "-n"]
}

/// The word that marks a TCP socket.
pub open spec fn tcp_word() -> Seq<char> {
    seq!['T', 'C', 'P']
}

/// The word that marks a UDP socket.
pub open spec fn udp_word() -> Seq<char> {
    seq!['U', 'D', 'P']
}

/// The transport that two columns name: TCP where either holds `TCP`;
/// otherwise UDP where either holds `UDP`; otherwise unknown. Letter case
/// counts.
pub open spec fn protocol_of(first: Seq<char>, second: Seq<char>) -> Protocol {
    if contains_text(first, tcp_word()) || contains_text(second, tcp_word()) {
        Protocol::Tcp
    } else if contains_text(first, udp_word()) || contains_text(second, udp_word()) {
        Protocol::Udp
    } else {
        Protocol::Unknown
    }
}

/// The transport that two columns name.
pub fn classify(first: &[char], second: &[char]) -> (protocol: Protocol)
    ensures
        protocol == protocol_of(first@, second@),
{
    let tcp: Vec<char> = vec!['T', 'C', 'P'];
    let udp: Vec<char> = vec!['U', 'D', 'P'];
    assert(tcp@ == tcp_word());
    assert(udp@ == udp_word());
    if contains(first, tcp.as_slice()) || contains(second, tcp.as_slice()) {
        Protocol::Tcp
    } else if contains(first, udp.as_slice()) || contains(second, udp.as_slice()) {
        Protocol::Udp
    } else {
        Protocol::Unknown
    }
}

/// The position of the last colon of `s`, if it has one.
pub open spec fn last_colon(s: Seq<char>) -> Option<int>
    decreases s.len(),
{
    if s.len() == 0 {
        None
    } else if s.last() == ':' {
        Some(s.len() - 1)
    } else {
        last_colon(s.drop_last())
    }
}

/// The port that an address names: the number after its last colon, read as
/// an unsigned decimal of 16 bits. It is 0 where the address has no colon
/// and where what follows the colon is no such number.
pub open spec fn port_of(address: Seq<char>) -> nat {
    match last_colon(address) {
        Some(at) => match parse_unsigned(address.skip(at + 1), u16::MAX as nat) {
            Some(port) => port,
            None => 0,
        },
        None => 0,
    }
}

/// The last colon is a colon and none follows it; there is none exactly
/// where the text holds no colon.
pub proof fn lemma_last_colon(s: Seq<char>)
    ensures
        match last_colon(s) {
            Some(at) => 0 <= at < s.len() && s[at] == ':' && forall|j: int|
                at < j < s.len() ==> s[j] != ':',
            None => forall|j: int| 0 <= j < s.len() ==> s[j] != ':',
        },
    decreases s.len(),
{
    if s.len() > 0 && s.last() != ':' {
        let front = s.drop_last();
        lemma_last_colon(front);
        assert(forall|j: int| 0 <= j < front.len() ==> front[j] == s[j]);
    }
}

/// The position of the last colon of `address`, if it has one.
pub fn find_last_colon(address: &[char]) -> (found: Option<usize>)
    ensures
        found is Some <==> last_colon(address@) is Some,
        found is Some ==> found->0 == last_colon(address@)->0,
{
    let mut at: usize = address.len();
    assert(address@.take(at as int) == address@);
    while at > 0
        invariant
            at <= address.len(),
            last_colon(address@) == last_colon(address@.take(at as int)),
        decreases at,
    {
        if address[at - 1] == ':' {
            return Some(at - 1);
        }
        assert(address@.take(at as int).drop_last() == address@.take(at - 1));
        at -= 1;
    }
    None
}

/// The port that `address` names, 0 where it names none.
pub fn resolve_port(address: &[char]) -> (port: u16)
    ensures
        port == port_of(address@),
{
    match find_last_colon(address) {
        Some(at) => {
            proof {
                lemma_last_colon(address@);
            }
            let end = address.len();
            let digits = slice_subrange(address, at + 1, end);
            assert(digits@ == address@.skip(at + 1));
            match parse_u16(digits) {
                Some(port) => port,
                None => 0,
            }
        },
        None => 0,
    }
}

/// The binding that one line of the report describes, if it describes one.
///
/// A line describes a binding where it has nine columns or more, the second
/// is a process identifier of 32 bits, and the ninth names a port other
/// than 0.
pub open spec fn row_of(line: Seq<char>) -> Option<BindingView> {
    let fields = fields_of(line);
    if fields.len() < COLUMNS {
        None
    } else {
        match parse_unsigned(fields[1], u32::MAX as nat) {
            None => None,
            Some(pid) => {
                let port = port_of(fields[8]);
                if port == 0 {
                    None
                } else {
                    Some(
                        BindingView {
                            pid,
                            port,
                            protocol: protocol_of(fields[4], fields[7]),
                            name: fields[0],
                        },
                    )
                }
            },
        }
    }
}

/// Whether `binding` is what `row` says; with no row, there is no binding.
pub open spec fn is_row(binding: Option<PortBinding>, row: Option<BindingView>) -> bool {
    match binding {
        Some(b) => row == Some(b@),
        None => row is None,
    }
}

/// The binding that the line from `start` to `end` describes.
fn row_at(text: &str, chars: &[char], start: usize, end: usize) -> (binding: Option<PortBinding>)
    requires
        chars@ == text@,
        start <= end <= chars.len(),
    ensures
        is_row(binding, row_of(chars@.subrange(start as int, end as int))),
{
    let line = slice_subrange(chars, start, end);
    let spans = field_spans(line);
    let ghost fields = fields_of(line@);
    assert(fields.len() == spans.len());
    if spans.len() < COLUMNS {
        return None;
    }
    assert forall|k: int| 0 <= k < spans.len() implies fields[k] == line@.subrange(
        spans[k].0 as int,
        spans[k].1 as int,
    ) by {
        assert(spans_in(line@, spans@)[k] == fields[k]);
    }
    let (pid_from, pid_to) = spans[1];
    let pid = match parse_u32(slice_subrange(line, pid_from, pid_to)) {
        Some(pid) => pid,
        None => {
            return None;
        },
    };
    let (first_from, first_to) = spans[4];
    let (second_from, second_to) = spans[7];
    let protocol = classify(
        slice_subrange(line, first_from, first_to),
        slice_subrange(line, second_from, second_to),
    );
    let (port_from, port_to) = spans[8];
    let port = resolve_port(slice_subrange(line, port_from, port_to));
    if port == 0 {
        return None;
    }
    let (name_from, name_to) = spans[0];
    let name = text.substring_char(start + name_from, start + name_to).to_owned();
    assert(name@ == fields[0]);
    PortBinding::new(pid, port, protocol, name)
}

/// The binding that one line of the report describes, if it describes one.
pub fn parse_line(line: &str) -> (binding: Option<PortBinding>)
    ensures
        is_row(binding, row_of(line@)),
{
    let chars = chars_of(line);
    assert(chars@.subrange(0, chars.len() as int) == line@);
    row_at(line, chars.as_slice(), 0, chars.len())
}

/// Whether one of `rows` belongs to the process `pid`.
pub open spec fn has_pid(rows: Seq<BindingView>, pid: nat) -> bool {
    exists|i: int| 0 <= i < rows.len() && (#[trigger] rows[i]).pid == pid
}

/// The bindings that `lines` describe, in the order of the lines, one for
/// each process: a line counts only where no line before it was kept for the
/// same process. A line that describes no binding is passed over, and marks
/// no process as met.
pub open spec fn kept_rows(lines: Seq<Seq<char>>) -> Seq<BindingView>
    decreases lines.len(),
{
    if lines.len() == 0 {
        Seq::empty()
    } else {
        let before = kept_rows(lines.drop_last());
        match row_of(lines.last()) {
            Some(row) => if has_pid(before, row.pid) {
                before
            } else {
                before.push(row)
            },
            None => before,
        }
    }
}

/// `sorted` with `row` put in behind the last row whose port is not above
/// the port of `row`.
pub open spec fn placed_by_port(sorted: Seq<BindingView>, row: BindingView) -> Seq<BindingView>
    decreases sorted.len(),
{
    if sorted.len() == 0 || sorted.last().port <= row.port {
        sorted.push(row)
    } else {
        placed_by_port(sorted.drop_last(), row).push(sorted.last())
    }
}

/// `rows` in ascending order of port; rows of one port keep their order.
pub open spec fn sorted_by_port(rows: Seq<BindingView>) -> Seq<BindingView>
    decreases rows.len(),
{
    if rows.len() == 0 {
        Seq::empty()
    } else {
        placed_by_port(sorted_by_port(rows.drop_last()), rows.last())
    }
}

/// The lines of a report that follow its header line.
pub open spec fn body_lines(report: Seq<char>) -> Seq<Seq<char>> {
    let lines = lines_of(report);
    if lines.len() == 0 {
        lines
    } else {
        lines.drop_first()
    }
}

/// The bindings that a report lists: one for each process, by the first line
/// that describes a binding of it, in ascending order of port.
pub open spec fn scan_of(report: Seq<char>) -> Seq<BindingView> {
    sorted_by_port(kept_rows(body_lines(report)))
}

/// Puts `binding` into `list` behind the last binding whose port is not above
/// its own.
pub fn insert_by_port(list: &mut Vec<PortBinding>, binding: PortBinding)
    ensures
        views(final(list)@) == placed_by_port(views(old(list)@), binding@),
{
    let ghost rows = views(list@);
    let mut at: usize = list.len();
    assert(rows.take(at as int) == rows);
    assert(rows.take(at as int) + rows.skip(at as int) == rows);
    while at > 0 && list[at - 1].port() > binding.port()
        invariant
            at <= list.len(),
            *list == *old(list),
            rows == views(list@),
            placed_by_port(rows, binding@) == placed_by_port(rows.take(at as int), binding@)
                + rows.skip(at as int),
        decreases at,
    {
        let ghost front = rows.take(at as int);
        assert(front.drop_last() == rows.take(at - 1));
        assert(front.last() == rows[at - 1]);
        assert(placed_by_port(front.drop_last(), binding@).push(front.last()) + rows.skip(
            at as int,
        ) == placed_by_port(front.drop_last(), binding@) + rows.skip(at - 1));
        at -= 1;
    }
    assert(rows.take(at as int).push(binding@) + rows.skip(at as int) == rows.insert(
        at as int,
        binding@,
    ));
    list.insert(at, binding);
    assert(views(list@) == rows.insert(at as int, binding@));
}

/// Sorts `list` by port, ascending; bindings of one port keep their order.
pub fn sort_by_port(list: Vec<PortBinding>) -> (sorted: Vec<PortBinding>)
    ensures
        views(sorted@) == sorted_by_port(views(list@)),
{
    let ghost rows = views(list@);
    let ghost given = list@;
    let mut sorted: Vec<PortBinding> = Vec::new();
    assert(views(sorted@) == sorted_by_port(rows.take(0)));
    for binding in it: list
        invariant
            it.seq() == given,
            rows == views(given),
            views(sorted@) == sorted_by_port(rows.take(it.index())),
    {
        assert(rows.take(it.index() + 1).drop_last() == rows.take(it.index()));
        assert(rows.take(it.index() + 1).last() == binding@);
        insert_by_port(&mut sorted, binding);
    }
    assert(rows.take(rows.len() as int) == rows);
    sorted
}

/// A row that joins the end is met for its own process, and changes nothing
/// for the others.
pub proof fn lemma_has_pid_push(rows: Seq<BindingView>, row: BindingView, pid: nat)
    ensures
        has_pid(rows.push(row), pid) <==> has_pid(rows, pid) || row.pid == pid,
{
    let longer = rows.push(row);
    if has_pid(rows, pid) {
        let i = choose|i: int| 0 <= i < rows.len() && (#[trigger] rows[i]).pid == pid;
        assert(longer[i].pid == pid);
    }
    if row.pid == pid {
        assert(longer[rows.len() as int].pid == pid);
    }
    if has_pid(longer, pid) {
        let i = choose|i: int| 0 <= i < longer.len() && (#[trigger] longer[i]).pid == pid;
        if i < rows.len() {
            assert(rows[i].pid == pid);
        }
    }
}

/// What follows the first line of a text, line by line.
proof fn lemma_lines_step(s: Seq<char>)
    requires
        s.len() > 0,
    ensures
        line_len(s) < s.len() ==> lines_of(s) == seq![s.take(line_len(s) as int)] + lines_of(
            s.skip(line_len(s) as int + 1),
        ),
        line_len(s) >= s.len() ==> lines_of(s) == seq![s],
{
}

/// Reads the report of the listing utility: the bindings it lists, one for
/// each process, in ascending order of port.
pub fn parse_report(report: &str) -> (list: Vec<PortBinding>)
    ensures
        views(list@) == scan_of(report@),
        ascending_by_port(views(list@)),
        distinct_pids(views(list@)),
        ports_in_range(views(list@)),
{
    broadcast use vstd::std_specs::hash::group_hash_axioms;

    let text = chars_of(report);
    let chars = text.as_slice();
    let len = chars.len();
    let mut kept: Vec<PortBinding> = Vec::new();
    let mut seen: HashSet<u32> = HashSet::new();
    let header_end = line_end(chars, 0);
    let mut at: usize = if header_end < len {
        header_end + 1
    } else {
        len
    };
    let ghost mut done: Seq<Seq<char>> = Seq::empty();
    proof {
        assert(report@.skip(0) == report@);
        if len > 0 {
            lemma_lines_step(report@);
            if header_end < len {
                assert((seq![report@.take(header_end as int)] + lines_of(
                    report@.skip(at as int),
                )).drop_first() == lines_of(report@.skip(at as int)));
            } else {
                assert(seq![report@].drop_first() == Seq::<Seq<char>>::empty());
            }
        }
        assert(lines_of(report@.skip(len as int)) == Seq::<Seq<char>>::empty());
        assert(body_lines(report@) == done + lines_of(report@.skip(at as int)));
        assert(views(kept@) == kept_rows(done));
    }
    while at < len
        invariant
            chars@ == report@,
            len == chars.len(),
            at <= len,
            body_lines(report@) == done + lines_of(report@.skip(at as int)),
            views(kept@) == kept_rows(done),
            forall|pid: u32| seen@.contains(pid) <==> has_pid(views(kept@), pid as nat),
        decreases len - at,
    {
        let end = line_end(chars, at);
        let next: usize = if end < len {
            end + 1
        } else {
            len
        };
        let ghost line = report@.subrange(at as int, end as int);
        let ghost longer = done.push(line);
        proof {
            let rest = report@.skip(at as int);
            lemma_lines_step(rest);
            if end < len {
                assert(rest.take(end - at) == line);
                assert(rest.skip(end - at + 1) == report@.skip(next as int));
            } else {
                assert(rest == line);
                assert(lines_of(report@.skip(next as int)) == Seq::<Seq<char>>::empty());
            }
            assert(lines_of(rest) == seq![line] + lines_of(report@.skip(next as int)));
            assert(done + lines_of(rest) == longer + lines_of(report@.skip(next as int)));
            assert(longer.drop_last() == done);
            assert(longer.last() == line);
        }
        match row_at(report, chars, at, end) {
            Some(binding) => {
                let pid = binding.pid();
                if !seen.contains(&pid) {
                    proof {
                        assert forall|other: u32|
                            seen@.insert(pid).contains(other) <==> has_pid(
                                views(kept@.push(binding)),
                                other as nat,
                            ) by {
                            assert(views(kept@.push(binding)) == views(kept@).push(binding@));
                            lemma_has_pid_push(views(kept@), binding@, other as nat);
                        }
                        assert(views(kept@.push(binding)) == views(kept@).push(binding@));
                    }
                    seen.insert(pid);
                    kept.push(binding);
                }
            },
            None => {},
        }
        proof {
            done = longer;
        }
        at = next;
    }
    proof {
        assert(lines_of(report@.skip(at as int)) == Seq::<Seq<char>>::empty());
        assert(done + Seq::<Seq<char>>::empty() == done);
        lemma_scan_shape(report@);
    }
    sort_by_port(kept)
}

/// The text that `String::from_utf8_lossy` makes of `bytes`.
pub uninterp spec fn utf8_lossy(bytes: Seq<u8>) -> Seq<char>;

/// Decodes what the listing utility wrote, by `String::from_utf8_lossy` of
/// the standard library. Nothing is proved of the decoding: the contract
/// only gives its result the name `utf8_lossy`, which says that the text
/// depends on the bytes alone.
#[verifier::external_body]
fn decode_lossy(bytes: &[u8]) -> (text: String)
    ensures
        text@ == utf8_lossy(bytes@),
{
    String::from_utf8_lossy(bytes).into_owned()
}

/// The bindings that one run of the listing utility finds. `output` is what
/// the utility wrote to its standard output, `None` where it could not be
/// run: a run that failed finds nothing.
pub open spec fn found_in(output: Option<&[u8]>) -> Seq<BindingView> {
    match output {
        Some(bytes) => scan_of(utf8_lossy(bytes@)),
        None => Seq::empty(),
    }
}

/// The bindings that one run of the listing utility found. `output` is what
/// the utility wrote to its standard output, `None` where it could not be
/// run.
pub fn get_port_processes(output: Option<&[u8]>) -> (list: Vec<PortBinding>)
    ensures
        views(list@) == found_in(output),
        ascending_by_port(views(list@)),
        distinct_pids(views(list@)),
        ports_in_range(views(list@)),
{
    match output {
        Some(bytes) => {
            let report = decode_lossy(bytes);
            parse_report(report.as_str())
        },
        None => Vec::new(),
    }
}

} // verus!
