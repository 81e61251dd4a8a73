//! What holds of every scan: one binding for each process, taken from the
//! first line that describes one, in ascending order of port.

use crate::binding::BindingView;
use crate::decimal::parse_unsigned;
use crate::scanner::{
    body_lines, has_pid, kept_rows, lemma_has_pid_push, lemma_last_colon, placed_by_port, port_of,
    row_of, scan_of, sorted_by_port, COLUMNS,
};
use crate::text::fields_of;
use vstd::prelude::*;

verus! {

/// Whether the ports of `rows` never fall from one row to the next.
pub open spec fn ascending_by_port(rows: Seq<BindingView>) -> bool {
    forall|i: int, j: int| 0 <= i <= j < rows.len() ==> rows[i].port <= rows[j].port
}

/// Whether no two of `rows` belong to one process.
pub open spec fn distinct_pids(rows: Seq<BindingView>) -> bool {
    forall|i: int, j: int| 0 <= i < j < rows.len() ==> rows[i].pid != rows[j].pid
}

/// Whether each of `rows` has a port that a socket can listen on, and a
/// process identifier of 32 bits.
pub open spec fn ports_in_range(rows: Seq<BindingView>) -> bool {
    forall|i: int| 0 <= i < rows.len() ==> (#[trigger] rows[i]).wf()
}

/// The test for a row of the port `port`.
pub open spec fn port_is(port: nat) -> spec_fn(BindingView) -> bool {
    |row: BindingView| row.port == port
}

/// The rows of `rows` with the port `port`, in their order.
pub open spec fn with_port(rows: Seq<BindingView>, port: nat) -> Seq<BindingView> {
    rows.filter(port_is(port))
}

/// Whether `line` describes a binding of the process `pid`.
pub open spec fn describes(line: Seq<char>, pid: nat) -> bool {
    row_of(line) is Some && row_of(line)->0.pid == pid
}

/// Whether the line `at` is the first of `lines` that describes a binding of
/// the process `pid`.
pub open spec fn first_described_at(lines: Seq<Seq<char>>, pid: nat, at: int) -> bool {
    &&& 0 <= at < lines.len()
    &&& describes(lines[at], pid)
    &&& forall|j: int| 0 <= j < at ==> !describes(#[trigger] lines[j], pid)
}

proof fn lemma_distinct_push(rows: Seq<BindingView>, row: BindingView)
    requires
        distinct_pids(rows),
        !has_pid(rows, row.pid),
    ensures
        distinct_pids(rows.push(row)),
{
    let longer = rows.push(row);
    assert forall|i: int, j: int| 0 <= i < j < longer.len() implies longer[i].pid
        != longer[j].pid by {
        if j == rows.len() {
            assert(rows[i].pid != row.pid);
        }
    }
}

proof fn lemma_placed_bound(sorted: Seq<BindingView>, row: BindingView, bound: nat)
    requires
        forall|i: int| 0 <= i < sorted.len() ==> (#[trigger] sorted[i]).port <= bound,
        row.port <= bound,
    ensures
        forall|i: int|
            0 <= i < placed_by_port(sorted, row).len() ==> (#[trigger] placed_by_port(
                sorted,
                row,
            )[i]).port <= bound,
    decreases sorted.len(),
{
    if sorted.len() == 0 || sorted.last().port <= row.port {
    } else {
        let front = sorted.drop_last();
        assert forall|i: int| 0 <= i < front.len() implies (#[trigger] front[i]).port <= bound by {
            assert(front[i] == sorted[i]);
        }
        lemma_placed_bound(front, row, bound);
    }
}

/// A row that is put in leaves an ascending list ascending.
pub proof fn lemma_placed_ascending(sorted: Seq<BindingView>, row: BindingView)
    requires
        ascending_by_port(sorted),
    ensures
        ascending_by_port(placed_by_port(sorted, row)),
    decreases sorted.len(),
{
    if sorted.len() == 0 {
    } else if sorted.last().port <= row.port {
        let longer = sorted.push(row);
        assert forall|i: int, j: int| 0 <= i <= j < longer.len() implies longer[i].port
            <= longer[j].port by {
            if j == sorted.len() && i < j {
                assert(sorted[i].port <= sorted.last().port);
            }
        }
    } else {
        let front = sorted.drop_last();
        let last = sorted.last();
        assert forall|i: int, j: int| 0 <= i <= j < front.len() implies front[i].port
            <= front[j].port by {
            assert(front[i] == sorted[i] && front[j] == sorted[j]);
        }
        lemma_placed_ascending(front, row);
        assert forall|i: int| 0 <= i < front.len() implies (#[trigger] front[i]).port
            <= last.port by {
            assert(front[i] == sorted[i]);
        }
        lemma_placed_bound(front, row, last.port);
        let inner = placed_by_port(front, row);
        let longer = inner.push(last);
        assert forall|i: int, j: int| 0 <= i <= j < longer.len() implies longer[i].port
            <= longer[j].port by {
            if j == inner.len() && i < j {
                assert(inner[i].port <= last.port);
            }
        }
    }
}

/// The sorted list is in ascending order of port.
pub proof fn lemma_sorted_is_ascending(rows: Seq<BindingView>)
    ensures
        ascending_by_port(sorted_by_port(rows)),
    decreases rows.len(),
{
    if rows.len() > 0 {
        lemma_sorted_is_ascending(rows.drop_last());
        lemma_placed_ascending(sorted_by_port(rows.drop_last()), rows.last());
    }
}

/// Putting a row in adds that row and nothing else.
pub proof fn lemma_placed_keeps_rows(sorted: Seq<BindingView>, row: BindingView)
    ensures
        placed_by_port(sorted, row).to_multiset() == sorted.to_multiset().insert(row),
        placed_by_port(sorted, row).len() == sorted.len() + 1,
    decreases sorted.len(),
{
    broadcast use vstd::seq_lib::to_multiset_build;

    if sorted.len() == 0 || sorted.last().port <= row.port {
    } else {
        let front = sorted.drop_last();
        let last = sorted.last();
        lemma_placed_keeps_rows(front, row);
        assert(sorted == front.push(last));
        assert(front.to_multiset().insert(row).insert(last) == front.to_multiset().insert(
            last,
        ).insert(row));
    }
}

/// Sorting neither adds a row nor loses one: the sorted list holds each row
/// as often as the list it was made from.
pub proof fn lemma_sorted_keeps_rows(rows: Seq<BindingView>)
    ensures
        sorted_by_port(rows).to_multiset() == rows.to_multiset(),
        sorted_by_port(rows).len() == rows.len(),
    decreases rows.len(),
{
    broadcast use vstd::seq_lib::to_multiset_build;

    if rows.len() == 0 {
        assert(rows == Seq::<BindingView>::empty());
    } else {
        let front = rows.drop_last();
        lemma_sorted_keeps_rows(front);
        lemma_placed_keeps_rows(sorted_by_port(front), rows.last());
        assert(rows == front.push(rows.last()));
        assert(front.push(rows.last()).to_multiset() == front.to_multiset().insert(rows.last()));
    }
}

proof fn lemma_placed_stable(sorted: Seq<BindingView>, row: BindingView, port: nat)
    ensures
        with_port(placed_by_port(sorted, row), port) == if row.port == port {
            with_port(sorted, port).push(row)
        } else {
            with_port(sorted, port)
        },
    decreases sorted.len(),
{
    let test = port_is(port);
    if sorted.len() == 0 || sorted.last().port <= row.port {
        sorted.lemma_filter_push(row, test);
    } else {
        let front = sorted.drop_last();
        let last = sorted.last();
        lemma_placed_stable(front, row, port);
        placed_by_port(front, row).lemma_filter_push(last, test);
        front.lemma_filter_push(last, test);
        assert(sorted == front.push(last));
    }
}

/// Sorting is stable: the rows of any one port stand in the sorted list in
/// the order in which they stood before.
pub proof fn lemma_sorted_is_stable(rows: Seq<BindingView>, port: nat)
    ensures
        with_port(sorted_by_port(rows), port) == with_port(rows, port),
    decreases rows.len(),
{
    let test = port_is(port);
    if rows.len() == 0 {
    } else {
        let front = rows.drop_last();
        lemma_sorted_is_stable(front, port);
        lemma_placed_stable(sorted_by_port(front), rows.last(), port);
        front.lemma_filter_push(rows.last(), test);
        assert(rows == front.push(rows.last()));
    }
}

/// The last row of an ascending list has the largest port, and is the last
/// of the rows of that port.
proof fn lemma_last_of_ascending(rows: Seq<BindingView>)
    requires
        rows.len() > 0,
        ascending_by_port(rows),
    ensures
        with_port(rows, rows.last().port) == with_port(
            rows.drop_last(),
            rows.last().port,
        ).push(rows.last()),
        forall|port: nat|
            port != rows.last().port ==> with_port(rows, port) == with_port(
                rows.drop_last(),
                port,
            ),
        forall|port: nat| port > rows.last().port ==> with_port(rows, port).len() == 0,
        ascending_by_port(rows.drop_last()),
{
    let front = rows.drop_last();
    let last = rows.last();
    assert(rows == front.push(last));
    assert forall|port: nat| true implies with_port(rows, port) == if last.port == port {
        with_port(front, port).push(last)
    } else {
        with_port(front, port)
    } by {
        front.lemma_filter_push(last, port_is(port));
    }
    assert forall|port: nat| port > last.port implies with_port(rows, port).len() == 0 by {
        let found = with_port(rows, port);
        if found.len() > 0 {
            rows.lemma_filter_pred(port_is(port), 0);
            assert(found.contains(found[0]));
            rows.lemma_filter_contains_rev(port_is(port), found[0]);
            let i = choose|i: int| 0 <= i < rows.len() && rows[i] == found[0];
            assert(rows[i].port <= rows[rows.len() - 1].port);
        }
    }
    assert forall|i: int, j: int| 0 <= i <= j < front.len() implies front[i].port
        <= front[j].port by {
        assert(front[i] == rows[i] && front[j] == rows[j]);
    }
}

/// Two ascending lists with the same rows of each port, in the same order,
/// are one list.
pub proof fn lemma_ascending_lists_agree(one: Seq<BindingView>, other: Seq<BindingView>)
    requires
        ascending_by_port(one),
        ascending_by_port(other),
        forall|port: nat| with_port(one, port) == with_port(other, port),
    ensures
        one == other,
    decreases one.len() + other.len(),
{
    if one.len() == 0 && other.len() == 0 {
        assert(one =~= other);
    } else if one.len() == 0 {
        lemma_last_of_ascending(other);
        assert(with_port(other, other.last().port).len() > 0);
        one.lemma_filter_len(port_is(other.last().port));
        assert(with_port(one, other.last().port).len() == 0);
    } else if other.len() == 0 {
        lemma_last_of_ascending(one);
        assert(with_port(one, one.last().port).len() > 0);
        other.lemma_filter_len(port_is(one.last().port));
        assert(with_port(other, one.last().port).len() == 0);
    } else {
        lemma_last_of_ascending(one);
        lemma_last_of_ascending(other);
        let top = one.last().port;
        assert(with_port(one, top).len() > 0);
        assert(with_port(other, other.last().port).len() > 0);
        assert(with_port(one, other.last().port) == with_port(other, other.last().port));
        assert(top == other.last().port);
        let shared = with_port(one, top);
        assert(shared == with_port(other, top));
        assert(one.last() == shared.last());
        assert(other.last() == shared.last());
        assert(with_port(one.drop_last(), top) == shared.drop_last());
        assert(with_port(other.drop_last(), top) == shared.drop_last());
        assert forall|port: nat|
            with_port(one.drop_last(), port) == with_port(other.drop_last(), port) by {
            if port != top {
                assert(with_port(one, port) == with_port(other, port));
            }
        }
        lemma_ascending_lists_agree(one.drop_last(), other.drop_last());
        assert(one == one.drop_last().push(one.last()));
        assert(other == other.drop_last().push(other.last()));
    }
}

/// The sorted list is the stable sort, and nothing else is: a list in
/// ascending order of port that holds the rows of each port as `rows` does,
/// in their order, is the sorted list.
pub proof fn lemma_sorted_is_the_stable_sort(rows: Seq<BindingView>, other: Seq<BindingView>)
    requires
        ascending_by_port(other),
        forall|port: nat| with_port(other, port) == with_port(rows, port),
    ensures
        other == sorted_by_port(rows),
{
    lemma_sorted_is_ascending(rows);
    assert forall|port: nat| with_port(sorted_by_port(rows), port) == with_port(other, port) by {
        lemma_sorted_is_stable(rows, port);
    }
    lemma_ascending_lists_agree(sorted_by_port(rows), other);
}

proof fn lemma_placed_pids(sorted: Seq<BindingView>, row: BindingView, pid: nat)
    ensures
        has_pid(placed_by_port(sorted, row), pid) <==> has_pid(sorted, pid) || row.pid == pid,
    decreases sorted.len(),
{
    if sorted.len() == 0 || sorted.last().port <= row.port {
        lemma_has_pid_push(sorted, row, pid);
    } else {
        let front = sorted.drop_last();
        let last = sorted.last();
        lemma_placed_pids(front, row, pid);
        lemma_has_pid_push(placed_by_port(front, row), last, pid);
        lemma_has_pid_push(front, last, pid);
        assert(sorted == front.push(last));
    }
}

proof fn lemma_placed_distinct(sorted: Seq<BindingView>, row: BindingView)
    requires
        distinct_pids(sorted),
        !has_pid(sorted, row.pid),
    ensures
        distinct_pids(placed_by_port(sorted, row)),
    decreases sorted.len(),
{
    if sorted.len() == 0 || sorted.last().port <= row.port {
        lemma_distinct_push(sorted, row);
    } else {
        let front = sorted.drop_last();
        let last = sorted.last();
        assert(sorted == front.push(last));
        assert forall|i: int, j: int| 0 <= i < j < front.len() implies front[i].pid
            != front[j].pid by {
            assert(front[i] == sorted[i] && front[j] == sorted[j]);
        }
        lemma_has_pid_push(front, last, row.pid);
        lemma_placed_distinct(front, row);
        lemma_placed_pids(front, row, last.pid);
        if has_pid(front, last.pid) {
            let i = choose|i: int| 0 <= i < front.len() && (#[trigger] front[i]).pid == last.pid;
            assert(sorted[i].pid == sorted[sorted.len() - 1].pid);
        }
        lemma_distinct_push(placed_by_port(front, row), last);
    }
}

/// Sorting keeps the processes: the sorted list has a row of a process
/// exactly where the list it was made from has one.
pub proof fn lemma_sorted_pids(rows: Seq<BindingView>, pid: nat)
    ensures
        has_pid(sorted_by_port(rows), pid) <==> has_pid(rows, pid),
    decreases rows.len(),
{
    if rows.len() == 0 {
    } else {
        let front = rows.drop_last();
        lemma_sorted_pids(front, pid);
        lemma_placed_pids(sorted_by_port(front), rows.last(), pid);
        lemma_has_pid_push(front, rows.last(), pid);
        assert(rows == front.push(rows.last()));
    }
}

/// Sorting rows of different processes leaves them rows of different
/// processes.
pub proof fn lemma_sorted_distinct(rows: Seq<BindingView>)
    requires
        distinct_pids(rows),
    ensures
        distinct_pids(sorted_by_port(rows)),
    decreases rows.len(),
{
    if rows.len() == 0 {
    } else {
        let front = rows.drop_last();
        let last = rows.last();
        assert forall|i: int, j: int| 0 <= i < j < front.len() implies front[i].pid
            != front[j].pid by {
            assert(front[i] == rows[i] && front[j] == rows[j]);
        }
        lemma_sorted_distinct(front);
        lemma_sorted_pids(front, last.pid);
        if has_pid(front, last.pid) {
            let i = choose|i: int| 0 <= i < front.len() && (#[trigger] front[i]).pid == last.pid;
            assert(rows[i].pid == rows[rows.len() - 1].pid);
        }
        lemma_placed_distinct(sorted_by_port(front), last);
    }
}

/// Sorting keeps the rows themselves: a row stands in the sorted list exactly
/// where it stands in the list that was sorted.
pub proof fn lemma_sorted_members(rows: Seq<BindingView>, row: BindingView)
    ensures
        sorted_by_port(rows).contains(row) <==> rows.contains(row),
{
    lemma_sorted_keeps_rows(rows);
    vstd::seq_lib::to_multiset_contains(sorted_by_port(rows), row);
    vstd::seq_lib::to_multiset_contains(rows, row);
}

/// A line describes no binding exactly where it has fewer than nine columns,
/// where its second column is no process identifier, or where its ninth
/// names no port: no colon, no number of 16 bits behind the last colon, or
/// the number 0.
pub proof fn lemma_lines_without_row(line: Seq<char>)
    ensures
        row_of(line) is None <==> {
            ||| fields_of(line).len() < COLUMNS
            ||| parse_unsigned(fields_of(line)[1], u32::MAX as nat) is None
            ||| port_of(fields_of(line)[8]) == 0
        },
{
}

/// An address without a colon names no port.
pub proof fn lemma_no_colon_no_port(address: Seq<char>)
    requires
        forall|j: int| 0 <= j < address.len() ==> address[j] != ':',
    ensures
        port_of(address) == 0,
{
    lemma_last_colon(address);
}

/// Every port that a line can give is one that a socket can listen on.
pub proof fn lemma_row_port(line: Seq<char>)
    requires
        row_of(line) is Some,
    ensures
        row_of(line)->0.wf(),
{
}

/// The kept rows belong to different processes.
pub proof fn lemma_kept_distinct(lines: Seq<Seq<char>>)
    ensures
        distinct_pids(kept_rows(lines)),
    decreases lines.len(),
{
    if lines.len() > 0 {
        let before = kept_rows(lines.drop_last());
        lemma_kept_distinct(lines.drop_last());
        match row_of(lines.last()) {
            Some(row) => {
                if !has_pid(before, row.pid) {
                    lemma_distinct_push(before, row);
                }
            },
            None => {},
        }
    }
}

/// The kept rows have ports that a socket can listen on.
pub proof fn lemma_kept_ports(lines: Seq<Seq<char>>)
    ensures
        ports_in_range(kept_rows(lines)),
    decreases lines.len(),
{
    if lines.len() > 0 {
        lemma_kept_ports(lines.drop_last());
        if row_of(lines.last()) is Some {
            lemma_row_port(lines.last());
        }
    }
}

/// A process that some line describes a binding of has a row among the kept.
pub proof fn lemma_described_is_kept(lines: Seq<Seq<char>>, at: int)
    requires
        0 <= at < lines.len(),
        row_of(lines[at]) is Some,
    ensures
        has_pid(kept_rows(lines), row_of(lines[at])->0.pid),
    decreases lines.len(),
{
    let pid = row_of(lines[at])->0.pid;
    let front = lines.drop_last();
    let before = kept_rows(front);
    if at < lines.len() - 1 {
        assert(front[at] == lines[at]);
        lemma_described_is_kept(front, at);
        match row_of(lines.last()) {
            Some(row) => {
                lemma_has_pid_push(before, row, pid);
            },
            None => {},
        }
    } else {
        let row = row_of(lines.last())->0;
        lemma_has_pid_push(before, row, pid);
    }
}

/// First seen wins: each kept row is what the first line that describes a
/// binding of its process says. The result is the position of that line.
pub proof fn lemma_kept_is_first_described(lines: Seq<Seq<char>>, i: int) -> (at: int)
    requires
        0 <= i < kept_rows(lines).len(),
    ensures
        first_described_at(lines, kept_rows(lines)[i].pid, at),
        row_of(lines[at]) == Some(kept_rows(lines)[i]),
    decreases lines.len(),
{
    let pid = kept_rows(lines)[i].pid;
    let front = lines.drop_last();
    let before = kept_rows(front);
    if i < before.len() {
        let at = lemma_kept_is_first_described(front, i);
        assert(front[at] == lines[at]);
        assert forall|j: int| 0 <= j < at implies !describes(#[trigger] lines[j], pid) by {
            assert(front[j] == lines[j]);
        }
        at
    } else {
        let at = lines.len() - 1;
        assert forall|j: int| 0 <= j < at implies !describes(#[trigger] lines[j], pid) by {
            if describes(lines[j], pid) {
                assert(front[j] == lines[j]);
                lemma_described_is_kept(front, j);
            }
        }
        at
    }
}

/// A process has a row among the kept only where some line describes a
/// binding of it. The result is the position of the first such line.
pub proof fn lemma_kept_pid_is_described(lines: Seq<Seq<char>>, pid: nat) -> (at: int)
    requires
        has_pid(kept_rows(lines), pid),
    ensures
        first_described_at(lines, pid, at),
{
    let kept = kept_rows(lines);
    let i = choose|i: int| 0 <= i < kept.len() && (#[trigger] kept[i]).pid == pid;
    lemma_kept_is_first_described(lines, i)
}

/// A line that describes no binding changes nothing for the lines around it:
/// the kept rows are those of the report without that line.
pub proof fn lemma_unusable_line_is_skipped(
    before: Seq<Seq<char>>,
    line: Seq<char>,
    after: Seq<Seq<char>>,
)
    requires
        row_of(line) is None,
    ensures
        kept_rows(before + seq![line] + after) == kept_rows(before + after),
    decreases after.len(),
{
    let with_line = before + seq![line] + after;
    let without = before + after;
    if after.len() == 0 {
        assert(with_line.drop_last() == before);
        assert(with_line.last() == line);
        assert(without == before);
    } else {
        let shorter = after.drop_last();
        lemma_unusable_line_is_skipped(before, line, shorter);
        assert(with_line.drop_last() == before + seq![line] + shorter);
        assert(without.drop_last() == before + shorter);
        assert(with_line.last() == without.last());
    }
}

/// A line whose address names the port 0, or no port, is dropped, and its
/// process is not marked as met: what the other lines give is what they
/// would give without it.
pub proof fn lemma_zero_port_line_is_skipped(
    before: Seq<Seq<char>>,
    line: Seq<char>,
    after: Seq<Seq<char>>,
)
    requires
        fields_of(line).len() >= COLUMNS,
        port_of(fields_of(line)[8]) == 0,
    ensures
        row_of(line) is None,
        kept_rows(before + seq![line] + after) == kept_rows(before + after),
{
    lemma_unusable_line_is_skipped(before, line, after);
}

/// The bindings of a scan are in ascending order of port, belong to
/// different processes, and have ports that a socket can listen on.
pub proof fn lemma_scan_shape(report: Seq<char>)
    ensures
        ascending_by_port(scan_of(report)),
        distinct_pids(scan_of(report)),
        ports_in_range(scan_of(report)),
{
    let kept = kept_rows(body_lines(report));
    let found = scan_of(report);
    lemma_sorted_is_ascending(kept);
    lemma_kept_distinct(body_lines(report));
    lemma_sorted_distinct(kept);
    lemma_kept_ports(body_lines(report));
    assert forall|i: int| 0 <= i < found.len() implies (#[trigger] found[i]).wf() by {
        assert(found.contains(found[i]));
        lemma_sorted_members(kept, found[i]);
        let k = choose|k: int| 0 <= k < kept.len() && kept[k] == found[i];
        assert(kept[k].wf());
    }
}

/// Every process that a line of the report describes a binding of has a
/// binding in the scan.
pub proof fn lemma_scan_covers_described(report: Seq<char>, at: int)
    requires
        0 <= at < body_lines(report).len(),
        row_of(body_lines(report)[at]) is Some,
    ensures
        has_pid(scan_of(report), row_of(body_lines(report)[at])->0.pid),
{
    let lines = body_lines(report);
    lemma_described_is_kept(lines, at);
    lemma_sorted_pids(kept_rows(lines), row_of(lines[at])->0.pid);
}

/// First seen wins: each binding of a scan is what the first line of the
/// report that describes a binding of its process says. The result is the
/// position of that line among the lines behind the header.
pub proof fn lemma_scan_is_first_described(report: Seq<char>, i: int) -> (at: int)
    requires
        0 <= i < scan_of(report).len(),
    ensures
        first_described_at(body_lines(report), scan_of(report)[i].pid, at),
        row_of(body_lines(report)[at]) == Some(scan_of(report)[i]),
{
    let lines = body_lines(report);
    let kept = kept_rows(lines);
    let found = scan_of(report);
    assert(found.contains(found[i]));
    lemma_sorted_members(kept, found[i]);
    let k = choose|k: int| 0 <= k < kept.len() && kept[k] == found[i];
    lemma_kept_is_first_described(lines, k)
}

/// A process without a line that describes a binding of it has no binding in
/// the scan. The result is the position of the first line that describes one.
pub proof fn lemma_scan_pid_is_described(report: Seq<char>, pid: nat) -> (at: int)
    requires
        has_pid(scan_of(report), pid),
    ensures
        first_described_at(body_lines(report), pid, at),
{
    let lines = body_lines(report);
    lemma_sorted_pids(kept_rows(lines), pid);
    lemma_kept_pid_is_described(lines, pid)
}

} // verus!
