//! Decoding the run information.

use vstd::prelude::*;
use crate::error::{Check, Fault, ParseError, INIT_END};
use crate::number::{
    entry_name, integer_at, integer_fault, parse, parse_entry, real_at, real_fault, Real,
};
use crate::record::{literals, RunInfo, HEPRUP};
use crate::source::{read_until, Lines};
use crate::text::{
    closing_line, ends_with_line, lemma_closing_line_bounds, lemma_closing_line_with_more,
    lemma_line_end, lemma_line_with_more, lemma_no_closing_line, lemma_nth_line_bounds,
    lemma_rows_with_more, line_at, line_end, line_says, nth_field, nth_line, row_line, same_row,
    same_rows, split_whitespace,
};

verus! {

/// The check of the first line of the run information, field by field.
pub open spec fn run_line_check(line: Seq<char>) -> Check {
    Check::start().and_then(integer_fault(line, 0, "IDBMUP(1)"@)).and_then(
        integer_fault(line, 1, "IDBMUP(2)"@),
    ).and_then(real_fault(line, 2, "EBMUP(1)"@)).and_then(real_fault(line, 3, "EBMUP(2)"@)).and_then(
        integer_fault(line, 4, "PDFGUP(1)"@),
    ).and_then(integer_fault(line, 5, "PDFGUP(2)"@)).and_then(
        integer_fault(line, 6, "PDFSUP(1)"@),
    ).and_then(integer_fault(line, 7, "PDFSUP(2)"@)).and_then(
        integer_fault(line, 8, "IDWTUP"@),
    ).and_then(integer_fault(line, 9, "NPRUP"@))
}

/// The check of the line of subprocess `row`, counted from 1, field by
/// field.
pub open spec fn subprocess_check(line: Seq<char>, row: nat) -> Check {
    Check::start().and_then(real_fault(line, 0, entry_name("XSECUP"@, row, ""@))).and_then(
        real_fault(line, 1, entry_name("XERRUP"@, row, ""@)),
    ).and_then(real_fault(line, 2, entry_name("XMAXUP"@, row, ""@))).and_then(
        integer_fault(line, 3, entry_name("LPRUP"@, row, ""@)),
    )
}

/// One subprocess as plain values.
pub struct SubprocessRow {
    pub xsecup: Seq<char>,
    pub xerrup: Seq<char>,
    pub xmaxup: Seq<char>,
    pub lprup: i32,
}

/// The subprocess that a line describes, where its check finds no fault.
pub open spec fn subprocess_row(line: Seq<char>) -> SubprocessRow {
    SubprocessRow {
        xsecup: real_at(line, 0),
        xerrup: real_at(line, 1),
        xmaxup: real_at(line, 2),
        lprup: integer_at(line, 3),
    }
}

/// The fault of subprocess `row`, counted from 0, where the line of the
/// first subprocess starts at `first`: the text may end before its line,
/// or a field of its line may be out of order.
pub open spec fn subprocess_fault(s: Seq<char>, first: int, row: int) -> Option<Fault> {
    if nth_line(s, first, row as nat) >= s.len() {
        Some(Fault::EndOfFile("init"@))
    } else {
        subprocess_check(row_line(s, first, row), (row + 1) as nat).0
    }
}

/// The check of the subprocesses from `row` on, counted from 0.
pub open spec fn subprocesses_check(s: Seq<char>, first: int, row: nat, rows: nat) -> Check
    decreases rows - row,
{
    if row >= rows {
        Check::start()
    } else {
        let fault = subprocess_fault(s, first, row as int);
        if fault is Some {
            Check(fault)
        } else {
            subprocesses_check(s, first, row + 1, rows)
        }
    }
}

/// How many subprocesses a run holds whose first line is `head`.
pub open spec fn subprocess_count(head: Seq<char>) -> nat {
    if integer_at(head, 9) >= 0 {
        integer_at(head, 9) as nat
    } else {
        0
    }
}

/// The check of the run information whose first line starts at `i`, up to
/// its last subprocess. Where the text ends before the first line or
/// before the line of a subprocess, the run information has no end. A
/// negative number of subprocesses is no number of subprocesses.
pub open spec fn init_check(s: Seq<char>, i: int) -> Check {
    let head = line_at(s, i);
    Check::start().and_then(
        if i >= s.len() {
            Some(Fault::EndOfFile("init"@))
        } else {
            None
        },
    ).and_then(run_line_check(head).0).and_then(
        if integer_at(head, 9) < 0 {
            Some(Fault::ConversionError(real_at(head, 9)))
        } else {
            None
        },
    ).and_then(subprocesses_check(s, line_end(s, i), 0, subprocess_count(head)).0)
}

/// Where the text behind the subprocesses starts.
pub open spec fn init_info_start(s: Seq<char>, i: int) -> int {
    nth_line(s, line_end(s, i), subprocess_count(line_at(s, i)))
}

/// Where the line starts that closes the run information: the first line
/// behind the subprocesses that holds the closing tag and nothing else,
/// no white space either.
pub open spec fn init_close(s: Seq<char>, i: int) -> int {
    closing_line(s, init_info_start(s, i), false, INIT_END@)
}

/// The run information whose first line starts at `i`, where it has no
/// fault.
pub open spec fn run_record(s: Seq<char>, i: int) -> RunInfo {
    let head = line_at(s, i);
    let first = line_end(s, i);
    let rows = subprocess_count(head);
    RunInfo {
        idbmup: seq![integer_at(head, 0), integer_at(head, 1)],
        ebmup: seq![real_at(head, 2), real_at(head, 3)],
        pdfgup: seq![integer_at(head, 4), integer_at(head, 5)],
        pdfsup: seq![integer_at(head, 6), integer_at(head, 7)],
        idwtup: integer_at(head, 8),
        nprup: integer_at(head, 9),
        xsecup: Seq::new(rows, |r: int| subprocess_row(row_line(s, first, r)).xsecup),
        xerrup: Seq::new(rows, |r: int| subprocess_row(row_line(s, first, r)).xerrup),
        xmaxup: Seq::new(rows, |r: int| subprocess_row(row_line(s, first, r)).xmaxup),
        lprup: Seq::new(rows, |r: int| subprocess_row(row_line(s, first, r)).lprup),
        info: s.subrange(init_info_start(s, i), init_close(s, i)),
    }
}

/// What decoding the run information gives whose first line, the one
/// behind the opening tag, starts at `i`: the run information and the
/// position behind its closing line, or the first fault. Run information
/// that is not closed before the text ends is a fault of its own.
pub open spec fn init_at(s: Seq<char>, i: int) -> Result<(RunInfo, int), Fault> {
    let check = init_check(s, i);
    if check.0 is Some {
        Err(check.0->0)
    } else if init_close(s, i) >= s.len() {
        Err(Fault::EndOfFile("init"@))
    } else {
        Ok((run_record(s, i), line_end(s, init_close(s, i))))
    }
}

/// All run information that decodes has as many entries in each column as
/// it says it has subprocesses.
pub proof fn lemma_run_columns(s: Seq<char>, i: int)
    requires
        init_at(s, i) is Ok,
    ensures
        init_at(s, i)->Ok_0.0.wf(),
{
}

/// Where no subprocess from `row` on has a fault, the subprocesses from
/// `row` on are in order.
pub proof fn lemma_subprocesses_in_order(s: Seq<char>, first: int, row: nat, rows: nat)
    requires
        forall|r: int| row <= r < rows ==> #[trigger] subprocess_fault(s, first, r) is None,
    ensures
        subprocesses_check(s, first, row, rows).0 is None,
    decreases rows - row,
{
    if row < rows {
        assert(subprocess_fault(s, first, row as int) is None);
        lemma_subprocesses_in_order(s, first, row + 1, rows);
    }
}

/// The fault of the subprocesses is that of the first subprocess that has
/// one.
pub proof fn lemma_first_faulty_subprocess(
    s: Seq<char>,
    first: int,
    row: nat,
    faulty: nat,
    rows: nat,
)
    requires
        row <= faulty < rows,
        subprocess_fault(s, first, faulty as int) is Some,
        forall|r: int| row <= r < faulty ==> #[trigger] subprocess_fault(s, first, r) is None,
    ensures
        subprocesses_check(s, first, row, rows).0 == subprocess_fault(s, first, faulty as int),
    decreases faulty - row,
{
    if row < faulty {
        assert(subprocess_fault(s, first, row as int) is None);
        lemma_first_faulty_subprocess(s, first, row + 1, faulty, rows);
    }
}

/// Where every line of a subprocess that the text holds is in order, the
/// subprocesses are in order, or the text ends among them.
proof fn lemma_subprocesses_or_end(s: Seq<char>, first: int, row: nat, rows: nat)
    requires
        forall|r: int|
            row <= r < rows && nth_line(s, first, r as nat) < s.len() ==> subprocess_check(
                #[trigger] row_line(s, first, r),
                (r + 1) as nat,
            ).0 is None,
    ensures
        subprocesses_check(s, first, row, rows).0 is None || subprocesses_check(
            s,
            first,
            row,
            rows,
        ).0 == Some(Fault::EndOfFile("init"@)),
    decreases rows - row,
{
    if row < rows {
        if nth_line(s, first, row) < s.len() {
            assert(subprocess_check(row_line(s, first, row as int), row + 1).0 is None);
        }
        lemma_subprocesses_or_end(s, first, row + 1, rows);
    }
}

/// Run information that no line closes before the text ends is reported
/// as run information without its end, wherever in it the text ends:
/// before its first line, among the lines of its subprocesses, or behind
/// them. This holds where the first line, if it is there, and the lines of
/// the subprocesses that are there are in order.
pub proof fn lemma_truncated_init(s: Seq<char>, i: int)
    requires
        0 <= i <= s.len(),
        i < s.len() ==> run_line_check(line_at(s, i)).0 is None && integer_at(line_at(s, i), 9)
            >= 0,
        forall|r: int|
            0 <= r < subprocess_count(line_at(s, i)) && nth_line(s, line_end(s, i), r as nat)
                < s.len() ==> subprocess_check(
                #[trigger] row_line(s, line_end(s, i), r),
                (r + 1) as nat,
            ).0 is None,
        forall|k: nat|
            nth_line(s, init_info_start(s, i), k) < s.len() ==> line_says(
                line_at(s, #[trigger] nth_line(s, init_info_start(s, i), k)),
                false,
            ) != INIT_END@,
    ensures
        init_at(s, i) == Err::<(RunInfo, int), Fault>(Fault::EndOfFile("init"@)),
{
    if i < s.len() {
        lemma_line_end(s, i);
        lemma_subprocesses_or_end(s, line_end(s, i), 0, subprocess_count(line_at(s, i)));
        lemma_nth_line_bounds(s, line_end(s, i), subprocess_count(line_at(s, i)));
        lemma_no_closing_line(s, init_info_start(s, i), false, INIT_END@);
    }
}

/// Where the subprocesses from `row` on are in order, none of them has a
/// fault.
proof fn lemma_subprocesses_each_in_order(s: Seq<char>, first: int, row: nat, rows: nat)
    requires
        subprocesses_check(s, first, row, rows).0 is None,
    ensures
        forall|r: int| row <= r < rows ==> #[trigger] subprocess_fault(s, first, r) is None,
    decreases rows - row,
{
    if row < rows {
        lemma_subprocesses_each_in_order(s, first, row + 1, rows);
    }
}

/// Subprocesses that are in order in one text are in order in a text that
/// holds them on the same lines.
proof fn lemma_subprocesses_on_same_lines(
    s: Seq<char>,
    t: Seq<char>,
    first: int,
    row: nat,
    rows: nat,
)
    requires
        s.len() <= t.len(),
        subprocesses_check(s, first, row, rows).0 is None,
        same_rows(s, t, first, rows),
    ensures
        subprocesses_check(t, first, row, rows).0 is None,
    decreases rows - row,
{
    if row < rows {
        assert(same_row(s, t, first, row as int));
        assert(subprocess_fault(s, first, row as int) is None);
        assert(subprocess_fault(t, first, row as int) is None);
        lemma_subprocesses_on_same_lines(s, t, first, row + 1, rows);
    }
}

/// Run information is the same where its lines are the same.
proof fn lemma_same_run(s: Seq<char>, t: Seq<char>, i: int)
    requires
        line_at(t, i) == line_at(s, i),
        line_end(t, i) == line_end(s, i),
        same_rows(s, t, line_end(s, i), subprocess_count(line_at(s, i))),
        init_info_start(t, i) == init_info_start(s, i),
        init_close(t, i) == init_close(s, i),
        t.subrange(init_info_start(s, i), init_close(s, i)) == s.subrange(
            init_info_start(s, i),
            init_close(s, i),
        ),
    ensures
        run_record(t, i) == run_record(s, i),
{
    let a = run_record(s, i);
    let b = run_record(t, i);
    let first = line_end(s, i);
    assert forall|r: int| 0 <= r < subprocess_count(line_at(s, i)) implies row_line(t, first, r)
        == row_line(s, first, r) by {
        assert(same_row(s, t, first, r));
    }
    assert(b.xsecup =~= a.xsecup);
    assert(b.xerrup =~= a.xerrup);
    assert(b.xmaxup =~= a.xmaxup);
    assert(b.lprup =~= a.lprup);
}

/// Run information is in order in a text where it is in order, on the
/// same lines, in another.
proof fn lemma_same_init_check(s: Seq<char>, t: Seq<char>, i: int)
    requires
        0 <= i < s.len() <= t.len(),
        line_at(t, i) == line_at(s, i),
        line_end(t, i) == line_end(s, i),
        same_rows(s, t, line_end(s, i), subprocess_count(line_at(s, i))),
        init_check(s, i).0 is None,
    ensures
        init_check(t, i).0 is None,
{
    lemma_subprocesses_on_same_lines(s, t, line_end(s, i), 0, subprocess_count(line_at(s, i)));
}

/// Where the subprocesses are in order, the line of the last one starts
/// within the text.
proof fn lemma_last_subprocess_within(s: Seq<char>, i: int)
    requires
        init_check(s, i).0 is None,
    ensures
        subprocess_count(line_at(s, i)) > 0 ==> nth_line(
            s,
            line_end(s, i),
            (subprocess_count(line_at(s, i)) - 1) as nat,
        ) < s.len(),
{
    let rows = subprocess_count(line_at(s, i));
    lemma_subprocesses_each_in_order(s, line_end(s, i), 0, rows);
    if rows > 0 {
        assert(subprocess_fault(s, line_end(s, i), rows - 1) is None);
    }
}

/// Run information that decodes in a text that ends where a line ends
/// decodes to the same run information, up to the same position, with
/// more text behind the text.
pub proof fn lemma_init_with_more(s: Seq<char>, more: Seq<char>, i: int)
    requires
        ends_with_line(s),
        0 <= i <= s.len(),
        init_at(s, i) is Ok,
    ensures
        init_at(s + more, i) == init_at(s, i),
{
    let t = s + more;
    let first = line_end(s, i);
    let rows = subprocess_count(line_at(s, i));
    let free = init_info_start(s, i);
    let close = init_close(s, i);
    assert(init_check(s, i).0 is None);
    assert(i < s.len());
    lemma_line_with_more(s, more, i);
    lemma_last_subprocess_within(s, i);
    lemma_rows_with_more(s, more, first, rows);
    lemma_same_init_check(s, t, i);
    lemma_nth_line_bounds(s, first, rows);
    lemma_closing_line_with_more(s, more, free, false, INIT_END@);
    lemma_closing_line_bounds(s, free, false, INIT_END@);
    lemma_line_with_more(s, more, close);
    assert(t.subrange(free, close) =~= s.subrange(free, close));
    lemma_same_run(s, t, i);
}

/// One subprocess of a run.
#[allow(non_snake_case)]
#[derive(Debug, Clone)]
pub struct Subprocess {
    /// Cross section
    pub XSECUP: Real,
    /// Cross section error
    pub XERRUP: Real,
    /// Maximum weight
    pub XMAXUP: Real,
    /// Process ID
    pub LPRUP: i32,
}

impl View for Subprocess {
    type V = SubprocessRow;

    open spec fn view(&self) -> SubprocessRow {
        SubprocessRow {
            xsecup: self.XSECUP@,
            xerrup: self.XERRUP@,
            xmaxup: self.XMAXUP@,
            lprup: self.LPRUP,
        }
    }
}

/// Decodes the line of subprocess `row`, counted from 1.
pub fn parse_subprocess(line: &[char], row: u32) -> (r: Result<Subprocess, ParseError>)
    ensures
        match subprocess_check(line@, row as nat).0 {
            Some(fault) => r is Err && r->Err_0@ == fault,
            None => r is Ok && r->Ok_0@ == subprocess_row(line@),
        },
{
    let fields = split_whitespace(line);
    let xsecup = parse_entry::<Real>("XSECUP", row, "", nth_field(&fields, 0))?;
    let xerrup = parse_entry::<Real>("XERRUP", row, "", nth_field(&fields, 1))?;
    let xmaxup = parse_entry::<Real>("XMAXUP", row, "", nth_field(&fields, 2))?;
    let lprup = parse_entry::<i32>("LPRUP", row, "", nth_field(&fields, 3))?;
    Ok(Subprocess { XSECUP: xsecup, XERRUP: xerrup, XMAXUP: xmaxup, LPRUP: lprup })
}

/// Decodes the run information, whose opening tag has been read: its first
/// line, the lines of its subprocesses, and what follows up to the closing
/// tag.
#[allow(non_snake_case)]
pub fn parse_init(stream: &mut Lines) -> (r: Result<HEPRUP, ParseError>)
    ensures
        final(stream).text() == old(stream).text(),
        old(stream).pos() <= final(stream).pos() <= old(stream).text().len(),
        match init_at(old(stream).text(), old(stream).pos()) {
            Ok((run, next)) => r is Ok && r->Ok_0@ == run && final(stream).pos() == next,
            Err(fault) => r is Err && r->Err_0@ == fault,
        },
        r is Ok ==> r->Ok_0@.wf(),
        r is Err && r->Err_0@ == Fault::EndOfFile("init"@) ==> final(stream).pos() == old(
            stream,
        ).text().len(),
{
    let ghost s = stream.text();
    let ghost i = stream.pos();
    let line = stream.read_line();
    if line.len() == 0 {
        return Err(ParseError::EndOfFile("init"));
    }
    let ghost head = line@;
    let ghost first = stream.pos();
    let fields = split_whitespace(line.as_slice());
    let idbmup1 = parse::<i32>("IDBMUP(1)", nth_field(&fields, 0))?;
    let idbmup2 = parse::<i32>("IDBMUP(2)", nth_field(&fields, 1))?;
    let ebmup1 = parse::<Real>("EBMUP(1)", nth_field(&fields, 2))?;
    let ebmup2 = parse::<Real>("EBMUP(2)", nth_field(&fields, 3))?;
    let pdfgup1 = parse::<i32>("PDFGUP(1)", nth_field(&fields, 4))?;
    let pdfgup2 = parse::<i32>("PDFGUP(2)", nth_field(&fields, 5))?;
    let pdfsup1 = parse::<i32>("PDFSUP(1)", nth_field(&fields, 6))?;
    let pdfsup2 = parse::<i32>("PDFSUP(2)", nth_field(&fields, 7))?;
    let IDWTUP = parse::<i32>("IDWTUP", nth_field(&fields, 8))?;
    let NPRUP = parse::<i32>("NPRUP", nth_field(&fields, 9))?;
    if NPRUP < 0 {
        return Err(ParseError::ConversionError(fields[9].clone()));
    }
    let mut XSECUP: Vec<Real> = Vec::new();
    let mut XERRUP: Vec<Real> = Vec::new();
    let mut XMAXUP: Vec<Real> = Vec::new();
    let mut LPRUP: Vec<i32> = Vec::new();
    let mut row: i32 = 0;
    while row < NPRUP
        invariant
            0 <= row <= NPRUP,
            stream.text() == s,
            s == old(stream).text(),
            i == old(stream).pos(),
            0 <= i <= first <= s.len(),
            head == line_at(s, i),
            first == line_end(s, i),
            i < s.len(),
            run_line_check(head).0 is None,
            integer_at(head, 9) == NPRUP,
            stream.pos() == nth_line(s, first, row as nat),
            subprocesses_check(s, first, 0, NPRUP as nat) == subprocesses_check(
                s,
                first,
                row as nat,
                NPRUP as nat,
            ),
            XSECUP@.len() == row,
            XERRUP@.len() == row,
            XMAXUP@.len() == row,
            LPRUP@.len() == row,
            forall|j: int|
                0 <= j < row ==> XSECUP@[j]@ == subprocess_row(#[trigger] row_line(s, first, j)).xsecup,
            forall|j: int|
                0 <= j < row ==> XERRUP@[j]@ == subprocess_row(#[trigger] row_line(s, first, j)).xerrup,
            forall|j: int|
                0 <= j < row ==> XMAXUP@[j]@ == subprocess_row(#[trigger] row_line(s, first, j)).xmaxup,
            forall|j: int|
                0 <= j < row ==> LPRUP@[j] == subprocess_row(#[trigger] row_line(s, first, j)).lprup,
        decreases NPRUP - row,
    {
        proof {
            lemma_nth_line_bounds(s, first, row as nat);
        }
        let line = stream.read_line();
        if line.len() == 0 {
            return Err(ParseError::EndOfFile("init"));
        }
        assert(line@ == row_line(s, first, row as int));
        let subprocess = match parse_subprocess(line.as_slice(), (row + 1) as u32) {
            Ok(subprocess) => subprocess,
            Err(e) => {
                return Err(e);
            },
        };
        XSECUP.push(subprocess.XSECUP);
        XERRUP.push(subprocess.XERRUP);
        XMAXUP.push(subprocess.XMAXUP);
        LPRUP.push(subprocess.LPRUP);
        row += 1;
    }
    proof {
        lemma_nth_line_bounds(s, first, NPRUP as nat);
    }
    let info = match read_until(stream, INIT_END, false) {
        Some(info) => info,
        None => {
            return Err(ParseError::EndOfFile("init"));
        },
    };
    let run = HEPRUP {
        IDBMUP: [idbmup1, idbmup2],
        EBMUP: [ebmup1, ebmup2],
        PDFGUP: [pdfgup1, pdfgup2],
        PDFSUP: [pdfsup1, pdfsup2],
        IDWTUP,
        NPRUP,
        XSECUP,
        XERRUP,
        XMAXUP,
        LPRUP,
        info,
    };
    proof {
        let spec = run_record(s, i);
        assert(run@.idbmup =~= spec.idbmup);
        assert(run@.ebmup =~= spec.ebmup);
        assert(run@.pdfgup =~= spec.pdfgup);
        assert(run@.pdfsup =~= spec.pdfsup);
        assert(run@.xsecup =~= spec.xsecup);
        assert(run@.xerrup =~= spec.xerrup);
        assert(run@.xmaxup =~= spec.xmaxup);
        assert(run@.lprup =~= spec.lprup);
    }
    Ok(run)
}

} // verus!
