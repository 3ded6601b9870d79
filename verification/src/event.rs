//! Decoding one event.

use vstd::prelude::*;
use crate::error::{Check, Fault, ParseError, EVENT_END};
use crate::number::{
    entry_name, integer_at, integer_fault, parse, parse_entry, real_at, real_fault, Real,
};
use crate::record::{literals, EventRecord, HEPEUP};
use crate::source::{read_until, Lines};
use crate::text::{
    closing_line, ends_with_line, lemma_closing_line_bounds, lemma_closing_line_found,
    lemma_closing_line_with_more, lemma_line_end, lemma_line_with_more, lemma_no_closing_line,
    lemma_nth_line_bounds, lemma_rows_with_more, line_at, line_end,
    same_row, same_rows,
    line_says, nth_field, nth_line, row_line, split_whitespace,
};

verus! {

/// The check of the first line of an event, field by field.
pub open spec fn event_line_check(line: Seq<char>) -> Check {
    Check::start().and_then(integer_fault(line, 0, "NUP"@)).and_then(
        integer_fault(line, 1, "IDRUP"@),
    ).and_then(real_fault(line, 2, "XWGTUP"@)).and_then(real_fault(line, 3, "SCALUP"@)).and_then(
        real_fault(line, 4, "AQEDUP"@),
    ).and_then(real_fault(line, 5, "AQCDUP"@))
}

/// The check of the line of particle `row`, counted from 1, field by field.
pub open spec fn particle_check(line: Seq<char>, row: nat) -> Check {
    Check::start().and_then(integer_fault(line, 0, entry_name("IDUP"@, row, ""@))).and_then(
        integer_fault(line, 1, entry_name("ISTUP"@, row, ""@)),
    ).and_then(integer_fault(line, 2, entry_name("MOTHUP"@, row, ", 1"@))).and_then(
        integer_fault(line, 3, entry_name("MOTHUP"@, row, ", 2"@)),
    ).and_then(integer_fault(line, 4, entry_name("ICOLUP"@, row, ", 1"@))).and_then(
        integer_fault(line, 5, entry_name("ICOLUP"@, row, ", 2"@)),
    ).and_then(real_fault(line, 6, entry_name("PUP"@, row, ", 1"@))).and_then(
        real_fault(line, 7, entry_name("PUP"@, row, ", 2"@)),
    ).and_then(real_fault(line, 8, entry_name("PUP"@, row, ", 3"@))).and_then(
        real_fault(line, 9, entry_name("PUP"@, row, ", 4"@)),
    ).and_then(real_fault(line, 10, entry_name("PUP"@, row, ", 5"@))).and_then(
        real_fault(line, 11, entry_name("VTIMUP"@, row, ""@)),
    ).and_then(real_fault(line, 12, entry_name("SPINUP"@, row, ""@)))
}

/// One particle as plain values.
pub struct ParticleRow {
    pub idup: i32,
    pub istup: i32,
    pub mothup: Seq<i32>,
    pub icolup: Seq<i32>,
    pub pup: Seq<Seq<char>>,
    pub vtimup: Seq<char>,
    pub spinup: Seq<char>,
}

/// The particle that a line describes, where its check finds no fault.
pub open spec fn particle_row(line: Seq<char>) -> ParticleRow {
    ParticleRow {
        idup: integer_at(line, 0),
        istup: integer_at(line, 1),
        mothup: seq![integer_at(line, 2), integer_at(line, 3)],
        icolup: seq![integer_at(line, 4), integer_at(line, 5)],
        pup: seq![
            real_at(line, 6),
            real_at(line, 7),
            real_at(line, 8),
            real_at(line, 9),
            real_at(line, 10),
        ],
        vtimup: real_at(line, 11),
        spinup: real_at(line, 12),
    }
}

/// The fault of particle `row`, counted from 0, where the line of the
/// first particle starts at `first`: the text may end before its line, or
/// a field of its line may be out of order.
pub open spec fn particle_fault(s: Seq<char>, first: int, row: int) -> Option<Fault> {
    if nth_line(s, first, row as nat) >= s.len() {
        Some(Fault::EndOfFile("event"@))
    } else {
        particle_check(row_line(s, first, row), (row + 1) as nat).0
    }
}

/// The check of the particles from `row` on, counted from 0.
pub open spec fn particles_check(s: Seq<char>, first: int, row: nat, rows: nat) -> Check
    decreases rows - row,
{
    if row >= rows {
        Check::start()
    } else {
        let fault = particle_fault(s, first, row as int);
        if fault is Some {
            Check(fault)
        } else {
            particles_check(s, first, row + 1, rows)
        }
    }
}

/// How many particles an event holds whose first line is `head`.
pub open spec fn particle_count(head: Seq<char>) -> nat {
    if integer_at(head, 0) >= 0 {
        integer_at(head, 0) as nat
    } else {
        0
    }
}

/// The check of an event whose first line starts at `i`, up to its last
/// particle. Where the text ends before the first line or before the line
/// of a particle, the event has no end. A negative number of particles is
/// no number of particles.
pub open spec fn event_check(s: Seq<char>, i: int) -> Check {
    let head = line_at(s, i);
    Check::start().and_then(
        if i >= s.len() {
            Some(Fault::EndOfFile("event"@))
        } else {
            None
        },
    ).and_then(event_line_check(head).0).and_then(
        if integer_at(head, 0) < 0 {
            Some(Fault::ConversionError(real_at(head, 0)))
        } else {
            None
        },
    ).and_then(particles_check(s, line_end(s, i), 0, particle_count(head)).0)
}

/// Where the text behind the particles of an event starts.
pub open spec fn event_info_start(s: Seq<char>, i: int) -> int {
    nth_line(s, line_end(s, i), particle_count(line_at(s, i)))
}

/// Where the line starts that closes the event: the first line behind the
/// particles that holds the closing tag and white space only.
pub open spec fn event_close(s: Seq<char>, i: int) -> int {
    closing_line(s, event_info_start(s, i), true, EVENT_END@)
}

/// The event whose first line starts at `i`, where it has no fault.
pub open spec fn event_record(s: Seq<char>, i: int) -> EventRecord {
    let head = line_at(s, i);
    let first = line_end(s, i);
    let rows = particle_count(head);
    EventRecord {
        nup: integer_at(head, 0),
        idrup: integer_at(head, 1),
        xwgtup: real_at(head, 2),
        scalup: real_at(head, 3),
        aqedup: real_at(head, 4),
        aqcdup: real_at(head, 5),
        idup: Seq::new(rows, |r: int| particle_row(row_line(s, first, r)).idup),
        istup: Seq::new(rows, |r: int| particle_row(row_line(s, first, r)).istup),
        mothup: Seq::new(rows, |r: int| particle_row(row_line(s, first, r)).mothup),
        icolup: Seq::new(rows, |r: int| particle_row(row_line(s, first, r)).icolup),
        pup: Seq::new(rows, |r: int| particle_row(row_line(s, first, r)).pup),
        vtimup: Seq::new(rows, |r: int| particle_row(row_line(s, first, r)).vtimup),
        spinup: Seq::new(rows, |r: int| particle_row(row_line(s, first, r)).spinup),
        info: s.subrange(event_info_start(s, i), event_close(s, i)),
    }
}

/// What decoding an event gives whose first line, the one behind the
/// opening tag, starts at `i`: the event and the position behind its
/// closing line, or the first fault. An event that is not closed before
/// the text ends is a fault of its own.
pub open spec fn event_at(s: Seq<char>, i: int) -> Result<(EventRecord, int), Fault> {
    let check = event_check(s, i);
    if check.0 is Some {
        Err(check.0->0)
    } else if event_close(s, i) >= s.len() {
        Err(Fault::EndOfFile("event"@))
    } else {
        Ok((event_record(s, i), line_end(s, event_close(s, i))))
    }
}

/// Every event that decodes has as many entries in each column as it says
/// it has particles.
pub proof fn lemma_event_columns(s: Seq<char>, i: int)
    requires
        event_at(s, i) is Ok,
    ensures
        event_at(s, i)->Ok_0.0.wf(),
{
}

/// Where no particle from `row` on has a fault, the particles from `row`
/// on are in order.
pub proof fn lemma_particles_in_order(s: Seq<char>, first: int, row: nat, rows: nat)
    requires
        forall|r: int| row <= r < rows ==> #[trigger] particle_fault(s, first, r) is None,
    ensures
        particles_check(s, first, row, rows).0 is None,
    decreases rows - row,
{
    if row < rows {
        assert(particle_fault(s, first, row as int) is None);
        lemma_particles_in_order(s, first, row + 1, rows);
    }
}

/// The fault of the particles is that of the first particle that has one.
pub proof fn lemma_first_faulty_particle(
    s: Seq<char>,
    first: int,
    row: nat,
    faulty: nat,
    rows: nat,
)
    requires
        row <= faulty < rows,
        particle_fault(s, first, faulty as int) is Some,
        forall|r: int| row <= r < faulty ==> #[trigger] particle_fault(s, first, r) is None,
    ensures
        particles_check(s, first, row, rows).0 == particle_fault(s, first, faulty as int),
    decreases faulty - row,
{
    if row < faulty {
        assert(particle_fault(s, first, row as int) is None);
        lemma_first_faulty_particle(s, first, row + 1, faulty, rows);
    }
}

/// Where every line of a particle that the text holds is in order, the
/// particles are in order, or the text ends among them.
proof fn lemma_particles_or_end(s: Seq<char>, first: int, row: nat, rows: nat)
    requires
        forall|r: int|
            row <= r < rows && nth_line(s, first, r as nat) < s.len() ==> particle_check(
                #[trigger] row_line(s, first, r),
                (r + 1) as nat,
            ).0 is None,
    ensures
        particles_check(s, first, row, rows).0 is None || particles_check(s, first, row, rows).0
            == Some(Fault::EndOfFile("event"@)),
    decreases rows - row,
{
    if row < rows {
        if nth_line(s, first, row) < s.len() {
            assert(particle_check(row_line(s, first, row as int), row + 1).0 is None);
        }
        lemma_particles_or_end(s, first, row + 1, rows);
    }
}

/// An event that no line closes before the text ends is reported as an
/// event without its end, wherever in the event the text ends: before its
/// first line, among the lines of its particles, or behind them. This
/// holds where the first line, if it is there, and the lines of the
/// particles that are there are in order.
pub proof fn lemma_truncated_event(s: Seq<char>, i: int)
    requires
        0 <= i <= s.len(),
        i < s.len() ==> event_line_check(line_at(s, i)).0 is None && integer_at(
            line_at(s, i),
            0,
        ) >= 0,
        forall|r: int|
            0 <= r < particle_count(line_at(s, i)) && nth_line(s, line_end(s, i), r as nat)
                < s.len() ==> particle_check(
                #[trigger] row_line(s, line_end(s, i), r),
                (r + 1) as nat,
            ).0 is None,
        forall|k: nat|
            nth_line(s, event_info_start(s, i), k) < s.len() ==> line_says(
                line_at(s, #[trigger] nth_line(s, event_info_start(s, i), k)),
                true,
            ) != EVENT_END@,
    ensures
        event_at(s, i) == Err::<(EventRecord, int), Fault>(Fault::EndOfFile("event"@)),
{
    if i < s.len() {
        lemma_line_end(s, i);
        lemma_particles_or_end(s, line_end(s, i), 0, particle_count(line_at(s, i)));
        lemma_nth_line_bounds(s, line_end(s, i), particle_count(line_at(s, i)));
        lemma_no_closing_line(s, event_info_start(s, i), true, EVENT_END@);
    }
}

/// An event whose fields are all in order, and behind whose particles
/// line `k` is the first to say the closing tag, is handed out; what
/// stands before that line is kept as it was written, and reading goes on
/// behind that line.
pub proof fn lemma_closed_event(s: Seq<char>, i: int, k: nat)
    requires
        0 <= i <= s.len(),
        event_check(s, i).0 is None,
        nth_line(s, event_info_start(s, i), k) < s.len(),
        line_says(line_at(s, nth_line(s, event_info_start(s, i), k)), true) == EVENT_END@,
        forall|j: nat|
            j < k ==> line_says(
                line_at(s, #[trigger] nth_line(s, event_info_start(s, i), j)),
                true,
            ) != EVENT_END@,
    ensures
        event_at(s, i) == Ok::<(EventRecord, int), Fault>(
            (event_record(s, i), line_end(s, nth_line(s, event_info_start(s, i), k))),
        ),
        event_record(s, i).info == s.subrange(
            event_info_start(s, i),
            nth_line(s, event_info_start(s, i), k),
        ),
{
    lemma_line_end(s, i);
    lemma_nth_line_bounds(s, line_end(s, i), particle_count(line_at(s, i)));
    lemma_closing_line_found(s, event_info_start(s, i), true, EVENT_END@, k);
}

/// Where the particles from `row` on are in order, none of them has a
/// fault.
proof fn lemma_particles_each_in_order(s: Seq<char>, first: int, row: nat, rows: nat)
    requires
        particles_check(s, first, row, rows).0 is None,
    ensures
        forall|r: int| row <= r < rows ==> #[trigger] particle_fault(s, first, r) is None,
    decreases rows - row,
{
    if row < rows {
        lemma_particles_each_in_order(s, first, row + 1, rows);
    }
}

/// Particles that are in order in one text are in order in a text that
/// holds them on the same lines.
proof fn lemma_particles_on_same_lines(
    s: Seq<char>,
    t: Seq<char>,
    first: int,
    row: nat,
    rows: nat,
)
    requires
        s.len() <= t.len(),
        particles_check(s, first, row, rows).0 is None,
        same_rows(s, t, first, rows),
    ensures
        particles_check(t, first, row, rows).0 is None,
    decreases rows - row,
{
    if row < rows {
        assert(same_row(s, t, first, row as int));
        assert(particle_fault(s, first, row as int) is None);
        assert(particle_fault(t, first, row as int) is None);
        lemma_particles_on_same_lines(s, t, first, row + 1, rows);
    }
}

/// Events are the same where their lines are the same.
proof fn lemma_same_event(s: Seq<char>, t: Seq<char>, i: int)
    requires
        line_at(t, i) == line_at(s, i),
        line_end(t, i) == line_end(s, i),
        same_rows(s, t, line_end(s, i), particle_count(line_at(s, i))),
        event_info_start(t, i) == event_info_start(s, i),
        event_close(t, i) == event_close(s, i),
        t.subrange(event_info_start(s, i), event_close(s, i)) == s.subrange(
            event_info_start(s, i),
            event_close(s, i),
        ),
    ensures
        event_record(t, i) == event_record(s, i),
{
    let a = event_record(s, i);
    let b = event_record(t, i);
    let first = line_end(s, i);
    assert forall|r: int| 0 <= r < particle_count(line_at(s, i)) implies row_line(t, first, r)
        == row_line(s, first, r) by {
        assert(same_row(s, t, first, r));
    }
    assert(b.idup =~= a.idup);
    assert(b.istup =~= a.istup);
    assert(b.mothup =~= a.mothup);
    assert(b.icolup =~= a.icolup);
    assert(b.pup =~= a.pup);
    assert(b.vtimup =~= a.vtimup);
    assert(b.spinup =~= a.spinup);
}

/// An event is in order in a text where it is in order, on the same
/// lines, in another.
proof fn lemma_same_event_check(s: Seq<char>, t: Seq<char>, i: int)
    requires
        0 <= i < s.len() <= t.len(),
        line_at(t, i) == line_at(s, i),
        line_end(t, i) == line_end(s, i),
        same_rows(s, t, line_end(s, i), particle_count(line_at(s, i))),
        event_check(s, i).0 is None,
    ensures
        event_check(t, i).0 is None,
{
    lemma_particles_on_same_lines(s, t, line_end(s, i), 0, particle_count(line_at(s, i)));
}

/// Where the particles of an event are in order, the line of the last one
/// starts within the text.
proof fn lemma_last_particle_within(s: Seq<char>, i: int)
    requires
        event_check(s, i).0 is None,
    ensures
        particle_count(line_at(s, i)) > 0 ==> nth_line(
            s,
            line_end(s, i),
            (particle_count(line_at(s, i)) - 1) as nat,
        ) < s.len(),
{
    let rows = particle_count(line_at(s, i));
    lemma_particles_each_in_order(s, line_end(s, i), 0, rows);
    if rows > 0 {
        assert(particle_fault(s, line_end(s, i), rows - 1) is None);
    }
}

/// An event that decodes in a text that ends where a line ends decodes to
/// the same event, up to the same position, with more text behind the
/// text.
pub proof fn lemma_event_with_more(s: Seq<char>, more: Seq<char>, i: int)
    requires
        ends_with_line(s),
        0 <= i <= s.len(),
        event_at(s, i) is Ok,
    ensures
        event_at(s + more, i) == event_at(s, i),
{
    let t = s + more;
    let first = line_end(s, i);
    let rows = particle_count(line_at(s, i));
    let free = event_info_start(s, i);
    let close = event_close(s, i);
    assert(event_check(s, i).0 is None);
    assert(i < s.len());
    lemma_line_with_more(s, more, i);
    lemma_last_particle_within(s, i);
    lemma_rows_with_more(s, more, first, rows);
    lemma_same_event_check(s, t, i);
    lemma_nth_line_bounds(s, first, rows);
    lemma_closing_line_with_more(s, more, free, true, EVENT_END@);
    lemma_closing_line_bounds(s, free, true, EVENT_END@);
    lemma_line_with_more(s, more, close);
    assert(t.subrange(free, close) =~= s.subrange(free, close));
    lemma_same_event(s, t, i);
}

/// One particle of an event.
#[allow(non_snake_case)]
#[derive(Debug, Clone)]
pub struct Particle {
    /// Particle ID
    pub IDUP: i32,
    /// Particle status
    pub ISTUP: i32,
    /// Indices of decay mothers
    pub MOTHUP: [i32; 2],
    /// Colour flow
    pub ICOLUP: [i32; 2],
    /// Particle momentum in GeV
    pub PUP: [Real; 5],
    /// Lifetime in mm
    pub VTIMUP: Real,
    /// Spin angle
    pub SPINUP: Real,
}

impl View for Particle {
    type V = ParticleRow;

    open spec fn view(&self) -> ParticleRow {
        ParticleRow {
            idup: self.IDUP,
            istup: self.ISTUP,
            mothup: self.MOTHUP@,
            icolup: self.ICOLUP@,
            pup: literals(self.PUP@),
            vtimup: self.VTIMUP@,
            spinup: self.SPINUP@,
        }
    }
}

/// Decodes the line of particle `row`, counted from 1.
pub fn parse_particle(line: &[char], row: u32) -> (r: Result<Particle, ParseError>)
    ensures
        match particle_check(line@, row as nat).0 {
            Some(fault) => r is Err && r->Err_0@ == fault,
            None => r is Ok && r->Ok_0@ == particle_row(line@),
        },
{
    let fields = split_whitespace(line);
    let idup = parse_entry::<i32>("IDUP", row, "", nth_field(&fields, 0))?;
    let istup = parse_entry::<i32>("ISTUP", row, "", nth_field(&fields, 1))?;
    let mothup1 = parse_entry::<i32>("MOTHUP", row, ", 1", nth_field(&fields, 2))?;
    let mothup2 = parse_entry::<i32>("MOTHUP", row, ", 2", nth_field(&fields, 3))?;
    let icolup1 = parse_entry::<i32>("ICOLUP", row, ", 1", nth_field(&fields, 4))?;
    let icolup2 = parse_entry::<i32>("ICOLUP", row, ", 2", nth_field(&fields, 5))?;
    let pup1 = parse_entry::<Real>("PUP", row, ", 1", nth_field(&fields, 6))?;
    let pup2 = parse_entry::<Real>("PUP", row, ", 2", nth_field(&fields, 7))?;
    let pup3 = parse_entry::<Real>("PUP", row, ", 3", nth_field(&fields, 8))?;
    let pup4 = parse_entry::<Real>("PUP", row, ", 4", nth_field(&fields, 9))?;
    let pup5 = parse_entry::<Real>("PUP", row, ", 5", nth_field(&fields, 10))?;
    let vtimup = parse_entry::<Real>("VTIMUP", row, "", nth_field(&fields, 11))?;
    let spinup = parse_entry::<Real>("SPINUP", row, "", nth_field(&fields, 12))?;
    let particle = Particle {
        IDUP: idup,
        ISTUP: istup,
        MOTHUP: [mothup1, mothup2],
        ICOLUP: [icolup1, icolup2],
        PUP: [pup1, pup2, pup3, pup4, pup5],
        VTIMUP: vtimup,
        SPINUP: spinup,
    };
    assert(particle@.mothup =~= particle_row(line@).mothup);
    assert(particle@.icolup =~= particle_row(line@).icolup);
    assert(particle@.pup =~= particle_row(line@).pup);
    Ok(particle)
}

/// Decodes one event, whose opening tag has been read: its first line, the
/// lines of its particles, and what follows up to the closing tag.
#[allow(non_snake_case)]
pub fn parse_event(stream: &mut Lines) -> (r: Result<HEPEUP, ParseError>)
    ensures
        final(stream).text() == old(stream).text(),
        old(stream).pos() <= final(stream).pos() <= old(stream).text().len(),
        match event_at(old(stream).text(), old(stream).pos()) {
            Ok((event, next)) => r is Ok && r->Ok_0@ == event && final(stream).pos() == next,
            Err(fault) => r is Err && r->Err_0@ == fault,
        },
        r is Ok ==> r->Ok_0@.wf(),
        r is Err && r->Err_0@ == Fault::EndOfFile("event"@) ==> final(stream).pos() == old(
            stream,
        ).text().len(),
{
    let ghost s = stream.text();
    let ghost i = stream.pos();
    let line = stream.read_line();
    if line.len() == 0 {
        return Err(ParseError::EndOfFile("event"));
    }
    let ghost head = line@;
    let ghost first = stream.pos();
    let fields = split_whitespace(line.as_slice());
    let NUP = parse::<i32>("NUP", nth_field(&fields, 0))?;
    let IDRUP = parse::<i32>("IDRUP", nth_field(&fields, 1))?;
    let XWGTUP = parse::<Real>("XWGTUP", nth_field(&fields, 2))?;
    let SCALUP = parse::<Real>("SCALUP", nth_field(&fields, 3))?;
    let AQEDUP = parse::<Real>("AQEDUP", nth_field(&fields, 4))?;
    let AQCDUP = parse::<Real>("AQCDUP", nth_field(&fields, 5))?;
    if NUP < 0 {
        return Err(ParseError::ConversionError(fields[0].clone()));
    }
    let mut IDUP: Vec<i32> = Vec::new();
    let mut ISTUP: Vec<i32> = Vec::new();
    let mut MOTHUP: Vec<[i32; 2]> = Vec::new();
    let mut ICOLUP: Vec<[i32; 2]> = Vec::new();
    let mut PUP: Vec<[Real; 5]> = Vec::new();
    let mut VTIMUP: Vec<Real> = Vec::new();
    let mut SPINUP: Vec<Real> = Vec::new();
    let mut row: i32 = 0;
    while row < NUP
        invariant
            0 <= row <= NUP,
            stream.text() == s,
            s == old(stream).text(),
            i == old(stream).pos(),
            0 <= i <= first <= s.len(),
            head == line_at(s, i),
            first == line_end(s, i),
            i < s.len(),
            event_line_check(head).0 is None,
            integer_at(head, 0) == NUP,
            stream.pos() == nth_line(s, first, row as nat),
            particles_check(s, first, 0, NUP as nat) == particles_check(
                s,
                first,
                row as nat,
                NUP as nat,
            ),
            IDUP@.len() == row,
            ISTUP@.len() == row,
            MOTHUP@.len() == row,
            ICOLUP@.len() == row,
            PUP@.len() == row,
            VTIMUP@.len() == row,
            SPINUP@.len() == row,
            forall|j: int|
                0 <= j < row ==> IDUP@[j] == particle_row(#[trigger] row_line(s, first, j)).idup,
            forall|j: int|
                0 <= j < row ==> ISTUP@[j] == particle_row(
                    #[trigger] row_line(s, first, j),
                ).istup,
            forall|j: int|
                0 <= j < row ==> MOTHUP@[j]@ == particle_row(
                    #[trigger] row_line(s, first, j),
                ).mothup,
            forall|j: int|
                0 <= j < row ==> ICOLUP@[j]@ == particle_row(
                    #[trigger] row_line(s, first, j),
                ).icolup,
            forall|j: int|
                0 <= j < row ==> literals(PUP@[j]@) == particle_row(
                    #[trigger] row_line(s, first, j),
                ).pup,
            forall|j: int|
                0 <= j < row ==> VTIMUP@[j]@ == particle_row(
                    #[trigger] row_line(s, first, j),
                ).vtimup,
            forall|j: int|
                0 <= j < row ==> SPINUP@[j]@ == particle_row(
                    #[trigger] row_line(s, first, j),
                ).spinup,
        decreases NUP - row,
    {
        proof {
            lemma_nth_line_bounds(s, first, row as nat);
        }
        let line = stream.read_line();
        if line.len() == 0 {
            return Err(ParseError::EndOfFile("event"));
        }
        assert(line@ == row_line(s, first, row as int));
        let particle = match parse_particle(line.as_slice(), (row + 1) as u32) {
            Ok(particle) => particle,
            Err(e) => {
                return Err(e);
            },
        };
        IDUP.push(particle.IDUP);
        ISTUP.push(particle.ISTUP);
        MOTHUP.push(particle.MOTHUP);
        ICOLUP.push(particle.ICOLUP);
        PUP.push(particle.PUP);
        VTIMUP.push(particle.VTIMUP);
        SPINUP.push(particle.SPINUP);
        row += 1;
    }
    proof {
        lemma_nth_line_bounds(s, first, NUP as nat);
    }
    let info = match read_until(stream, EVENT_END, true) {
        Some(info) => info,
        None => {
            return Err(ParseError::EndOfFile("event"));
        },
    };
    let event = HEPEUP {
        NUP,
        IDRUP,
        XWGTUP,
        SCALUP,
        AQEDUP,
        AQCDUP,
        IDUP,
        ISTUP,
        MOTHUP,
        ICOLUP,
        PUP,
        VTIMUP,
        SPINUP,
        info,
    };
    proof {
        let spec = event_record(s, i);
        assert(event@.idup =~= spec.idup);
        assert(event@.istup =~= spec.istup);
        assert(event@.mothup =~= spec.mothup);
        assert(event@.icolup =~= spec.icolup);
        assert(event@.pup =~= spec.pup);
        assert(event@.vtimup =~= spec.vtimup);
        assert(event@.spinup =~= spec.spinup);
    }
    Ok(event)
}

} // verus!
