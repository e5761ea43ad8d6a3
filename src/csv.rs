//! Splitting CSV text into records of fields.
//!
//! Records end at a line feed and fields at a comma. A field that starts with a
//! double quote runs to the matching closing quote and may hold commas, line
//! feeds and doubled quotes, which stand for one quote. Outside quotes a
//! carriage return must be followed by a line feed, so CRLF and LF line
//! endings read alike; a carriage return followed by anything else, or by the
//! end of the text, makes the text malformed. A line with no characters holds
//! no record.
use vstd::prelude::*;

verus! {

pub const COMMA: u8 = 0x2c;

pub const QUOTE: u8 = 0x22;

pub const LF: u8 = 0x0a;

pub const CR: u8 = 0x0d;

/// Where the scanner stands within the current field.
#[derive(Clone, Copy, Debug, PartialEq, Eq, Structural)]
pub enum Mode {
    /// At the start of a field, nothing of it read yet.
    Start,
    /// Inside an unquoted field.
    Plain,
    /// Inside a quoted field.
    Quoted,
    /// Just after a quote inside a quoted field: the field's end or the first
    /// half of a doubled quote.
    QuoteEnd,
    /// Past a character that cannot follow a closing quote.
    Bad,
}

/// What has been read of a text: the finished records, the finished fields of
/// the current record, the current field, the mode, and whether the last byte
/// was a carriage return outside quotes, which awaits its line feed.
pub ghost struct ScanState {
    pub rows: Seq<Seq<Seq<u8>>>,
    pub fields: Seq<Seq<u8>>,
    pub field: Seq<u8>,
    pub mode: Mode,
    pub cr: bool,
}

pub open spec fn initial_state() -> ScanState {
    ScanState { rows: seq![], fields: seq![], field: seq![], mode: Mode::Start, cr: false }
}

pub open spec fn end_field(s: ScanState) -> ScanState {
    ScanState { rows: s.rows, fields: s.fields.push(s.field), field: seq![], mode: Mode::Start, cr: false }
}

pub open spec fn end_record(s: ScanState) -> ScanState {
    ScanState {
        rows: s.rows.push(s.fields.push(s.field)),
        fields: seq![],
        field: seq![],
        mode: Mode::Start,
        cr: false,
    }
}

pub open spec fn add_byte(s: ScanState, c: u8, mode: Mode) -> ScanState {
    ScanState { rows: s.rows, fields: s.fields, field: s.field.push(c), mode, cr: false }
}

pub open spec fn with_mode(s: ScanState, mode: Mode) -> ScanState {
    ScanState { rows: s.rows, fields: s.fields, field: s.field, mode, cr: false }
}

pub open spec fn await_lf(s: ScanState) -> ScanState {
    ScanState { rows: s.rows, fields: s.fields, field: s.field, mode: s.mode, cr: true }
}

/// The state after reading one more byte other than a carriage return outside
/// quotes.
pub open spec fn step_byte(s: ScanState, c: u8) -> ScanState {
    match s.mode {
        Mode::Start => {
            if c == QUOTE {
                with_mode(s, Mode::Quoted)
            } else if c == COMMA {
                end_field(s)
            } else if c == LF {
                if s.fields.len() == 0 { with_mode(s, Mode::Start) } else { end_record(s) }
            } else {
                add_byte(s, c, Mode::Plain)
            }
        },
        Mode::Plain => {
            if c == COMMA {
                end_field(s)
            } else if c == LF {
                end_record(s)
            } else {
                add_byte(s, c, Mode::Plain)
            }
        },
        Mode::Quoted => {
            if c == QUOTE { with_mode(s, Mode::QuoteEnd) } else { add_byte(s, c, Mode::Quoted) }
        },
        Mode::QuoteEnd => {
            if c == QUOTE {
                add_byte(s, c, Mode::Quoted)
            } else if c == COMMA {
                end_field(s)
            } else if c == LF {
                end_record(s)
            } else {
                with_mode(s, Mode::Bad)
            }
        },
        Mode::Bad => s,
    }
}

/// The state after reading one more byte.
pub open spec fn step(s: ScanState, c: u8) -> ScanState {
    if s.mode == Mode::Bad {
        s
    } else if s.cr {
        if c == LF { step_byte(s, c) } else { with_mode(s, Mode::Bad) }
    } else if c == CR && s.mode != Mode::Quoted {
        await_lf(s)
    } else {
        step_byte(s, c)
    }
}

/// The state after reading all of `b`.
pub open spec fn scan(b: Seq<u8>) -> ScanState
    decreases b.len(),
{
    if b.len() == 0 {
        initial_state()
    } else {
        step(scan(b.drop_last()), b.last())
    }
}

/// The records of a CSV text, or `None` where a quoted field is left open, a
/// closing quote is followed by anything but a comma or a line end, or a
/// carriage return outside quotes by anything but a line feed.
pub open spec fn records(b: Seq<u8>) -> Option<Seq<Seq<Seq<u8>>>> {
    let s = scan(b);
    if s.cr {
        None
    } else {
        match s.mode {
        Mode::Quoted | Mode::Bad => None,
            Mode::Start => if s.fields.len() == 0 { Some(s.rows) } else { Some(end_record(s).rows) },
            _ => Some(end_record(s).rows),
        }
    }
}

/// Reads the records of a CSV text.
pub fn read_records(text: &[u8]) -> (r: Option<Vec<Vec<Vec<u8>>>>)
    ensures
        match r {
            Some(v) => records(text@) == Some(v.deep_view()),
            None => records(text@) is None,
        },
{
    let mut rows: Vec<Vec<Vec<u8>>> = Vec::new();
    let mut fields: Vec<Vec<u8>> = Vec::new();
    let mut field: Vec<u8> = Vec::new();
    let mut mode = Mode::Start;
    let mut cr = false;
    let mut i: usize = 0;
    proof {
        assert(rows.deep_view() =~= seq![]);
        assert(fields.deep_view() =~= seq![]);
        assert(text@.take(0) =~= seq![]);
    }
    while i < text.len()
        invariant
            0 <= i <= text.len(),
            scan(text@.take(i as int)) == (ScanState {
                rows: rows.deep_view(),
                fields: fields.deep_view(),
                field: field@,
                mode,
                cr,
            }),
        decreases text.len() - i,
    {
        let c = text[i];
        let ghost s = scan(text@.take(i as int));
        proof {
            assert(text@.take(i + 1).drop_last() =~= text@.take(i as int));
            assert(text@.take(i + 1).last() == c);
        }
        let act = next_action(mode, cr, c, fields.len() == 0);
        match act {
            Action::Keep => {},
            Action::AwaitLf => {
                cr = true;
            },
            Action::SetMode(m) => {
                mode = m;
                cr = false;
            },
            Action::Add(m) => {
                field.push(c);
                mode = m;
                cr = false;
            },
            Action::EndField => {
                end_field_exec(&mut fields, &mut field);
                mode = Mode::Start;
                cr = false;
            },
            Action::EndRecord => {
                end_record_exec(&mut rows, &mut fields, &mut field);
                mode = Mode::Start;
                cr = false;
            },
        }
        i += 1;
    }
    proof {
        assert(text@.take(text.len() as int) =~= text@);
    }
    if cr {
        return None;
    }
    match mode {
        Mode::Quoted | Mode::Bad => None,
        Mode::Start => {
            if fields.len() != 0 {
                end_record_exec(&mut rows, &mut fields, &mut field);
            }
            Some(rows)
        },
        _ => {
            end_record_exec(&mut rows, &mut fields, &mut field);
            Some(rows)
        },
    }
}

/// What one byte does to the scanner's state.
enum Action {
    Keep,
    AwaitLf,
    SetMode(Mode),
    Add(Mode),
    EndField,
    EndRecord,
}

spec fn apply(s: ScanState, a: Action, c: u8) -> ScanState {
    match a {
        Action::Keep => s,
        Action::AwaitLf => await_lf(s),
        Action::SetMode(m) => with_mode(s, m),
        Action::Add(m) => add_byte(s, c, m),
        Action::EndField => end_field(s),
        Action::EndRecord => end_record(s),
    }
}

fn next_action(mode: Mode, cr: bool, c: u8, no_fields: bool) -> (a: Action)
    ensures
        forall|s: ScanState|
            s.mode == mode && s.cr == cr && (s.fields.len() == 0) == no_fields ==> #[trigger] step(s, c)
                == apply(s, a, c),
{
    if mode == Mode::Bad {
        Action::Keep
    } else if cr {
        if c == LF { byte_action(mode, c, no_fields) } else { Action::SetMode(Mode::Bad) }
    } else if c == CR && mode != Mode::Quoted {
        Action::AwaitLf
    } else {
        byte_action(mode, c, no_fields)
    }
}

fn byte_action(mode: Mode, c: u8, no_fields: bool) -> (a: Action)
    ensures
        forall|s: ScanState|
            s.mode == mode && (s.fields.len() == 0) == no_fields ==> #[trigger] step_byte(s, c) == apply(s, a, c),
{
    match mode {
        Mode::Start => {
            if c == QUOTE {
                Action::SetMode(Mode::Quoted)
            } else if c == COMMA {
                Action::EndField
            } else if c == LF {
                if no_fields { Action::SetMode(Mode::Start) } else { Action::EndRecord }
            } else {
                Action::Add(Mode::Plain)
            }
        },
        Mode::Plain => {
            if c == COMMA {
                Action::EndField
            } else if c == LF {
                Action::EndRecord
            } else {
                Action::Add(Mode::Plain)
            }
        },
        Mode::Quoted => {
            if c == QUOTE { Action::SetMode(Mode::QuoteEnd) } else { Action::Add(Mode::Quoted) }
        },
        Mode::QuoteEnd => {
            if c == QUOTE {
                Action::Add(Mode::Quoted)
            } else if c == COMMA {
                Action::EndField
            } else if c == LF {
                Action::EndRecord
            } else {
                Action::SetMode(Mode::Bad)
            }
        },
        Mode::Bad => Action::Keep,
    }
}

fn end_field_exec(fields: &mut Vec<Vec<u8>>, field: &mut Vec<u8>)
    ensures
        final(fields).deep_view() == old(fields).deep_view().push(old(field)@),
        final(field)@ == Seq::<u8>::empty(),
{
    let mut f: Vec<u8> = Vec::new();
    std::mem::swap(field, &mut f);
    proof {
        assert(f.deep_view() =~= f@);
    }
    fields.push(f);
    proof {
        assert(fields.deep_view() =~= old(fields).deep_view().push(old(field)@));
    }
}

fn end_record_exec(rows: &mut Vec<Vec<Vec<u8>>>, fields: &mut Vec<Vec<u8>>, field: &mut Vec<u8>)
    ensures
        final(rows).deep_view() == old(rows).deep_view().push(old(fields).deep_view().push(old(field)@)),
        final(fields).deep_view() == Seq::<Seq<u8>>::empty(),
        final(field)@ == Seq::<u8>::empty(),
{
    end_field_exec(fields, field);
    let mut fs: Vec<Vec<u8>> = Vec::new();
    std::mem::swap(fields, &mut fs);
    rows.push(fs);
    proof {
        assert(rows.deep_view() =~= old(rows).deep_view().push(fs.deep_view()));
        assert(fields.deep_view() =~= Seq::<Seq<u8>>::empty());
    }
}

} // verus!
