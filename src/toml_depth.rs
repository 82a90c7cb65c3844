use vstd::prelude::*;
use vstd::string::*;

verus! {

/// Largest nesting measure (see [`nesting_step`]) a configuration text may reach.
/// The TOML reader recurses once per nested array or inline table and once per
/// part of a dotted key or table header, with no limit of its own; a text whose
/// measure stays at or below this bound keeps that recursion shallow.
pub const MAX_TOML_NESTING: u64 = 48;

/// Where the scan stands between two bytes, in the terms of the TOML tokenizer.
#[derive(Clone, Copy)]
pub enum Lex {
    /// Between tokens.
    Normal,
    /// In a `#` comment, which runs to the end of the line.
    Comment,
    /// After `count` opening quotes (one or two) of a string.
    Opening { quote: u8, count: u8 },
    /// Inside a string: `multi` for one opened by three quotes, `escaped` right
    /// after a backslash of a `"` string, `run` the quotes just seen in a
    /// multi-line string.
    Quoted { quote: u8, multi: bool, escaped: bool, run: u8 },
}

/// The scan's state: brackets and braces open now, dots in the current statement,
/// the most dots of any earlier statement (which covers the table header in force),
/// and whether their sum ever went over the limit.
#[derive(Clone, Copy)]
pub struct NestingScan {
    pub lex: Lex,
    pub open: u64,
    pub dots: u64,
    pub header: u64,
    pub over: bool,
}

pub open spec fn scan_start() -> NestingScan {
    NestingScan { lex: Lex::Normal, open: 0, dots: 0, header: 0, over: false }
}

pub open spec fn bounded(s: NestingScan) -> bool {
    s.open + s.dots + s.header <= MAX_TOML_NESTING
}

/// One byte between tokens.
pub open spec fn normal_step(s: NestingScan, b: u8) -> NestingScan
    recommends
        bounded(s),
{
    let s = NestingScan { lex: Lex::Normal, ..s };
    if b == 0x23 {
        NestingScan { lex: Lex::Comment, ..s }
    } else if b == 0x22 || b == 0x27 {
        NestingScan { lex: Lex::Opening { quote: b, count: 1 }, ..s }
    } else if b == 0x5b || b == 0x7b {
        NestingScan { open: (s.open + 1) as u64, ..s }
    } else if b == 0x5d || b == 0x7d {
        NestingScan { open: if s.open > 0 { (s.open - 1) as u64 } else { 0 }, ..s }
    } else if b == 0x2e {
        NestingScan { dots: (s.dots + 1) as u64, ..s }
    } else if b == 0x0a && s.open == 0 {
        NestingScan { header: if s.dots > s.header { s.dots } else { s.header }, dots: 0, ..s }
    } else {
        s
    }
}

/// One byte inside a string. A multi-line string ends after three quotes, which
/// take up to two more along; a one-line string ends at its quote, or at a line
/// end, where the reader fails.
pub open spec fn quoted_step(
    s: NestingScan,
    quote: u8,
    multi: bool,
    escaped: bool,
    run: u8,
    b: u8,
) -> NestingScan
    recommends
        bounded(s),
{
    if escaped {
        NestingScan { lex: Lex::Quoted { quote, multi, escaped: false, run: 0 }, ..s }
    } else if b == quote {
        if !multi || run >= 4 {
            NestingScan { lex: Lex::Normal, ..s }
        } else {
            NestingScan { lex: Lex::Quoted { quote, multi, escaped: false, run: (run + 1) as u8 }, ..s }
        }
    } else if multi && run >= 3 {
        normal_step(s, b)
    } else if b == 0x5c && quote == 0x22 {
        NestingScan { lex: Lex::Quoted { quote, multi, escaped: true, run: 0 }, ..s }
    } else if b == 0x0a && !multi {
        normal_step(s, b)
    } else {
        NestingScan { lex: Lex::Quoted { quote, multi, escaped: false, run: 0 }, ..s }
    }
}

/// One byte in whatever state the scan is in, before the limit is applied.
pub open spec fn lex_step(s: NestingScan, b: u8) -> NestingScan
    recommends
        bounded(s),
{
    match s.lex {
        Lex::Normal => normal_step(s, b),
        Lex::Comment => if b == 0x0a {
            normal_step(s, b)
        } else {
            s
        },
        Lex::Opening { quote, count } => if b == quote {
            if count == 1 {
                NestingScan { lex: Lex::Opening { quote, count: 2 }, ..s }
            } else {
                NestingScan {
                    lex: Lex::Quoted { quote, multi: true, escaped: false, run: 0 },
                    ..s
                }
            }
        } else if count == 1 {
            quoted_step(s, quote, false, false, 0, b)
        } else {
            normal_step(s, b)
        },
        Lex::Quoted { quote, multi, escaped, run } => quoted_step(s, quote, multi, escaped, run, b),
    }
}

/// One byte of the scan: once the sum of open brackets, statement dots and header
/// dots has gone over the limit, the scan stays over.
pub open spec fn nesting_step(s: NestingScan, b: u8) -> NestingScan {
    if s.over || !bounded(s) {
        NestingScan { over: true, ..s }
    } else {
        let t = lex_step(s, b);
        if t.open + t.dots + t.header > MAX_TOML_NESTING {
            NestingScan { over: true, ..t }
        } else {
            t
        }
    }
}

pub open spec fn nesting_scan(bytes: Seq<u8>) -> NestingScan
    decreases bytes.len(),
{
    if bytes.len() == 0 {
        scan_start()
    } else {
        nesting_step(nesting_scan(bytes.drop_last()), bytes.last())
    }
}

/// Whether the TOML reader's recursion on these bytes stays within the limit.
pub open spec fn toml_nesting_ok(bytes: Seq<u8>) -> bool {
    !nesting_scan(bytes).over
}

fn normal_byte(s: NestingScan, b: u8) -> (r: NestingScan)
    requires
        s.open + s.dots + s.header <= MAX_TOML_NESTING,
    ensures
        r == normal_step(s, b),
{
    let s = NestingScan { lex: Lex::Normal, ..s };
    if b == 0x23 {
        NestingScan { lex: Lex::Comment, ..s }
    } else if b == 0x22 || b == 0x27 {
        NestingScan { lex: Lex::Opening { quote: b, count: 1 }, ..s }
    } else if b == 0x5b || b == 0x7b {
        NestingScan { open: s.open + 1, ..s }
    } else if b == 0x5d || b == 0x7d {
        NestingScan { open: if s.open > 0 { s.open - 1 } else { 0 }, ..s }
    } else if b == 0x2e {
        NestingScan { dots: s.dots + 1, ..s }
    } else if b == 0x0a && s.open == 0 {
        NestingScan { header: if s.dots > s.header { s.dots } else { s.header }, dots: 0, ..s }
    } else {
        s
    }
}

fn quoted_byte(s: NestingScan, quote: u8, multi: bool, escaped: bool, run: u8, b: u8) -> (r:
    NestingScan)
    requires
        s.open + s.dots + s.header <= MAX_TOML_NESTING,
        run <= 4,
    ensures
        r == quoted_step(s, quote, multi, escaped, run, b),
{
    if escaped {
        NestingScan { lex: Lex::Quoted { quote, multi, escaped: false, run: 0 }, ..s }
    } else if b == quote {
        if !multi || run >= 4 {
            NestingScan { lex: Lex::Normal, ..s }
        } else {
            NestingScan { lex: Lex::Quoted { quote, multi, escaped: false, run: run + 1 }, ..s }
        }
    } else if multi && run >= 3 {
        normal_byte(s, b)
    } else if b == 0x5c && quote == 0x22 {
        NestingScan { lex: Lex::Quoted { quote, multi, escaped: true, run: 0 }, ..s }
    } else if b == 0x0a && !multi {
        normal_byte(s, b)
    } else {
        NestingScan { lex: Lex::Quoted { quote, multi, escaped: false, run: 0 }, ..s }
    }
}

pub open spec fn run_in_range(s: NestingScan) -> bool {
    match s.lex {
        Lex::Quoted { run, .. } => run <= 4,
        _ => true,
    }
}

proof fn lemma_step_keeps_run(s: NestingScan, b: u8)
    requires
        run_in_range(s),
    ensures
        run_in_range(nesting_step(s, b)),
{
}

fn scan_byte(s: NestingScan, b: u8) -> (r: NestingScan)
    requires
        run_in_range(s),
        !s.over ==> bounded(s),
    ensures
        r == nesting_step(s, b),
{
    if s.over {
        return NestingScan { over: true, ..s };
    }
    let t = match s.lex {
        Lex::Normal => normal_byte(s, b),
        Lex::Comment => if b == 0x0a {
            normal_byte(s, b)
        } else {
            s
        },
        Lex::Opening { quote, count } => if b == quote {
            if count == 1 {
                NestingScan { lex: Lex::Opening { quote, count: 2 }, ..s }
            } else {
                NestingScan {
                    lex: Lex::Quoted { quote, multi: true, escaped: false, run: 0 },
                    ..s
                }
            }
        } else if count == 1 {
            quoted_byte(s, quote, false, false, 0, b)
        } else {
            normal_byte(s, b)
        },
        Lex::Quoted { quote, multi, escaped, run } => quoted_byte(s, quote, multi, escaped, run, b),
    };
    if t.open + t.dots + t.header > MAX_TOML_NESTING {
        NestingScan { over: true, ..t }
    } else {
        t
    }
}

/// Whether `text` is within the nesting limit that the TOML reader is run under.
pub fn toml_nesting_within_limit(text: &str) -> (r: bool)
    ensures
        r == toml_nesting_ok(text.spec_bytes()),
{
    let bytes = text.as_bytes();
    let mut s = NestingScan { lex: Lex::Normal, open: 0, dots: 0, header: 0, over: false };
    let mut i: usize = 0;
    while i < bytes.len()
        invariant
            bytes@ == text.spec_bytes(),
            i <= bytes@.len(),
            s == nesting_scan(bytes@.take(i as int)),
            run_in_range(s),
            !s.over ==> s.open + s.dots + s.header <= MAX_TOML_NESTING,
        decreases bytes@.len() - i,
    {
        assert(bytes@.take(i as int + 1).drop_last() =~= bytes@.take(i as int));
        proof {
            lemma_step_keeps_run(s, bytes@[i as int]);
        }
        s = scan_byte(s, bytes[i]);
        i += 1;
    }
    assert(bytes@.take(bytes@.len() as int) =~= bytes@);
    !s.over
}

} // verus!
