//! The report as text: one line per section, marker or namespace.

use crate::dump::{Dump, DumpView};
use crate::printer::{Encoding, Line, LineView};
use crate::summary::{total_size, Bucket, BucketView, Summary, SummaryView};
use vstd::prelude::*;

verus! {

/// The character of a digit below 16.
pub open spec fn digit(d: u8) -> char {
    match d {
        0 => '0',
        1 => '1',
        2 => '2',
        3 => '3',
        4 => '4',
        5 => '5',
        6 => '6',
        7 => '7',
        8 => '8',
        9 => '9',
        10 => 'a',
        11 => 'b',
        12 => 'c',
        13 => 'd',
        14 => 'e',
        _ => 'f',
    }
}

/// `n` in decimal, without leading zeros; for 0 the single digit `0`.
pub open spec fn decimal(n: nat) -> Seq<char>
    decreases n,
{
    if n < 10 {
        seq![digit(n as u8)]
    } else {
        decimal(n / 10).push(digit((n % 10) as u8))
    }
}

/// The hexadecimal digits of `n`, in lower case and without leading zeros;
/// for 0 the single digit `0`.
pub open spec fn hex_digits(n: nat) -> Seq<char>
    decreases n,
{
    if n < 16 {
        seq![digit(n as u8)]
    } else {
        hex_digits(n / 16).push(digit((n % 16) as u8))
    }
}

/// `n` in hexadecimal, behind the prefix `0x`.
pub open spec fn hex(n: nat) -> Seq<char> {
    "0x"@ + hex_digits(n)
}

/// `n` spaces.
pub open spec fn spaces(n: nat) -> Seq<char> {
    Seq::new(n, |i: int| ' ')
}

/// `text`, moved to the right edge of a field of `width` characters. A
/// longer text is left as it is.
pub open spec fn right_aligned(text: Seq<char>, width: nat) -> Seq<char> {
    if text.len() < width {
        spaces((width - text.len()) as nat) + text
    } else {
        text
    }
}

/// `text`, at the left edge of a field of `width` characters. A longer
/// text is left as it is.
pub open spec fn left_aligned(text: Seq<char>, width: nat) -> Seq<char> {
    if text.len() < width {
        text + spaces((width - text.len()) as nat)
    } else {
        text
    }
}

/// The number of bytes in `[start, end)`; 0 where that is no range.
pub open spec fn span(start: usize, end: usize) -> nat {
    if start <= end {
        (end - start) as nat
    } else {
        0
    }
}

/// The text of a line of the section map.
pub open spec fn line_text(line: LineView) -> Seq<char> {
    match line {
        LineView::Section { indent, name, start, end, count } => left_aligned(
            spaces(2 * indent as nat) + name,
            40,
        ) + " | "@ + right_aligned(hex(start as nat), 10) + " - "@ + right_aligned(
            hex(end as nat),
            10,
        ) + " | "@ + right_aligned(decimal(span(start, end)), 9) + " bytes | "@ + decimal(
            count as nat,
        ) + " count"@,
        LineView::Start { indent, encoding: Encoding::Module, index } => spaces(2 * indent as nat)
            + "------ start module "@ + decimal(index as nat) + " -------------"@,
        LineView::Start { indent, encoding: Encoding::Component, index } => spaces(
            2 * indent as nat,
        ) + "------ start component "@ + decimal(index as nat) + " ----------"@,
        LineView::End { indent, encoding: Encoding::Module, index } => spaces(2 * indent as nat)
            + "------ end module "@ + decimal(index as nat) + " -------------"@,
        LineView::End { indent, encoding: Encoding::Component, index } => spaces(2 * indent as nat)
            + "------ end component "@ + decimal(index as nat) + " ----------"@,
    }
}

/// The line that counts the called and the uncalled functions.
pub open spec fn calls_text(called: usize, uncalled: usize) -> Seq<char> {
    "Called funcs: "@ + decimal(called as nat) + ", uncalled funcs: "@ + decimal(uncalled as nat)
}

/// The line that counts the namespaces.
pub open spec fn count_text(namespaces: nat) -> Seq<char> {
    decimal(namespaces) + " namespaces found"@
}

/// The line of one namespace: its label, the number of its functions and
/// their total size.
pub open spec fn bucket_text(bucket: BucketView) -> Seq<char> {
    "'"@ + bucket.label + "' functions: "@ + decimal(bucket.members.len()) + " ("@ + decimal(
        total_size(bucket.members),
    ) + " bytes)"@
}

/// The lines of a namespace report: the two counts, then the namespaces in
/// the order of the report.
pub open spec fn summary_text(summary: SummaryView) -> Seq<Seq<char>> {
    seq![calls_text(summary.called, summary.uncalled), count_text(summary.namespaces.len())]
        + Seq::new(summary.namespaces.len(), |i: int| bucket_text(summary.namespaces[i]))
}

/// The lines of a dump: the section map, then the namespace report where
/// there is one.
pub open spec fn dump_text(dump: DumpView) -> Seq<Seq<char>> {
    Seq::new(dump.lines.len(), |i: int| line_text(dump.lines[i])) + match dump.summary {
        Ok(summary) => summary_text(summary),
        Err(_) => Seq::empty(),
    }
}

/// The texts of a list of strings.
pub open spec fn texts(lines: Seq<String>) -> Seq<Seq<char>> {
    Seq::new(lines.len(), |i: int| lines[i]@)
}

/// The string of one digit.
fn digit_str(d: u8) -> (s: &'static str)
    requires
        d < 16,
    ensures
        s@ == seq![digit(d)],
{
    proof {
        reveal_strlit("0");
        reveal_strlit("1");
        reveal_strlit("2");
        reveal_strlit("3");
        reveal_strlit("4");
        reveal_strlit("5");
        reveal_strlit("6");
        reveal_strlit("7");
        reveal_strlit("8");
        reveal_strlit("9");
        reveal_strlit("a");
        reveal_strlit("b");
        reveal_strlit("c");
        reveal_strlit("d");
        reveal_strlit("e");
        reveal_strlit("f");
    }
    let s = match d {
        0 => "0",
        1 => "1",
        2 => "2",
        3 => "3",
        4 => "4",
        5 => "5",
        6 => "6",
        7 => "7",
        8 => "8",
        9 => "9",
        10 => "a",
        11 => "b",
        12 => "c",
        13 => "d",
        14 => "e",
        _ => "f",
    };
    assert(s@ =~= seq![digit(d)]);
    s
}

/// Appends `n` in decimal.
fn push_decimal(s: &mut String, n: u128)
    ensures
        final(s)@ == old(s)@ + decimal(n as nat),
    decreases n,
{
    if n >= 10 {
        push_decimal(s, n / 10);
    }
    s.append(digit_str((n % 10) as u8));
    assert(s@ =~= old(s)@ + decimal(n as nat));
}

/// Appends the hexadecimal digits of `n`.
fn push_hex_digits(s: &mut String, n: usize)
    ensures
        final(s)@ == old(s)@ + hex_digits(n as nat),
    decreases n,
{
    if n >= 16 {
        push_hex_digits(s, n / 16);
    }
    s.append(digit_str((n % 16) as u8));
    assert(s@ =~= old(s)@ + hex_digits(n as nat));
}

/// Appends `n` spaces.
fn push_spaces(s: &mut String, n: usize)
    ensures
        final(s)@ == old(s)@ + spaces(n as nat),
{
    let mut i: usize = 0;
    assert(s@ =~= old(s)@ + spaces(0));
    while i < n
        invariant
            i <= n,
            s@ == old(s)@ + spaces(i as nat),
        decreases n - i,
    {
        proof {
            reveal_strlit(" ");
        }
        s.append(" ");
        assert(s@ =~= old(s)@ + spaces((i + 1) as nat));
        i = i + 1;
    }
}

/// Appends the indentation of a line: two spaces per step.
fn push_indent(s: &mut String, indent: usize)
    ensures
        final(s)@ == old(s)@ + spaces(2 * indent as nat),
{
    push_spaces(s, indent);
    push_spaces(s, indent);
    assert(old(s)@ + spaces(indent as nat) + spaces(indent as nat) =~= old(s)@ + spaces(
        2 * indent as nat,
    ));
}

/// Appends `text` at the right edge of a field of `width` characters.
fn push_right_aligned(s: &mut String, text: &str, width: usize)
    ensures
        final(s)@ == old(s)@ + right_aligned(text@, width as nat),
{
    let len = text.unicode_len();
    if len < width {
        push_spaces(s, width - len);
    }
    s.append(text);
    assert(s@ =~= old(s)@ + right_aligned(text@, width as nat));
}

/// `n` in decimal.
pub fn decimal_string(n: u128) -> (s: String)
    ensures
        s@ == decimal(n as nat),
{
    let mut s = String::new();
    push_decimal(&mut s, n);
    assert(Seq::<char>::empty() + decimal(n as nat) =~= decimal(n as nat));
    s
}

/// `n` in hexadecimal, behind the prefix `0x`.
pub fn hex_string(n: usize) -> (s: String)
    ensures
        s@ == hex(n as nat),
{
    let mut s = String::from_str("0x");
    push_hex_digits(&mut s, n);
    s
}

impl Line {
    /// The text of the line.
    pub fn text(&self) -> (s: String)
        ensures
            s@ == line_text(self@),
    {
        let mut s = String::new();
        match self {
            Line::Section { indent, name, start, end, count } => {
                push_indent(&mut s, *indent);
                s.append(name.as_str());
                let len = s.as_str().unicode_len();
                if len < 40 {
                    push_spaces(&mut s, 40 - len);
                }
                let ghost label = left_aligned(spaces(2 * *indent as nat) + name@, 40);
                assert(s@ =~= label);
                s.append(" | ");
                push_right_aligned(&mut s, hex_string(*start).as_str(), 10);
                s.append(" - ");
                push_right_aligned(&mut s, hex_string(*end).as_str(), 10);
                s.append(" | ");
                let bytes: usize = if *start <= *end {
                    *end - *start
                } else {
                    0
                };
                push_right_aligned(&mut s, decimal_string(bytes as u128).as_str(), 9);
                s.append(" bytes | ");
                s.append(decimal_string(*count as u128).as_str());
                s.append(" count");
            },
            Line::Start { indent, encoding, index } => {
                push_indent(&mut s, *indent);
                assert(s@ =~= spaces(2 * *indent as nat));
                match encoding {
                    Encoding::Module => {
                        s.append("------ start module ");
                        s.append(decimal_string(*index as u128).as_str());
                        s.append(" -------------");
                    },
                    Encoding::Component => {
                        s.append("------ start component ");
                        s.append(decimal_string(*index as u128).as_str());
                        s.append(" ----------");
                    },
                }
            },
            Line::End { indent, encoding, index } => {
                push_indent(&mut s, *indent);
                assert(s@ =~= spaces(2 * *indent as nat));
                match encoding {
                    Encoding::Module => {
                        s.append("------ end module ");
                        s.append(decimal_string(*index as u128).as_str());
                        s.append(" -------------");
                    },
                    Encoding::Component => {
                        s.append("------ end component ");
                        s.append(decimal_string(*index as u128).as_str());
                        s.append(" ----------");
                    },
                }
            },
        }
        s
    }
}

impl Bucket {
    /// The line of the namespace in the report.
    pub fn text(&self) -> (s: String)
        ensures
            s@ == bucket_text(self@),
    {
        let mut s = String::from_str("'");
        s.append(self.label.as_str());
        s.append("' functions: ");
        s.append(decimal_string(self.members.len() as u128).as_str());
        s.append(" (");
        s.append(decimal_string(self.byte_size()).as_str());
        s.append(" bytes)");
        s
    }
}

/// Appends the lines of a namespace report.
fn push_summary(lines: &mut Vec<String>, summary: &Summary)
    ensures
        texts(final(lines)@) == texts(old(lines)@) + summary_text(summary@),
{
    let ghost before = texts(lines@);
    let mut calls = String::from_str("Called funcs: ");
    calls.append(decimal_string(summary.called as u128).as_str());
    calls.append(", uncalled funcs: ");
    calls.append(decimal_string(summary.uncalled as u128).as_str());
    lines.push(calls);
    let mut count = decimal_string(summary.namespaces.len() as u128);
    count.append(" namespaces found");
    lines.push(count);
    let ghost head = texts(lines@);
    assert(head =~= before + seq![
        calls_text(summary.called, summary.uncalled),
        count_text(summary@.namespaces.len()),
    ]);
    let mut k: usize = 0;
    while k < summary.namespaces.len()
        invariant
            k <= summary.namespaces.len(),
            texts(lines@) == head + Seq::new(k as nat, |i: int| bucket_text(summary@.namespaces[i])),
        decreases summary.namespaces.len() - k,
    {
        let ghost so_far = texts(lines@);
        let line = summary.namespaces[k].text();
        lines.push(line);
        assert(texts(lines@) =~= so_far.push(line@));
        assert(texts(lines@) =~= head + Seq::new(
            (k + 1) as nat,
            |i: int| bucket_text(summary@.namespaces[i]),
        ));
        k = k + 1;
    }
    assert(texts(lines@) =~= before + summary_text(summary@));
}

impl Dump {
    /// The dump as lines of text: the section map, then the namespace
    /// report where there is one.
    pub fn text(&self) -> (lines: Vec<String>)
        ensures
            texts(lines@) == dump_text(self@),
    {
        let mut lines: Vec<String> = Vec::new();
        let mut k: usize = 0;
        while k < self.lines.len()
            invariant
                k <= self.lines.len(),
                texts(lines@) == Seq::new(k as nat, |i: int| line_text(self@.lines[i])),
            decreases self.lines.len() - k,
        {
            let ghost so_far = texts(lines@);
            let line = self.lines[k].text();
            lines.push(line);
            assert(texts(lines@) =~= so_far.push(line@));
            assert(texts(lines@) =~= Seq::new((k + 1) as nat, |i: int| line_text(self@.lines[i])));
            k = k + 1;
        }
        let ghost map = texts(lines@);
        assert(map =~= Seq::new(self@.lines.len(), |i: int| line_text(self@.lines[i])));
        match &self.summary {
            Ok(summary) => {
                push_summary(&mut lines, summary);
            },
            Err(_) => {
                assert(map + Seq::<Seq<char>>::empty() =~= map);
            },
        }
        lines
    }
}

} // verus!
