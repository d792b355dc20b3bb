use vstd::prelude::*;

use super::policy_parse_error::PolicyParseError;
use crate::text::{
    chars_to_string, decimal_text, is_digit, lemma_decimal_text_digits, lemma_digits_have_no_dash,
    lemma_digits_read_back, lemma_split_at_separator, parse_decimal, parse_unsigned, push_decimal,
    split_once, split_once_chars, text_chars, trim, trim_chars,
};

verus! {

/// Inclusive range of TCP ports (`443` or `8000-8100`), never containing port 0.
#[derive(Debug, Clone, Copy, PartialEq, Eq, Structural)]
pub struct PortRange {
    first: u16,
    last: u16,
}

/// One port as the range syntax reads it: white space around it ignored, 1..=65535.
pub open spec fn port_from_text(text: Seq<char>) -> Option<u16> {
    match parse_unsigned(trim(text), 0xFFFF) {
        Some(v) => if v != 0 {
            Some(v as u16)
        } else {
            None
        },
        None => None,
    }
}

/// `PortRange::from_str`: `port` or `first-last` with `first <= last`, as (first, last).
pub open spec fn port_range_from_text(input: Seq<char>) -> Option<(u16, u16)> {
    let (first, last) = match split_once(input, '-') {
        Some((a, b)) => (port_from_text(a), port_from_text(b)),
        None => (port_from_text(input), port_from_text(input)),
    };
    match (first, last) {
        (Some(f), Some(l)) => if f <= l {
            Some((f, l))
        } else {
            None
        },
        _ => None,
    }
}

/// `first` alone, or `first-last`.
pub open spec fn port_range_text(first: u16, last: u16) -> Seq<char> {
    if first == last {
        decimal_text(first as nat)
    } else {
        decimal_text(first as nat) + seq!['-'] + decimal_text(last as nat)
    }
}

/// A port range reads back from its own text as the same range.
pub proof fn law_port_range_text_reads_back(range: PortRange)
    requires
        range.wf(),
    ensures
        port_range_from_text(port_range_text(range.spec_first(), range.spec_last())) == Some(
            (range.spec_first(), range.spec_last()),
        ),
{
    let first = range.first;
    let last = range.last;
    lemma_decimal_text_digits(first as nat);
    lemma_decimal_text_digits(last as nat);
    lemma_digits_read_back(decimal_text(first as nat), 0xFFFF);
    lemma_digits_read_back(decimal_text(last as nat), 0xFFFF);
    lemma_digits_have_no_dash(decimal_text(first as nat));
    if first != last {
        lemma_split_at_separator(decimal_text(first as nat), decimal_text(last as nat), '-');
    }
}

/// The text of a port range is digits and at most one dash, ending in a digit.
pub proof fn lemma_port_range_text_chars(first: u16, last: u16)
    ensures
        port_range_text(first, last).len() > 0,
        is_digit(port_range_text(first, last).last()),
        forall|i: int|
            0 <= i < port_range_text(first, last).len() ==> #[trigger] port_range_text(
                first,
                last,
            )[i] != ':',
{
    let a = decimal_text(first as nat);
    let b = decimal_text(last as nat);
    lemma_decimal_text_digits(first as nat);
    lemma_decimal_text_digits(last as nat);
    let t = port_range_text(first, last);
    assert(is_digit(b[b.len() - 1]) && is_digit(a[a.len() - 1]));
    if first != last {
        assert(t == a + seq!['-'] + b);
        assert(t.last() == b[b.len() - 1]);
        assert forall|i: int| 0 <= i < t.len() implies #[trigger] t[i] != ':' by {
            if i < a.len() {
                assert(t[i] == a[i]);
                assert(is_digit(a[i]));
            } else if i > a.len() {
                assert(t[i] == b[i - a.len() - 1]);
                assert(is_digit(b[i - a.len() - 1]));
            }
        }
    } else {
        assert forall|i: int| 0 <= i < t.len() implies #[trigger] t[i] != ':' by {
            assert(is_digit(a[i]));
        }
    }
}

pub const PORT_FORMAT: &'static str = "expected a port 1-65535 or a range like 8000-8100";

fn parse_port(text: &[char]) -> (r: Option<u16>)
    ensures
        r == port_from_text(text@),
{
    let trimmed = trim_chars(text);
    match parse_decimal(trimmed.as_slice(), 0xFFFF) {
        Some(v) => if v != 0 {
            Some(v as u16)
        } else {
            None
        },
        None => None,
    }
}

impl PortRange {
    pub closed spec fn spec_first(&self) -> u16 {
        self.first
    }

    pub closed spec fn spec_last(&self) -> u16 {
        self.last
    }

    /// The range holds `1 <= first <= last`.
    pub closed spec fn wf(&self) -> bool {
        1 <= self.first <= self.last
    }

    pub fn contains(self, port: u16) -> (r: bool)
        ensures
            r == (self.spec_first() <= port <= self.spec_last()),
    {
        self.first <= port && port <= self.last
    }

    /// Parses `port` or `first-last` (`PortRange::from_str`).
    pub fn parse(input: &str) -> (r: Result<Self, PolicyParseError>)
        ensures
            match r {
                Ok(range) => port_range_from_text(input@) == Some((range.spec_first(), range.spec_last()))
                    && range.wf(),
                Err(e) => port_range_from_text(input@) is None && e.input@ == input@ && e.reason
                    == PORT_FORMAT,
            },
    {
        let chars = text_chars(input);
        Self::parse_chars(input, chars.as_slice())
    }

    /// [`PortRange::parse`] on the characters of `input`.
    pub fn parse_chars(input: &str, chars: &[char]) -> (r: Result<Self, PolicyParseError>)
        requires
            chars@ == input@,
        ensures
            match r {
                Ok(range) => port_range_from_text(input@) == Some((range.spec_first(), range.spec_last()))
                    && range.wf(),
                Err(e) => port_range_from_text(input@) is None && e.input@ == input@ && e.reason
                    == PORT_FORMAT,
            },
    {
        let (first, last) = match split_once_chars(chars, '-') {
            Some((a, b)) => (parse_port(a.as_slice()), parse_port(b.as_slice())),
            None => (parse_port(chars), parse_port(chars)),
        };
        match (first, last) {
            (Some(first), Some(last)) => if first <= last {
                Ok(PortRange { first, last })
            } else {
                Err(PolicyParseError::new(input, PORT_FORMAT))
            },
            _ => Err(PolicyParseError::new(input, PORT_FORMAT)),
        }
    }

    /// Appends `first` or `first-last`.
    pub fn push_text(&self, out: &mut Vec<char>)
        ensures
            final(out)@ == old(out)@ + port_range_text(self.spec_first(), self.spec_last()),
    {
        let ghost start = out@;
        push_decimal(out, self.first as u64);
        if self.first != self.last {
            out.push('-');
            push_decimal(out, self.last as u64);
        }
        assert(out@ =~= start + port_range_text(self.spec_first(), self.spec_last()));
    }

    /// `first` or `first-last` (the `Display` form).
    pub fn to_text(&self) -> (r: String)
        ensures
            r@ == port_range_text(self.spec_first(), self.spec_last()),
    {
        let mut out: Vec<char> = Vec::new();
        self.push_text(&mut out);
        assert(out@ =~= port_range_text(self.spec_first(), self.spec_last()));
        chars_to_string(out.as_slice())
    }
}

} // verus!
