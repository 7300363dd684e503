//! Breakpoint specifications as the user writes them: `*` and a hexadecimal
//! address, a decimal line number, or a function name.

use vstd::prelude::*;
use vstd::string::*;
use crate::dwarf_data::{DwarfData, DwarfDataView};
use crate::status::DebugError;
use crate::text::{number_in, parse_number};

verus! {

/// The place a breakpoint specification names.
#[derive(Clone, Debug, PartialEq, Eq)]
pub enum Point {
    /// A line of the source.
    Line(usize),
    /// A function, by name.
    Func(String),
    /// A raw instruction address.
    Addr(usize),
}

/// A [`Point`] with the function name as a sequence of characters.
pub enum PointView {
    Line(usize),
    Func(Seq<char>),
    Addr(usize),
}

impl View for Point {
    type V = PointView;

    open spec fn view(&self) -> PointView {
        match self {
            Point::Line(line) => PointView::Line(*line),
            Point::Func(name) => PointView::Func(name@),
            Point::Addr(addr) => PointView::Addr(*addr),
        }
    }
}

/// The text without a leading `0x` or `0X`.
pub open spec fn without_hex_prefix(s: Seq<char>) -> Seq<char> {
    if s.len() >= 2 && s[0] == '0' && (s[1] == 'x' || s[1] == 'X') {
        s.skip(2)
    } else {
        s
    }
}

/// The address written in `s`: a hexadecimal number, with or without a
/// leading `0x`.
pub open spec fn address_in(s: Seq<char>) -> Option<usize> {
    number_in(without_hex_prefix(s), true)
}

/// The place that the specification `s` names. A leading `*` announces an
/// address, and the specification names nothing if none follows. Otherwise a
/// decimal number is a line, and any other text is a function name.
pub open spec fn point_in(s: Seq<char>) -> Option<PointView> {
    if s.len() > 0 && s[0] == '*' {
        match address_in(s.skip(1)) {
            Some(addr) => Some(PointView::Addr(addr)),
            None => None,
        }
    } else {
        match number_in(s, false) {
            Some(line) => Some(PointView::Line(line)),
            None => Some(PointView::Func(s)),
        }
    }
}

/// Reads a hexadecimal address, with or without a leading `0x`.
pub fn parse_address(addr: &str) -> (r: Option<usize>)
    ensures
        r == address_in(addr@),
{
    let len = addr.unicode_len();
    if len >= 2 && addr.get_char(0) == '0' && (addr.get_char(1) == 'x' || addr.get_char(1) == 'X') {
        let digits = addr.substring_char(2, len);
        assert(digits@ =~= addr@.skip(2));
        parse_number(digits, true)
    } else {
        parse_number(addr, true)
    }
}

/// Classifies a breakpoint specification.
///
/// Fails with [`DebugError::Resolve`] exactly when the specification starts
/// with `*` and no valid address follows.
pub fn type_breakpoint(point: &str) -> (r: Result<Point, DebugError>)
    ensures
        match point_in(point@) {
            Some(place) => r is Ok && r->Ok_0@ == place,
            None => r == Err::<Point, DebugError>(DebugError::Resolve),
        },
{
    let len = point.unicode_len();
    if len > 0 && point.get_char(0) == '*' {
        let rest = point.substring_char(1, len);
        assert(rest@ =~= point@.skip(1));
        match parse_address(rest) {
            Some(addr) => Ok(Point::Addr(addr)),
            None => Err(DebugError::Resolve),
        }
    } else {
        match parse_number(point, false) {
            Some(line) => Ok(Point::Line(line)),
            None => Ok(Point::Func(point.to_owned())),
        }
    }
}

/// The instruction address that the specification `s` resolves to: a raw
/// address is taken as it stands, a line or a function is looked up in the
/// symbol tables, in any file. There is none if the specification names
/// nothing or the tables do not know the line or the function.
pub open spec fn address_of(symbols: DwarfDataView, s: Seq<char>) -> Option<usize> {
    match point_in(s) {
        Some(PointView::Addr(addr)) => Some(addr),
        Some(PointView::Line(line)) => symbols.addr_for_line(None, line),
        Some(PointView::Func(name)) => symbols.addr_for_function(None, name),
        None => None,
    }
}

/// Resolves a breakpoint specification to an instruction address.
///
/// Fails with [`DebugError::Resolve`] exactly when the specification
/// resolves to nothing.
pub fn resolve(debug_data: &DwarfData, point: &str) -> (r: Result<usize, DebugError>)
    ensures
        r == match address_of(debug_data@, point@) {
            Some(addr) => Ok::<usize, DebugError>(addr),
            None => Err::<usize, DebugError>(DebugError::Resolve),
        },
{
    let found = match type_breakpoint(point)? {
        Point::Addr(addr) => Some(addr),
        Point::Line(line) => debug_data.get_addr_for_line(None, line),
        Point::Func(name) => debug_data.get_addr_for_function(None, name.as_str()),
    };
    match found {
        Some(addr) => Ok(addr),
        None => Err(DebugError::Resolve),
    }
}

} // verus!
