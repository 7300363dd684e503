//! The symbol tables of a target: which function and which source line an
//! instruction address belongs to, and where a line or a function starts.
//!
//! The tables are plain data, loaded once by the embedding program. Functions
//! cover the half-open range from their address to address plus length. A line
//! entry marks the first instruction of a source line and covers the
//! addresses up to the next higher entry.

use vstd::prelude::*;
use vstd::string::*;
use crate::text::str_eq;

verus! {

/// One entry of the line table.
#[derive(Clone, Debug, PartialEq, Eq)]
pub struct Line {
    /// Name of the source file.
    pub file: String,
    /// Line number in that file.
    pub number: usize,
    /// Address of the first instruction of the line.
    pub address: usize,
}

/// A [`Line`] with the file name as a sequence of characters.
pub struct LineView {
    pub file: Seq<char>,
    pub number: usize,
    pub address: usize,
}

impl View for Line {
    type V = LineView;

    open spec fn view(&self) -> LineView {
        LineView { file: self.file@, number: self.number, address: self.address }
    }
}

/// One entry of the function table.
#[derive(Clone, Debug, PartialEq, Eq)]
pub struct Function {
    /// Name of the function.
    pub name: String,
    /// Name of the source file that defines it.
    pub file: String,
    /// Address of its first instruction.
    pub address: usize,
    /// Length of its code in bytes.
    pub text_length: usize,
}

/// A [`Function`] with its names as sequences of characters.
pub struct FunctionView {
    pub name: Seq<char>,
    pub file: Seq<char>,
    pub address: usize,
    pub text_length: usize,
}

impl View for Function {
    type V = FunctionView;

    open spec fn view(&self) -> FunctionView {
        FunctionView {
            name: self.name@,
            file: self.file@,
            address: self.address,
            text_length: self.text_length,
        }
    }
}

/// The symbol tables of one target.
#[derive(Clone, Debug, PartialEq, Eq)]
pub struct DwarfData {
    functions: Vec<Function>,
    lines: Vec<Line>,
}

/// True if no file is asked for, or `entry_file` is the file asked for.
pub open spec fn in_file(file: Option<Seq<char>>, entry_file: Seq<char>) -> bool {
    match file {
        Some(name) => name == entry_file,
        None => true,
    }
}

/// Line entry `i` is in the file asked for, at or after line `number`.
pub open spec fn line_matches(
    lines: Seq<LineView>,
    i: int,
    file: Option<Seq<char>>,
    number: usize,
) -> bool {
    0 <= i < lines.len() && in_file(file, lines[i].file) && lines[i].number >= number
}

/// Entry `i` is the first line entry that matches.
pub open spec fn first_line_match(
    lines: Seq<LineView>,
    i: int,
    file: Option<Seq<char>>,
    number: usize,
) -> bool {
    &&& line_matches(lines, i, file, number)
    &&& forall|j: int| 0 <= j < i ==> !line_matches(lines, j, file, number)
}

/// Function entry `i` is in the file asked for and has the name asked for.
pub open spec fn function_matches(
    functions: Seq<FunctionView>,
    i: int,
    file: Option<Seq<char>>,
    name: Seq<char>,
) -> bool {
    0 <= i < functions.len() && in_file(file, functions[i].file) && functions[i].name == name
}

/// Entry `i` is the first function entry that matches.
pub open spec fn first_function_match(
    functions: Seq<FunctionView>,
    i: int,
    file: Option<Seq<char>>,
    name: Seq<char>,
) -> bool {
    &&& function_matches(functions, i, file, name)
    &&& forall|j: int| 0 <= j < i ==> !function_matches(functions, j, file, name)
}

/// The code of function entry `i` contains `addr`.
pub open spec fn function_contains(functions: Seq<FunctionView>, i: int, addr: usize) -> bool {
    0 <= i < functions.len() && functions[i].address <= addr && addr - functions[i].address
        < functions[i].text_length
}

/// Entry `i` is the first function entry whose code contains `addr`.
pub open spec fn first_function_containing(
    functions: Seq<FunctionView>,
    i: int,
    addr: usize,
) -> bool {
    &&& function_contains(functions, i, addr)
    &&& forall|j: int| 0 <= j < i ==> !function_contains(functions, j, addr)
}

/// Line entry `i` covers `addr`: it starts at or below `addr`, no entry starts
/// closer below `addr`, and of the entries with the same start it is the
/// first.
pub open spec fn line_covers(lines: Seq<LineView>, i: int, addr: usize) -> bool {
    &&& 0 <= i < lines.len()
    &&& lines[i].address <= addr
    &&& forall|j: int|
        0 <= j < lines.len() && (#[trigger] lines[j]).address <= addr ==> lines[j].address
            < lines[i].address || (lines[j].address == lines[i].address && i <= j)
}

/// The tables as sequences of entries.
pub struct DwarfDataView {
    pub functions: Seq<FunctionView>,
    pub lines: Seq<LineView>,
}

impl DwarfDataView {
    /// Where line `number` starts: the address of the first line entry of the
    /// file asked for (of any file, if none is) whose number is at least
    /// `number`.
    pub open spec fn addr_for_line(self, file: Option<Seq<char>>, number: usize) -> Option<usize> {
        if exists|i: int| first_line_match(self.lines, i, file, number) {
            Some(
                self.lines[choose|i: int| first_line_match(self.lines, i, file, number)].address,
            )
        } else {
            None
        }
    }

    /// Where the function `name` starts: the address of the first function
    /// entry of that name in the file asked for (in any file, if none is).
    pub open spec fn addr_for_function(self, file: Option<Seq<char>>, name: Seq<char>) -> Option<
        usize,
    > {
        if exists|i: int| first_function_match(self.functions, i, file, name) {
            Some(
                self.functions[choose|i: int|
                    first_function_match(self.functions, i, file, name)].address,
            )
        } else {
            None
        }
    }

    /// The line entry that covers `addr`.
    pub open spec fn line_at(self, addr: usize) -> Option<LineView> {
        if exists|i: int| line_covers(self.lines, i, addr) {
            Some(self.lines[choose|i: int| line_covers(self.lines, i, addr)])
        } else {
            None
        }
    }

    /// The name of the first function entry whose code contains `addr`.
    pub open spec fn function_at(self, addr: usize) -> Option<Seq<char>> {
        if exists|i: int| first_function_containing(self.functions, i, addr) {
            Some(
                self.functions[choose|i: int|
                    first_function_containing(self.functions, i, addr)].name,
            )
        } else {
            None
        }
    }
}

impl View for DwarfData {
    type V = DwarfDataView;

    closed spec fn view(&self) -> DwarfDataView {
        DwarfDataView {
            functions: self.functions@.map_values(|f: Function| f@),
            lines: self.lines@.map_values(|l: Line| l@),
        }
    }
}

fn file_accepts(file: Option<&str>, entry_file: &String) -> (r: bool)
    ensures
        r == in_file(
            match file {
                Some(name) => Some(name@),
                None => None,
            },
            entry_file@,
        ),
{
    match file {
        Some(name) => str_eq(name, entry_file.as_str()),
        None => true,
    }
}

/// The characters of an optional file name.
pub open spec fn file_view(file: Option<&str>) -> Option<Seq<char>> {
    match file {
        Some(name) => Some(name@),
        None => None,
    }
}

impl DwarfData {
    /// Makes the symbol tables from their entries.
    pub fn new(functions: Vec<Function>, lines: Vec<Line>) -> (r: DwarfData)
        ensures
            r@.functions == functions@.map_values(|f: Function| f@),
            r@.lines == lines@.map_values(|l: Line| l@),
    {
        DwarfData { functions, lines }
    }

    /// The entries of the function table.
    pub fn functions(&self) -> (r: &Vec<Function>)
        ensures
            r@.map_values(|f: Function| f@) == self@.functions,
    {
        &self.functions
    }

    /// The entries of the line table.
    pub fn lines(&self) -> (r: &Vec<Line>)
        ensures
            r@.map_values(|l: Line| l@) == self@.lines,
    {
        &self.lines
    }

    /// Looks up the address at which a source line starts.
    pub fn get_addr_for_line(&self, file: Option<&str>, line_number: usize) -> (r: Option<usize>)
        ensures
            r == self@.addr_for_line(file_view(file), line_number),
    {
        let ghost lines = self@.lines;
        let ghost wanted = file_view(file);
        let mut i: usize = 0;
        while i < self.lines.len()
            invariant
                i <= self.lines@.len(),
                lines == self@.lines,
                lines == self.lines@.map_values(|l: Line| l@),
                wanted == file_view(file),
                forall|j: int| 0 <= j < i ==> !line_matches(lines, j, wanted, line_number),
            decreases self.lines@.len() - i,
        {
            let entry = &self.lines[i];
            assert(lines[i as int] == entry@);
            if file_accepts(file, &entry.file) && entry.number >= line_number {
                proof {
                    assert(first_line_match(lines, i as int, wanted, line_number));
                    let c = choose|c: int| first_line_match(lines, c, wanted, line_number);
                    assert(c == i) by {
                        if c < i {
                            assert(!line_matches(lines, c, wanted, line_number));
                        }
                        if i < c {
                            assert(!line_matches(lines, i as int, wanted, line_number));
                        }
                    }
                }
                return Some(entry.address);
            }
            i += 1;
        }
        None
    }

    /// Looks up the address at which a function starts.
    pub fn get_addr_for_function(&self, file: Option<&str>, func_name: &str) -> (r: Option<usize>)
        ensures
            r == self@.addr_for_function(file_view(file), func_name@),
    {
        let ghost functions = self@.functions;
        let ghost wanted = file_view(file);
        let mut i: usize = 0;
        while i < self.functions.len()
            invariant
                i <= self.functions@.len(),
                functions == self@.functions,
                functions == self.functions@.map_values(|f: Function| f@),
                wanted == file_view(file),
                forall|j: int| 0 <= j < i ==> !function_matches(functions, j, wanted, func_name@),
            decreases self.functions@.len() - i,
        {
            let entry = &self.functions[i];
            assert(functions[i as int] == entry@);
            if file_accepts(file, &entry.file) && str_eq(entry.name.as_str(), func_name) {
                proof {
                    assert(first_function_match(functions, i as int, wanted, func_name@));
                    let c = choose|c: int| first_function_match(functions, c, wanted, func_name@);
                    assert(c == i) by {
                        if c < i {
                            assert(!function_matches(functions, c, wanted, func_name@));
                        }
                        if i < c {
                            assert(!function_matches(functions, i as int, wanted, func_name@));
                        }
                    }
                }
                return Some(entry.address);
            }
            i += 1;
        }
        None
    }

    /// Looks up the source line that an instruction address belongs to.
    pub fn get_line_from_addr(&self, curr_addr: usize) -> (r: Option<Line>)
        ensures
            match self@.line_at(curr_addr) {
                Some(line) => r is Some && r->0@ == line,
                None => r is None,
            },
    {
        let ghost lines = self@.lines;
        let mut best: Option<usize> = None;
        let mut i: usize = 0;
        while i < self.lines.len()
            invariant
                i <= self.lines@.len(),
                lines == self@.lines,
                lines == self.lines@.map_values(|l: Line| l@),
                match best {
                    Some(b) => {
                        &&& b < i
                        &&& lines[b as int].address <= curr_addr
                        &&& forall|j: int|
                            0 <= j < i && (#[trigger] lines[j]).address <= curr_addr
                                ==> lines[j].address < lines[b as int].address || (lines[j].address
                                == lines[b as int].address && b <= j)
                    },
                    None => forall|j: int| 0 <= j < i ==> (#[trigger] lines[j]).address > curr_addr,
                },
            decreases self.lines@.len() - i,
        {
            let entry = &self.lines[i];
            assert(lines[i as int] == entry@);
            if entry.address <= curr_addr {
                let better = match best {
                    Some(b) => self.lines[b].address < entry.address,
                    None => true,
                };
                if better {
                    best = Some(i);
                }
            }
            i += 1;
        }
        match best {
            Some(b) => {
                proof {
                    assert(line_covers(lines, b as int, curr_addr));
                    let c = choose|c: int| line_covers(lines, c, curr_addr);
                    assert(c == b);
                    assert(lines[b as int] == self.lines@[b as int]@);
                }
                let entry = &self.lines[b];
                Some(Line { file: entry.file.clone(), number: entry.number, address: entry.address })
            },
            None => {
                proof {
                    assert forall|c: int| !line_covers(lines, c, curr_addr) by {
                        if 0 <= c < lines.len() {
                            assert(lines[c].address > curr_addr);
                        }
                    }
                }
                None
            },
        }
    }

    /// Looks up the name of the function that an instruction address belongs to.
    pub fn get_function_from_addr(&self, curr_addr: usize) -> (r: Option<String>)
        ensures
            match self@.function_at(curr_addr) {
                Some(name) => r is Some && r->0@ == name,
                None => r is None,
            },
    {
        let ghost functions = self@.functions;
        let mut i: usize = 0;
        while i < self.functions.len()
            invariant
                i <= self.functions@.len(),
                functions == self@.functions,
                functions == self.functions@.map_values(|f: Function| f@),
                forall|j: int| 0 <= j < i ==> !function_contains(functions, j, curr_addr),
            decreases self.functions@.len() - i,
        {
            let entry = &self.functions[i];
            assert(functions[i as int] == entry@);
            if entry.address <= curr_addr && curr_addr - entry.address < entry.text_length {
                proof {
                    assert(first_function_containing(functions, i as int, curr_addr));
                    let c = choose|c: int| first_function_containing(functions, c, curr_addr);
                    assert(c == i) by {
                        if c < i {
                            assert(!function_contains(functions, c, curr_addr));
                        }
                        if i < c {
                            assert(!function_contains(functions, i as int, curr_addr));
                        }
                    }
                }
                return Some(entry.name.clone());
            }
            i += 1;
        }
        None
    }
}

} // verus!
