//! The symbol table of the target: which function and which source line an
//! address belongs to, and where a function or a line starts.
//!
//! The table is plain data, filled once from the target's debug sections.
//! Its order is the order of the debug sections; where two entries answer a
//! question the earlier one does.

use crate::text::{decimal_digits, to_decimal};
use vstd::prelude::*;
use vstd::string::StringExecFns;

verus! {

/// A function of the target and the addresses of its code.
#[derive(Debug)]
pub struct Function {
    /// The function's name.
    pub name: String,
    /// Address of its first instruction.
    pub address: usize,
    /// Length of its code in bytes.
    pub text_length: usize,
}

/// A source line and the address of its first instruction.
#[derive(Debug)]
pub struct Line {
    /// The source file's name.
    pub file: String,
    /// The line's number in that file.
    pub number: usize,
    /// Address of the line's first instruction.
    pub address: usize,
}

/// The symbol table.
#[derive(Debug)]
pub struct DwarfData {
    /// The target's functions.
    pub functions: Vec<Function>,
    /// The target's line table.
    pub lines: Vec<Line>,
}

impl Function {
    /// Whether `addr` lies in this function's code.
    pub open spec fn covers(self, addr: usize) -> bool {
        self.address <= addr && addr - self.address < self.text_length
    }
}

impl Line {
    /// The line as `file:number`.
    pub open spec fn text(self) -> Seq<char> {
        self.file@ + ":"@ + decimal_digits(self.number as nat)
    }

    /// Writes the line as `file:number`.
    pub fn to_string(&self) -> (text: String)
        ensures
            text@ == self.text(),
    {
        let mut text = self.file.clone();
        text.append(":");
        let number = to_decimal(self.number);
        text.append(number.as_str());
        text
    }

    /// Whether the line belongs to `file`, where one is asked for.
    pub open spec fn in_file(self, file: Option<Seq<char>>) -> bool {
        file matches Some(name) ==> self.file@ == name
    }
}

/// The characters of a file name, where one is given.
pub open spec fn file_name(file: Option<&str>) -> Option<Seq<char>> {
    match file {
        Some(name) => Some(name@),
        None => None,
    }
}

impl DwarfData {
    /// Whether entry `i` is the first function whose code holds `addr`.
    pub open spec fn is_function_at(self, addr: usize, i: int) -> bool {
        &&& 0 <= i < self.functions@.len()
        &&& self.functions@[i].covers(addr)
        &&& forall|j: int| 0 <= j < i ==> !(#[trigger] self.functions@[j]).covers(addr)
    }

    /// Whether entry `i` is the first function called `name`.
    pub open spec fn is_function_named(self, name: Seq<char>, i: int) -> bool {
        &&& 0 <= i < self.functions@.len()
        &&& self.functions@[i].name@ == name
        &&& forall|j: int| 0 <= j < i ==> (#[trigger] self.functions@[j]).name@ != name
    }

    /// Whether entry `i` is the first of `file` for line `number`.
    pub open spec fn is_line_numbered(self, file: Option<Seq<char>>, number: usize, i: int) -> bool {
        &&& 0 <= i < self.lines@.len()
        &&& self.lines@[i].number == number
        &&& self.lines@[i].in_file(file)
        &&& forall|j: int|
            0 <= j < i ==> !((#[trigger] self.lines@[j]).number == number && self.lines@[j].in_file(
                file,
            ))
    }

    /// Whether entry `i` is the line that `addr` belongs to: of the lines
    /// that start at or below `addr`, the one that starts highest, and the
    /// first of those where several start there.
    pub open spec fn is_line_at(self, addr: usize, i: int) -> bool {
        &&& 0 <= i < self.lines@.len()
        &&& self.lines@[i].address <= addr
        &&& forall|j: int|
            0 <= j < self.lines@.len() && (#[trigger] self.lines@[j]).address <= addr
                ==> self.lines@[j].address <= self.lines@[i].address
        &&& forall|j: int| 0 <= j < i ==> (#[trigger] self.lines@[j]).address != self.lines@[i].address
    }

    /// The name of the function whose code holds `addr`.
    pub open spec fn function_at(self, addr: usize) -> Option<Seq<char>> {
        if exists|i: int| self.is_function_at(addr, i) {
            Some(self.functions@[choose|i: int| self.is_function_at(addr, i)].name@)
        } else {
            None
        }
    }

    /// The address at which the function called `name` starts.
    pub open spec fn addr_of_function(self, name: Seq<char>) -> Option<usize> {
        if exists|i: int| self.is_function_named(name, i) {
            Some(self.functions@[choose|i: int| self.is_function_named(name, i)].address)
        } else {
            None
        }
    }

    /// The address at which line `number` of `file` starts.
    pub open spec fn addr_of_line(self, file: Option<Seq<char>>, number: usize) -> Option<usize> {
        if exists|i: int| self.is_line_numbered(file, number, i) {
            Some(self.lines@[choose|i: int| self.is_line_numbered(file, number, i)].address)
        } else {
            None
        }
    }

    /// The source line that `addr` belongs to, as `file:number`.
    pub open spec fn line_at(self, addr: usize) -> Option<Seq<char>> {
        if exists|i: int| self.is_line_at(addr, i) {
            Some(self.lines@[choose|i: int| self.is_line_at(addr, i)].text())
        } else {
            None
        }
    }

    /// The function's name as the session shows it.
    pub open spec fn function_text(self, addr: usize) -> Seq<char> {
        match self.function_at(addr) {
            Some(name) => name,
            None => "unknown"@,
        }
    }

    /// The source line as the session shows it.
    pub open spec fn line_text(self, addr: usize) -> Seq<char> {
        match self.line_at(addr) {
            Some(text) => text,
            None => "unknown"@,
        }
    }

    /// A table of these functions and lines.
    pub fn new(functions: Vec<Function>, lines: Vec<Line>) -> (table: DwarfData)
        ensures
            table.functions == functions,
            table.lines == lines,
    {
        DwarfData { functions, lines }
    }

    /// Index of the first function whose code holds `addr`.
    fn function_index(&self, addr: usize) -> (found: Option<usize>)
        ensures
            found matches Some(i) ==> self.is_function_at(addr, i as int),
            found is None ==> forall|i: int| !self.is_function_at(addr, i),
    {
        let mut i: usize = 0;
        while i < self.functions.len()
            invariant
                i <= self.functions@.len(),
                forall|j: int| 0 <= j < i ==> !(#[trigger] self.functions@[j]).covers(addr),
            decreases self.functions@.len() - i,
        {
            let f = &self.functions[i];
            if f.address <= addr && addr - f.address < f.text_length {
                return Some(i);
            }
            i += 1;
        }
        None
    }

    /// The name of the function whose code holds `addr`.
    pub fn get_function_from_addr(&self, addr: usize) -> (name: Option<String>)
        ensures
            name is Some <==> self.function_at(addr) is Some,
            name matches Some(n) ==> self.function_at(addr) == Some(n@),
    {
        match self.function_index(addr) {
            Some(i) => {
                Some(self.functions[i].name.clone())
            },
            None => None,
        }
    }

    /// The address at which the function called `func_name` starts.
    pub fn get_addr_for_function(&self, func_name: &str) -> (addr: Option<usize>)
        ensures
            addr == self.addr_of_function(func_name@),
    {
        let wanted = String::from_str(func_name);
        let mut i: usize = 0;
        while i < self.functions.len()
            invariant
                i <= self.functions@.len(),
                wanted@ == func_name@,
                forall|j: int| 0 <= j < i ==> (#[trigger] self.functions@[j]).name@ != func_name@,
            decreases self.functions@.len() - i,
        {
            if self.functions[i].name == wanted {
                assert(self.is_function_named(func_name@, i as int));
                return Some(self.functions[i].address);
            }
            i += 1;
        }
        None
    }

    /// The address at which line `line_number` starts, in `file` where one
    /// is given and in any file where none is.
    pub fn get_addr_for_line(&self, file: Option<&str>, line_number: usize) -> (addr: Option<usize>)
        ensures
            addr == self.addr_of_line(file_name(file), line_number),
    {
        let ghost wanted_file = file_name(file);
        let wanted: Option<String> = match file {
            Some(name) => Some(String::from_str(name)),
            None => None,
        };
        let mut i: usize = 0;
        while i < self.lines.len()
            invariant
                i <= self.lines@.len(),
                wanted_file == file_name(file),
                wanted is Some <==> wanted_file is Some,
                wanted matches Some(w) ==> wanted_file == Some(w@),
                forall|j: int|
                    0 <= j < i ==> !((#[trigger] self.lines@[j]).number == line_number
                        && self.lines@[j].in_file(wanted_file)),
            decreases self.lines@.len() - i,
        {
            let line = &self.lines[i];
            let same_file = match &wanted {
                Some(w) => line.file == *w,
                None => true,
            };
            if line.number == line_number && same_file {
                assert(self.is_line_numbered(wanted_file, line_number, i as int));
                return Some(line.address);
            }
            i += 1;
        }
        None
    }

    /// The source line that `addr` belongs to.
    pub fn get_line_from_addr(&self, addr: usize) -> (line: Option<String>)
        ensures
            line is Some <==> self.line_at(addr) is Some,
            line matches Some(text) ==> self.line_at(addr) == Some(text@),
    {
        let mut best: Option<usize> = None;
        let mut i: usize = 0;
        while i < self.lines.len()
            invariant
                i <= self.lines@.len(),
                best matches Some(b) ==> {
                    &&& b < i
                    &&& self.lines@[b as int].address <= addr
                    &&& forall|j: int|
                        0 <= j < i && (#[trigger] self.lines@[j]).address <= addr
                            ==> self.lines@[j].address <= self.lines@[b as int].address
                    &&& forall|j: int|
                        0 <= j < b ==> (#[trigger] self.lines@[j]).address
                            != self.lines@[b as int].address
                },
                best is None ==> forall|j: int|
                    0 <= j < i ==> (#[trigger] self.lines@[j]).address > addr,
            decreases self.lines@.len() - i,
        {
            let candidate = self.lines[i].address;
            if candidate <= addr {
                let better = match best {
                    Some(b) => self.lines[b].address < candidate,
                    None => true,
                };
                if better {
                    best = Some(i);
                }
            }
            i += 1;
        }
        match best {
            Some(b) => {
                assert(self.is_line_at(addr, b as int));
                Some(self.lines[b].to_string())
            },
            None => None,
        }
    }

    /// The name to show for the function at `addr`: its name, or `unknown`.
    pub fn function_name(&self, addr: usize) -> (name: String)
        ensures
            name@ == self.function_text(addr),
    {
        match self.get_function_from_addr(addr) {
            Some(name) => name,
            None => String::from_str("unknown"),
        }
    }

    /// The source line to show for `addr`: `file:number`, or `unknown`.
    pub fn location(&self, addr: usize) -> (text: String)
        ensures
            text@ == self.line_text(addr),
    {
        match self.get_line_from_addr(addr) {
            Some(text) => text,
            None => String::from_str("unknown"),
        }
    }
}

} // verus!
