use vstd::prelude::*;

verus! {

/// The location of a symbol in source text.
#[derive(Debug)]
pub struct Loc {
    pub file: String,
    pub line: usize,
    pub column: usize,
}

impl Loc {
    /// A placeholder location in the named file, at line 0, column 0.
    pub fn dummy(file: &str) -> (r: Self)
        ensures
            r.file@ == file@,
            r.line == 0,
            r.column == 0,
    {
        Loc { file: file.to_string(), line: 0, column: 0 }
    }

    pub fn new(file: String, line: usize, column: usize) -> (r: Self)
        ensures
            r.file == file,
            r.line == line,
            r.column == column,
    {
        Loc { file, line, column }
    }

    pub fn duplicate(&self) -> (r: Self)
        ensures
            r.file@ == self.file@,
            r.line == self.line,
            r.column == self.column,
    {
        Loc { file: self.file.clone(), line: self.line, column: self.column }
    }
}

} // verus!
