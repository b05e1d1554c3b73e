//! Configuration of the analyzer.
use crate::ast::Qast;
use crate::error::QccError;
use vstd::prelude::*;

verus! {

#[derive(Debug)]
pub struct AnalyzerConfig {
    /// whether the analyzer runs
    pub status: bool,
    /// the path of the source file
    pub src: String,
}

impl Clone for AnalyzerConfig {
    fn clone(&self) -> (r: Self)
        ensures
            r == *self,
    {
        AnalyzerConfig { status: self.status, src: self.src.clone() }
    }
}

impl AnalyzerConfig {
    pub fn new() -> (c: Self)
        ensures
            !c.status,
            c.src@ == Seq::<char>::empty(),
    {
        AnalyzerConfig { status: false, src: String::new() }
    }

    /// Walks over the program. There is nothing the analyzer objects to
    /// yet, so it accepts every program.
    pub fn analyze(&self, ast: &Qast) -> (r: Result<(), QccError>)
        ensures
            r is Ok,
    {
        let mut i: usize = 0;
        while i < ast.modules.len()
            invariant
                i <= ast.modules@.len(),
            decreases ast.modules@.len() - i,
        {
            i = i + 1;
        }
        Ok(())
    }

    /// How the configuration is printed.
    pub open spec fn label(self) -> Seq<char> {
        "\nAnalyzer Configuration\n----------------------\n"@ + self.src@ + ": "@ + (if self.status {
            "true"@
        } else {
            "false"@
        })
    }

    pub fn to_string(&self) -> (s: String)
        ensures
            s@ == self.label(),
    {
        let mut s = String::from_str("\nAnalyzer Configuration\n----------------------\n");
        s.append(self.src.as_str());
        s.append(": ");
        if self.status {
            s.append("true");
        } else {
            s.append("false");
        }
        assert(s@ =~= self.label());
        s
    }
}

} // verus!
