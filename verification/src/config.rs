//! Configuration of a compilation session.
use crate::analyzer::config::AnalyzerConfig;
use crate::optimizer::config::OptConfig;
use vstd::prelude::*;

verus! {

#[derive(Debug)]
pub struct Config {
    pub debug: bool,
    pub print_ast: bool,
    pub print_ast_only: bool,
    pub print_qasm: bool,
    pub version: String,
    pub analyzer: AnalyzerConfig,
    pub optimizer: OptConfig,
}

impl Clone for Config {
    fn clone(&self) -> (r: Self)
        ensures
            r == *self,
    {
        Config {
            debug: self.debug,
            print_ast: self.print_ast,
            print_ast_only: self.print_ast_only,
            print_qasm: self.print_qasm,
            version: self.version.clone(),
            analyzer: self.analyzer.clone(),
            optimizer: self.optimizer.clone(),
        }
    }
}

impl Config {
    /// The version of the compiler.
    pub fn version() -> (v: &'static str)
        ensures
            v@ == "0.1.0"@,
    {
        "0.1.0"
    }

    /// The configuration of a session of which nothing was asked.
    pub fn new() -> (c: Self)
        ensures
            !c.debug,
            !c.print_ast,
            !c.print_ast_only,
            !c.print_qasm,
            c.version@ == "0.1.0"@,
            !c.analyzer.status,
            c.analyzer.src@ == Seq::<char>::empty(),
            c.optimizer.level == 0,
            c.optimizer.output@ == Seq::<char>::empty(),
    {
        Config {
            debug: false,
            print_ast: false,
            print_ast_only: false,
            print_qasm: false,
            version: String::from_str(Self::version()),
            optimizer: OptConfig::new(),
            analyzer: AnalyzerConfig::new(),
        }
    }

    /// How the configuration is printed: the analyzer's, then the
    /// optimizer's.
    pub open spec fn label(self) -> Seq<char> {
        self.analyzer.label() + "\n"@ + self.optimizer.label()
    }

    pub fn to_string(&self) -> (s: String)
        ensures
            s@ == self.label(),
    {
        let mut s = self.analyzer.to_string();
        s.append("\n");
        s.append(self.optimizer.to_string().as_str());
        s
    }
}

} // verus!
