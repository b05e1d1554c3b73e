//! Configuration of the optimizer.
use crate::text::{decimal, push_decimal};
use vstd::prelude::*;

verus! {

#[derive(Debug)]
pub struct OptConfig {
    /// the path of the file the result is written to
    pub output: String,
    /// the level of optimization: 0, 1, 2, or 3 for `-Og`
    pub level: u8,
}

impl Clone for OptConfig {
    fn clone(&self) -> (r: Self)
        ensures
            r == *self,
    {
        OptConfig { output: self.output.clone(), level: self.level }
    }
}

impl Default for OptConfig {
    fn default() -> (c: Self)
        ensures
            c.level == 0,
            c.output@ == Seq::<char>::empty(),
    {
        OptConfig::new()
    }
}

impl OptConfig {
    pub fn new() -> (c: Self)
        ensures
            c.level == 0,
            c.output@ == Seq::<char>::empty(),
    {
        OptConfig { output: String::new(), level: 0 }
    }

    /// How the configuration is printed.
    pub open spec fn label(self) -> Seq<char> {
        "\nOptimizer Configuration\n-----------------------\nStage: O"@ + decimal(self.level as nat)
    }

    pub fn to_string(&self) -> (s: String)
        ensures
            s@ == self.label(),
    {
        let mut s = String::from_str("\nOptimizer Configuration\n-----------------------\nStage: O");
        push_decimal(&mut s, self.level as usize);
        s
    }
}

} // verus!
