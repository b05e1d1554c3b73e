//! Helpers: the usage text, and comparisons of one value with several.
use vstd::prelude::*;
use vstd::std_specs::cmp::PartialEqSpec;

verus! {

/// The text that explains the command line.
pub open spec fn usage_text() -> Seq<char> {
    "usage: qcc [options] <quale-file>\n    -h,--help     \tshow this page      \n    --dump-ast    \tprint AST           \n    --dump-ast-only\tprint AST without translating to assembly\n    --dump-qasm   \tprint OpenQASM IR   \n    --analyze     \trun static analyzer \n    -O0           \tdisable optimizations (NA)\n    -O1           \tenable first-level optimizations (NA)\n    -O2           \tenable second-level optimizations (NA)\n    -Og           \tenable all optimizations (NA)\n    -o            \tcompiled output     \n"@
}

/// The text that explains the command line.
pub fn usage() -> (s: String)
    ensures
        s@ == usage_text(),
{
    String::from_str(
        "usage: qcc [options] <quale-file>\n    -h,--help     \tshow this page      \n    --dump-ast    \tprint AST           \n    --dump-ast-only\tprint AST without translating to assembly\n    --dump-qasm   \tprint OpenQASM IR   \n    --analyze     \trun static analyzer \n    -O0           \tdisable optimizations (NA)\n    -O1           \tenable first-level optimizations (NA)\n    -O2           \tenable second-level optimizations (NA)\n    -Og           \tenable all optimizations (NA)\n    -o            \tcompiled output     \n",
    )
}

/// Whether `left` equals one of `preds` at least.
pub fn eq_any<T: PartialEq>(left: &T, preds: &[T]) -> (r: bool)
    ensures
        T::obeys_eq_spec() ==> r == exists|i: int| 0 <= i < preds@.len() && left.eq_spec(&#[trigger] preds@[i]),
{
    let mut i: usize = 0;
    while i < preds.len()
        invariant
            i <= preds@.len(),
            T::obeys_eq_spec() ==> forall|j: int| 0 <= j < i ==> !left.eq_spec(&#[trigger] preds@[j]),
        decreases preds@.len() - i,
    {
        if *left == preds[i] {
            return true;
        }
        i = i + 1;
    }
    false
}

/// Whether `left` equals every one of `preds`.
pub fn eq_all<T: PartialEq>(left: &T, preds: &[T]) -> (r: bool)
    ensures
        T::obeys_eq_spec() ==> r == forall|i: int| 0 <= i < preds@.len() ==> left.eq_spec(&#[trigger] preds@[i]),
{
    let mut i: usize = 0;
    while i < preds.len()
        invariant
            i <= preds@.len(),
            T::obeys_eq_spec() ==> forall|j: int| 0 <= j < i ==> left.eq_spec(&#[trigger] preds@[j]),
        decreases preds@.len() - i,
    {
        if !(*left == preds[i]) {
            return false;
        }
        i = i + 1;
    }
    true
}

} // verus!
