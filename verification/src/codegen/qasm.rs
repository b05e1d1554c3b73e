//! The OpenQASM back end. Each function that is marked `nondeter` becomes
//! a gate, under its mangled name.
use crate::ast::{FunctionAST, FunctionView, Ident, Qast};
use crate::attributes::Attribute;
use crate::error::QccError;
use crate::mangler::{all_functions, mangled_program, merged};
use crate::text::{decimal, push_decimal};
use vstd::prelude::*;

verus! {

/// The versions of OpenQASM that can be written.
#[derive(Clone, Copy, Debug, PartialEq, Eq, Structural)]
pub enum QasmVersion {
    V2_0,
}

impl QasmVersion {
    /// The version that `value` names. Only `2.0` is known.
    pub fn from(value: &str) -> (v: Self)
        requires
            value@ == "2.0"@,
        ensures
            v == QasmVersion::V2_0,
    {
        QasmVersion::V2_0
    }

    pub open spec fn label(self) -> Seq<char> {
        "2.0"@
    }

    pub fn to_string(&self) -> (s: String)
        ensures
            s@ == self.label(),
    {
        String::from_str("2.0")
    }
}

/// A quantum bit in one of its two basis states.
#[derive(Clone, Copy, Debug, PartialEq, Eq, Structural)]
pub enum Qubit {
    Zero,
    One,
}

impl Qubit {
    /// The basis state that stands for a classical bit.
    pub fn new(bit: bool) -> (q: Self)
        ensures
            q == (if bit {
                Qubit::One
            } else {
                Qubit::Zero
            }),
    {
        if bit {
            Qubit::one()
        } else {
            Qubit::zero()
        }
    }

    pub fn zero() -> (q: Self)
        ensures
            q == Qubit::Zero,
    {
        Qubit::Zero
    }

    pub fn one() -> (q: Self)
        ensures
            q == Qubit::One,
    {
        Qubit::One
    }
}

/// A quantum register: a name and a number of quantum bits.
#[derive(Debug)]
pub struct Qreg {
    pub name: Ident,
    pub len: usize,
}

impl Qreg {
    pub fn new(name: &str, len: usize) -> (q: Self)
        ensures
            q.name@ == name@,
            q.len == len,
    {
        Qreg { name: String::from_str(name), len }
    }

    pub fn name(&self) -> (n: &Ident)
        ensures
            *n == self.name,
    {
        &self.name
    }

    pub fn len(&self) -> (n: usize)
        ensures
            n == self.len,
    {
        self.len
    }

    /// The name of the type of the register: `q` and its length.
    pub fn get_type(&self) -> (t: String)
        ensures
            t@ == "q"@ + decimal(self.len as nat),
    {
        let mut t = String::from_str("q");
        push_decimal(&mut t, self.len);
        t
    }

    /// How the declaration of the register is written.
    pub open spec fn label(self) -> Seq<char> {
        "qreg "@ + self.name@ + "["@ + decimal(self.len as nat) + "]"@
    }

    pub fn to_string(&self) -> (s: String)
        ensures
            s@ == self.label(),
    {
        let mut s = String::from_str("qreg ");
        s.append(self.name.as_str());
        s.append("[");
        push_decimal(&mut s, self.len);
        s.append("]");
        assert(s@ =~= self.label());
        s
    }
}

/// A quantum register with its quantum bits, which all start in the state
/// zero.
#[derive(Debug)]
pub struct QregDef {
    pub info: Qreg,
    pub qubits: Vec<Qubit>,
}

impl QregDef {
    pub fn new(name: &str, len: usize) -> (q: Self)
        ensures
            q.info.name@ == name@,
            q.info.len == len,
            q.qubits@ == Seq::new(len as nat, |i: int| Qubit::Zero),
    {
        let mut qubits: Vec<Qubit> = Vec::new();
        let mut i: usize = 0;
        while i < len
            invariant
                i <= len,
                qubits@ == Seq::new(i as nat, |k: int| Qubit::Zero),
            decreases len - i,
        {
            qubits.push(Qubit::Zero);
            i = i + 1;
            assert(qubits@ =~= Seq::new(i as nat, |k: int| Qubit::Zero));
        }
        QregDef { info: Qreg::new(name, len), qubits }
    }
}

/// A classical register: a name and its bits, which all start as zero.
#[derive(Debug)]
pub struct Creg {
    pub name: Ident,
    pub len: usize,
    pub bits: Vec<bool>,
}

impl Creg {
    pub fn new(name: &str, len: usize) -> (c: Self)
        ensures
            c.name@ == name@,
            c.len == len,
            c.bits@ == Seq::new(len as nat, |i: int| false),
    {
        let mut bits: Vec<bool> = Vec::new();
        let mut i: usize = 0;
        while i < len
            invariant
                i <= len,
                bits@ == Seq::new(i as nat, |k: int| false),
            decreases len - i,
        {
            bits.push(false);
            i = i + 1;
            assert(bits@ =~= Seq::new(i as nat, |k: int| false));
        }
        Creg { name: String::from_str(name), len, bits }
    }

    pub fn name(&self) -> (n: &Ident)
        ensures
            *n == self.name,
    {
        &self.name
    }

    pub fn len(&self) -> (n: usize)
        ensures
            n == self.len,
    {
        self.len
    }
}

/// A gate: a name, parameters, and the registers it acts on.
#[derive(Debug)]
pub struct QasmGate {
    pub name: Ident,
    pub params: Vec<Ident>,
    pub qargs: Vec<Qreg>,
}

pub struct GateView {
    pub name: Seq<char>,
    pub params: Seq<Seq<char>>,
    pub qargs: Seq<Seq<char>>,
}

impl View for QasmGate {
    type V = GateView;

    open spec fn view(&self) -> GateView {
        GateView {
            name: self.name@,
            params: Seq::new(self.params@.len(), |i: int| self.params@[i]@),
            qargs: Seq::new(self.qargs@.len(), |i: int| self.qargs@[i].name@),
        }
    }
}

/// The first `k` of `names` with a comma and a space between them.
pub open spec fn joined_names(names: Seq<Seq<char>>, k: nat) -> Seq<char>
    decreases k,
{
    if k == 0 || k > names.len() {
        Seq::empty()
    } else if k == 1 {
        names[0]
    } else {
        joined_names(names, (k - 1) as nat) + ", "@ + names[k - 1]
    }
}

impl GateView {
    /// How a gate is written: after an empty line the word `gate`, the
    /// name, the parameters in parentheses if there are any, the registers,
    /// and a body in braces.
    pub open spec fn label(self) -> Seq<char> {
        "\ngate "@ + self.name + (if self.params.len() > 0 {
            "("@ + joined_names(self.params, self.params.len()) + ")"@
        } else {
            Seq::<char>::empty()
        }) + " "@ + joined_names(self.qargs, self.qargs.len())
            + "\n{\n    // body: feature to be implemented\n}\n"@
    }

    /// What a function becomes: a gate that has the name of the function
    /// and, for now, neither parameters nor registers.
    pub open spec fn of(f: FunctionView) -> GateView {
        GateView { name: f.name, params: Seq::empty(), qargs: Seq::empty() }
    }
}

impl QasmGate {
    pub fn new(name: &str, params: &[&str], qargs: Vec<Qreg>) -> (g: Self)
        ensures
            g@ == (GateView {
                name: name@,
                params: Seq::new(params@.len(), |i: int| params@[i]@),
                qargs: Seq::new(qargs@.len(), |i: int| qargs@[i].name@),
            }),
    {
        let mut names: Vec<Ident> = Vec::new();
        let mut i: usize = 0;
        while i < params.len()
            invariant
                i <= params@.len(),
                names@.len() == i,
                forall|j: int| 0 <= j < i ==> names@[j]@ == params@[j]@,
            decreases params@.len() - i,
        {
            names.push(String::from_str(params[i]));
            i = i + 1;
        }
        let g = QasmGate { name: String::from_str(name), params: names, qargs };
        assert(g@.params =~= Seq::new(params@.len(), |i: int| params@[i]@));
        g
    }

    /// What a function becomes.
    pub fn from(f: &FunctionAST) -> (g: Self)
        ensures
            g@ == GateView::of(f@),
    {
        let g = QasmGate { name: f.name.clone(), params: Vec::new(), qargs: Vec::new() };
        assert(g@.params =~= Seq::<Seq<char>>::empty());
        assert(g@.qargs =~= Seq::<Seq<char>>::empty());
        g
    }

    /// Appends this gate as it is written.
    pub fn push_to(&self, s: &mut String)
        ensures
            final(s)@ == old(s)@ + self@.label(),
    {
        let ghost g = self@;
        s.append("\ngate ");
        s.append(self.name.as_str());
        if self.params.len() > 0 {
            s.append("(");
            let ghost head = s@;
            let mut i: usize = 0;
            assert(head + joined_names(g.params, 0) =~= head);
            while i < self.params.len()
                invariant
                    i <= self.params@.len(),
                    g == self@,
                    s@ == head + joined_names(g.params, i as nat),
                decreases self.params@.len() - i,
            {
                if i > 0 {
                    s.append(", ");
                }
                s.append(self.params[i].as_str());
                i = i + 1;
                proof {
                    if i == 1 {
                        assert(s@ =~= head + joined_names(g.params, i as nat));
                    } else {
                        assert(s@ =~= head + (joined_names(g.params, (i - 1) as nat) + ", "@
                            + g.params[i - 1]));
                    }
                }
            }
            s.append(")");
        }
        s.append(" ");
        let ghost head = s@;
        let mut k: usize = 0;
        assert(head + joined_names(g.qargs, 0) =~= head);
        while k < self.qargs.len()
            invariant
                k <= self.qargs@.len(),
                g == self@,
                s@ == head + joined_names(g.qargs, k as nat),
            decreases self.qargs@.len() - k,
        {
            if k > 0 {
                s.append(", ");
            }
            s.append(self.qargs[k].name.as_str());
            k = k + 1;
            proof {
                if k == 1 {
                    assert(s@ =~= head + joined_names(g.qargs, k as nat));
                } else {
                    assert(s@ =~= head + (joined_names(g.qargs, (k - 1) as nat) + ", "@ + g.qargs[k
                        - 1]));
                }
            }
        }
        s.append("\n{\n    // body: feature to be implemented\n}\n");
        assert(final(s)@ =~= old(s)@ + g.label());
    }

    pub fn to_string(&self) -> (s: String)
        ensures
            s@ == self@.label(),
    {
        let mut s = String::new();
        self.push_to(&mut s);
        assert(s@ =~= self@.label());
        s
    }
}

/// A file that a module includes.
#[derive(Debug)]
pub struct QasmInclude(pub String);

impl QasmInclude {
    /// How an include is written.
    pub open spec fn label(self) -> Seq<char> {
        "include \""@ + self.0@ + "\";"@
    }

    pub fn to_string(&self) -> (s: String)
        ensures
            s@ == self.label(),
    {
        let mut s = String::from_str("include \"");
        s.append(self.0.as_str());
        s.append("\";");
        assert(s@ =~= self.label());
        s
    }
}

/// Lines of comment.
#[derive(Debug)]
pub struct QasmComments(pub Vec<String>);

/// The first `k` lines, each with a line feed behind it.
pub open spec fn comment_lines(lines: Seq<String>, k: nat) -> Seq<char>
    decreases k,
{
    if k == 0 || k > lines.len() {
        Seq::empty()
    } else {
        comment_lines(lines, (k - 1) as nat) + lines[k - 1]@ + "\n"@
    }
}

impl QasmComments {
    pub fn to_string(&self) -> (s: String)
        ensures
            s@ == comment_lines(self.0@, self.0@.len()),
    {
        let mut s = String::new();
        let mut k: usize = 0;
        while k < self.0.len()
            invariant
                k <= self.0@.len(),
                s@ == comment_lines(self.0@, k as nat),
            decreases self.0@.len() - k,
        {
            s.append(self.0[k].as_str());
            s.append("\n");
            k = k + 1;
            assert(s@ =~= comment_lines(self.0@, (k - 1) as nat) + self.0@[k - 1]@ + "\n"@);
        }
        s
    }
}

/// An OpenQASM module.
#[derive(Debug)]
pub struct QasmModule {
    pub version: QasmVersion,
    pub includes: Vec<QasmInclude>,
    pub gates: Vec<QasmGate>,
}

pub struct QasmView {
    pub version: QasmVersion,
    pub includes: Seq<Seq<char>>,
    pub gates: Seq<GateView>,
}

impl View for QasmModule {
    type V = QasmView;

    open spec fn view(&self) -> QasmView {
        QasmView {
            version: self.version,
            includes: Seq::new(self.includes@.len(), |i: int| self.includes@[i].0@),
            gates: Seq::new(self.gates@.len(), |i: int| self.gates@[i]@),
        }
    }
}

/// The gates for the first `k` of `functions`: one for each function that
/// is marked `nondeter`, in order.
pub open spec fn gates_of(functions: Seq<FunctionView>, k: nat) -> Seq<GateView>
    decreases k,
{
    if k == 0 || k > functions.len() {
        Seq::empty()
    } else if functions[k - 1].attrs.contains(Attribute::NonDeter) {
        gates_of(functions, (k - 1) as nat).push(GateView::of(functions[k - 1]))
    } else {
        gates_of(functions, (k - 1) as nat)
    }
}

/// The first `k` includes as they are written, each on a line of its own.
pub open spec fn include_lines(includes: Seq<Seq<char>>, k: nat) -> Seq<char>
    decreases k,
{
    if k == 0 || k > includes.len() {
        Seq::empty()
    } else {
        include_lines(includes, (k - 1) as nat) + "include \""@ + includes[k - 1] + "\";"@ + "\n"@
    }
}

/// The first `k` gates as they are written.
pub open spec fn gate_texts(gates: Seq<GateView>, k: nat) -> Seq<char>
    decreases k,
{
    if k == 0 || k > gates.len() {
        Seq::empty()
    } else {
        gate_texts(gates, (k - 1) as nat) + gates[k - 1].label()
    }
}

impl QasmView {
    /// The text of the module: the header with the version, the includes,
    /// and the gates.
    pub open spec fn text(self) -> Seq<char> {
        "OPENQASM "@ + self.version.label() + ";\n"@ + include_lines(
            self.includes,
            self.includes.len(),
        ) + gate_texts(self.gates, self.gates.len())
    }
}

impl Default for QasmModule {
    fn default() -> (m: Self)
        ensures
            m@.version == QasmVersion::V2_0,
            m@.includes == seq!["qelib1.inc"@],
            m@.gates == seq![
                GateView { name: "def"@, params: seq!["lambda"@, "theta"@], qargs: seq!["a"@, "b"@] },
            ],
    {
        let mut includes: Vec<QasmInclude> = Vec::new();
        includes.push(QasmInclude(String::from_str("qelib1.inc")));
        let mut qargs: Vec<Qreg> = Vec::new();
        qargs.push(Qreg::new("a", 8));
        qargs.push(Qreg::new("b", 8));
        let params: [&str; 2] = ["lambda", "theta"];
        let gate = QasmGate::new("def", params.as_slice(), qargs);
        let mut gates: Vec<QasmGate> = Vec::new();
        gates.push(gate);
        let m = QasmModule { version: QasmVersion::V2_0, includes, gates };
        proof {
            assert(m@.includes =~= seq!["qelib1.inc"@]);
            assert(gate@.params =~= seq!["lambda"@, "theta"@]);
            assert(gate@.qargs =~= seq!["a"@, "b"@]);
            assert(m@.gates =~= seq![gate@]);
        }
        m
    }
}

impl QasmModule {
    /// An empty module of the given version.
    pub fn new(version: &str) -> (m: Self)
        requires
            version@ == "2.0"@,
        ensures
            m@ == (QasmView {
                version: QasmVersion::V2_0,
                includes: Seq::empty(),
                gates: Seq::empty(),
            }),
    {
        let m = QasmModule {
            version: QasmVersion::from(version),
            includes: Vec::new(),
            gates: Vec::new(),
        };
        assert(m@.includes =~= Seq::<Seq<char>>::empty());
        assert(m@.gates =~= Seq::<GateView>::empty());
        m
    }

    /// A module of version 2.0 that holds the given gates.
    pub fn from(gates: Vec<QasmGate>) -> (m: Self)
        ensures
            m.version == QasmVersion::V2_0,
            m.includes@.len() == 0,
            m.gates == gates,
    {
        QasmModule { version: QasmVersion::V2_0, includes: Vec::new(), gates }
    }

    /// Translates a program: the program is merged into one module, and
    /// each of its functions that is marked `nondeter` becomes a gate under
    /// its mangled name. Every program can be translated.
    pub fn translate(ast: Qast) -> (r: Result<QasmModule, QccError>)
        ensures
            r is Ok,
            r->Ok_0@ == (QasmView {
                version: QasmVersion::V2_0,
                includes: Seq::empty(),
                gates: gates_of(
                    all_functions(mangled_program(ast@), ast@.len()),
                    all_functions(mangled_program(ast@), ast@.len()).len(),
                ),
            }),
    {
        let whole = ast.merge();
        assert(merged(ast@).len() == 1);
        assert(whole.modules@.len() == whole@.len());
        assert(whole@[0] == whole.modules@[0]@);
        let main = &whole.modules[0];
        let ghost functions = main@.functions;
        let mut gates: Vec<QasmGate> = Vec::new();
        let ghost mut made: Seq<GateView> = Seq::empty();
        let mut i: usize = 0;
        while i < main.functions.len()
            invariant
                i <= main.functions@.len(),
                functions == main@.functions,
                functions.len() == main.functions@.len(),
                made == gates_of(functions, i as nat),
                made.len() == gates@.len(),
                forall|j: int| 0 <= j < made.len() ==> gates@[j]@ == made[j],
            decreases main.functions@.len() - i,
        {
            let f = &main.functions[i];
            assert(functions[i as int] == f@);
            if !f.attrs.is_empty() && f.attrs.contains(Attribute::NonDeter) {
                gates.push(QasmGate::from(f));
                proof {
                    made = made.push(GateView::of(f@));
                }
            }
            i = i + 1;
        }
        let m = QasmModule::from(gates);
        proof {
            assert(m@.includes =~= Seq::<Seq<char>>::empty());
            assert(m@.gates =~= made);
        }
        Ok(m)
    }

    /// The text of the module, as it is written to a file.
    pub fn to_string(&self) -> (s: String)
        ensures
            s@ == self@.text(),
    {
        let ghost v = self@;
        let mut s = String::from_str("OPENQASM ");
        s.append(self.version.to_string().as_str());
        s.append(";\n");
        let ghost head = s@;
        let mut i: usize = 0;
        assert(head + include_lines(v.includes, 0) =~= head);
        while i < self.includes.len()
            invariant
                i <= self.includes@.len(),
                v == self@,
                s@ == head + include_lines(v.includes, i as nat),
            decreases self.includes@.len() - i,
        {
            s.append(self.includes[i].to_string().as_str());
            s.append("\n");
            i = i + 1;
            proof {
                assert(s@ =~= head + (include_lines(v.includes, (i - 1) as nat) + "include \""@
                    + v.includes[i - 1] + "\";"@ + "\n"@));
            }
        }
        let ghost top = s@;
        let mut k: usize = 0;
        assert(top + gate_texts(v.gates, 0) =~= top);
        while k < self.gates.len()
            invariant
                k <= self.gates@.len(),
                v == self@,
                s@ == top + gate_texts(v.gates, k as nat),
            decreases self.gates@.len() - k,
        {
            self.gates[k].push_to(&mut s);
            k = k + 1;
            proof {
                assert(s@ =~= top + (gate_texts(v.gates, (k - 1) as nat) + v.gates[k - 1].label()));
            }
        }
        assert(s@ =~= v.text());
        s
    }
}

} // verus!
