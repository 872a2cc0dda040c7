//! Compiled artifacts: the bytecode of programs and contracts, with the
//! names and debug symbols of their functions.

use crate::profile::DebugInfo;
use crate::source::DebugArtifact;
use acvm::acir::circuit::{Circuit, Program};
use vstd::prelude::*;

verus! {

/// The bytecode of one function, `acvm::acir::circuit::Circuit`. Nothing
/// inside it is visible to the proofs.
#[verifier::external_type_specification]
#[verifier::external_body]
pub struct ExCircuit(acvm::acir::circuit::Circuit);

/// A program as a backend takes it, `acvm::acir::circuit::Program`: a list
/// of circuits and a list of unconstrained functions. Nothing inside it is
/// visible to the proofs.
#[verifier::external_type_specification]
#[verifier::external_body]
pub struct ExProgram(acvm::acir::circuit::Program);

/// The number of opcodes that a circuit holds: the length of its field
/// `opcodes`.
pub uninterp spec fn opcode_count(circuit: Circuit) -> nat;

/// The circuits that a program holds, in their order: its field
/// `functions`.
pub uninterp spec fn program_functions(program: Program) -> Seq<Circuit>;

/// The number of unconstrained functions that a program holds: the length
/// of its field `unconstrained_functions`.
pub uninterp spec fn unconstrained_count(program: Program) -> nat;

/// Reads the length of the field `opcodes` of `acvm::acir::circuit::Circuit`.
/// The contract gives that length its name, [`opcode_count`], and claims no
/// more.
#[verifier::external_body]
pub(crate) fn circuit_opcode_count(circuit: &Circuit) -> (count: usize)
    ensures
        count == opcode_count(*circuit),
{
    circuit.opcodes.len()
}

/// Builds an `acvm::acir::circuit::Program` from a copy of one circuit. The
/// contract claims that the program's field `functions` holds that circuit
/// and nothing else, and that its field `unconstrained_functions` is empty.
#[verifier::external_body]
pub(crate) fn single_function_program(function: &Circuit) -> (program: Program)
    ensures
        program_functions(program) == seq![*function],
        unconstrained_count(program) == 0,
{
    Program { functions: vec![function.clone()], unconstrained_functions: Vec::new() }
}

/// Reads the length of the field `functions` of
/// `acvm::acir::circuit::Program`. The contract claims that it is the
/// length of [`program_functions`].
#[verifier::external_body]
pub(crate) fn program_function_count(program: &Program) -> (count: usize)
    ensures
        count == program_functions(*program).len(),
{
    program.functions.len()
}

/// Borrows one circuit out of the field `functions` of
/// `acvm::acir::circuit::Program`. The index has to name a circuit, since
/// indexing beyond the list panics. The contract claims that the circuit is
/// the one that [`program_functions`] has at that index.
#[verifier::external_body]
pub(crate) fn program_function(program: &Program, index: usize) -> (function: &Circuit)
    requires
        index < program_functions(*program).len(),
    ensures
        *function == program_functions(*program)[index as int],
{
    &program.functions[index]
}

/// The compiled output of one package: the bytecode of its functions, their
/// names, their debug symbols and the source files that the symbols point
/// into. Function `i` has bytecode `i` and name `i`: there are as many names
/// as functions.
#[derive(Debug)]
pub struct CompiledProgram {
    bytecode: Vec<Circuit>,
    names: Vec<String>,
    debug_symbols: Vec<DebugInfo>,
    debug_artifact: DebugArtifact,
}

impl CompiledProgram {
    #[verifier::type_invariant]
    spec fn aligned(self) -> bool {
        self.bytecode@.len() == self.names@.len()
    }

    /// The bytecode of the functions, in the order of their declaration.
    pub closed spec fn functions(&self) -> Seq<Circuit> {
        self.bytecode@
    }

    /// The names of the functions, in the order of their declaration.
    pub closed spec fn names(&self) -> Seq<Seq<char>> {
        self.names@.map_values(|name: String| name@)
    }

    /// The debug symbols of the functions.
    pub closed spec fn spec_debug_symbols(&self) -> Vec<DebugInfo> {
        self.debug_symbols
    }

    /// The source files that the debug symbols point into.
    pub closed spec fn spec_debug_artifact(&self) -> DebugArtifact {
        self.debug_artifact
    }

    /// Whether the program is one that [`CompiledProgram::new`] hands out.
    pub open spec fn wf(&self) -> bool {
        self.functions().len() == self.names().len()
    }

    /// The program with the given parts, or nothing if the number of names
    /// is not the number of functions.
    pub fn new(
        bytecode: Vec<Circuit>,
        names: Vec<String>,
        debug_symbols: Vec<DebugInfo>,
        debug_artifact: DebugArtifact,
    ) -> (program: Option<CompiledProgram>)
        ensures
            program.is_some() <==> bytecode@.len() == names@.len(),
            program matches Some(made) ==> made.wf() && made.functions() == bytecode@
                && made.names() == names@.map_values(|name: String| name@)
                && made.spec_debug_symbols() == debug_symbols && made.spec_debug_artifact()
                == debug_artifact,
    {
        if bytecode.len() == names.len() {
            Some(CompiledProgram { bytecode, names, debug_symbols, debug_artifact })
        } else {
            None
        }
    }

    /// The number of functions.
    pub fn function_count(&self) -> (count: usize)
        ensures
            count == self.functions().len(),
            self.wf(),
    {
        proof {
            use_type_invariant(self);
        }
        self.bytecode.len()
    }

    /// The bytecode of function `index`.
    pub fn function(&self, index: usize) -> (function: &Circuit)
        requires
            index < self.functions().len(),
        ensures
            *function == self.functions()[index as int],
    {
        &self.bytecode[index]
    }

    /// The name of function `index`.
    pub fn name(&self, index: usize) -> (name: &String)
        requires
            index < self.functions().len(),
        ensures
            name@ == self.names()[index as int],
    {
        proof {
            use_type_invariant(self);
        }
        &self.names[index]
    }

    /// The debug symbols of the functions.
    pub fn debug_symbols(&self) -> (symbols: &Vec<DebugInfo>)
        ensures
            *symbols == self.spec_debug_symbols(),
    {
        &self.debug_symbols
    }

    /// The source files that the debug symbols point into.
    pub fn debug_artifact(&self) -> (files: &DebugArtifact)
        ensures
            *files == self.spec_debug_artifact(),
    {
        &self.debug_artifact
    }

    /// What a backend is asked for each function, in the order of their
    /// declaration: a program that holds that function's bytecode and
    /// nothing else. Unconstrained functions do not count towards the size
    /// of a circuit, so none is handed on.
    pub fn backend_requests(&self) -> (requests: Vec<Program>)
        ensures
            requests@.len() == self.functions().len(),
            forall|i: int|
                0 <= i < requests@.len() ==> program_functions(#[trigger] requests@[i])
                    == seq![self.functions()[i]] && unconstrained_count(requests@[i]) == 0,
    {
        let mut requests: Vec<Program> = Vec::new();
        let mut i: usize = 0;
        while i < self.bytecode.len()
            invariant
                i <= self.bytecode@.len(),
                requests@.len() == i,
                forall|k: int|
                    0 <= k < i ==> program_functions(#[trigger] requests@[k])
                        == seq![self.bytecode@[k]] && unconstrained_count(requests@[k]) == 0,
            decreases self.bytecode.len() - i,
        {
            requests.push(single_function_program(&self.bytecode[i]));
            i = i + 1;
        }
        requests
    }
}

/// One function of a contract: its name, its bytecode and its debug
/// symbols. The bytecode holds at least one circuit, and the first one is
/// the function's own.
#[derive(Debug)]
pub struct ContractFunction {
    name: String,
    bytecode: Program,
    debug_symbols: Vec<DebugInfo>,
}

impl ContractFunction {
    #[verifier::type_invariant]
    spec fn has_circuit(self) -> bool {
        program_functions(self.bytecode).len() > 0
    }

    /// The name of the function.
    pub closed spec fn spec_name(&self) -> Seq<char> {
        self.name@
    }

    /// The bytecode of the function.
    pub closed spec fn spec_bytecode(&self) -> Program {
        self.bytecode
    }

    /// The debug symbols of the function.
    pub closed spec fn spec_debug_symbols(&self) -> Vec<DebugInfo> {
        self.debug_symbols
    }

    /// Whether the function is one that [`ContractFunction::new`] hands
    /// out.
    pub open spec fn wf(&self) -> bool {
        program_functions(self.spec_bytecode()).len() > 0
    }

    /// The function with the given parts, or nothing if the bytecode holds
    /// no circuit.
    pub fn new(name: String, bytecode: Program, debug_symbols: Vec<DebugInfo>) -> (function:
        Option<ContractFunction>)
        ensures
            function.is_some() <==> program_functions(bytecode).len() > 0,
            function matches Some(made) ==> made.wf() && made.spec_name() == name@
                && made.spec_bytecode() == bytecode && made.spec_debug_symbols()
                == debug_symbols,
    {
        if program_function_count(&bytecode) > 0 {
            Some(ContractFunction { name, bytecode, debug_symbols })
        } else {
            None
        }
    }

    /// The name of the function.
        pub fn name(&self) -> (name: &String)
        ensures
            name@ == self.spec_name(),
    {
        &self.name
    }

    /// The bytecode of the function, as a backend is handed it.
    pub fn bytecode(&self) -> (bytecode: &Program)
        ensures
            *bytecode == self.spec_bytecode(),
            self.wf(),
    {
        proof {
            use_type_invariant(self);
        }
        &self.bytecode
    }

    /// The debug symbols of the function.
    pub fn debug_symbols(&self) -> (symbols: &Vec<DebugInfo>)
        ensures
            *symbols == self.spec_debug_symbols(),
    {
        &self.debug_symbols
    }
}

/// The compiled output of a contract: its name, its functions and the
/// source files that their debug symbols point into.
#[derive(Debug)]
pub struct CompiledContract {
    /// The name of the contract.
    pub name: String,
    /// The functions, in the order of their declaration.
    pub functions: Vec<ContractFunction>,
    /// The source files that the debug symbols point into.
    pub debug_artifact: DebugArtifact,
}

impl CompiledContract {
    /// What a backend is asked for each function, in the order of their
    /// declaration: the function's bytecode as it stands.
    pub fn backend_requests(&self) -> (requests: Vec<&Program>)
        ensures
            requests@.len() == self.functions@.len(),
            forall|i: int|
                0 <= i < requests@.len() ==> *(#[trigger] requests@[i])
                    == self.functions@[i].spec_bytecode(),
    {
        let mut requests: Vec<&Program> = Vec::new();
        let mut i: usize = 0;
        while i < self.functions.len()
            invariant
                i <= self.functions@.len(),
                requests@.len() == i,
                forall|k: int|
                    0 <= k < i ==> *(#[trigger] requests@[k])
                        == self.functions@[k].spec_bytecode(),
            decreases self.functions.len() - i,
        {
            requests.push(self.functions[i].bytecode());
            i = i + 1;
        }
        requests
    }
}

} // verus!
