//! Counting: the opcodes of each function, taken from its own bytecode, and
//! the size of its circuit, taken from a backend.
//!
//! The backend is asked outside this library, once for each function and in
//! any order; see `backend_requests` of the artifacts for what it is asked.
//! What it answered comes back as a list with one outcome for each
//! function, in the order of their declaration.

use crate::artifact::{
    circuit_opcode_count, opcode_count, program_function, program_functions, CompiledContract,
    CompiledProgram,
};
use crate::report::{ContractInfo, FunctionInfo, ProgramInfo};
use acvm::acir::circuit::{Circuit, ExpressionWidth};
use vstd::prelude::*;

verus! {

/// Whether the backend gave a size for every function.
pub open spec fn all_succeeded<E>(outcomes: Seq<Result<u32, E>>) -> bool {
    forall|i: int| 0 <= i < outcomes.len() ==> (#[trigger] outcomes[i]) is Ok
}

/// Whether outcome `index` is the first failure among the outcomes.
pub open spec fn first_failure<E>(outcomes: Seq<Result<u32, E>>, index: int) -> bool {
    &&& 0 <= index < outcomes.len()
    &&& outcomes[index] is Err
    &&& forall|j: int| 0 <= j < index ==> (#[trigger] outcomes[j]) is Ok
}

/// The sizes that the backend gave, if it gave one for every function.
///
/// One failure makes the whole list fail: nothing of the other outcomes is
/// kept. The error that comes back is that of the first function, in the
/// order of their declaration, for which the backend failed.
pub fn collect_sizes<E>(outcomes: Vec<Result<u32, E>>) -> (sizes: Result<Vec<u32>, E>)
    ensures
        sizes.is_ok() <==> all_succeeded(outcomes@),
        sizes matches Ok(list) ==> list@.len() == outcomes@.len() && forall|i: int|
            0 <= i < list@.len() ==> outcomes@[i] == Ok::<u32, E>(#[trigger] list@[i]),
        sizes matches Err(error) ==> exists|index: int|
            first_failure(outcomes@, index) && #[trigger] outcomes@[index] == Err::<u32, E>(error),
{
    let ghost all = outcomes@;
    let mut list: Vec<u32> = Vec::new();
    for outcome in iter: outcomes
        invariant
            iter.seq() == all,
            list@.len() == iter.index(),
            forall|k: int| 0 <= k < list@.len() ==> all[k] == Ok::<u32, E>(#[trigger] list@[k]),
            forall|k: int| 0 <= k < list@.len() ==> (#[trigger] all[k]) is Ok,
    {
        match outcome {
            Ok(size) => {
                list.push(size);
            },
            Err(error) => {
                proof {
                    assert(first_failure(all, list@.len() as int));
                    assert(all[list@.len() as int] == Err::<u32, E>(error));
                }
                return Err(error);
            },
        }
    }
    Ok(list)
}

/// Puts the rows of a report together: row `i` has name `i`, opcode count
/// `i` and circuit size `i`.
pub fn assemble_functions(
    names: Vec<String>,
    acir_opcodes: &Vec<usize>,
    circuit_sizes: &Vec<u32>,
) -> (rows: Vec<FunctionInfo>)
    requires
        names@.len() == acir_opcodes@.len(),
        names@.len() == circuit_sizes@.len(),
    ensures
        rows@.len() == names@.len(),
        forall|i: int|
            0 <= i < rows@.len() ==> (#[trigger] rows@[i]).name@ == names@[i]@
                && rows@[i].acir_opcodes == acir_opcodes@[i] && rows@[i].circuit_size
                == circuit_sizes@[i],
{
    let ghost all = names@;
    let mut rows: Vec<FunctionInfo> = Vec::new();
    for name in iter: names
        invariant
            iter.seq() == all,
            all.len() == acir_opcodes@.len(),
            all.len() == circuit_sizes@.len(),
            rows@.len() == iter.index(),
            forall|k: int|
                0 <= k < rows@.len() ==> (#[trigger] rows@[k]).name@ == all[k]@
                    && rows@[k].acir_opcodes == acir_opcodes@[k] && rows@[k].circuit_size
                    == circuit_sizes@[k],
    {
        let index = rows.len();
        rows.push(
            FunctionInfo { name, acir_opcodes: acir_opcodes[index], circuit_size: circuit_sizes[index] },
        );
    }
    rows
}

/// The report on one program.
///
/// `circuit_sizes` holds what the backend answered for each request of
/// [`CompiledProgram::backend_requests`], in their order. The report has
/// one row for each function, in the order of their declaration. The
/// number of opcodes in a row is that of the function's own bytecode,
/// whatever the backend answered. If the backend failed for any function
/// there is no report, only the error of the first function for which it
/// failed.
pub fn count_opcodes_and_gates_in_program<E>(
    compiled_program: &CompiledProgram,
    circuit_sizes: Vec<Result<u32, E>>,
    package_name: String,
    expression_width: ExpressionWidth,
) -> (info: Result<ProgramInfo, E>)
    requires
        circuit_sizes@.len() == compiled_program.functions().len(),
    ensures
        info.is_ok() <==> all_succeeded(circuit_sizes@),
        info matches Ok(report) ==> {
            &&& report.package_name@ == package_name@
            &&& report.expression_width == expression_width
            &&& report.functions@.len() == compiled_program.functions().len()
            &&& forall|i: int|
                0 <= i < report.functions@.len() ==> {
                    &&& (#[trigger] report.functions@[i]).name@ == compiled_program.names()[i]
                    &&& report.functions@[i].acir_opcodes == opcode_count(
                        compiled_program.functions()[i],
                    )
                    &&& circuit_sizes@[i] == Ok::<u32, E>(report.functions@[i].circuit_size)
                }
        },
        info matches Err(error) ==> exists|index: int|
            first_failure(circuit_sizes@, index) && #[trigger] circuit_sizes@[index] == Err::<
                u32,
                E,
            >(error),
{
    let sizes = match collect_sizes(circuit_sizes) {
        Ok(sizes) => sizes,
        Err(error) => {
            return Err(error);
        },
    };
    let count = compiled_program.function_count();
    let mut names: Vec<String> = Vec::new();
    let mut acir_opcodes: Vec<usize> = Vec::new();
    let mut i: usize = 0;
    while i < count
        invariant
            i <= count,
            count == compiled_program.functions().len(),
            compiled_program.wf(),
            names@.len() == i,
            acir_opcodes@.len() == i,
            forall|k: int| 0 <= k < i ==> (#[trigger] names@[k])@ == compiled_program.names()[k],
            forall|k: int|
                0 <= k < i ==> #[trigger] acir_opcodes@[k] == opcode_count(
                    compiled_program.functions()[k],
                ),
        decreases count - i,
    {
        names.push(compiled_program.name(i).clone());
        acir_opcodes.push(circuit_opcode_count(compiled_program.function(i)));
        i = i + 1;
    }
    let functions = assemble_functions(names, &acir_opcodes, &sizes);
    Ok(ProgramInfo { package_name, expression_width, functions })
}

/// The report on one contract.
///
/// `circuit_sizes` holds what the backend answered for each request of
/// [`CompiledContract::backend_requests`], in their order. The report has
/// one row for each function, in the order of their declaration. The
/// number of opcodes in a row is that of the first circuit of the
/// function's bytecode, whatever the backend answered. If the backend
/// failed for any function there is no report, only the error of the first
/// function for which it failed.
pub fn count_opcodes_and_gates_in_contract<E>(
    contract: &CompiledContract,
    circuit_sizes: Vec<Result<u32, E>>,
    expression_width: ExpressionWidth,
) -> (info: Result<ContractInfo, E>)
    requires
        circuit_sizes@.len() == contract.functions@.len(),
    ensures
        info.is_ok() <==> all_succeeded(circuit_sizes@),
        info matches Ok(report) ==> {
            &&& report.name@ == contract.name@
            &&& report.expression_width == expression_width
            &&& report.functions@.len() == contract.functions@.len()
            &&& forall|i: int|
                0 <= i < report.functions@.len() ==> {
                    &&& (#[trigger] report.functions@[i]).name@
                        == contract.functions@[i].spec_name()
                    &&& report.functions@[i].acir_opcodes == opcode_count(
                        program_functions(contract.functions@[i].spec_bytecode())[0],
                    )
                    &&& circuit_sizes@[i] == Ok::<u32, E>(report.functions@[i].circuit_size)
                }
        },
        info matches Err(error) ==> exists|index: int|
            first_failure(circuit_sizes@, index) && #[trigger] circuit_sizes@[index] == Err::<
                u32,
                E,
            >(error),
{
    let sizes = match collect_sizes(circuit_sizes) {
        Ok(sizes) => sizes,
        Err(error) => {
            return Err(error);
        },
    };
    let count = contract.functions.len();
    let mut names: Vec<String> = Vec::new();
    let mut acir_opcodes: Vec<usize> = Vec::new();
    let mut i: usize = 0;
    while i < count
        invariant
            i <= count,
            count == contract.functions@.len(),
            names@.len() == i,
            acir_opcodes@.len() == i,
            forall|k: int|
                0 <= k < i ==> (#[trigger] names@[k])@ == contract.functions@[k].spec_name(),
            forall|k: int|
                0 <= k < i ==> #[trigger] acir_opcodes@[k] == opcode_count(
                    program_functions(contract.functions@[k].spec_bytecode())[0],
                ),
        decreases count - i,
    {
        let function = &contract.functions[i];
        let own: &Circuit = program_function(function.bytecode(), 0);
        names.push(function.name().clone());
        acir_opcodes.push(circuit_opcode_count(own));
        i = i + 1;
    }
    let functions = assemble_functions(names, &acir_opcodes, &sizes);
    Ok(ContractInfo { name: contract.name.clone(), expression_width, functions })
}

} // verus!
