//! The report: what was counted, by function, by package and by contract.

use acvm::acir::circuit::ExpressionWidth;
use vstd::prelude::*;

verus! {

/// The greatest width of the expressions that a backend constrains,
/// `acvm::acir::circuit::ExpressionWidth`: a setting of the backend that the
/// report repeats next to what it counted. Nothing inside it is visible to
/// the proofs, which only carry it through.
#[verifier::external_type_specification]
#[verifier::external_body]
pub struct ExExpressionWidth(acvm::acir::circuit::ExpressionWidth);

/// What was counted for one function: one row of the report.
#[derive(Clone, Debug, PartialEq, Eq)]
pub struct FunctionInfo {
    /// The name of the function.
    pub name: String,
    /// The number of opcodes in the function's own bytecode.
    pub acir_opcodes: usize,
    /// The size of the circuit that the backend builds from the function.
    pub circuit_size: u32,
}

/// What was counted for the functions of one package.
#[derive(Debug, PartialEq, Eq)]
pub struct ProgramInfo {
    /// The name of the package.
    pub package_name: String,
    /// The expression width that the package was compiled for.
    pub expression_width: ExpressionWidth,
    /// The functions, in the order in which the program declares them.
    pub functions: Vec<FunctionInfo>,
}

/// What was counted for the functions of one contract.
#[derive(Debug, PartialEq, Eq)]
pub struct ContractInfo {
    /// The name of the contract.
    pub name: String,
    /// The expression width that the contract was compiled for.
    pub expression_width: ExpressionWidth,
    /// The functions, in the order in which the contract declares them.
    pub functions: Vec<FunctionInfo>,
}

/// The whole report: every program and every contract that was looked at.
#[derive(Debug, PartialEq, Eq)]
pub struct InfoReport {
    /// The programs, in the order in which they were handed in.
    pub programs: Vec<ProgramInfo>,
    /// The contracts, in the order in which they were handed in.
    pub contracts: Vec<ContractInfo>,
}

/// A row of the report as plain values.
pub struct FunctionInfoView {
    pub name: Seq<char>,
    pub acir_opcodes: nat,
    pub circuit_size: nat,
}

/// A program's or a contract's part of the report as plain values. For a
/// program `name` is the name of its package.
pub struct GroupInfoView {
    pub name: Seq<char>,
    pub expression_width: ExpressionWidth,
    pub functions: Seq<FunctionInfoView>,
}

/// The report as plain values.
pub struct InfoReportView {
    pub programs: Seq<GroupInfoView>,
    pub contracts: Seq<GroupInfoView>,
}

impl View for FunctionInfo {
    type V = FunctionInfoView;

    open spec fn view(&self) -> FunctionInfoView {
        FunctionInfoView {
            name: self.name@,
            acir_opcodes: self.acir_opcodes as nat,
            circuit_size: self.circuit_size as nat,
        }
    }
}

/// The rows of a list of functions as plain values.
pub open spec fn functions_view(functions: Seq<FunctionInfo>) -> Seq<FunctionInfoView> {
    functions.map_values(|function: FunctionInfo| function@)
}

impl View for ProgramInfo {
    type V = GroupInfoView;

    open spec fn view(&self) -> GroupInfoView {
        GroupInfoView {
            name: self.package_name@,
            expression_width: self.expression_width,
            functions: functions_view(self.functions@),
        }
    }
}

impl View for ContractInfo {
    type V = GroupInfoView;

    open spec fn view(&self) -> GroupInfoView {
        GroupInfoView {
            name: self.name@,
            expression_width: self.expression_width,
            functions: functions_view(self.functions@),
        }
    }
}

impl View for InfoReport {
    type V = InfoReportView;

    open spec fn view(&self) -> InfoReportView {
        InfoReportView {
            programs: self.programs@.map_values(|program: ProgramInfo| program@),
            contracts: self.contracts@.map_values(|contract: ContractInfo| contract@),
        }
    }
}

impl InfoReport {
    /// Puts the parts of a report together. Programs and contracts stay in
    /// the order in which they are handed in, and nothing is added, dropped
    /// or changed.
    pub fn new(programs: Vec<ProgramInfo>, contracts: Vec<ContractInfo>) -> (report: InfoReport)
        ensures
            report.programs == programs,
            report.contracts == contracts,
    {
        InfoReport { programs, contracts }
    }
}

impl Default for InfoReport {
    /// The report on nothing.
    fn default() -> (report: InfoReport)
        ensures
            report.programs@.len() == 0,
            report.contracts@.len() == 0,
    {
        InfoReport { programs: Vec::new(), contracts: Vec::new() }
    }
}

} // verus!
