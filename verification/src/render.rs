//! The two ways in which a report is shown: as one structured document for
//! machines, or as tables for people.

use crate::document::{report_document, Document};
use crate::report::InfoReport;
use crate::table::{all_rows, header_row, no_functions, printable, table_of};
use prettytable::Table;
use vstd::prelude::*;

verus! {

/// A report in the form in which it is shown.
#[derive(Debug)]
pub enum Rendering {
    /// The report as one structured document.
    Structured(Document),
    /// The report as tables. A table without a function is left out.
    Tabular {
        /// The table of the programs.
        programs: Option<Table>,
        /// The table of the contracts.
        contracts: Option<Table>,
    },
}

impl InfoReport {
    /// The report in the form that was asked for: the structured document
    /// if `json` is set, the tables if it is not.
    ///
    /// A cell of a table cannot hold an escape character. Where tables are
    /// asked for and a name in the report, or an expression width as it is
    /// written, holds one, there is nothing to show.
    pub fn render(&self, json: bool) -> (shown: Option<Rendering>)
        ensures
            shown.is_none() <==> !json && !(printable(self@.programs) && printable(
                self@.contracts,
            )),
            json ==> (shown matches Some(Rendering::Structured(document)) && document@
                == report_document(self@)),
            !json ==> (shown matches Some(Rendering::Tabular { programs, contracts }) ==> {
                &&& programs.is_none() <==> no_functions(self@.programs)
                &&& programs matches Some(table) ==> table == table_of(
                    seq![header_row("Package"@)] + all_rows(self@.programs),
                )
                &&& contracts.is_none() <==> no_functions(self@.contracts)
                &&& contracts matches Some(table) ==> table == table_of(
                    seq![header_row("Contract"@)] + all_rows(self@.contracts),
                )
            }),
            !json ==> !(shown matches Some(Rendering::Structured(_))),
    {
        if json {
            Some(Rendering::Structured(self.to_document()))
        } else if self.is_printable() {
            Some(
                Rendering::Tabular {
                    programs: self.program_table(),
                    contracts: self.contract_table(),
                },
            )
        } else {
            None
        }
    }
}

} // verus!
