//! The report as tables: one for the programs and one for the contracts,
//! with one row for each function.

use crate::decimal::{decimal, decimal_string};
use crate::report::{
    functions_view, ContractInfo, FunctionInfo, FunctionInfoView, GroupInfoView, InfoReport,
    ProgramInfo,
};
use acvm::acir::circuit::ExpressionWidth;
use prettytable::{Cell, Row, Table};
use vstd::prelude::*;

verus! {

/// A cell of a table, `prettytable::Cell`. Nothing inside it is visible to
/// the proofs.
#[verifier::external_type_specification]
#[verifier::external_body]
pub struct ExCell(prettytable::Cell);

/// A row of a table, `prettytable::Row`. Nothing inside it is visible to the
/// proofs.
#[verifier::external_type_specification]
#[verifier::external_body]
pub struct ExRow(prettytable::Row);

/// A table, `prettytable::Table`. Nothing inside it is visible to the
/// proofs.
#[verifier::external_type_specification]
#[verifier::external_body]
pub struct ExTable(prettytable::Table);

/// The cell that `prettytable::Cell::new` makes from a text.
pub uninterp spec fn cell_of(text: Seq<char>) -> Cell;

/// The cell that `prettytable::Cell::style_spec` makes from a cell and a
/// style specifier.
pub uninterp spec fn styled(cell: Cell, style: Seq<char>) -> Cell;

/// The row that `prettytable::Row::new` makes from cells.
pub uninterp spec fn row_of(cells: Seq<Cell>) -> Row;

/// The table that `prettytable::Table::init` makes from rows.
pub uninterp spec fn table_of(rows: Seq<Row>) -> Table;

/// The text that the `Debug` implementation of
/// `acvm::acir::circuit::ExpressionWidth` writes for an expression width.
pub uninterp spec fn expression_width_text(width: ExpressionWidth) -> Seq<char>;

/// Whether a text holds no escape character, the character that starts a
/// control sequence of a terminal.
pub open spec fn no_escape(text: Seq<char>) -> bool {
    forall|i: int| 0 <= i < text.len() ==> text[i] != '\u{1b}'
}

/// Calls `prettytable::Cell::new`. The function measures how wide the text
/// is when it is shown, leaves out of the measure what follows an escape
/// character, and panics where it left out more than the whole text
/// measures; a text without an escape character has nothing left out. So
/// the text has to be one without an escape character. The contract gives
/// the cell its name, [`cell_of`] of the text, and claims no more.
#[verifier::external_body]
fn new_cell(text: &str) -> (cell: Cell)
    requires
        no_escape(text@),
    ensures
        cell == cell_of(text@),
{
    Cell::new(text)
}

/// Whether a style specifier asks for no horizontal span: it holds no `H`.
pub open spec fn spans_nothing(style: Seq<char>) -> bool {
    forall|i: int| 0 <= i < style.len() ==> style[i] != 'H'
}

/// Calls `prettytable::Cell::style_spec`. The function reads a number
/// behind an `H` and panics where it finds none that fits, so the specifier
/// has to be one without an `H`. The contract gives the cell its name,
/// [`styled`] of the cell and the specifier, and claims no more.
#[verifier::external_body]
fn style_cell(cell: Cell, style: &str) -> (shown: Cell)
    requires
        spans_nothing(style@),
    ensures
        shown == styled(cell, style@),
{
    cell.style_spec(style)
}

/// Calls `prettytable::Row::new`. The contract gives the row its name,
/// [`row_of`] of the cells, and claims no more.
#[verifier::external_body]
fn new_row(cells: Vec<Cell>) -> (row: Row)
    ensures
        row == row_of(cells@),
{
    Row::new(cells)
}

/// Calls `prettytable::Table::init`. The contract gives the table its name,
/// [`table_of`] of the rows, and claims no more.
#[verifier::external_body]
fn new_table(rows: Vec<Row>) -> (table: Table)
    ensures
        table == table_of(rows@),
{
    Table::init(rows)
}

/// Writes an expression width with `{:?}`, which calls the `Debug`
/// implementation of `acvm::acir::circuit::ExpressionWidth`. The contract
/// gives the text its name, [`expression_width_text`], and claims no more.
#[verifier::external_body]
fn expression_width_debug(width: ExpressionWidth) -> (text: String)
    ensures
        text@ == expression_width_text(width),
{
    format!("{:?}", width)
}

/// The style of the cells that name a package or a contract, and of the
/// column titles: magenta.
pub open spec fn group_style() -> Seq<char> {
    "Fm"@
}

/// The style of the cells that hold a function's name and its counts: cyan.
pub open spec fn value_style() -> Seq<char> {
    "Fc"@
}

/// The row of column titles. `group` is the title of the first column.
pub open spec fn header_row(group: Seq<char>) -> Row {
    row_of(
        seq![
            styled(cell_of(group), group_style()),
            styled(cell_of("Function"@), group_style()),
            styled(cell_of("Expression Width"@), group_style()),
            styled(cell_of("ACIR Opcodes"@), group_style()),
            styled(cell_of("Backend Circuit Size"@), group_style()),
        ],
    )
}

/// The texts in the row of one function: the name of its package or
/// contract, its own name, the expression width as it is written, the
/// number of its opcodes and the size of its circuit.
pub open spec fn row_texts(
    group: Seq<char>,
    expression_width: Seq<char>,
    function: FunctionInfoView,
) -> Seq<Seq<char>> {
    seq![
        group,
        function.name,
        expression_width,
        decimal(function.acir_opcodes),
        decimal(function.circuit_size),
    ]
}

/// The row that is made of the texts of a function's row: each text in a
/// cell, the name of the package or contract in the style of a group, the
/// function's name and its counts in the style of a value, and the
/// expression width in no style.
pub open spec fn row_of_texts(texts: Seq<Seq<char>>) -> Row {
    row_of(
        seq![
            styled(cell_of(texts[0]), group_style()),
            styled(cell_of(texts[1]), value_style()),
            cell_of(texts[2]),
            styled(cell_of(texts[3]), value_style()),
            styled(cell_of(texts[4]), value_style()),
        ],
    )
}

/// The row of one function.
pub open spec fn function_row(
    group: Seq<char>,
    width: ExpressionWidth,
    function: FunctionInfoView,
) -> Row {
    row_of_texts(row_texts(group, expression_width_text(width), function))
}

/// The rows of one program or contract: one for each function, in their
/// order.
pub open spec fn group_rows(group: GroupInfoView) -> Seq<Row> {
    group.functions.map_values(
        |function: FunctionInfoView| function_row(group.name, group.expression_width, function),
    )
}

/// The rows of several programs or contracts, one group after the other.
pub open spec fn all_rows(groups: Seq<GroupInfoView>) -> Seq<Row>
    decreases groups.len(),
{
    if groups.len() == 0 {
        Seq::empty()
    } else {
        all_rows(groups.drop_last()) + group_rows(groups.last())
    }
}

/// Whether none of the groups has a function.
pub open spec fn no_functions(groups: Seq<GroupInfoView>) -> bool {
    forall|i: int| 0 <= i < groups.len() ==> (#[trigger] groups[i]).functions.len() == 0
}

/// There are as many rows as functions: no row at all exactly if no group
/// has a function.
pub proof fn lemma_no_rows_without_functions(groups: Seq<GroupInfoView>)
    ensures
        all_rows(groups).len() == 0 <==> no_functions(groups),
    decreases groups.len(),
{
    if groups.len() > 0 {
        let front = groups.drop_last();
        lemma_no_rows_without_functions(front);
        if no_functions(groups) {
            assert(groups[groups.len() - 1].functions.len() == 0);
            assert forall|i: int| 0 <= i < front.len() implies (#[trigger] front[i]).functions.len()
                == 0 by {
                assert(groups[i].functions.len() == 0);
            }
        }
        if all_rows(groups).len() == 0 {
            assert forall|i: int| 0 <= i < groups.len() implies (
            #[trigger] groups[i]).functions.len() == 0 by {
                if i < front.len() {
                    assert(front[i].functions.len() == 0);
                }
            }
        }
    }
}

/// Whether the texts of a program's or a contract's rows can all be put in
/// cells: none of them holds an escape character. The counts never do, so
/// this is about the names and about the expression width as it is written.
pub open spec fn printable_group(group: GroupInfoView) -> bool {
    &&& no_escape(group.name)
    &&& no_escape(expression_width_text(group.expression_width))
    &&& forall|j: int|
        0 <= j < group.functions.len() ==> no_escape((#[trigger] group.functions[j]).name)
}

/// Whether the texts of the rows of all the groups can be put in cells.
pub open spec fn printable(groups: Seq<GroupInfoView>) -> bool {
    forall|i: int| 0 <= i < groups.len() ==> printable_group(#[trigger] groups[i])
}

/// A number in decimal digits holds no escape character.
pub proof fn lemma_decimal_is_plain(number: nat)
    ensures
        no_escape(decimal(number)),
    decreases number,
{
    if number >= 10 {
        lemma_decimal_is_plain(number / 10);
    }
}

/// Whether a text holds no escape character.
pub fn is_plain(text: &str) -> (plain: bool)
    ensures
        plain == no_escape(text@),
{
    for c in iter: text.chars()
        invariant
            iter.seq() == text@,
            forall|k: int| 0 <= k < iter.index() ==> text@[k] != '\u{1b}',
    {
        if c == '\u{1b}' {
            return false;
        }
    }
    true
}

/// The texts in the row of one function, from left to right.
pub fn function_row_texts(group: &str, expression_width: &str, function: &FunctionInfo) -> (texts:
    Vec<String>)
    ensures
        texts@.len() == 5,
        texts@[0]@ == group@,
        texts@[1]@ == function.name@,
        texts@[2]@ == expression_width@,
        texts@[3]@ == decimal(function.acir_opcodes as nat),
        texts@[4]@ == decimal(function.circuit_size as nat),
        texts@.map_values(|text: String| text@) == row_texts(group@, expression_width@, function@),
{
    let mut texts: Vec<String> = Vec::new();
    texts.push(group.to_owned());
    texts.push(function.name.clone());
    texts.push(expression_width.to_owned());
    texts.push(decimal_string(function.acir_opcodes as u64));
    texts.push(decimal_string(function.circuit_size as u64));
    proof {
        assert(texts@.map_values(|text: String| text@) =~= row_texts(
            group@,
            expression_width@,
            function@,
        ));
    }
    texts
}

/// A cell that names a package or a contract, or is a column title.
fn group_cell(text: &str) -> (cell: Cell)
    requires
        no_escape(text@),
    ensures
        cell == styled(cell_of(text@), group_style()),
{
    proof {
        reveal_strlit("Fm");
    }
    style_cell(new_cell(text), "Fm")
}

/// A cell that holds a function's name or one of its counts.
fn value_cell(text: &str) -> (cell: Cell)
    requires
        no_escape(text@),
    ensures
        cell == styled(cell_of(text@), value_style()),
{
    proof {
        reveal_strlit("Fc");
    }
    style_cell(new_cell(text), "Fc")
}

/// Whether the texts of the rows of one program or contract can be put in
/// cells.
fn group_is_printable(name: &String, width: ExpressionWidth, functions: &Vec<FunctionInfo>) -> (yes:
    bool)
    ensures
        yes == printable_group(
            GroupInfoView {
                name: name@,
                expression_width: width,
                functions: functions_view(functions@),
            },
        ),
{
    if !is_plain(name.as_str()) || !is_plain(expression_width_debug(width).as_str()) {
        return false;
    }
    let mut i: usize = 0;
    while i < functions.len()
        invariant
            i <= functions@.len(),
            forall|k: int| 0 <= k < i ==> no_escape((#[trigger] functions@[k]).name@),
        decreases functions.len() - i,
    {
        if !is_plain(functions[i].name.as_str()) {
            proof {
                let group = GroupInfoView {
                    name: name@,
                    expression_width: width,
                    functions: functions_view(functions@),
                };
                assert(!no_escape(group.functions[i as int].name));
                assert(!printable_group(group));
            }
            return false;
        }
        i = i + 1;
    }
    proof {
        assert forall|j: int| 0 <= j < functions@.len() implies no_escape(
            (#[trigger] functions_view(functions@)[j]).name,
        ) by {
            assert(no_escape(functions@[j].name@));
        }
    }
    true
}

/// The rows of the functions of one program or contract.
fn rows_of_functions(name: &String, width: ExpressionWidth, functions: &Vec<FunctionInfo>) -> (rows:
    Vec<Row>)
    requires
        printable_group(
            GroupInfoView {
                name: name@,
                expression_width: width,
                functions: functions_view(functions@),
            },
        ),
    ensures
        rows@ == group_rows(
            GroupInfoView {
                name: name@,
                expression_width: width,
                functions: functions_view(functions@),
            },
        ),
{
    let ghost group = GroupInfoView {
        name: name@,
        expression_width: width,
        functions: functions_view(functions@),
    };
    let mut rows: Vec<Row> = Vec::new();
    let mut i: usize = 0;
    while i < functions.len()
        invariant
            i <= functions@.len(),
            rows@.len() == i,
            group.name == name@,
            group.expression_width == width,
            group.functions == functions_view(functions@),
            printable_group(group),
            forall|k: int| 0 <= k < i ==> #[trigger] rows@[k] == group_rows(group)[k],
        decreases functions.len() - i,
    {
        let function = &functions[i];
        let texts = function_row_texts(
            name.as_str(),
            expression_width_debug(width).as_str(),
            function,
        );
        proof {
            assert(no_escape(group.functions[i as int].name));
            lemma_decimal_is_plain(function.acir_opcodes as nat);
            lemma_decimal_is_plain(function.circuit_size as nat);
        }
        let mut cells: Vec<Cell> = Vec::new();
        cells.push(group_cell(texts[0].as_str()));
        cells.push(value_cell(texts[1].as_str()));
        cells.push(new_cell(texts[2].as_str()));
        cells.push(value_cell(texts[3].as_str()));
        cells.push(value_cell(texts[4].as_str()));
        proof {
            let wanted = row_texts(name@, expression_width_text(width), function@);
            assert(cells@ =~= seq![
                styled(cell_of(wanted[0]), group_style()),
                styled(cell_of(wanted[1]), value_style()),
                cell_of(wanted[2]),
                styled(cell_of(wanted[3]), value_style()),
                styled(cell_of(wanted[4]), value_style()),
            ]);
        }
        rows.push(new_row(cells));
        i = i + 1;
    }
    proof {
        assert(rows@ =~= group_rows(group));
    }
    rows
}

/// The row of column titles.
fn titles(group: &str) -> (row: Row)
    requires
        no_escape(group@),
    ensures
        row == header_row(group@),
{
    proof {
        reveal_strlit("Function");
        reveal_strlit("Expression Width");
        reveal_strlit("ACIR Opcodes");
        reveal_strlit("Backend Circuit Size");
    }
    let mut cells: Vec<Cell> = Vec::new();
    cells.push(group_cell(group));
    cells.push(group_cell("Function"));
    cells.push(group_cell("Expression Width"));
    cells.push(group_cell("ACIR Opcodes"));
    cells.push(group_cell("Backend Circuit Size"));
    proof {
        assert(cells@ =~= seq![
            styled(cell_of(group@), group_style()),
            styled(cell_of("Function"@), group_style()),
            styled(cell_of("Expression Width"@), group_style()),
            styled(cell_of("ACIR Opcodes"@), group_style()),
            styled(cell_of("Backend Circuit Size"@), group_style()),
        ]);
    }
    new_row(cells)
}

impl ProgramInfo {
    /// Whether the program's rows can be made: whether neither its names
    /// nor its expression width, as it is written, hold an escape character.
    pub fn is_printable(&self) -> (yes: bool)
        ensures
            yes == printable_group(self@),
    {
        group_is_printable(&self.package_name, self.expression_width, &self.functions)
    }

    /// The rows of the program in the table of programs: one for each
    /// function, in their order.
    pub fn rows(&self) -> (rows: Vec<Row>)
        requires
            printable_group(self@),
        ensures
            rows@ == group_rows(self@),
    {
        rows_of_functions(&self.package_name, self.expression_width, &self.functions)
    }
}

impl ContractInfo {
    /// Whether the contract's rows can be made: whether neither its names
    /// nor its expression width, as it is written, hold an escape character.
    pub fn is_printable(&self) -> (yes: bool)
        ensures
            yes == printable_group(self@),
    {
        group_is_printable(&self.name, self.expression_width, &self.functions)
    }

    /// The rows of the contract in the table of contracts: one for each
    /// function, in their order.
    pub fn rows(&self) -> (rows: Vec<Row>)
        requires
            printable_group(self@),
        ensures
            rows@ == group_rows(self@),
    {
        rows_of_functions(&self.name, self.expression_width, &self.functions)
    }
}

impl InfoReport {
    /// Whether the tables of the report can be made: whether none of the
    /// names in it, and no expression width as it is written, holds an
    /// escape character.
    pub fn is_printable(&self) -> (yes: bool)
        ensures
            yes == (printable(self@.programs) && printable(self@.contracts)),
    {
        let mut i: usize = 0;
        while i < self.programs.len()
            invariant
                i <= self.programs@.len(),
                forall|k: int| 0 <= k < i ==> printable_group(#[trigger] self@.programs[k]),
            decreases self.programs.len() - i,
        {
            if !self.programs[i].is_printable() {
                proof {
                    assert(!printable_group(self@.programs[i as int]));
                }
                return false;
            }
            i = i + 1;
        }
        let mut j: usize = 0;
        while j < self.contracts.len()
            invariant
                j <= self.contracts@.len(),
                printable(self@.programs),
                forall|k: int| 0 <= k < j ==> printable_group(#[trigger] self@.contracts[k]),
            decreases self.contracts.len() - j,
        {
            if !self.contracts[j].is_printable() {
                proof {
                    assert(!printable_group(self@.contracts[j as int]));
                }
                return false;
            }
            j = j + 1;
        }
        true
    }

    /// The table of the programs: the column titles, then one row for each
    /// function, program by program. Without a function there is no table,
    /// not even the titles.
    pub fn program_table(&self) -> (table: Option<Table>)
        requires
            printable(self@.programs),
        ensures
            table.is_none() <==> no_functions(self@.programs),
            table matches Some(shown) ==> shown == table_of(
                seq![header_row("Package"@)] + all_rows(self@.programs),
            ),
    {
        let ghost groups = self@.programs;
        let mut rows: Vec<Row> = Vec::new();
        proof {
            reveal_strlit("Package");
        }
        rows.push(titles("Package"));
        let mut i: usize = 0;
        proof {
            assert(groups.take(0) == Seq::<GroupInfoView>::empty());
        }
        while i < self.programs.len()
            invariant
                i <= self.programs@.len(),
                groups == self@.programs,
                printable(groups),
                rows@ == seq![header_row("Package"@)] + all_rows(groups.take(i as int)),
            decreases self.programs.len() - i,
        {
            proof {
                assert(printable_group(groups[i as int]));
            }
            let mut more = self.programs[i].rows();
            proof {
                let longer = groups.take(i + 1);
                assert(longer.drop_last() == groups.take(i as int));
                assert(longer.last() == self.programs@[i as int]@);
            }
            rows.append(&mut more);
            i = i + 1;
        }
        proof {
            assert(groups.take(i as int) == groups);
            lemma_no_rows_without_functions(groups);
        }
        if rows.len() > 1 {
            Some(new_table(rows))
        } else {
            None
        }
    }

    /// The table of the contracts: the column titles, then one row for each
    /// function, contract by contract. Without a function there is no
    /// table, not even the titles.
    pub fn contract_table(&self) -> (table: Option<Table>)
        requires
            printable(self@.contracts),
        ensures
            table.is_none() <==> no_functions(self@.contracts),
            table matches Some(shown) ==> shown == table_of(
                seq![header_row("Contract"@)] + all_rows(self@.contracts),
            ),
    {
        let ghost groups = self@.contracts;
        let mut rows: Vec<Row> = Vec::new();
        proof {
            reveal_strlit("Contract");
        }
        rows.push(titles("Contract"));
        let mut i: usize = 0;
        proof {
            assert(groups.take(0) == Seq::<GroupInfoView>::empty());
        }
        while i < self.contracts.len()
            invariant
                i <= self.contracts@.len(),
                groups == self@.contracts,
                printable(groups),
                rows@ == seq![header_row("Contract"@)] + all_rows(groups.take(i as int)),
            decreases self.contracts.len() - i,
        {
            proof {
                assert(printable_group(groups[i as int]));
            }
            let mut more = self.contracts[i].rows();
            proof {
                let longer = groups.take(i + 1);
                assert(longer.drop_last() == groups.take(i as int));
                assert(longer.last() == self.contracts@[i as int]@);
            }
            rows.append(&mut more);
            i = i + 1;
        }
        proof {
            assert(groups.take(i as int) == groups);
            lemma_no_rows_without_functions(groups);
        }
        if rows.len() > 1 {
            Some(new_table(rows))
        } else {
            None
        }
    }
}

} // verus!
