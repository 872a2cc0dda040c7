//! The report as a structured document.

use crate::report::{
    functions_view, ContractInfo, FunctionInfo, FunctionInfoView, GroupInfoView, InfoReport,
    InfoReportView, ProgramInfo,
};
use acvm::acir::circuit::ExpressionWidth;
use vstd::prelude::*;

verus! {

/// A structured document: a value built from texts, numbers, lists and
/// records of named fields.
#[derive(Debug)]
pub enum Document {
    /// A text.
    Text(String),
    /// A number.
    Number(u64),
    /// A list of documents.
    List(Vec<Document>),
    /// A record: fields with their names, in their order.
    Record(Vec<(String, Document)>),
}

/// A structured document as a plain value.
pub enum DocumentView {
    /// A text.
    Text(Seq<char>),
    /// A number.
    Number(nat),
    /// A list of documents.
    List(Seq<DocumentView>),
    /// A record: fields with their names, in their order.
    Record(Seq<(Seq<char>, DocumentView)>),
}

/// A document as a plain value.
pub open spec fn document_view(document: Document) -> DocumentView
    decreases document,
{
    match document {
        Document::Text(text) => DocumentView::Text(text@),
        Document::Number(number) => DocumentView::Number(number as nat),
        Document::List(items) => DocumentView::List(
            Seq::new(
                items@.len(),
                |i: int|
                    if 0 <= i < items@.len() {
                        document_view(items@[i])
                    } else {
                        DocumentView::Number(0)
                    },
            ),
        ),
        Document::Record(fields) => DocumentView::Record(
            Seq::new(
                fields@.len(),
                |i: int|
                    if 0 <= i < fields@.len() {
                        (fields@[i].0@, document_view(fields@[i].1))
                    } else {
                        (Seq::empty(), DocumentView::Number(0))
                    },
            ),
        ),
    }
}

impl View for Document {
    type V = DocumentView;

    open spec fn view(&self) -> DocumentView {
        document_view(*self)
    }
}

/// The plain values of a list of documents.
pub open spec fn items_view(items: Seq<Document>) -> Seq<DocumentView> {
    Seq::new(items.len(), |i: int| items[i]@)
}

/// The plain values of the fields of a record.
pub open spec fn fields_view(fields: Seq<(String, Document)>) -> Seq<(Seq<char>, DocumentView)> {
    Seq::new(fields.len(), |i: int| (fields[i].0@, fields[i].1@))
}

/// What a list and a record are as plain values.
pub proof fn lemma_document_view(document: Document)
    ensures
        document matches Document::Text(text) ==> document@ == DocumentView::Text(text@),
        document matches Document::Number(number) ==> document@ == DocumentView::Number(
            number as nat,
        ),
        document matches Document::List(items) ==> document@ == DocumentView::List(
            items_view(items@),
        ),
        document matches Document::Record(fields) ==> document@ == DocumentView::Record(
            fields_view(fields@),
        ),
{
    match document {
        Document::List(items) => {
            assert(document@->List_0 =~= items_view(items@));
        },
        Document::Record(fields) => {
            assert(document@->Record_0 =~= fields_view(fields@));
        },
        _ => {},
    }
}

/// The document of one row of the report: a record of the function's name,
/// the number of its opcodes and the size of its circuit.
pub open spec fn function_document(function: FunctionInfoView) -> DocumentView {
    DocumentView::Record(
        seq![
            ("name"@, DocumentView::Text(function.name)),
            ("acir_opcodes"@, DocumentView::Number(function.acir_opcodes)),
            ("circuit_size"@, DocumentView::Number(function.circuit_size)),
        ],
    )
}

/// The document of a list of rows.
pub open spec fn functions_document(functions: Seq<FunctionInfoView>) -> DocumentView {
    DocumentView::List(functions.map_values(|function: FunctionInfoView| function_document(function)))
}

/// The document of a program or a contract: a record of its name, under the
/// field name `key`, and of its functions. The expression width is no part
/// of the document.
pub open spec fn group_document(key: Seq<char>, group: GroupInfoView) -> DocumentView {
    DocumentView::Record(
        seq![
            (key, DocumentView::Text(group.name)),
            ("functions"@, functions_document(group.functions)),
        ],
    )
}

/// The document of a list of programs or contracts.
pub open spec fn groups_document(key: Seq<char>, groups: Seq<GroupInfoView>) -> DocumentView {
    DocumentView::List(groups.map_values(|group: GroupInfoView| group_document(key, group)))
}

/// The document of a report: a record of its programs and its contracts.
pub open spec fn report_document(report: InfoReportView) -> DocumentView {
    DocumentView::Record(
        seq![
            ("programs"@, groups_document("package_name"@, report.programs)),
            ("contracts"@, groups_document("name"@, report.contracts)),
        ],
    )
}

/// A field of a record.
fn field(name: &str, value: Document) -> (field: (String, Document))
    ensures
        field.0@ == name@,
        field.1 == value,
{
    (name.to_owned(), value)
}

impl FunctionInfo {
    /// The row as a document.
    pub fn to_document(&self) -> (document: Document)
        ensures
            document@ == function_document(self@),
    {
        let mut fields: Vec<(String, Document)> = Vec::new();
        fields.push(field("name", Document::Text(self.name.clone())));
        fields.push(field("acir_opcodes", Document::Number(self.acir_opcodes as u64)));
        fields.push(field("circuit_size", Document::Number(self.circuit_size as u64)));
        let document = Document::Record(fields);
        proof {
            lemma_document_view(document);
            lemma_document_view(fields@[0].1);
            lemma_document_view(fields@[1].1);
            lemma_document_view(fields@[2].1);
            assert(fields_view(fields@) =~= function_document(self@)->Record_0);
        }
        document
    }
}

/// The rows of a list of functions as a document.
fn functions_to_document(functions: &Vec<FunctionInfo>) -> (document: Document)
    ensures
        document@ == functions_document(functions_view(functions@)),
{
    let mut items: Vec<Document> = Vec::new();
    let mut i: usize = 0;
    while i < functions.len()
        invariant
            i <= functions@.len(),
            items@.len() == i,
            forall|k: int| 0 <= k < i ==> (#[trigger] items@[k])@ == function_document(functions@[k]@),
        decreases functions.len() - i,
    {
        items.push(functions[i].to_document());
        i = i + 1;
    }
    let document = Document::List(items);
    proof {
        lemma_document_view(document);
        assert(items_view(items@) =~= functions_document(functions_view(functions@))->List_0);
    }
    document
}

/// A program or a contract as a document.
fn group_to_document(key: &str, name: &String, functions: &Vec<FunctionInfo>) -> (document:
    Document)
    ensures
        forall|width: ExpressionWidth|
            document@ == #[trigger] group_document(
                key@,
                GroupInfoView {
                    name: name@,
                    expression_width: width,
                    functions: functions_view(functions@),
                },
            ),
{
    let mut fields: Vec<(String, Document)> = Vec::new();
    fields.push(field(key, Document::Text(name.clone())));
    fields.push(field("functions", functions_to_document(functions)));
    let document = Document::Record(fields);
    proof {
        lemma_document_view(document);
        lemma_document_view(fields@[0].1);
        assert forall|width: ExpressionWidth|
            document@ == #[trigger] group_document(
                key@,
                GroupInfoView {
                    name: name@,
                    expression_width: width,
                    functions: functions_view(functions@),
                },
            ) by {
            let group = GroupInfoView {
                name: name@,
                expression_width: width,
                functions: functions_view(functions@),
            };
            assert(fields_view(fields@) =~= group_document(key@, group)->Record_0);
        }
    }
    document
}

impl ProgramInfo {
    /// The program's part of the report as a document: the name of the
    /// package and the rows of the functions, without the expression width.
    pub fn to_document(&self) -> (document: Document)
        ensures
            document@ == group_document("package_name"@, self@),
    {
        group_to_document("package_name", &self.package_name, &self.functions)
    }
}

impl ContractInfo {
    /// The contract's part of the report as a document: the name of the
    /// contract and the rows of the functions, without the expression width.
    pub fn to_document(&self) -> (document: Document)
        ensures
            document@ == group_document("name"@, self@),
    {
        group_to_document("name", &self.name, &self.functions)
    }
}

impl InfoReport {
    /// The report as a structured document, which holds everything that
    /// was counted and leaves out the expression widths.
    pub fn to_document(&self) -> (document: Document)
        ensures
            document@ == report_document(self@),
    {
        let mut programs: Vec<Document> = Vec::new();
        let mut i: usize = 0;
        while i < self.programs.len()
            invariant
                i <= self.programs@.len(),
                programs@.len() == i,
                forall|k: int|
                    0 <= k < i ==> (#[trigger] programs@[k])@ == group_document(
                        "package_name"@,
                        self.programs@[k]@,
                    ),
            decreases self.programs.len() - i,
        {
            programs.push(self.programs[i].to_document());
            i = i + 1;
        }
        let mut contracts: Vec<Document> = Vec::new();
        let mut j: usize = 0;
        while j < self.contracts.len()
            invariant
                j <= self.contracts@.len(),
                contracts@.len() == j,
                forall|k: int|
                    0 <= k < j ==> (#[trigger] contracts@[k])@ == group_document(
                        "name"@,
                        self.contracts@[k]@,
                    ),
            decreases self.contracts.len() - j,
        {
            contracts.push(self.contracts[j].to_document());
            j = j + 1;
        }
        let mut fields: Vec<(String, Document)> = Vec::new();
        fields.push(field("programs", Document::List(programs)));
        fields.push(field("contracts", Document::List(contracts)));
        let document = Document::Record(fields);
        proof {
            lemma_document_view(document);
            lemma_document_view(fields@[0].1);
            lemma_document_view(fields@[1].1);
            assert(items_view(programs@) =~= groups_document(
                "package_name"@,
                self@.programs,
            )->List_0);
            assert(items_view(contracts@) =~= groups_document("name"@, self@.contracts)->List_0);
            assert(fields_view(fields@) =~= report_document(self@)->Record_0);
        }
        document
    }
}

impl Document {
    /// The text, if the document is one.
    pub fn as_text(&self) -> (text: Option<&String>)
        ensures
            text.is_some() <==> self@ is Text,
            text matches Some(held) ==> self@ == DocumentView::Text(held@),
    {
        proof {
            lemma_document_view(*self);
        }
        match self {
            Document::Text(text) => Some(text),
            _ => None,
        }
    }

    /// The number, if the document is one.
    pub fn as_number(&self) -> (number: Option<u64>)
        ensures
            number.is_some() <==> self@ is Number,
            number matches Some(held) ==> self@ == DocumentView::Number(held as nat),
    {
        proof {
            lemma_document_view(*self);
        }
        match self {
            Document::Number(number) => Some(*number),
            _ => None,
        }
    }

    /// The items, if the document is a list.
    pub fn as_list(&self) -> (items: Option<&Vec<Document>>)
        ensures
            items.is_some() <==> self@ is List,
            items matches Some(held) ==> self@ == DocumentView::List(items_view(held@)),
    {
        proof {
            lemma_document_view(*self);
        }
        match self {
            Document::List(items) => Some(items),
            _ => None,
        }
    }

    /// The fields, if the document is a record.
    pub fn as_record(&self) -> (fields: Option<&Vec<(String, Document)>>)
        ensures
            fields.is_some() <==> self@ is Record,
            fields matches Some(held) ==> self@ == DocumentView::Record(fields_view(held@)),
    {
        proof {
            lemma_document_view(*self);
        }
        match self {
            Document::Record(fields) => Some(fields),
            _ => None,
        }
    }
}

/// Whether a document is that of a row of the report, with counts that a
/// row can hold.
pub open spec fn is_function_document(document: DocumentView) -> bool {
    &&& document matches DocumentView::Record(fields)
    &&& fields.len() == 3
    &&& fields[0].0 == "name"@
    &&& fields[0].1 is Text
    &&& fields[1].0 == "acir_opcodes"@
    &&& fields[1].1 matches DocumentView::Number(acir_opcodes)
    &&& acir_opcodes <= usize::MAX
    &&& fields[2].0 == "circuit_size"@
    &&& fields[2].1 matches DocumentView::Number(circuit_size)
    &&& circuit_size <= u32::MAX
}

/// Whether a document is that of a list of rows.
pub open spec fn is_functions_document(document: DocumentView) -> bool {
    &&& document matches DocumentView::List(items)
    &&& forall|i: int| 0 <= i < items.len() ==> is_function_document(#[trigger] items[i])
}

/// Whether a document is that of a program or a contract, with its name
/// under the field name `key`.
pub open spec fn is_group_document(key: Seq<char>, document: DocumentView) -> bool {
    &&& document matches DocumentView::Record(fields)
    &&& fields.len() == 2
    &&& fields[0].0 == key
    &&& fields[0].1 is Text
    &&& fields[1].0 == "functions"@
    &&& is_functions_document(fields[1].1)
}

/// Whether a document is that of a list of programs or contracts.
pub open spec fn is_groups_document(key: Seq<char>, document: DocumentView) -> bool {
    &&& document matches DocumentView::List(items)
    &&& forall|i: int| 0 <= i < items.len() ==> is_group_document(key, #[trigger] items[i])
}

/// Whether a document is that of a report.
pub open spec fn is_report_document(document: DocumentView) -> bool {
    &&& document matches DocumentView::Record(fields)
    &&& fields.len() == 2
    &&& fields[0].0 == "programs"@
    &&& is_groups_document("package_name"@, fields[0].1)
    &&& fields[1].0 == "contracts"@
    &&& is_groups_document("name"@, fields[1].1)
}

/// Whether every program or contract of a list has the given expression
/// width.
pub open spec fn uniform_width(groups: Seq<GroupInfoView>, width: ExpressionWidth) -> bool {
    forall|i: int| 0 <= i < groups.len() ==> (#[trigger] groups[i]).expression_width == width
}

/// The programs or contracts of a list with their expression width set to
/// the given one.
pub open spec fn with_width(groups: Seq<GroupInfoView>, width: ExpressionWidth) -> Seq<
    GroupInfoView,
> {
    groups.map_values(
        |group: GroupInfoView|
            GroupInfoView { name: group.name, expression_width: width, functions: group.functions },
    )
}

/// Rows with the same document are the same.
pub proof fn lemma_function_document_tells_row(first: FunctionInfoView, second: FunctionInfoView)
    requires
        function_document(first) == function_document(second),
    ensures
        first == second,
{
    let left = function_document(first)->Record_0;
    let right = function_document(second)->Record_0;
    assert(left[0] == right[0]);
    assert(left[1] == right[1]);
    assert(left[2] == right[2]);
}

/// Lists of rows with the same document are the same.
pub proof fn lemma_functions_document_tells_rows(
    first: Seq<FunctionInfoView>,
    second: Seq<FunctionInfoView>,
)
    requires
        functions_document(first) == functions_document(second),
    ensures
        first == second,
{
    let left = functions_document(first)->List_0;
    let right = functions_document(second)->List_0;
    assert(left.len() == right.len());
    assert forall|i: int| 0 <= i < first.len() implies first[i] == second[i] by {
        assert(left[i] == right[i]);
        lemma_function_document_tells_row(first[i], second[i]);
    }
    assert(first =~= second);
}

/// Lists of programs or contracts with the same document differ in their
/// expression widths at most.
pub proof fn lemma_groups_document_tells_groups(
    key: Seq<char>,
    first: Seq<GroupInfoView>,
    second: Seq<GroupInfoView>,
    width: ExpressionWidth,
)
    requires
        groups_document(key, first) == groups_document(key, second),
    ensures
        with_width(first, width) == with_width(second, width),
{
    let left = groups_document(key, first)->List_0;
    let right = groups_document(key, second)->List_0;
    assert(left.len() == right.len());
    assert forall|i: int| 0 <= i < first.len() implies with_width(first, width)[i] == with_width(
        second,
        width,
    )[i] by {
        assert(left[i] == right[i]);
        let one = group_document(key, first[i])->Record_0;
        let other = group_document(key, second[i])->Record_0;
        assert(one[0] == other[0]);
        assert(one[1] == other[1]);
        lemma_functions_document_tells_rows(first[i].functions, second[i].functions);
    }
    assert(with_width(first, width) =~= with_width(second, width));
}

/// A list of programs or contracts that all have the given expression
/// width is what [`with_width`] makes of it.
pub proof fn lemma_uniform_width(groups: Seq<GroupInfoView>, width: ExpressionWidth)
    requires
        uniform_width(groups, width),
    ensures
        with_width(groups, width) == groups,
{
    assert(with_width(groups, width) =~= groups);
}

/// The document of a report is recognised as one.
pub proof fn lemma_report_document_is_recognised(report: InfoReport)
    ensures
        is_report_document(report_document(report@)),
{
    let fields = report_document(report@)->Record_0;
    let programs = fields[0].1->List_0;
    assert forall|i: int| 0 <= i < programs.len() implies is_group_document(
        "package_name"@,
        #[trigger] programs[i],
    ) by {
        let group = report.programs@[i];
        assert(programs[i] == group_document("package_name"@, group@));
        let rows = programs[i]->Record_0[1].1->List_0;
        assert forall|j: int| 0 <= j < rows.len() implies is_function_document(
            #[trigger] rows[j],
        ) by {
            assert(rows[j] == function_document(group.functions@[j]@));
        }
    }
    let contracts = fields[1].1->List_0;
    assert forall|i: int| 0 <= i < contracts.len() implies is_group_document(
        "name"@,
        #[trigger] contracts[i],
    ) by {
        let group = report.contracts@[i];
        assert(contracts[i] == group_document("name"@, group@));
        let rows = contracts[i]->Record_0[1].1->List_0;
        assert forall|j: int| 0 <= j < rows.len() implies is_function_document(
            #[trigger] rows[j],
        ) by {
            assert(rows[j] == function_document(group.functions@[j]@));
        }
    }
}

/// Two reports with the same document differ in their expression widths at
/// most: a document holds everything else.
pub proof fn lemma_document_tells_report(
    first: InfoReportView,
    second: InfoReportView,
    width: ExpressionWidth,
)
    requires
        report_document(first) == report_document(second),
    ensures
        with_width(first.programs, width) == with_width(second.programs, width),
        with_width(first.contracts, width) == with_width(second.contracts, width),
{
    let left = report_document(first)->Record_0;
    let right = report_document(second)->Record_0;
    assert(left[0] == right[0]);
    assert(left[1] == right[1]);
    lemma_groups_document_tells_groups("package_name"@, first.programs, second.programs, width);
    lemma_groups_document_tells_groups("name"@, first.contracts, second.contracts, width);
}

/// Writing a report as a document and reading the document back gives the
/// report again, field for field, but for the expression widths, which a
/// document does not hold: they are the one that is handed in at reading.
///
/// `back` stands for what [`InfoReport::from_document`] returns for the
/// document of `report`: the two conditions are what it ensures.
pub proof fn lemma_document_round_trip(
    report: InfoReport,
    width: ExpressionWidth,
    back: Option<InfoReport>,
)
    requires
        back.is_some() <==> is_report_document(report_document(report@)),
        back matches Some(held) ==> report_document(held@) == report_document(report@)
            && uniform_width(held@.programs, width) && uniform_width(held@.contracts, width),
    ensures
        back matches Some(held) && held@.programs == with_width(report@.programs, width)
            && held@.contracts == with_width(report@.contracts, width),
{
    lemma_report_document_is_recognised(report);
    let held = back->Some_0;
    lemma_document_tells_report(held@, report@, width);
    lemma_uniform_width(held@.programs, width);
    lemma_uniform_width(held@.contracts, width);
}

/// Whether a text is the expected one.
fn text_is(text: &String, expected: &str) -> (same: bool)
    ensures
        same == (text@ == expected@),
{
    let wanted = expected.to_owned();
    *text == wanted
}

impl FunctionInfo {
    /// The row that a document holds, if the document is that of a row.
    pub fn from_document(document: &Document) -> (function: Option<FunctionInfo>)
        ensures
            function.is_some() <==> is_function_document(document@),
            function matches Some(row) ==> function_document(row@) == document@,
    {
        let fields = match document.as_record() {
            Some(fields) => fields,
            None => {
                return None;
            },
        };
        if fields.len() != 3 {
            return None;
        }
        if !text_is(&fields[0].0, "name") || !text_is(&fields[1].0, "acir_opcodes") || !text_is(
            &fields[2].0,
            "circuit_size",
        ) {
            return None;
        }
        let name = match fields[0].1.as_text() {
            Some(name) => name,
            None => {
                return None;
            },
        };
        let acir_opcodes = match fields[1].1.as_number() {
            Some(number) => number,
            None => {
                return None;
            },
        };
        let circuit_size = match fields[2].1.as_number() {
            Some(number) => number,
            None => {
                return None;
            },
        };
        if acir_opcodes > usize::MAX as u64 || circuit_size > u32::MAX as u64 {
            return None;
        }
        let row = FunctionInfo {
            name: name.clone(),
            acir_opcodes: acir_opcodes as usize,
            circuit_size: circuit_size as u32,
        };
        proof {
            assert(fields_view(fields@) =~= function_document(row@)->Record_0);
        }
        Some(row)
    }
}

/// The rows that a document holds, if the document is that of a list of
/// rows.
fn functions_from_document(document: &Document) -> (functions: Option<Vec<FunctionInfo>>)
    ensures
        functions.is_some() <==> is_functions_document(document@),
        functions matches Some(rows) ==> functions_document(functions_view(rows@)) == document@,
{
    let items = match document.as_list() {
        Some(items) => items,
        None => {
            return None;
        },
    };
    let mut rows: Vec<FunctionInfo> = Vec::new();
    let mut i: usize = 0;
    while i < items.len()
        invariant
            i <= items@.len(),
            rows@.len() == i,
            document@ == DocumentView::List(items_view(items@)),
            forall|k: int| 0 <= k < i ==> function_document((#[trigger] rows@[k])@) == items@[k]@,
            forall|k: int| 0 <= k < i ==> is_function_document(#[trigger] items_view(items@)[k]),
        decreases items.len() - i,
    {
        match FunctionInfo::from_document(&items[i]) {
            Some(row) => {
                rows.push(row);
            },
            None => {
                proof {
                    assert(!is_function_document(document@->List_0[i as int]));
                }
                return None;
            },
        }
        i = i + 1;
    }
    proof {
        assert(functions_document(functions_view(rows@))->List_0 =~= items_view(items@));
    }
    Some(rows)
}

/// The name and the rows that a document holds, if the document is that of
/// a program or a contract.
fn group_from_document(key: &str, document: &Document) -> (group: Option<
    (String, Vec<FunctionInfo>),
>)
    ensures
        group.is_some() <==> is_group_document(key@, document@),
        group matches Some(parts) ==> forall|width: ExpressionWidth|
            document@ == #[trigger] group_document(
                key@,
                GroupInfoView {
                    name: parts.0@,
                    expression_width: width,
                    functions: functions_view(parts.1@),
                },
            ),
{
    let fields = match document.as_record() {
        Some(fields) => fields,
        None => {
            return None;
        },
    };
    if fields.len() != 2 {
        return None;
    }
    if !text_is(&fields[0].0, key) || !text_is(&fields[1].0, "functions") {
        return None;
    }
    let name = match fields[0].1.as_text() {
        Some(name) => name,
        None => {
            return None;
        },
    };
    let functions = match functions_from_document(&fields[1].1) {
        Some(functions) => functions,
        None => {
            return None;
        },
    };
    proof {
        assert forall|width: ExpressionWidth|
            document@ == #[trigger] group_document(
                key@,
                GroupInfoView {
                    name: name@,
                    expression_width: width,
                    functions: functions_view(functions@),
                },
            ) by {
            let group = GroupInfoView {
                name: name@,
                expression_width: width,
                functions: functions_view(functions@),
            };
            assert(fields_view(fields@) =~= group_document(key@, group)->Record_0);
        }
    }
    Some((name.clone(), functions))
}

impl ProgramInfo {
    /// The program's part of a report that a document holds, if the
    /// document is that of a program. A document holds no expression width:
    /// the program gets the one that is handed in.
    pub fn from_document(document: &Document, expression_width: ExpressionWidth) -> (program:
        Option<ProgramInfo>)
        ensures
            program.is_some() <==> is_group_document("package_name"@, document@),
            program matches Some(info) ==> group_document("package_name"@, info@) == document@
                && info@.expression_width == expression_width,
    {
        match group_from_document("package_name", document) {
            Some((package_name, functions)) => Some(
                ProgramInfo { package_name, expression_width, functions },
            ),
            None => None,
        }
    }
}

impl ContractInfo {
    /// The contract's part of a report that a document holds, if the
    /// document is that of a contract. A document holds no expression
    /// width: the contract gets the one that is handed in.
    pub fn from_document(document: &Document, expression_width: ExpressionWidth) -> (contract:
        Option<ContractInfo>)
        ensures
            contract.is_some() <==> is_group_document("name"@, document@),
            contract matches Some(info) ==> group_document("name"@, info@) == document@
                && info@.expression_width == expression_width,
    {
        match group_from_document("name", document) {
            Some((name, functions)) => Some(ContractInfo { name, expression_width, functions }),
            None => None,
        }
    }
}

/// The programs that a document holds, if it is that of a list of programs.
fn programs_from_document(document: &Document, expression_width: ExpressionWidth) -> (programs:
    Option<Vec<ProgramInfo>>)
    ensures
        programs.is_some() <==> is_groups_document("package_name"@, document@),
        programs matches Some(list) ==> groups_document(
            "package_name"@,
            list@.map_values(|program: ProgramInfo| program@),
        ) == document@ && uniform_width(
            list@.map_values(|program: ProgramInfo| program@),
            expression_width,
        ),
{
    let items = match document.as_list() {
        Some(items) => items,
        None => {
            return None;
        },
    };
    let mut list: Vec<ProgramInfo> = Vec::new();
    let mut i: usize = 0;
    while i < items.len()
        invariant
            i <= items@.len(),
            list@.len() == i,
            document@ == DocumentView::List(items_view(items@)),
            forall|k: int|
                0 <= k < i ==> group_document("package_name"@, (#[trigger] list@[k])@)
                    == items@[k]@ && list@[k]@.expression_width == expression_width,
            forall|k: int|
                0 <= k < i ==> is_group_document(
                    "package_name"@,
                    #[trigger] items_view(items@)[k],
                ),
        decreases items.len() - i,
    {
        match ProgramInfo::from_document(&items[i], expression_width) {
            Some(program) => {
                list.push(program);
            },
            None => {
                proof {
                    assert(!is_group_document("package_name"@, document@->List_0[i as int]));
                }
                return None;
            },
        }
        i = i + 1;
    }
    proof {
        let views = list@.map_values(|program: ProgramInfo| program@);
        assert(groups_document("package_name"@, views)->List_0 =~= items_view(items@));
    }
    Some(list)
}

/// The contracts that a document holds, if it is that of a list of
/// contracts.
fn contracts_from_document(document: &Document, expression_width: ExpressionWidth) -> (contracts:
    Option<Vec<ContractInfo>>)
    ensures
        contracts.is_some() <==> is_groups_document("name"@, document@),
        contracts matches Some(list) ==> groups_document(
            "name"@,
            list@.map_values(|contract: ContractInfo| contract@),
        ) == document@ && uniform_width(
            list@.map_values(|contract: ContractInfo| contract@),
            expression_width,
        ),
{
    let items = match document.as_list() {
        Some(items) => items,
        None => {
            return None;
        },
    };
    let mut list: Vec<ContractInfo> = Vec::new();
    let mut i: usize = 0;
    while i < items.len()
        invariant
            i <= items@.len(),
            list@.len() == i,
            document@ == DocumentView::List(items_view(items@)),
            forall|k: int|
                0 <= k < i ==> group_document("name"@, (#[trigger] list@[k])@) == items@[k]@
                    && list@[k]@.expression_width == expression_width,
            forall|k: int|
                0 <= k < i ==> is_group_document("name"@, #[trigger] items_view(items@)[k]),
        decreases items.len() - i,
    {
        match ContractInfo::from_document(&items[i], expression_width) {
            Some(contract) => {
                list.push(contract);
            },
            None => {
                proof {
                    assert(!is_group_document("name"@, document@->List_0[i as int]));
                }
                return None;
            },
        }
        i = i + 1;
    }
    proof {
        let views = list@.map_values(|contract: ContractInfo| contract@);
        assert(groups_document("name"@, views)->List_0 =~= items_view(items@));
    }
    Some(list)
}

impl InfoReport {
    /// The report that a document holds, if the document is that of a
    /// report: the way back from [`InfoReport::to_document`].
    ///
    /// A document holds no expression widths: every program and contract of
    /// the report gets the one that is handed in. Everything else is as the
    /// document has it.
    pub fn from_document(document: &Document, expression_width: ExpressionWidth) -> (report:
        Option<InfoReport>)
        ensures
            report.is_some() <==> is_report_document(document@),
            report matches Some(held) ==> report_document(held@) == document@ && uniform_width(
                held@.programs,
                expression_width,
            ) && uniform_width(held@.contracts, expression_width),
    {
        let fields = match document.as_record() {
            Some(fields) => fields,
            None => {
                return None;
            },
        };
        if fields.len() != 2 {
            return None;
        }
        if !text_is(&fields[0].0, "programs") || !text_is(&fields[1].0, "contracts") {
            return None;
        }
        let programs = match programs_from_document(&fields[0].1, expression_width) {
            Some(programs) => programs,
            None => {
                return None;
            },
        };
        let contracts = match contracts_from_document(&fields[1].1, expression_width) {
            Some(contracts) => contracts,
            None => {
                return None;
            },
        };
        let held = InfoReport { programs, contracts };
        proof {
            assert(fields_view(fields@) =~= report_document(held@)->Record_0);
        }
        Some(held)
    }
}

} // verus!
