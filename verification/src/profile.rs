//! Opcode counts by source location, in the order and the form in which
//! they are shown.

use crate::decimal::{decimal, decimal_string};
use crate::source::{
    excerpt, excerpt_spec, line_index_spec, DebugArtifact, DebugFile, OpcodeCount, SourceLocation,
};
use vstd::seq_lib::group_to_multiset_ensures;
use vstd::prelude::*;
use vstd::string::StringExecFns;

verus! {

/// One entry of the debug symbols of a function: a source location and the
/// opcodes that it accounts for.
#[derive(Clone, Copy, Debug, PartialEq, Eq)]
pub struct SpanOpcodes {
    /// The place in the source.
    pub location: SourceLocation,
    /// The opcodes that come from that place.
    pub count: OpcodeCount,
}

/// The debug symbols of one function: for each source location that
/// opcodes come from, how many come from it. No location occurs twice.
#[derive(Debug, PartialEq, Eq)]
pub struct DebugInfo {
    entries: Vec<SpanOpcodes>,
}

/// Whether no location occurs twice among the entries.
pub open spec fn distinct_locations(entries: Seq<SpanOpcodes>) -> bool {
    forall|i: int, j: int|
        0 <= i < j < entries.len() ==> (#[trigger] entries[i]).location
            != (#[trigger] entries[j]).location
}

impl View for DebugInfo {
    type V = Seq<SpanOpcodes>;

    closed spec fn view(&self) -> Seq<SpanOpcodes> {
        self.entries@
    }
}

impl DebugInfo {
    #[verifier::type_invariant]
    spec fn keyed(self) -> bool {
        distinct_locations(self.entries@)
    }

    /// Whether the entries are such as [`DebugInfo::new`] accepts.
    pub open spec fn wf(&self) -> bool {
        distinct_locations(self@)
    }

    /// The debug symbols with the given entries, or nothing if a location
    /// occurs twice among them.
    pub fn new(entries: Vec<SpanOpcodes>) -> (info: Option<DebugInfo>)
        ensures
            info.is_some() <==> distinct_locations(entries@),
            info matches Some(made) ==> made@ == entries@ && made.wf(),
    {
        let mut j: usize = 0;
        while j < entries.len()
            invariant
                j <= entries@.len(),
                distinct_locations(entries@.take(j as int)),
            decreases entries.len() - j,
        {
            let mut i: usize = 0;
            while i < j
                invariant
                    i <= j < entries@.len(),
                    forall|k: int|
                        0 <= k < i ==> (#[trigger] entries@[k]).location != entries@[j as int].location,
                decreases j - i,
            {
                if entries[i].location.same(&entries[j].location) {
                    return None;
                }
                i = i + 1;
            }
            proof {
                assert forall|a: int, b: int| 0 <= a < b < j + 1 implies (#[trigger] entries@.take(
                    j + 1,
                )[a]).location != (#[trigger] entries@.take(j + 1)[b]).location by {
                    if b < j {
                        assert(entries@.take(j as int)[a].location != entries@.take(
                            j as int,
                        )[b].location);
                    }
                }
            }
            j = j + 1;
        }
        proof {
            assert(entries@.take(j as int) == entries@);
        }
        Some(DebugInfo { entries })
    }

    /// The entries, in the order in which they were handed in.
    pub fn entries(&self) -> (entries: &Vec<SpanOpcodes>)
        ensures
            entries@ == self@,
            self.wf(),
    {
        proof {
            use_type_invariant(self);
        }
        &self.entries
    }
}

/// The debug symbols name a file that the artifact does not hold: artifact
/// and symbols do not belong together.
#[derive(Clone, Copy, Debug, PartialEq, Eq)]
pub struct InvariantViolation {
    /// The location whose file is missing.
    pub location: SourceLocation,
}

/// One line of the listing: what is shown for one entry of the debug
/// symbols.
#[derive(Clone, Debug, PartialEq, Eq)]
pub struct ProfileLine {
    /// The number of the line on which the location starts, counted from 1.
    pub line: u64,
    /// The source text at the location.
    pub excerpt: String,
    /// The opcodes of the constrained circuit that the location accounts for.
    pub acir_size: usize,
    /// The opcodes of unconstrained functions that it accounts for.
    pub unconstrained_size: usize,
    /// The path of the file that holds the location.
    pub path: String,
}

/// Whether `first` comes strictly before `second` in the order of the
/// listing: by circuit opcodes, and by unconstrained opcodes among equals.
pub open spec fn count_before(first: OpcodeCount, second: OpcodeCount) -> bool {
    first.acir_size < second.acir_size || (first.acir_size == second.acir_size
        && first.unconstrained_size < second.unconstrained_size)
}

/// Whether `first` may stand before `second` in the listing.
pub open spec fn count_not_after(first: OpcodeCount, second: OpcodeCount) -> bool {
    !count_before(second, first)
}

/// Whether the entries stand in ascending order of their counts.
pub open spec fn ascending(entries: Seq<SpanOpcodes>) -> bool {
    forall|i: int, j: int|
        0 <= i < j < entries.len() ==> count_not_after(
            #[trigger] entries[i].count,
            #[trigger] entries[j].count,
        )
}

/// The test that picks the entries with one given count.
pub open spec fn has_count(count: OpcodeCount) -> spec_fn(SpanOpcodes) -> bool {
    |entry: SpanOpcodes| entry.count == count
}

/// Whether `output` holds the entries of `input` in ascending order of
/// their counts, with entries of equal counts in the order in which `input`
/// has them.
pub open spec fn is_stable_sort(input: Seq<SpanOpcodes>, output: Seq<SpanOpcodes>) -> bool {
    &&& ascending(output)
    &&& forall|count: OpcodeCount| #[trigger]
        output.filter(has_count(count)) == input.filter(has_count(count))
}

/// The entries of `input` in the order of the listing.
pub open spec fn stable_sorted(input: Seq<SpanOpcodes>) -> Seq<SpanOpcodes> {
    choose|output: Seq<SpanOpcodes>| is_stable_sort(input, output)
}

/// Nothing is picked from entries of which none passes the test.
proof fn lemma_filter_none(entries: Seq<SpanOpcodes>, test: spec_fn(SpanOpcodes) -> bool)
    requires
        forall|i: int| 0 <= i < entries.len() ==> !test(#[trigger] entries[i]),
    ensures
        entries.filter(test) == Seq::<SpanOpcodes>::empty(),
    decreases entries.len(),
{
    reveal(Seq::filter);
    if entries.len() > 0 {
        lemma_filter_none(entries.drop_last(), test);
    }
}

/// What is picked from entries after one more is put in at `position`.
proof fn lemma_filter_insert(
    entries: Seq<SpanOpcodes>,
    position: int,
    entry: SpanOpcodes,
    test: spec_fn(SpanOpcodes) -> bool,
)
    requires
        0 <= position <= entries.len(),
    ensures
        entries.filter(test) == entries.take(position).filter(test) + entries.skip(
            position,
        ).filter(test),
        entries.insert(position, entry).filter(test) == entries.take(position).filter(test) + (
        if test(entry) {
            seq![entry]
        } else {
            Seq::<SpanOpcodes>::empty()
        }) + entries.skip(position).filter(test),
{
    let front = entries.take(position);
    let back = entries.skip(position);
    let one = seq![entry];
    assert(entries == front + back);
    assert(entries.insert(position, entry) == front + one + back);
    Seq::filter_distributes_over_add(front, back, test);
    Seq::filter_distributes_over_add(front, one, test);
    Seq::filter_distributes_over_add(front + one, back, test);
    assert(one.filter(test) == if test(entry) {
        one
    } else {
        Seq::<SpanOpcodes>::empty()
    }) by {
        reveal(Seq::filter);
        assert(one.drop_last() == Seq::<SpanOpcodes>::empty());
        assert(one.drop_last().filter(test) == Seq::<SpanOpcodes>::empty());
        assert(one.last() == entry);
    }
}

/// What is picked from entries is among them and passes the test.
proof fn lemma_filter_member(
    entries: Seq<SpanOpcodes>,
    test: spec_fn(SpanOpcodes) -> bool,
    index: int,
)
    requires
        0 <= index < entries.filter(test).len(),
    ensures
        test(entries.filter(test)[index]),
        entries.contains(entries.filter(test)[index]),
    decreases entries.len(),
{
    reveal(Seq::filter);
    if entries.len() > 0 {
        let rest = entries.drop_last();
        if index < rest.filter(test).len() {
            lemma_filter_member(rest, test, index);
            let found = rest.filter(test)[index];
            let at = choose|k: int| 0 <= k < rest.len() && rest[k] == found;
            assert(entries[at] == found);
        } else {
            assert(entries[entries.len() - 1] == entries.last());
        }
    }
}

/// The greatest count of entries in ascending order is that of the last
/// one: any count that occurs among them is not after it.
proof fn lemma_last_is_greatest(entries: Seq<SpanOpcodes>, picked: Seq<SpanOpcodes>)
    requires
        ascending(entries),
        entries.len() > 0,
        picked.len() > 0,
        picked.filter(has_count(picked.last().count)) == entries.filter(
            has_count(picked.last().count),
        ),
    ensures
        count_not_after(picked.last().count, entries.last().count),
{
    let count = picked.last().count;
    let test = has_count(count);
    assert(picked.filter(test).len() > 0) by {
        reveal(Seq::filter);
    }
    lemma_filter_member(entries, test, 0);
    let found = entries.filter(test)[0];
    let at = choose|k: int| 0 <= k < entries.len() && entries[k] == found;
    if at < entries.len() - 1 {
        assert(count_not_after(entries[at].count, entries[entries.len() - 1].count));
    }
}

/// Two listings in ascending order that agree, for every count, on the
/// entries with that count and on their order, are one and the same.
pub proof fn lemma_ascending_with_same_picks(first: Seq<SpanOpcodes>, second: Seq<SpanOpcodes>)
    requires
        ascending(first),
        ascending(second),
        forall|count: OpcodeCount| #[trigger]
            first.filter(has_count(count)) == second.filter(has_count(count)),
    ensures
        first == second,
    decreases first.len(),
{
    reveal(Seq::filter);
    if first.len() == 0 {
        if second.len() > 0 {
            let test = has_count(second.last().count);
            assert(first.filter(test) == second.filter(test));
        }
        assert(first =~= second);
    } else if second.len() == 0 {
        let test = has_count(first.last().count);
        assert(first.filter(test) == second.filter(test));
    } else {
        let test = has_count(first.last().count);
        let other = has_count(second.last().count);
        assert(first.filter(test) == second.filter(test));
        assert(first.filter(other) == second.filter(other));
        lemma_last_is_greatest(second, first);
        lemma_last_is_greatest(first, second);
        assert(first.last().count == second.last().count);
        assert(first.filter(test).last() == first.last());
        assert(second.filter(test).last() == second.last());
        let front = first.drop_last();
        let back = second.drop_last();
        assert forall|count: OpcodeCount| #[trigger]
            front.filter(has_count(count)) == back.filter(has_count(count)) by {
            let pick = has_count(count);
            assert(first.filter(pick) == second.filter(pick));
            if pick(first.last()) {
                assert(front.filter(pick) == first.filter(pick).drop_last());
                assert(back.filter(pick) == second.filter(pick).drop_last());
            }
        }
        assert(ascending(front)) by {
            assert forall|i: int, j: int| 0 <= i < j < front.len() implies count_not_after(
                #[trigger] front[i].count,
                #[trigger] front[j].count,
            ) by {
                assert(count_not_after(first[i].count, first[j].count));
            }
        }
        assert(ascending(back)) by {
            assert forall|i: int, j: int| 0 <= i < j < back.len() implies count_not_after(
                #[trigger] back[i].count,
                #[trigger] back[j].count,
            ) by {
                assert(count_not_after(second[i].count, second[j].count));
            }
        }
        lemma_ascending_with_same_picks(front, back);
        assert(first =~= front.push(first.last()));
        assert(second =~= back.push(second.last()));
    }
}

/// The order of the listing is settled by its description: whatever meets
/// [`is_stable_sort`] for an input is [`stable_sorted`] of that input.
pub proof fn lemma_stable_sort_is_unique(input: Seq<SpanOpcodes>, output: Seq<SpanOpcodes>)
    requires
        is_stable_sort(input, output),
    ensures
        output == stable_sorted(input),
{
    let chosen = stable_sorted(input);
    assert(is_stable_sort(input, chosen));
    assert forall|count: OpcodeCount| #[trigger]
        output.filter(has_count(count)) == chosen.filter(has_count(count)) by {
        assert(output.filter(has_count(count)) == input.filter(has_count(count)));
        assert(chosen.filter(has_count(count)) == input.filter(has_count(count)));
    }
    lemma_ascending_with_same_picks(output, chosen);
}

/// Whether `first` comes strictly before `second` in the order of the
/// listing.
pub fn comes_before(first: &OpcodeCount, second: &OpcodeCount) -> (r: bool)
    ensures
        r == count_before(*first, *second),
{
    first.acir_size < second.acir_size || (first.acir_size == second.acir_size
        && first.unconstrained_size < second.unconstrained_size)
}

/// Puts the entries in the order of the listing: ascending by circuit
/// opcodes, then by unconstrained opcodes, so that the span with the lowest
/// cost comes first. Entries with equal counts keep the order in which they
/// were handed in.
pub fn sort_by_count(entries: &Vec<SpanOpcodes>) -> (sorted: Vec<SpanOpcodes>)
    ensures
        is_stable_sort(entries@, sorted@),
        sorted@ == stable_sorted(entries@),
        sorted@.len() == entries@.len(),
        sorted@.to_multiset() == entries@.to_multiset(),
{
    let mut sorted: Vec<SpanOpcodes> = Vec::new();
    let mut i: usize = 0;
    proof {
        assert(entries@.take(0) == Seq::<SpanOpcodes>::empty());
        assert forall|count: OpcodeCount| #[trigger]
            sorted@.filter(has_count(count)) == entries@.take(0).filter(has_count(count)) by {
            assert(sorted@ == entries@.take(0));
        }
        assert(sorted@ == entries@.take(0));
    }
    while i < entries.len()
        invariant
            i <= entries.len(),
            sorted@.len() == i,
            ascending(sorted@),
            forall|count: OpcodeCount| #[trigger]
                sorted@.filter(has_count(count)) == entries@.take(i as int).filter(
                    has_count(count),
                ),
            sorted@.to_multiset() == entries@.take(i as int).to_multiset(),
        decreases entries.len() - i,
    {
        let entry = entries[i];
        let mut position: usize = sorted.len();
        while position > 0 && comes_before(&entry.count, &sorted[position - 1].count)
            invariant
                position <= sorted@.len(),
                forall|k: int|
                    position <= k < sorted@.len() ==> count_before(
                        entry.count,
                        #[trigger] sorted@[k].count,
                    ),
            decreases position,
        {
            position = position - 1;
        }
        let ghost before = sorted@;
        let ghost taken = entries@.take(i as int);
        sorted.insert(position, entry);
        proof {
            let after = sorted@;
            let longer = entries@.take(i + 1);
            assert(longer == taken.push(entry));
            assert(longer.drop_last() == taken);
            assert forall|a: int, b: int| 0 <= a < b < after.len() implies count_not_after(
                #[trigger] after[a].count,
                #[trigger] after[b].count,
            ) by {
                if a < position && b > position {
                    assert(count_not_after(before[a].count, before[b - 1].count));
                } else if a < position && b == position {
                    if a < position - 1 {
                        assert(count_not_after(before[a].count, before[position - 1].count));
                    }
                } else if a < position && b < position {
                    assert(count_not_after(before[a].count, before[b].count));
                } else if a == position {
                    assert(count_before(entry.count, before[b - 1].count));
                } else {
                    assert(count_not_after(before[a - 1].count, before[b - 1].count));
                }
            }
            assert forall|count: OpcodeCount| #[trigger]
                after.filter(has_count(count)) == longer.filter(has_count(count)) by {
                let test = has_count(count);
                lemma_filter_insert(before, position as int, entry, test);
                assert(before.filter(test) == taken.filter(test));
                assert(longer.filter(test) == if test(entry) {
                    taken.filter(test).push(entry)
                } else {
                    taken.filter(test)
                }) by {
                    reveal(Seq::filter);
                    assert(longer.last() == entry);
                }
                if test(entry) {
                    let back = before.skip(position as int);
                    assert forall|k: int| 0 <= k < back.len() implies !test(#[trigger] back[k]) by {
                        assert(count_before(entry.count, before[position + k].count));
                    }
                    lemma_filter_none(back, test);
                }
            }
            assert(after.to_multiset() == longer.to_multiset()) by {
                broadcast use vstd::seq_lib::group_to_multiset_ensures;

                assert(after.remove(position as int) == before);
                assert(after[position as int] == entry);
                assert(before.to_multiset() == after.to_multiset().remove(entry));
                assert(after.to_multiset().count(entry) > 0);
                assert(after.to_multiset() =~= before.to_multiset().insert(entry));
            }
        }
        i = i + 1;
    }
    proof {
        assert(entries@.take(i as int) == entries@);
        lemma_stable_sort_is_unique(entries@, sorted@);
    }
    sorted
}

/// Whether the artifact holds the file that an entry points into.
pub open spec fn resolves(entry: SpanOpcodes, artifact: DebugArtifact) -> bool {
    artifact.file_map@.contains_key(entry.location.file)
}

/// Whether `line` is what the listing shows for `entry`, whose location
/// lies in `file`.
pub open spec fn describes(line: ProfileLine, entry: SpanOpcodes, file: DebugFile) -> bool {
    &&& line.line == line_index_spec(file.source@, entry.location.span.spec_start() as int) + 1
    &&& line.excerpt@ == excerpt_spec(file.source@, entry.location.span)
    &&& line.acir_size == entry.count.acir_size
    &&& line.unconstrained_size == entry.count.unconstrained_size
    &&& line.path@ == file.path@
}

/// Whether `lines` is the listing of `entries`, line by line and in their
/// order.
pub open spec fn lists(
    lines: Seq<ProfileLine>,
    entries: Seq<SpanOpcodes>,
    artifact: DebugArtifact,
) -> bool {
    &&& lines.len() == entries.len()
    &&& forall|i: int|
        0 <= i < entries.len() ==> resolves(#[trigger] entries[i], artifact) && describes(
            lines[i],
            entries[i],
            artifact.file_map@[entries[i].location.file],
        )
}

/// Whether entry `index` is the first of `entries` whose file the artifact
/// does not hold.
pub open spec fn first_unresolved(
    entries: Seq<SpanOpcodes>,
    artifact: DebugArtifact,
    index: int,
) -> bool {
    &&& 0 <= index < entries.len()
    &&& !resolves(entries[index], artifact)
    &&& forall|j: int| 0 <= j < index ==> resolves(#[trigger] entries[j], artifact)
}

/// The text of a line of the listing.
pub open spec fn rendered(line: ProfileLine) -> Seq<char> {
    "Ln. "@ + decimal(line.line as nat) + ": "@ + line.excerpt@ + " (ACIR:"@ + decimal(
        line.acir_size as nat,
    ) + ", Brillig:"@ + decimal(line.unconstrained_size as nat) + " opcode|s) in file: "@
        + line.path@
}

impl ProfileLine {
    /// The line as text: the line number, the excerpt, the two opcode
    /// counts and the path of the file.
    pub fn render(&self) -> (text: String)
        ensures
            text@ == rendered(*self),
    {
        let mut text = "Ln. ".to_owned();
        text.append(decimal_string(self.line).as_str());
        text.append(": ");
        text.append(self.excerpt.as_str());
        text.append(" (ACIR:");
        text.append(decimal_string(self.acir_size as u64).as_str());
        text.append(", Brillig:");
        text.append(decimal_string(self.unconstrained_size as u64).as_str());
        text.append(" opcode|s) in file: ");
        text.append(self.path.as_str());
        text
    }
}

/// The line of the listing for one entry of the debug symbols.
///
/// The excerpt is cut out of the file's text by characters, and the line
/// number is that of the line on which the location starts, counted from 1.
/// An entry whose file the artifact does not hold gives no line.
pub fn profile_line(entry: &SpanOpcodes, debug_artifact: &DebugArtifact) -> (line: Result<
    ProfileLine,
    InvariantViolation,
>)
    ensures
        line.is_ok() <==> resolves(*entry, *debug_artifact),
        line matches Ok(shown) ==> describes(
            shown,
            *entry,
            debug_artifact.file_map@[entry.location.file],
        ),
        line matches Err(violation) ==> violation.location == entry.location,
{
    let location = entry.location;
    let debug_file = match debug_artifact.file(location.file) {
        Some(file) => file,
        None => {
            return Err(InvariantViolation { location });
        },
    };
    let span_content = excerpt(debug_file.source.as_str(), location.span);
    let index = match debug_artifact.location_line_index(location) {
        Some(index) => index,
        None => {
            return Err(InvariantViolation { location });
        },
    };
    Ok(
        ProfileLine {
            line: index as u64 + 1,
            excerpt: span_content.to_owned(),
            acir_size: entry.count.acir_size,
            unconstrained_size: entry.count.unconstrained_size,
            path: debug_file.path.clone(),
        },
    )
}

/// The listing for the debug symbols of one function: one line for each
/// entry, in the order of [`sort_by_count`].
///
/// If the artifact lacks the file of any entry, there is no listing, and
/// the error names the first location in that order whose file is missing.
pub fn span_opcodes_lines(debug_info: &DebugInfo, debug_artifact: &DebugArtifact) -> (lines:
    Result<Vec<ProfileLine>, InvariantViolation>)
    ensures
        lines.is_ok() <==> forall|i: int|
            0 <= i < debug_info@.len() ==> resolves(#[trigger] debug_info@[i], *debug_artifact),
        lines matches Ok(shown) ==> lists(shown@, stable_sorted(debug_info@), *debug_artifact),
        lines matches Err(violation) ==> exists|index: int|
            first_unresolved(stable_sorted(debug_info@), *debug_artifact, index)
                && violation.location == #[trigger] stable_sorted(debug_info@)[index].location,
{
    let span_opcodes = debug_info.entries();
    let pairs = sort_by_count(span_opcodes);
    let mut shown: Vec<ProfileLine> = Vec::new();
    let mut i: usize = 0;
    while i < pairs.len()
        invariant
            i <= pairs@.len(),
            span_opcodes@ == debug_info@,
            pairs@ == stable_sorted(span_opcodes@),
            pairs@.to_multiset() == span_opcodes@.to_multiset(),
            lists(shown@, pairs@.take(i as int), *debug_artifact),
        decreases pairs.len() - i,
    {
        match profile_line(&pairs[i], debug_artifact) {
            Ok(line) => {
                shown.push(line);
            },
            Err(violation) => {
                proof {
                    broadcast use group_to_multiset_ensures;

                    assert(first_unresolved(pairs@, *debug_artifact, i as int)) by {
                        assert forall|j: int| 0 <= j < i implies resolves(
                            #[trigger] pairs@[j],
                            *debug_artifact,
                        ) by {
                            assert(pairs@.take(i as int)[j] == pairs@[j]);
                        }
                    }
                    let missing = pairs@[i as int];
                    assert(pairs@.contains(missing));
                    assert(span_opcodes@.to_multiset().count(missing) > 0);
                    assert(span_opcodes@.contains(missing));
                }
                return Err(violation);
            },
        }
        proof {
            assert forall|j: int| 0 <= j < i + 1 implies resolves(
                #[trigger] pairs@.take(i + 1)[j],
                *debug_artifact,
            ) && describes(
                shown@[j],
                pairs@.take(i + 1)[j],
                debug_artifact.file_map@[pairs@.take(i + 1)[j].location.file],
            ) by {
                if j < i {
                    assert(pairs@.take(i as int)[j] == pairs@.take(i + 1)[j]);
                }
            }
        }
        i = i + 1;
    }
    proof {
        broadcast use group_to_multiset_ensures;

        assert(pairs@.take(i as int) == pairs@);
        assert forall|k: int| 0 <= k < span_opcodes@.len() implies resolves(
            #[trigger] span_opcodes@[k],
            *debug_artifact,
        ) by {
            let entry = span_opcodes@[k];
            assert(span_opcodes@.contains(entry));
            assert(pairs@.to_multiset().count(entry) > 0);
            assert(pairs@.contains(entry));
        }
    }
    Ok(shown)
}

} // verus!
