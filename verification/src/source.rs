//! Source locations and the source files they point into.

use crate::offsets::{
    byte_index, clamped_char_index, lemma_char_offset_increases, lemma_char_offset_is_boundary,
    lemma_encode_split,
};
use std::collections::BTreeMap;
use vstd::prelude::*;
use vstd::string::StringSliceAdditionalSpecFns;
use vstd::utf8::*;

verus! {

/// A half-open range of character indices into a text: the characters from
/// `start` up to, but not including, `end`. Its start never lies behind its
/// end.
#[derive(Clone, Copy, Debug, PartialEq, Eq)]
pub struct CharRange {
    start: u32,
    end: u32,
}

impl CharRange {
    #[verifier::type_invariant]
    spec fn ordered(self) -> bool {
        self.start <= self.end
    }

    /// The index of the first character of the range.
    pub closed spec fn spec_start(&self) -> u32 {
        self.start
    }

    /// The index of the character behind the last one of the range.
    pub closed spec fn spec_end(&self) -> u32 {
        self.end
    }

    /// Whether the range is one that [`CharRange::new`] hands out.
    pub open spec fn wf(&self) -> bool {
        self.spec_start() <= self.spec_end()
    }

    /// The range from `start` to `end`, or nothing if `start` lies behind
    /// `end`.
    pub fn new(start: u32, end: u32) -> (range: Option<CharRange>)
        ensures
            range.is_some() <==> start <= end,
            range matches Some(r) ==> r.spec_start() == start && r.spec_end() == end && r.wf(),
    {
        if start <= end {
            Some(CharRange { start, end })
        } else {
            None
        }
    }

    /// The index of the first character of the range.
    #[verifier::when_used_as_spec(spec_start)]
    pub fn start(&self) -> (start: u32)
        ensures
            start == self.spec_start(),
            self.wf(),
    {
        proof {
            use_type_invariant(self);
        }
        self.start
    }

    /// The index of the character behind the last one of the range.
    #[verifier::when_used_as_spec(spec_end)]
    pub fn end(&self) -> (end: u32)
        ensures
            end == self.spec_end(),
            self.wf(),
    {
        proof {
            use_type_invariant(self);
        }
        self.end
    }
}

/// A place in the source: a range of characters in one file.
#[derive(Clone, Copy, Debug, PartialEq, Eq)]
pub struct SourceLocation {
    /// The identifier of the file.
    pub file: usize,
    /// The characters of the file that the location covers.
    pub span: CharRange,
}

impl SourceLocation {
    /// Whether two locations are the same: the same range of the same file.
    pub fn same(&self, other: &SourceLocation) -> (r: bool)
        ensures
            r == (*self == *other),
    {
        self.file == other.file && self.span.start == other.span.start && self.span.end
            == other.span.end
    }
}

/// How many opcodes a source location accounts for.
#[derive(Clone, Copy, Debug, PartialEq, Eq, Structural)]
pub struct OpcodeCount {
    /// The opcodes of the constrained circuit.
    pub acir_size: usize,
    /// The opcodes of unconstrained functions.
    pub unconstrained_size: usize,
}

/// The text of a source file and the path it was read from.
#[derive(Clone, Debug, PartialEq, Eq)]
pub struct DebugFile {
    /// The text of the file.
    pub source: String,
    /// The path of the file, as it is shown to the user.
    pub path: String,
}

/// The source files that the debug symbols of one artifact point into, by
/// file identifier.
#[derive(Clone, Debug, PartialEq, Eq)]
pub struct DebugArtifact {
    /// The files, each under its identifier.
    pub file_map: BTreeMap<usize, DebugFile>,
}

/// The test that picks the line feeds out of the bytes of a text.
pub open spec fn line_feed() -> spec_fn(u8) -> bool {
    |byte: u8| byte == 10u8
}

/// The zero-based index of the line that holds byte `position` of `text`:
/// the number of line feeds in front of that byte. A position beyond the
/// text is on the last line.
pub open spec fn line_index_spec(text: Seq<char>, position: int) -> nat {
    let bytes = encode_utf8(text);
    let upto = if position < bytes.len() {
        position
    } else {
        bytes.len() as int
    };
    bytes.take(upto).filter(line_feed()).len()
}

/// The zero-based index of the line that holds byte `position` of `text`.
pub fn line_index(text: &str, position: usize) -> (line: usize)
    ensures
        line == line_index_spec(text@, position as int),
        line <= position,
{
    let bytes = text.as_bytes();
    let upto = if position < bytes.len() {
        position
    } else {
        bytes.len()
    };
    let mut line: usize = 0;
    let mut i: usize = 0;
    proof {
        reveal(Seq::filter);
        assert(bytes@.take(0).len() == 0);
    }
    while i < upto
        invariant
            0 <= i <= upto <= bytes@.len(),
            line == bytes@.take(i as int).filter(line_feed()).len(),
            line <= i,
        decreases upto - i,
    {
        proof {
            reveal(Seq::filter);
            let longer = bytes@.take(i + 1);
            assert(longer.drop_last() == bytes@.take(i as int));
            assert(longer.last() == bytes@[i as int]);
        }
        if bytes[i] == 10u8 {
            line = line + 1;
        }
        i = i + 1;
    }
    line
}

impl DebugArtifact {
    /// The file with the given identifier, if the artifact holds one.
    pub fn file(&self, id: usize) -> (file: Option<&DebugFile>)
        ensures
            file.is_some() <==> self.file_map@.contains_key(id),
            file matches Some(found) ==> *found == self.file_map@[id],
    {
        broadcast use vstd::laws_cmp::group_laws_cmp;
        broadcast use vstd::std_specs::btree::group_btree_axioms;

        self.file_map.get(&id)
    }

    /// The zero-based index of the line on which a location starts, or
    /// nothing if the artifact does not hold the location's file.
    ///
    /// The line is found from the start of the location's range, read as a
    /// position in the encoded text of the file.
    pub fn location_line_index(&self, location: SourceLocation) -> (line: Option<usize>)
        ensures
            line.is_some() <==> self.file_map@.contains_key(location.file),
            line matches Some(index) ==> index == line_index_spec(
                self.file_map@[location.file].source@,
                location.span.spec_start() as int,
            ) && index <= location.span.spec_start(),
    {
        match self.file(location.file) {
            Some(file) => Some(line_index(file.source.as_str(), location.span.start() as usize)),
            None => None,
        }
    }
}

/// The part of `text` that a range of characters covers, with both ends
/// clamped to the text as [`byte_index`] clamps them.
pub open spec fn excerpt_spec(text: Seq<char>, span: CharRange) -> Seq<char> {
    text.subrange(
        clamped_char_index(text, span.spec_start() as int),
        clamped_char_index(text, span.spec_end() as int),
    )
}

/// Cuts the characters of a range out of a text.
///
/// Both ends of the range are turned into byte offsets by [`byte_index`],
/// so the cut never splits a character, and a range that reaches beyond the
/// text ends before the last character.
pub fn excerpt<'a>(text: &'a str, span: CharRange) -> (cut: &'a str)
    ensures
        cut@ == excerpt_spec(text@, span),
{
    let start = span.start();
    let end = span.end();
    let start_byte = byte_index(text, start);
    let end_byte = byte_index(text, end);
    let ghost from = clamped_char_index(text@, start as int);
    let ghost to = clamped_char_index(text@, end as int);
    let (head, _) = text.split_at(end_byte);
    proof {
        lemma_encode_split(text@, to);
        lemma_char_offset_increases(text@, from, to);
        encode_utf8_decode_utf8(head@);
        encode_utf8_decode_utf8(text@.take(to));
        assert(head@ == text@.take(to));
        assert(head@.take(from) == text@.take(from));
        lemma_char_offset_is_boundary(head@, from);
    }
    let (_, cut) = head.split_at(start_byte);
    proof {
        lemma_encode_split(head@, from);
        encode_utf8_decode_utf8(cut@);
        encode_utf8_decode_utf8(head@.skip(from));
        assert(cut@ == head@.skip(from));
        assert(head@.skip(from) == text@.subrange(from, to));
    }
    cut
}

} // verus!
