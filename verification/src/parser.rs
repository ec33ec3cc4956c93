//! The block assembler and the whole-file unit stream: splitting normalized
//! file text into blocks, and turning each block into a validated
//! [`SubtitleUnit`] or a typed error.

use crate::srt_index::{index_class, index_result_matches, index_value, SrtIndex, SrtIndexError};
use crate::subtitle_set_builder::{SubtitleSet, SubtitleUnit};
use crate::text::{
    chars_to_string, seq_views, split_pat, split_pattern, string_views, to_chars, trim_spec,
    trim_vec,
};
use crate::timing::{timing_class, timing_result_matches, timing_value, Timing, TimingError};
use vstd::prelude::*;
use vstd::string::StringExecFns;

verus! {

/// The outcome of parsing one block: a unit, or the error of the first
/// failing check.
pub type UnitResult = Result<SubtitleUnit, SubtitleParserError>;

/// Everything that can be wrong with one block: too few lines (with a
/// message echoing the block), or an index or timing error, wrapped.
#[derive(Debug, PartialEq, Eq)]
pub enum SubtitleParserError {
    MalformedUnit(String),
    Index(SrtIndexError),
    Timing(TimingError),
}

/// The line separator inside a block.
pub open spec fn line_sep() -> Seq<char> {
    seq!['\n']
}

/// The blank-line delimiter between blocks.
pub open spec fn block_sep() -> Seq<char> {
    seq!['\n', '\n']
}

/// Trims every line and drops the empty ones, keeping the original order.
/// This removes the spurious leading empty line that block splitting leaves
/// behind, as well as trailing blank artifacts.
pub open spec fn clean_lines(ls: Seq<Seq<char>>) -> Seq<Seq<char>>
    decreases ls.len(),
{
    if ls.len() == 0 {
        Seq::empty()
    } else {
        let front = clean_lines(ls.drop_last());
        let h = trim_spec(ls.last());
        if h.len() > 0 {
            front.push(h)
        } else {
            front
        }
    }
}

/// The non-empty trimmed lines of one raw block.
pub open spec fn block_lines(b: Seq<char>) -> Seq<Seq<char>> {
    clean_lines(split_pat(b, line_sep()))
}

/// The grammar of one block: at least three non-empty lines, the first a
/// valid index, the second a valid timing.
pub enum UnitClass {
    TooFewLines,
    BadIndex,
    BadTiming,
    Valid,
}

pub open spec fn unit_class(b: Seq<char>) -> UnitClass {
    let ls = block_lines(b);
    if ls.len() < 3 {
        UnitClass::TooFewLines
    } else if !(index_class(ls[0]) is Valid) {
        UnitClass::BadIndex
    } else if !(timing_class(ls[1]) is Valid) {
        UnitClass::BadTiming
    } else {
        UnitClass::Valid
    }
}

/// The message carried by a malformed-unit error: a description followed by
/// an echo of the offending block.
pub open spec fn malformed_unit_message(b: Seq<char>) -> Seq<char> {
    "Expected at least 3 non-empty lines in a subtitle block (block: "@ + b + ")"@
}

/// Whether `u` is the unit a valid block denotes: the parsed index, the
/// parsed timing, and the remaining non-empty lines in original order.
pub open spec fn unit_matches(u: SubtitleUnit, b: Seq<char>) -> bool {
    let ls = block_lines(b);
    &&& u.index == index_value(ls[0])
    &&& u.timing == timing_value(ls[1])
    &&& string_views(u.lines@) == ls.skip(2)
}

/// What the assembler returns on one raw block `b`.
pub open spec fn unit_result_matches(r: UnitResult, b: Seq<char>) -> bool {
    match unit_class(b) {
        UnitClass::Valid => r matches Ok(u) && unit_matches(u, b),
        UnitClass::TooFewLines => r matches Err(SubtitleParserError::MalformedUnit(m)) && m@
            == malformed_unit_message(b),
        UnitClass::BadIndex => r matches Err(SubtitleParserError::Index(e))
            && index_result_matches(
            Result::<SrtIndex, SrtIndexError>::Err(e),
            block_lines(b)[0],
        ),
        UnitClass::BadTiming => r matches Err(SubtitleParserError::Timing(e))
            && timing_result_matches(
            Result::<Timing, TimingError>::Err(e),
            block_lines(b)[1],
        ),
    }
}

/// A block with fewer than three non-empty lines after trimming always
/// fails as a malformed unit: no partially populated unit can come out of
/// it.
pub proof fn lemma_short_block_malformed(b: Seq<char>, r: UnitResult)
    requires
        block_lines(b).len() < 3,
        unit_result_matches(r, b),
    ensures
        r matches Err(e) && e is MalformedUnit,
{
}

/// What parsing a whole file yields: one outcome per raw block, in file
/// order.
pub open spec fn results_match(rs: Seq<UnitResult>, t: Seq<char>) -> bool {
    let bs = split_pat(t, block_sep());
    rs.len() == bs.len() && (forall|i: int|
        0 <= i < bs.len() ==> unit_result_matches(#[trigger] rs[i], bs[i]))
}

/// Index of the first block that fails to parse, or the block count if all
/// parse.
pub open spec fn first_invalid(bs: Seq<Seq<char>>) -> int
    decreases bs.len(),
{
    if bs.len() == 0 {
        0
    } else if !(unit_class(bs[0]) is Valid) {
        0
    } else {
        1 + first_invalid(bs.drop_first())
    }
}

pub proof fn lemma_first_invalid(bs: Seq<Seq<char>>)
    ensures
        0 <= first_invalid(bs) <= bs.len(),
        first_invalid(bs) < bs.len() ==> !(unit_class(bs[first_invalid(bs)]) is Valid),
        forall|j: int| 0 <= j < first_invalid(bs) ==> unit_class(#[trigger] bs[j]) is Valid,
    decreases bs.len(),
{
    if bs.len() > 0 && unit_class(bs[0]) is Valid {
        lemma_first_invalid(bs.drop_first());
        let f = first_invalid(bs);
        assert forall|j: int| 0 <= j < f implies unit_class(#[trigger] bs[j]) is Valid by {
            if j > 0 {
                assert(bs.drop_first()[j - 1] == bs[j]);
            }
        }
        if f < bs.len() {
            assert(bs.drop_first()[f - 1] == bs[f]);
        }
    }
}

/// The first failure is pinned down by a witness position.
pub proof fn lemma_first_invalid_at(bs: Seq<Seq<char>>, i: int)
    requires
        0 <= i <= bs.len(),
        i < bs.len() ==> !(unit_class(bs[i]) is Valid),
        forall|j: int| 0 <= j < i ==> unit_class(#[trigger] bs[j]) is Valid,
    ensures
        i < bs.len() ==> first_invalid(bs) == i,
        i == bs.len() ==> first_invalid(bs) >= i,
    decreases bs.len(),
{
    if bs.len() == 0 {
    } else if !(unit_class(bs[0]) is Valid) {
    } else {
        assert forall|j: int| 0 <= j < i - 1 implies unit_class(
            #[trigger] bs.drop_first()[j],
        ) is Valid by {
            assert(bs.drop_first()[j] == bs[j + 1]);
        }
        if i < bs.len() {
            assert(bs.drop_first()[i - 1] == bs[i]);
        }
        lemma_first_invalid_at(bs.drop_first(), i - 1);
    }
}

/// The parser for whole files and single blocks. Stateless; the streaming
/// state lives in the [`SubtitleStream`] values it hands out.
#[derive(Debug)]
pub struct SubtitleParser {}

/// A pull-based, restartable-per-call sequence of per-block parse outcomes.
/// The consumer decides the policy: stop at the first error, or keep pulling
/// and collect every outcome.
#[derive(Debug)]
pub struct SubtitleStream {
    /// The raw blocks of the file, in file order.
    pub blocks: Vec<String>,
    /// How many blocks have been pulled so far.
    pub pos: usize,
}

impl SubtitleParserError {
    /// A human-readable description of the error.
    pub fn message(&self) -> (r: String)
        ensures
            r@ == match *self {
                SubtitleParserError::MalformedUnit(m) => "Malformed subtitle unit: "@ + m@,
                SubtitleParserError::Index(e) => "Index parsing error: "@ + match e {
                    SrtIndexError::EmptyIndex => "Index string is empty"@,
                    SrtIndexError::IllegalCharacters => "Index contains disallowed characters; allowed characters are 0123456789"@,
                    SrtIndexError::ExceedsMaxSize => "Index value exceeds maximum unsigned 32-bit value of 4294967295"@,
                },
                SubtitleParserError::Timing(e) => "Timing parsing error: "@ + match e {
                    TimingError::EmptyTiming => "Timing string is empty"@,
                    TimingError::MalformedTiming(m) => m@,
                    TimingError::Timestamp(te) => "Timestamp error: "@
                        + crate::timestamp::ts_error_text(te),
                },
            },
    {
        match self {
            SubtitleParserError::MalformedUnit(m) => {
                let mut r = String::from_str("Malformed subtitle unit: ");
                r.append(m.as_str());
                r
            },
            SubtitleParserError::Index(e) => {
                let mut r = String::from_str("Index parsing error: ");
                let inner = e.message();
                r.append(inner.as_str());
                r
            },
            SubtitleParserError::Timing(e) => {
                let mut r = String::from_str("Timing parsing error: ");
                let inner = e.message();
                r.append(inner.as_str());
                r
            },
        }
    }
}

impl SubtitleParser {
    /// Creates a new parser instance.
    pub fn new() -> SubtitleParser {
        SubtitleParser {  }
    }

    /// Assembles one raw block, known to have no internal blank-line
    /// separator, into a validated unit: trim the lines, drop the empty
    /// ones, require at least three, parse the index line and the timing
    /// line, and keep the rest as text lines. Failure is total: no partial
    /// unit is ever returned.
    pub fn parse_block(&self, block: &str) -> (r: UnitResult)
        ensures
            unit_result_matches(r, block@),
    {
        let ghost b = block@;
        let v = to_chars(block);
        let nl: Vec<char> = vec!['\n'];
        proof {
            assert(nl@ =~= line_sep());
        }
        let raw_lines = split_pattern(&v, &nl);
        let ghost rv = seq_views(raw_lines@);
        let mut lines: Vec<Vec<char>> = Vec::new();
        let mut i: usize = 0;
        proof {
            assert(rv.take(0) =~= Seq::<Seq<char>>::empty());
            assert(seq_views(lines@) =~= clean_lines(rv.take(0)));
        }
        while i < raw_lines.len()
            invariant
                rv == seq_views(raw_lines@),
                0 <= i <= raw_lines@.len(),
                seq_views(lines@) == clean_lines(rv.take(i as int)),
            decreases raw_lines@.len() - i,
        {
            let tl = trim_vec(&raw_lines[i]);
            proof {
                assert(rv.take(i + 1).drop_last() =~= rv.take(i as int));
                assert(rv.take(i + 1).last() == raw_lines@[i as int]@);
            }
            if tl.len() > 0 {
                proof {
                    assert(seq_views(lines@.push(tl)) =~= seq_views(lines@).push(tl@));
                }
                lines.push(tl);
            }
            i = i + 1;
        }
        proof {
            assert(rv.take(rv.len() as int) =~= rv);
            assert(seq_views(lines@) == block_lines(b));
        }
        if lines.len() < 3 {
            let mut m = String::from_str(
                "Expected at least 3 non-empty lines in a subtitle block (block: ",
            );
            m.append(block);
            m.append(")");
            return Err(SubtitleParserError::MalformedUnit(m));
        }
        proof {
            assert(seq_views(lines@)[0] == lines@[0]@);
            assert(seq_views(lines@)[1] == lines@[1]@);
        }
        let index_str = chars_to_string(&lines[0]);
        let index = match SrtIndex::parse(index_str.as_str()) {
            Ok(x) => x,
            Err(e) => {
                return Err(SubtitleParserError::Index(e));
            },
        };
        let timing_str = chars_to_string(&lines[1]);
        let timing = match Timing::parse(timing_str.as_str()) {
            Ok(x) => x,
            Err(e) => {
                return Err(SubtitleParserError::Timing(e));
            },
        };
        let mut text_lines: Vec<String> = Vec::new();
        let mut j: usize = 2;
        proof {
            assert(string_views(text_lines@) =~= block_lines(b).subrange(2, 2));
        }
        while j < lines.len()
            invariant
                seq_views(lines@) == block_lines(b),
                2 <= j <= lines@.len(),
                3 <= lines@.len(),
                string_views(text_lines@) == block_lines(b).subrange(2, j as int),
            decreases lines@.len() - j,
        {
            let line = chars_to_string(&lines[j]);
            proof {
                assert(seq_views(lines@)[j as int] == lines@[j as int]@);
                assert(string_views(text_lines@.push(line)) =~= string_views(
                    text_lines@,
                ).push(line@));
                assert(block_lines(b).subrange(2, j + 1) =~= block_lines(b).subrange(
                    2,
                    j as int,
                ).push(block_lines(b)[j as int]));
            }
            text_lines.push(line);
            j = j + 1;
        }
        proof {
            assert(block_lines(b).subrange(2, block_lines(b).len() as int) =~= block_lines(
                b,
            ).skip(2));
        }
        Ok(SubtitleUnit { index, timing, lines: text_lines })
    }

    /// Splits normalized file content on the blank-line delimiter and hands
    /// back a lazy stream over the raw blocks, positioned at the first one.
    pub fn parse(&self, content: &str) -> (r: SubtitleStream)
        ensures
            string_views(r.blocks@) == split_pat(content@, block_sep()),
            r.pos == 0,
    {
        let v = to_chars(content);
        let sep: Vec<char> = vec!['\n', '\n'];
        proof {
            assert(sep@ =~= block_sep());
        }
        let raw_blocks = split_pattern(&v, &sep);
        let mut blocks: Vec<String> = Vec::new();
        let mut i: usize = 0;
        proof {
            assert(string_views(blocks@) =~= seq_views(raw_blocks@).take(0));
        }
        while i < raw_blocks.len()
            invariant
                0 <= i <= raw_blocks@.len(),
                string_views(blocks@) == seq_views(raw_blocks@).take(i as int),
            decreases raw_blocks@.len() - i,
        {
            let s = chars_to_string(&raw_blocks[i]);
            proof {
                assert(seq_views(raw_blocks@)[i as int] == raw_blocks@[i as int]@);
                assert(string_views(blocks@.push(s)) =~= string_views(blocks@).push(s@));
                assert(seq_views(raw_blocks@).take(i + 1) =~= seq_views(raw_blocks@).take(
                    i as int,
                ).push(seq_views(raw_blocks@)[i as int]));
            }
            blocks.push(s);
            i = i + 1;
        }
        proof {
            let sv = seq_views(raw_blocks@);
            assert(sv.take(sv.len() as int) =~= sv);
        }
        SubtitleStream { blocks, pos: 0 }
    }

    /// Parses whole file content eagerly: one outcome per raw block, in file
    /// order, errors included.
    pub fn parse_str(&self, content: &str) -> (r: Vec<UnitResult>)
        ensures
            results_match(r@, content@),
    {
        let mut stream = self.parse(content);
        let ghost bs = split_pat(content@, block_sep());
        let n = stream.block_count();
        let mut out: Vec<UnitResult> = Vec::new();
        let mut k: usize = 0;
        while k < n
            invariant
                string_views(stream.blocks@) == bs,
                n == stream.blocks@.len(),
                k == stream.pos,
                0 <= k <= n,
                out@.len() == k,
                forall|i: int|
                    0 <= i < out@.len() ==> unit_result_matches(#[trigger] out@[i], bs[i]),
            decreases n - k,
        {
            match self.next_from(&mut stream) {
                Some(u) => {
                    out.push(u);
                },
                None => {
                    proof {
                        assert(false);
                    }
                },
            }
            k = k + 1;
        }
        out
    }

    /// Pulls the next outcome out of a stream; shared by [`SubtitleStream`]'s
    /// own method.
    fn next_from(&self, stream: &mut SubtitleStream) -> (r: Option<UnitResult>)
        ensures
            final(stream).blocks == old(stream).blocks,
            old(stream).pos < old(stream).blocks@.len() ==> {
                &&& final(stream).pos == old(stream).pos + 1
                &&& r matches Some(u) && unit_result_matches(
                    u,
                    old(stream).blocks@[old(stream).pos as int]@,
                )
            },
            old(stream).pos >= old(stream).blocks@.len() ==> r is None && final(stream).pos == old(
                stream,
            ).pos,
    {
        if stream.pos < stream.blocks.len() {
            let block_ref: &String = &stream.blocks[stream.pos];
            let u = self.parse_block(block_ref.as_str());
            stream.pos = stream.pos + 1;
            Some(u)
        } else {
            None
        }
    }
}

impl SubtitleStream {
    /// How many blocks the stream holds in total.
    pub fn block_count(&self) -> (n: usize)
        ensures
            n == self.blocks@.len(),
    {
        self.blocks.len()
    }

    /// Pulls the outcome of the next block, or `None` when the stream is
    /// exhausted. The work for a block happens only when it is pulled.
    pub fn next_unit(&mut self) -> (r: Option<UnitResult>)
        ensures
            final(self).blocks == old(self).blocks,
            old(self).pos < old(self).blocks@.len() ==> {
                &&& final(self).pos == old(self).pos + 1
                &&& r matches Some(u) && unit_result_matches(
                    u,
                    old(self).blocks@[old(self).pos as int]@,
                )
            },
            old(self).pos >= old(self).blocks@.len() ==> r is None && final(self).pos == old(
                self,
            ).pos,
    {
        let parser = SubtitleParser::new();
        parser.next_from(self)
    }
}

impl SubtitleSet {
    /// Parses whole file content with the fail-fast policy: all units of the
    /// file in order, or the error of the first block that fails.
    pub fn from_content(content: &str) -> (r: Result<SubtitleSet, SubtitleParserError>)
        ensures
            ({
                let bs = split_pat(content@, block_sep());
                match r {
                    Ok(set) => {
                        &&& first_invalid(bs) == bs.len()
                        &&& set.units@.len() == bs.len()
                        &&& forall|i: int|
                            0 <= i < bs.len() ==> unit_matches(#[trigger] set.units@[i], bs[i])
                    },
                    Err(e) => {
                        &&& first_invalid(bs) < bs.len()
                        &&& unit_result_matches(
                            Result::<SubtitleUnit, SubtitleParserError>::Err(e),
                            bs[first_invalid(bs)],
                        )
                    },
                }
            }),
    {
        let parser = SubtitleParser::new();
        let mut stream = parser.parse(content);
        let ghost bs = split_pat(content@, block_sep());
        let n = stream.block_count();
        let mut units: Vec<SubtitleUnit> = Vec::new();
        let mut k: usize = 0;
        while k < n
            invariant
                bs == split_pat(content@, block_sep()),
                string_views(stream.blocks@) == bs,
                n == stream.blocks@.len(),
                k == stream.pos,
                0 <= k <= n,
                units@.len() == k,
                forall|i: int| 0 <= i < units@.len() ==> unit_class(#[trigger] bs[i]) is Valid,
                forall|i: int|
                    0 <= i < units@.len() ==> unit_matches(#[trigger] units@[i], bs[i]),
            decreases n - k,
        {
            let ghost pos_before = stream.pos as int;
            match stream.next_unit() {
                Some(Ok(u)) => {
                    proof {
                        if !(unit_class(bs[pos_before]) is Valid) {
                            assert(false);
                        }
                    }
                    units.push(u);
                },
                Some(Err(e)) => {
                    proof {
                        assert(bs.len() == stream.blocks@.len());
                        assert(pos_before < bs.len());
                        assert(bs[pos_before] == stream.blocks@[pos_before]@);
                        if unit_class(bs[pos_before]) is Valid {
                            assert(false);
                        }
                        lemma_first_invalid_at(bs, pos_before);
                        assert(first_invalid(bs) == pos_before);
                        assert(first_invalid(bs) < bs.len());
                        assert(unit_result_matches(
                            Result::<SubtitleUnit, SubtitleParserError>::Err(e),
                            bs[pos_before],
                        ));
                    }
                    return Err(e);
                },
                None => {
                    proof {
                        assert(false);
                    }
                },
            }
            k = k + 1;
        }
        proof {
            lemma_first_invalid_at(bs, bs.len() as int);
            lemma_first_invalid(bs);
        }
        Ok(SubtitleSet { units })
    }
}

} // verus!
