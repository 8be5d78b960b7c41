//! The registry of source files, and the resolution of byte offsets to lines and columns.

use vstd::prelude::*;

use std::path::PathBuf;

use crate::ascii;
use crate::span::Span;

verus! {

/// Handle of one registered source file: its index in the registry that issued it.
#[derive(Copy, Clone, Eq, PartialEq, Ord, PartialOrd, Hash, Debug, Structural)]
pub struct FileId(pub u32);

impl FileId {
    /// The handle with raw index `id`.
    #[must_use]
    pub fn new(id: u32) -> (file: FileId)
        ensures
            file == FileId(id),
    {
        FileId(id)
    }

    /// The raw index.
    #[must_use]
    pub fn as_u32(self) -> (raw: u32)
        ensures
            raw == self.0,
    {
        self.0
    }

    /// A handle that no registry issued, with raw index `raw`.
    #[must_use]
    pub fn new_for_tests(raw: u32) -> (file: FileId)
        ensures
            file == FileId(raw),
    {
        FileId(raw)
    }
}

/// `std::path::PathBuf`, taken as an opaque value: the registry stores the path of a file and
/// hands it back, and nothing in this crate looks into it.
#[verifier::external_type_specification]
#[verifier::external_body]
pub struct ExPathBuf(PathBuf);

/// A position in a file as a reader counts it: lines and columns from 1, columns in bytes.
#[derive(Copy, Clone, Eq, PartialEq, Debug, Structural)]
pub struct LineCol {
    pub line: u32,
    pub column: u32,
}

/// What a source file is called in messages.
#[derive(Copy, Clone, Eq, PartialEq, Debug)]
pub enum SourceName<'a> {
    Path(&'a PathBuf),
    Stdin,
}

/// A span as it is shown to a reader.
#[derive(Copy, Clone, Eq, PartialEq, Debug)]
pub struct ResolvedSpan<'a> {
    pub source_name: SourceName<'a>,
    pub line: u32,
    pub column: u32,
    pub length: u32,
}

/// How many of the first `n` bytes are newlines.
pub open spec fn newlines_before(bytes: Seq<u8>, n: int) -> int
    decreases n,
{
    if n <= 0 {
        0
    } else {
        newlines_before(bytes, n - 1) + if bytes[n - 1] == ascii::NEWLINE {
            1int
        } else {
            0int
        }
    }
}

/// Where the line begins that holds offset `n`: just after the last newline among the
/// first `n` bytes, or at 0 where there is none.
pub open spec fn line_start(bytes: Seq<u8>, n: int) -> int
    decreases n,
{
    if n <= 0 {
        0
    } else if bytes[n - 1] == ascii::NEWLINE {
        n
    } else {
        line_start(bytes, n - 1)
    }
}

/// `n`, or the largest `u32` where `n` is beyond it.
pub open spec fn saturate(n: int) -> u32 {
    if n >= u32::MAX {
        u32::MAX
    } else {
        n as u32
    }
}

/// The offset that a request for `offset` is answered for: offsets past the end of the
/// file stand for the end, or for the last offset that 32 bits can hold.
pub open spec fn clamp_offset(bytes: Seq<u8>, offset: int) -> int {
    if offset <= bytes.len() {
        offset
    } else if bytes.len() <= u32::MAX {
        bytes.len() as int
    } else {
        u32::MAX as int
    }
}

/// Whether a line starts at offset `n`: at the start of the file, and behind every newline
/// that is not the last byte of the file. A newline at the very end closes its line and
/// opens no further one.
pub open spec fn starts_line(bytes: Seq<u8>, n: int) -> bool {
    n == 0 || (0 < n < bytes.len() && bytes[n - 1] == ascii::NEWLINE)
}

/// The offset by which the line of offset `at` is found: `at` itself inside the file, and
/// the last byte for the end of the file, which belongs to the line of that byte.
pub open spec fn line_anchor(bytes: Seq<u8>, at: int) -> int {
    if at >= bytes.len() && bytes.len() > 0 {
        bytes.len() - 1
    } else {
        at
    }
}

/// Line and column of byte `offset` of a file with content `bytes`. The line is one more
/// than the number of newlines before the offset; the column is one more than the distance
/// from the start of that line. The end of the file lies on the line of the last byte,
/// also where that byte is a newline, and in an empty file it is line 1, column 1.
pub open spec fn line_col_of(bytes: Seq<u8>, offset: u32) -> LineCol {
    let at = clamp_offset(bytes, offset as int);
    let anchor = line_anchor(bytes, at);
    LineCol {
        line: saturate(newlines_before(bytes, anchor) + 1),
        column: saturate(at - line_start(bytes, anchor) + 1),
    }
}

/// The table of the line starts among the offsets `0..=n` of `bytes`, in ascending order,
/// as far as 32 bits can hold them.
pub open spec fn line_table(bytes: Seq<u8>, n: int) -> Seq<u32>
    decreases n,
{
    if n <= 0 {
        seq![0u32]
    } else if starts_line(bytes, n) && n <= u32::MAX {
        line_table(bytes, n - 1).push(n as u32)
    } else {
        line_table(bytes, n - 1)
    }
}

/// The table of all line starts of `bytes`: one entry for each line.
pub open spec fn line_starts_of(bytes: Seq<u8>) -> Seq<u32> {
    line_table(bytes, bytes.len() as int)
}

/// What the line table says of every offset inside the file: the entry at the index that
/// is the number of newlines before the offset is the start of the offset's line, and the
/// entry after it, if there is one, lies beyond the offset.
pub proof fn lemma_line_table(bytes: Seq<u8>, n: int)
    requires
        0 <= n < bytes.len(),
    ensures
        line_table(bytes, n).len() >= 1,
        line_table(bytes, n)[0] == 0,
        forall|i: int|
            0 <= i < line_table(bytes, n).len() ==> #[trigger] line_table(bytes, n)[i] <= n,
        forall|i: int, j: int|
            0 <= i < j < line_table(bytes, n).len() ==> #[trigger] line_table(bytes, n)[i]
                < #[trigger] line_table(bytes, n)[j],
        forall|c: int|
            0 <= c <= n && c <= u32::MAX ==> {
                let index = #[trigger] newlines_before(bytes, c);
                &&& 0 <= index < line_table(bytes, n).len()
                &&& line_table(bytes, n)[index] == line_start(bytes, c)
                &&& line_start(bytes, c) <= c
                &&& index + 1 < line_table(bytes, n).len() ==> line_table(bytes, n)[index + 1] > c
            },
        n <= u32::MAX ==> line_table(bytes, n).len() == newlines_before(bytes, n) + 1,
    decreases n,
{
    if n > 0 {
        lemma_line_table(bytes, n - 1);
        let table = line_table(bytes, n);
        assert forall|c: int| 0 <= c <= n && c <= u32::MAX implies {
            let index = #[trigger] newlines_before(bytes, c);
            &&& 0 <= index < table.len()
            &&& table[index] == line_start(bytes, c)
            &&& line_start(bytes, c) <= c
            &&& index + 1 < table.len() ==> table[index + 1] > c
        } by {}
    }
}

/// What the table of all line starts says of every offset up to the end of the file: it
/// begins with 0 and ascends, and the last entry that is not beyond an offset is the start
/// of the offset's line, at the index that is the number of the lines before it. The end
/// of the file is on the last line: a trailing newline has no entry.
pub proof fn lemma_line_starts(bytes: Seq<u8>)
    requires
        bytes.len() > 0,
    ensures
        line_starts_of(bytes).len() >= 1,
        line_starts_of(bytes)[0] == 0,
        forall|i: int|
            0 <= i < line_starts_of(bytes).len() ==> #[trigger] line_starts_of(bytes)[i]
                < bytes.len(),
        forall|i: int, j: int|
            0 <= i < j < line_starts_of(bytes).len() ==> #[trigger] line_starts_of(bytes)[i]
                < #[trigger] line_starts_of(bytes)[j],
        forall|c: int|
            0 <= c <= bytes.len() && c <= u32::MAX ==> {
                let index = newlines_before(bytes, #[trigger] line_anchor(bytes, c));
                &&& 0 <= index < line_starts_of(bytes).len()
                &&& line_starts_of(bytes)[index] == line_start(bytes, line_anchor(bytes, c))
                &&& line_start(bytes, line_anchor(bytes, c)) <= c
                &&& index + 1 < line_starts_of(bytes).len() ==> line_starts_of(bytes)[index + 1]
                    > c
            },
        bytes.len() <= u32::MAX ==> line_starts_of(bytes).len() == newlines_before(
            bytes,
            bytes.len() - 1,
        ) + 1,
{
    lemma_line_table(bytes, bytes.len() - 1);
    assert forall|c: int| 0 <= c <= bytes.len() && c <= u32::MAX implies {
        let index = newlines_before(bytes, #[trigger] line_anchor(bytes, c));
        &&& 0 <= index < line_starts_of(bytes).len()
        &&& line_starts_of(bytes)[index] == line_start(bytes, line_anchor(bytes, c))
        &&& line_start(bytes, line_anchor(bytes, c)) <= c
        &&& index + 1 < line_starts_of(bytes).len() ==> line_starts_of(bytes)[index + 1] > c
    } by {}
}

/// The table of line starts of `bytes`: 0, then the offset behind each newline but one at
/// the very end of the file.
pub fn compute_line_starts(bytes: &[u8]) -> (starts: Vec<u32>)
    ensures
        starts@ == line_starts_of(bytes@),
{
    let mut starts: Vec<u32> = Vec::new();
    starts.push(0);
    let mut idx: usize = 0;
    while idx < bytes.len()
        invariant
            idx <= bytes@.len(),
            starts@ == line_table(bytes@, idx as int),
        decreases bytes@.len() - idx,
    {
        if bytes[idx] == ascii::NEWLINE && idx + 1 < bytes.len() && idx < u32::MAX as usize {
            starts.push((idx + 1) as u32);
        }
        idx += 1;
    }
    starts
}

/// Mathematical model of a [`SourceFile`].
pub struct SourceFileView {
    pub id: FileId,
    pub path: Option<PathBuf>,
    pub bytes: Seq<u8>,
}

/// One registered input: its content, where it came from, and the table of its line
/// starts. Nothing of it changes once it is registered.
pub struct SourceFile {
    id: FileId,
    path: Option<PathBuf>,
    bytes: Vec<u8>,
    line_starts: Vec<u32>,
}

impl View for SourceFile {
    type V = SourceFileView;

    closed spec fn view(&self) -> SourceFileView {
        SourceFileView { id: self.id, path: self.path, bytes: self.bytes@ }
    }
}

impl SourceFile {
    #[verifier::type_invariant]
    closed spec fn indexed(self) -> bool {
        self.line_starts@ == line_starts_of(self.bytes@)
    }

    /// The handle under which the file is registered.
    #[must_use]
    pub fn id(&self) -> (id: FileId)
        ensures
            id == self@.id,
    {
        self.id
    }

    /// The path the file was read from; none for standard input.
    #[must_use]
    pub fn path(&self) -> (path: Option<&PathBuf>)
        ensures
            path == (match self@.path {
                Some(path) => Some(&path),
                None => None,
            }),
    {
        self.path.as_ref()
    }

    /// The content of the file.
    #[must_use]
    pub fn bytes(&self) -> (bytes: &[u8])
        ensures
            bytes@ == self@.bytes,
    {
        self.bytes.as_slice()
    }

    /// Line and column of `byte_offset`. An offset past the end of the file is answered
    /// as the end of the file.
    #[must_use]
    pub fn line_col(&self, byte_offset: u32) -> (loc: LineCol)
        ensures
            loc == line_col_of(self@.bytes, byte_offset),
    {
        proof {
            use_type_invariant(self);
        }
        if self.bytes.len() == 0 {
            return LineCol { line: 1, column: 1 };
        }
        proof {
            lemma_line_starts(self.bytes@);
        }
        let max_offset: u32 = if self.bytes.len() > u32::MAX as usize {
            u32::MAX
        } else {
            self.bytes.len() as u32
        };
        let clamped: u32 = if byte_offset < max_offset {
            byte_offset
        } else {
            max_offset
        };
        let ghost index = newlines_before(self.bytes@, line_anchor(self.bytes@, clamped as int));
        let mut lo: usize = 0;
        let mut hi: usize = self.line_starts.len();
        while hi - lo > 1
            invariant
                0 <= lo < hi <= self.line_starts@.len(),
                lo <= index < hi,
                0 <= index < self.line_starts@.len(),
                self.line_starts@[index] <= clamped,
                index + 1 < self.line_starts@.len() ==> self.line_starts@[index + 1] > clamped,
                forall|i: int, j: int|
                    0 <= i < j < self.line_starts@.len() ==> #[trigger] self.line_starts@[i]
                        < #[trigger] self.line_starts@[j],
            decreases hi - lo,
        {
            let mid = lo + (hi - lo) / 2;
            if self.line_starts[mid] <= clamped {
                lo = mid;
            } else {
                hi = mid;
            }
        }
        let line_index = lo;
        let line_start = self.line_starts[line_index];
        let line: u32 = if line_index >= u32::MAX as usize {
            u32::MAX
        } else {
            line_index as u32 + 1
        };
        let column: u32 = if clamped - line_start == u32::MAX {
            u32::MAX
        } else {
            clamped - line_start + 1
        };
        LineCol { line, column }
    }
}

/// The registry of source files. A file's handle is its index in registration order, so
/// handles are never reused.
pub struct SourceMap {
    files: Vec<SourceFile>,
}

impl View for SourceMap {
    type V = Seq<SourceFileView>;

    closed spec fn view(&self) -> Seq<SourceFileView> {
        self.files@.map_values(|file: SourceFile| file@)
    }
}

impl SourceMap {
    /// Every file's handle is its index.
    pub closed spec fn wf(&self) -> bool {
        forall|i: int|
            0 <= i < self.files@.len() ==> (#[trigger] self.files@[i]).id == FileId(i as u32)
    }

    /// Whether this registry issued `id`.
    pub open spec fn issued(&self, id: FileId) -> bool {
        id.0 < self@.len()
    }

    /// In a well-formed registry the file at index `i` carries the handle `i`.
    pub proof fn lemma_ids_are_indices(&self, i: int)
        requires
            self.wf(),
            0 <= i < self@.len(),
        ensures
            self@[i].id == FileId(i as u32),
    {
    }

    /// A registry without files.
    #[must_use]
    pub fn new() -> (map: SourceMap)
        ensures
            map.wf(),
            map@ == Seq::<SourceFileView>::empty(),
    {
        SourceMap { files: Vec::new() }
    }

    /// How many files are registered.
    #[must_use]
    pub fn len(&self) -> (len: usize)
        ensures
            len == self@.len(),
    {
        self.files.len()
    }

    /// Registers the content `bytes` of the file at `path` and returns its handle.
    pub fn add_file(&mut self, path: PathBuf, bytes: Vec<u8>) -> (id: FileId)
        requires
            old(self).wf(),
            old(self)@.len() <= u32::MAX,
        ensures
            final(self).wf(),
            id == FileId(old(self)@.len() as u32),
            final(self)@ == old(self)@.push(SourceFileView { id, path: Some(path), bytes: bytes@ }),
    {
        self.add_internal(Some(path), bytes)
    }

    /// Registers what was read from standard input, which has no path, and returns its
    /// handle.
    pub fn add_stdin(&mut self, bytes: Vec<u8>) -> (id: FileId)
        requires
            old(self).wf(),
            old(self)@.len() <= u32::MAX,
        ensures
            final(self).wf(),
            id == FileId(old(self)@.len() as u32),
            final(self)@ == old(self)@.push(SourceFileView { id, path: None, bytes: bytes@ }),
    {
        self.add_internal(None, bytes)
    }

    /// The file that `id` stands for, which this registry must have issued.
    #[must_use]
    pub fn file(&self, id: FileId) -> (file: &SourceFile)
        requires
            self.wf(),
            self.issued(id),
        ensures
            file@ == self@[id.0 as int],
            file@.id == id,
    {
        &self.files[id.0 as usize]
    }

    /// What a reader is shown for `span`: the name of its file, the line and column of its
    /// first byte, and its length. The span's file must be one that this registry issued.
    #[must_use]
    pub fn resolve_span(&self, span: Span) -> (resolved: ResolvedSpan<'_>)
        requires
            self.wf(),
            self.issued(span@.file),
        ensures
            span@.wf(),
            resolved == resolution(
                self@[span@.file.0 as int],
                span@.start as int,
                span@.len() as int,
            ),
    {
        let file = self.file(span.file());
        let loc = file.line_col(span.start());
        let source_name = match file.path() {
            Some(path) => SourceName::Path(path),
            None => SourceName::Stdin,
        };
        ResolvedSpan { source_name, line: loc.line, column: loc.column, length: span.len() }
    }

    fn add_internal(&mut self, path: Option<PathBuf>, bytes: Vec<u8>) -> (id: FileId)
        requires
            old(self).wf(),
            old(self)@.len() <= u32::MAX,
        ensures
            final(self).wf(),
            id == FileId(old(self)@.len() as u32),
            final(self)@ == old(self)@.push(SourceFileView { id, path, bytes: bytes@ }),
    {
        let id = FileId(self.files.len() as u32);
        let line_starts = compute_line_starts(bytes.as_slice());
        let file = SourceFile { id, path, bytes, line_starts };
        self.files.push(file);
        id
    }
}

impl Default for SourceMap {
    fn default() -> (map: SourceMap)
        ensures
            map.wf(),
            map@ == Seq::<SourceFileView>::empty(),
    {
        SourceMap::new()
    }
}

/// What is shown for a span of `length` bytes that starts at offset `start` of `file`.
pub open spec fn resolution<'a>(file: SourceFileView, start: int, length: int) -> ResolvedSpan<'a> {
    let loc = line_col_of(file.bytes, start as u32);
    ResolvedSpan {
        source_name: match file.path {
            Some(path) => SourceName::Path(&path),
            None => SourceName::Stdin,
        },
        line: loc.line,
        column: loc.column,
        length: length as u32,
    }
}

/// Offset 0 of any file is line 1, column 1.
pub proof fn lemma_line_col_at_start(bytes: Seq<u8>)
    ensures
        line_col_of(bytes, 0) == (LineCol { line: 1, column: 1 }),
{
}

/// Inside the file, the offset just after a newline is column 1 of the line after the
/// newline's own, and its line is one more than the number of newlines before it. In a
/// file that byte positions can address, the line number is exactly that; beyond, it
/// stops at the largest `u32`.
pub proof fn lemma_line_col_after_newline(bytes: Seq<u8>, offset: u32)
    requires
        1 <= offset < bytes.len(),
        bytes[offset - 1] == ascii::NEWLINE,
    ensures
        line_col_of(bytes, offset).column == 1,
        line_col_of(bytes, offset).line == saturate(newlines_before(bytes, offset as int) + 1),
        line_col_of(bytes, offset).line == saturate(
            line_col_of(bytes, (offset - 1) as u32).line + 1,
        ),
        bytes.len() <= u32::MAX ==> line_col_of(bytes, offset).line == newlines_before(
            bytes,
            offset as int,
        ) + 1,
{
    lemma_newlines_bounded(bytes, offset as int);
}

/// Inside the file, a byte other than the newline, the carriage return among them, moves
/// the position one column on in the same line.
pub proof fn lemma_line_col_after_other_byte(bytes: Seq<u8>, offset: u32)
    requires
        1 <= offset < bytes.len(),
        bytes[offset - 1] != ascii::NEWLINE,
    ensures
        line_col_of(bytes, offset).line == line_col_of(bytes, (offset - 1) as u32).line,
        line_col_of(bytes, offset).column == saturate(
            line_col_of(bytes, (offset - 1) as u32).column + 1,
        ),
{
    lemma_newlines_bounded(bytes, offset - 1);
}

/// The end of the file is one column behind the last byte, on the line of that byte,
/// whatever the byte is: a newline at the very end of the file starts no further line.
pub proof fn lemma_line_col_at_end(bytes: Seq<u8>, offset: u32)
    requires
        1 <= offset == bytes.len(),
    ensures
        line_col_of(bytes, offset).line == line_col_of(bytes, (offset - 1) as u32).line,
        line_col_of(bytes, offset).column == saturate(
            line_col_of(bytes, (offset - 1) as u32).column + 1,
        ),
{
    lemma_newlines_bounded(bytes, offset - 1);
}

/// An offset past the end of the file resolves as the end of the file does.
pub proof fn lemma_line_col_clamps(bytes: Seq<u8>, offset: u32)
    requires
        offset >= bytes.len(),
    ensures
        line_col_of(bytes, offset) == line_col_of(bytes, saturate(bytes.len() as int)),
{
}

/// Among the first `n` bytes there are at most `n` newlines, and the line that holds
/// offset `n` starts at or before it.
pub proof fn lemma_newlines_bounded(bytes: Seq<u8>, n: int)
    requires
        0 <= n,
    ensures
        0 <= newlines_before(bytes, n) <= n,
        0 <= line_start(bytes, n) <= n,
    decreases n,
{
    if n > 0 {
        lemma_newlines_bounded(bytes, n - 1);
    }
}

} // verus!
