//! A torrent that is running: which pieces it has, wants and is fetching.
use crate::bitfield::{
    bit, bitfield_get, bitfield_set, bytes_for, count_bits, count_have_bits,
    empty_bitfield,
};
use crate::bytes::copy_range;
use crate::error::{Error, Result};
use vstd::prelude::*;

verus! {

/// A file of a torrent, and where it lies in the torrent's bytes.
#[derive(Debug)]
pub struct FileLayout {
    pub path: String,
    pub size: u64,
    pub offset: u64,
    /// Files with a priority of zero or less are not wanted.
    pub priority: i32,
}

/// How a torrent's bytes are cut into pieces, and which files they belong to.
#[derive(Debug)]
pub struct StorageLayout {
    pub data_root: String,
    pub piece_length: u32,
    pub piece_count: u32,
    pub total_size: u64,
    pub files: Vec<FileLayout>,
}

/// Length of a piece of a torrent of `total` bytes: zero past its end.
pub open spec fn piece_len_at(piece_length: u32, total: u64, index: int) -> int {
    if index * piece_length >= total {
        0
    } else if total - index * piece_length < piece_length {
        total - index * piece_length
    } else {
        piece_length as int
    }
}

/// A run of bytes of one file.
#[derive(Debug, Clone, Copy, PartialEq, Eq, Structural)]
pub struct Span {
    /// Place of the file in the layout.
    pub file: usize,
    pub file_offset: u64,
    pub length: u64,
}

/// The larger of two numbers.
pub open spec fn larger(a: int, b: int) -> int {
    if a > b {
        a
    } else {
        b
    }
}

/// The smaller of two numbers.
pub open spec fn smaller(a: int, b: int) -> int {
    if a < b {
        a
    } else {
        b
    }
}

/// The spans of `[begin, end)` in the first `n` files, in the order of the files.
pub open spec fn spans_of(files: Seq<FileLayout>, begin: int, end: int, n: int) -> Seq<Span>
    decreases n,
{
    if n <= 0 {
        Seq::empty()
    } else {
        let f = files[n - 1];
        let lo = larger(begin, f.offset as int);
        let hi = smaller(end, f.offset + f.size);
        let before = spans_of(files, begin, end, n - 1);
        if lo < hi {
            before.push(
                Span {
                    file: (n - 1) as usize,
                    file_offset: (lo - f.offset) as u64,
                    length: (hi - lo) as u64,
                },
            )
        } else {
            before
        }
    }
}

/// Bytes of a row of spans.
pub open spec fn span_bytes(spans: Seq<Span>) -> int
    decreases spans.len(),
{
    if spans.len() == 0 {
        0
    } else {
        span_bytes(spans.drop_last()) + spans.last().length
    }
}

/// Each file begins where the one before it ends, and the last of the first `n` ends at
/// `end`.
pub open spec fn files_tile(files: Seq<FileLayout>, n: int, end: int) -> bool
    decreases n,
{
    if n <= 0 {
        end == 0
    } else {
        files[n - 1].offset + files[n - 1].size == end && files_tile(
            files,
            n - 1,
            files[n - 1].offset as int,
        )
    }
}

/// Where the files tile the torrent, the spans of a range cover it, as far as it lies in the
/// torrent.
pub proof fn spans_cover_the_range(
    files: Seq<FileLayout>,
    begin: int,
    end: int,
    n: int,
    total: int,
)
    requires
        0 <= n <= files.len(),
        0 <= begin <= end,
        files_tile(files, n, total),
    ensures
        span_bytes(spans_of(files, begin, end, n)) == if smaller(end, total) > begin {
            smaller(end, total) - begin
        } else {
            0
        },
        total >= 0,
    decreases n,
{
    if n > 0 {
        let f = files[n - 1];
        spans_cover_the_range(files, begin, end, n - 1, f.offset as int);
        let before = spans_of(files, begin, end, n - 1);
        let lo = larger(begin, f.offset as int);
        let hi = smaller(end, f.offset + f.size);
        if lo < hi {
            let s = Span {
                file: (n - 1) as usize,
                file_offset: (lo - f.offset) as u64,
                length: (hi - lo) as u64,
            };
            assert(before.push(s).drop_last() =~= before);
        }
    }
}

/// A span lies in its file, and within the range that it is a span of.
proof fn span_within(files: Seq<FileLayout>, begin: int, end: int, n: int, k: int)
    requires
        0 <= n <= files.len(),
        n <= usize::MAX,
        0 <= k < spans_of(files, begin, end, n).len(),
    ensures
        ({
            let s = spans_of(files, begin, end, n)[k];
            let at = files[s.file as int].offset + s.file_offset;
            &&& s.file < n
            &&& s.length > 0
            &&& s.file_offset + s.length <= files[s.file as int].size
            &&& begin <= at
            &&& at + s.length <= end
        }),
    decreases n,
{
    if n > 0 {
        let before = spans_of(files, begin, end, n - 1);
        if k < before.len() {
            span_within(files, begin, end, n - 1, k);
        }
    }
}

/// Where the files tile the torrent, every span of a range lies where its bytes are: it
/// begins in the torrent where the spans before it end, and stays within its file.
pub proof fn spans_lie_where_their_bytes_are(
    files: Seq<FileLayout>,
    begin: int,
    end: int,
    n: int,
    total: int,
    k: int,
)
    requires
        0 <= n <= files.len(),
        n <= usize::MAX,
        0 <= begin <= end,
        files_tile(files, n, total),
        0 <= k < spans_of(files, begin, end, n).len(),
    ensures
        ({
            let spans = spans_of(files, begin, end, n);
            let s = spans[k];
            &&& s.file < n
            &&& s.length > 0
            &&& files[s.file as int].offset + s.file_offset == begin + span_bytes(spans.take(k))
            &&& s.file_offset + s.length <= files[s.file as int].size
        }),
    decreases n,
{
    if n > 0 {
        let f = files[n - 1];
        let spans = spans_of(files, begin, end, n);
        let before = spans_of(files, begin, end, n - 1);
        span_within(files, begin, end, n, k);
        if k < before.len() {
            spans_lie_where_their_bytes_are(files, begin, end, n - 1, f.offset as int, k);
            assert(spans.take(k) =~= before.take(k));
        } else {
            assert(spans.take(k) =~= before);
            spans_cover_the_range(files, begin, end, n - 1, f.offset as int);
        }
    }
}

/// Runs of bytes that do not overlap, such as two pieces, do not overlap in any file.
pub proof fn apart_in_the_torrent_is_apart_in_the_files(
    files: Seq<FileLayout>,
    begin: int,
    end: int,
    later: int,
    later_end: int,
    j: int,
    k: int,
)
    requires
        files.len() <= usize::MAX,
        end <= later,
        0 <= j < spans_of(files, begin, end, files.len() as int).len(),
        0 <= k < spans_of(files, later, later_end, files.len() as int).len(),
    ensures
        ({
            let s = spans_of(files, begin, end, files.len() as int)[j];
            let t = spans_of(files, later, later_end, files.len() as int)[k];
            s.file == t.file ==> s.file_offset + s.length <= t.file_offset
        }),
{
    span_within(files, begin, end, files.len() as int, j);
    span_within(files, later, later_end, files.len() as int, k);
}

/// Pieces follow one another without a gap: each ends where the next begins, the last one at
/// the end of the torrent, and only the last one may be shorter than the others.
pub proof fn pieces_tile_the_torrent(piece_length: u32, total: u64, index: int)
    requires
        0 <= index,
    ensures
        piece_len_at(piece_length, total, index + 1) > 0 ==> piece_len_at(
            piece_length,
            total,
            index,
        ) == piece_length,
        piece_len_at(piece_length, total, index) > 0 && piece_len_at(
            piece_length,
            total,
            index + 1,
        ) == 0 ==> index * piece_length + piece_len_at(piece_length, total, index) == total,
        piece_len_at(piece_length, total, index) == 0 && piece_length > 0 ==> index * piece_length
            >= total,
        0 <= piece_len_at(piece_length, total, index) <= piece_length,
{
    vstd::arithmetic::mul::lemma_mul_is_distributive_add_other_way(piece_length as int, index, 1);
    vstd::arithmetic::mul::lemma_mul_nonnegative(index, piece_length as int);
}

/// A piece is wanted exactly where some of its bytes lie in a file of a priority above zero.
pub proof fn wanted_pieces_have_bytes_of_wanted_files(
    files: Seq<FileLayout>,
    piece_length: u32,
    index: int,
)
    requires
        files.len() <= usize::MAX,
        0 <= index,
        piece_length > 0,
    ensures
        piece_is_wanted(files, piece_length, index) <==> exists|k: int|
            0 <= k < spans_of(
                files,
                index * piece_length,
                (index + 1) * piece_length,
                files.len() as int,
            ).len() && files[(#[trigger] spans_of(
                files,
                index * piece_length,
                (index + 1) * piece_length,
                files.len() as int,
            )[k]).file as int].priority > 0,
{
    let begin = index * piece_length;
    let end = (index + 1) * piece_length;
    let n = files.len() as int;
    let spans = spans_of(files, begin, end, n);
    vstd::arithmetic::mul::lemma_mul_is_distributive_add_other_way(piece_length as int, index, 1);
    if piece_is_wanted(files, piece_length, index) {
        let f = choose|f: int|
            0 <= f < files.len() && #[trigger] file_wants(files[f], piece_length, index);
        file_has_a_span(files, begin, end, n, f);
        let k = choose|k: int| 0 <= k < spans.len() && (#[trigger] spans[k]).file == f;
        assert(files[spans[k].file as int].priority > 0);
    }
    if exists|k: int| 0 <= k < spans.len() && files[(#[trigger] spans[k]).file as int].priority > 0 {
        let k = choose|k: int|
            0 <= k < spans.len() && files[(#[trigger] spans[k]).file as int].priority > 0;
        span_within(files, begin, end, n, k);
        assert(file_wants(files[spans[k].file as int], piece_length, index));
    }
}

/// A file with bytes in a range has a span of it.
proof fn file_has_a_span(files: Seq<FileLayout>, begin: int, end: int, n: int, f: int)
    requires
        0 <= f < n <= files.len(),
        n <= usize::MAX,
        larger(begin, files[f].offset as int) < smaller(end, files[f].offset + files[f].size),
    ensures
        exists|k: int|
            0 <= k < spans_of(files, begin, end, n).len() && (#[trigger] spans_of(
                files,
                begin,
                end,
                n,
            )[k]).file == f,
    decreases n,
{
    let spans = spans_of(files, begin, end, n);
    let before = spans_of(files, begin, end, n - 1);
    if f == n - 1 {
        assert(spans[before.len() as int].file == f);
    } else {
        file_has_a_span(files, begin, end, n - 1, f);
        let k = choose|k: int| 0 <= k < before.len() && (#[trigger] before[k]).file == f;
        assert(spans[k] == before[k]);
    }
}

/// A file gets the priority that it is given, and nothing else changes.
pub proof fn one_file_gets_its_priority(
    files: Seq<FileLayout>,
    file: int,
    priority: i32,
    other: int,
)
    requires
        0 <= other < files.len(),
    ensures
        with_priority(files, file, priority).len() == files.len(),
        ({
            let f = with_priority(files, file, priority)[other];
            &&& f.path == files[other].path
            &&& f.size == files[other].size
            &&& f.offset == files[other].offset
            &&& other == file ==> f.priority == priority
            &&& other != file ==> f.priority == files[other].priority
        }),
{
}

/// The files where one, if it is there, has another priority.
pub open spec fn with_priority(files: Seq<FileLayout>, file: int, priority: i32) -> Seq<
    FileLayout,
> {
    if 0 <= file < files.len() {
        files.update(file, FileLayout { priority, ..files[file] })
    } else {
        files
    }
}

/// Whether a wanted file has bytes in piece `index`.
pub open spec fn piece_is_wanted(files: Seq<FileLayout>, piece_length: u32, index: int) -> bool {
    exists|f: int|
        0 <= f < files.len() && #[trigger] file_wants(files[f], piece_length, index)
}

/// Whether a file is wanted and has bytes in piece `index`.
pub open spec fn file_wants(f: FileLayout, piece_length: u32, index: int) -> bool {
    f.priority > 0 && f.size > 0 && f.offset < (index + 1) * piece_length && index * piece_length
        < f.offset + f.size
}

impl StorageLayout {
    /// Length of a piece.
    pub fn piece_size(&self, index: u32) -> (r: Result<u32>)
        ensures
            r matches Ok(n) ==> index < self.piece_count && n == piece_len_at(
                self.piece_length,
                self.total_size,
                index as int,
            ),
            r matches Err(e) ==> index >= self.piece_count && e is Msg && e.text()
                == "piece index out of range"@,
    {
        if index >= self.piece_count {
            return Err(Error::msg("piece index out of range"));
        }
        proof {
            vstd::arithmetic::mul::lemma_mul_upper_bound(
                index as int,
                u32::MAX as int,
                self.piece_length as int,
                u32::MAX as int,
            );
        }
        let begin: u64 = index as u64 * self.piece_length as u64;
        if begin >= self.total_size {
            return Ok(0);
        }
        let left: u64 = self.total_size - begin;
        if left < self.piece_length as u64 {
            Ok(left as u32)
        } else {
            Ok(self.piece_length)
        }
    }

    /// The spans that a run of the torrent's bytes takes in the files.
    pub fn spans_for_range(&self, begin: u64, length: u64) -> (out: Vec<Span>)
        requires
            begin + length <= u64::MAX,
            forall|f: int|
                0 <= f < self.files@.len() ==> (#[trigger] self.files@[f]).offset
                    + self.files@[f].size <= u64::MAX,
        ensures
            out@ == spans_of(
                self.files@,
                begin as int,
                begin + length,
                self.files@.len() as int,
            ),
    {
        let end: u64 = begin + length;
        let mut out: Vec<Span> = Vec::new();
        let mut f: usize = 0;
        while f < self.files.len()
            invariant
                f <= self.files@.len(),
                begin <= end,
                out@ == spans_of(self.files@, begin as int, end as int, f as int),
                forall|f: int|
                    0 <= f < self.files@.len() ==> (#[trigger] self.files@[f]).offset
                        + self.files@[f].size <= u64::MAX,
            decreases self.files@.len() - f,
        {
            let x: &FileLayout = &self.files[f];
            let x_end: u64 = x.offset + x.size;
            let lo: u64 = if begin > x.offset {
                begin
            } else {
                x.offset
            };
            let hi: u64 = if end < x_end {
                end
            } else {
                x_end
            };
            if lo < hi {
                out.push(Span { file: f, file_offset: lo - x.offset, length: hi - lo });
            }
            f += 1;
        }
        out
    }

    /// The spans that a piece takes in the files.
    pub fn spans_for_piece(&self, index: u32) -> (r: Result<Vec<Span>>)
        requires
            forall|f: int|
                0 <= f < self.files@.len() ==> (#[trigger] self.files@[f]).offset
                    + self.files@[f].size <= u64::MAX,
        ensures
            r matches Ok(v) ==> index < self.piece_count && v@ == spans_of(
                self.files@,
                index * self.piece_length,
                index * self.piece_length + piece_len_at(
                    self.piece_length,
                    self.total_size,
                    index as int,
                ),
                self.files@.len() as int,
            ),
            r matches Err(e) ==> index >= self.piece_count && e is Msg && e.text()
                == "piece index out of range"@,
    {
        let n: u32 = match self.piece_size(index) {
            Ok(n) => n,
            Err(e) => {
                return Err(e);
            },
        };
        proof {
            vstd::arithmetic::mul::lemma_mul_upper_bound(
                index as int,
                u32::MAX as int,
                self.piece_length as int,
                u32::MAX as int,
            );
        }
        Ok(self.spans_for_range(index as u64 * self.piece_length as u64, n as u64))
    }

    /// For each piece whether it is wanted.
    fn wanted_pieces(&self) -> (wanted: Vec<bool>)
        ensures
            wanted@ == Seq::new(
                self.piece_count as nat,
                |i: int| piece_is_wanted(self.files@, self.piece_length, i),
            ),
    {
        let mut wanted: Vec<bool> = Vec::new();
        let mut i: u32 = 0;
        while i < self.piece_count
            invariant
                i <= self.piece_count,
                wanted@.len() == i,
                forall|j: int|
                    0 <= j < i ==> #[trigger] wanted@[j] == piece_is_wanted(
                        self.files@,
                        self.piece_length,
                        j,
                    ),
            decreases self.piece_count - i,
        {
            wanted.push(self.wants(i));
            i += 1;
        }
        wanted
    }

    fn wants(&self, index: u32) -> (r: bool)
        ensures
            r == piece_is_wanted(self.files@, self.piece_length, index as int),
    {
        proof {
            vstd::arithmetic::mul::lemma_mul_upper_bound(
                index as int,
                u32::MAX as int,
                self.piece_length as int,
                u32::MAX as int,
            );
            vstd::arithmetic::mul::lemma_mul_is_distributive_add_other_way(
                self.piece_length as int,
                index as int,
                1,
            );
        }
        let begin: u64 = index as u64 * self.piece_length as u64;
        let end: u64 = begin + self.piece_length as u64;
        let mut f: usize = 0;
        while f < self.files.len()
            invariant
                f <= self.files@.len(),
                begin == index * self.piece_length,
                end == (index + 1) * self.piece_length,
                forall|g: int|
                    0 <= g < f ==> !#[trigger] file_wants(
                        self.files@[g],
                        self.piece_length,
                        index as int,
                    ),
            decreases self.files@.len() - f,
        {
            let x: &FileLayout = &self.files[f];
            if x.priority > 0 && x.size > 0 && x.offset < end && (x.offset > begin || begin
                - x.offset < x.size) {
                assert(file_wants(self.files@[f as int], self.piece_length, index as int));
                return true;
            }
            assert(!file_wants(self.files@[f as int], self.piece_length, index as int));
            f += 1;
        }
        false
    }
}

/// A torrent that is running. Its peers share it.
#[derive(Debug)]
pub struct HotTorrent {
    pub id: i64,
    pub infohash: [u8; 20],
    pub name: String,
    pub piece_count: u32,
    pub layout: StorageLayout,
    pub hashes: Vec<u8>,
    pub have: Vec<u8>,
    pub wanted: Vec<bool>,
    pub avail: Vec<u32>,
    pub claimed: Vec<bool>,
}

impl HotTorrent {
    /// Sizes of the tables agree with the number of pieces.
    pub closed spec fn wf(&self) -> bool {
        &&& self.layout.piece_count == self.piece_count
        &&& self.have@.len() == bytes_for(self.piece_count as int)
        &&& self.wanted@.len() == self.piece_count
        &&& self.avail@.len() == self.piece_count
        &&& self.claimed@.len() == self.piece_count
    }

    /// The pieces that are on disk, as a bitfield.
    pub closed spec fn bits(&self) -> Seq<u8> {
        self.have@
    }

    /// Whether a piece is on disk.
    pub open spec fn has(&self, i: u32) -> bool {
        i < self.piece_count && bit(self.bits(), i as int)
    }

    /// Whether a piece is wanted.
    pub closed spec fn wants(&self, i: u32) -> bool {
        i < self.piece_count && self.wanted@[i as int]
    }

    /// How many peers have a piece.
    pub closed spec fn availability(&self, i: u32) -> u32 {
        if i < self.piece_count {
            self.avail@[i as int]
        } else {
            0
        }
    }

    /// Whether a peer is fetching a piece.
    pub closed spec fn is_claimed(&self, i: u32) -> bool {
        i < self.piece_count && self.claimed@[i as int]
    }

    /// Length of a piece.
    pub closed spec fn piece_len(&self, i: u32) -> int {
        piece_len_at(self.layout.piece_length, self.layout.total_size, i as int)
    }

    /// The layout of the torrent's bytes.
    pub closed spec fn spec_layout(&self) -> StorageLayout {
        self.layout
    }

    /// Length of all pieces but the last.
    pub closed spec fn spec_piece_length(&self) -> u32 {
        self.layout.piece_length
    }

    /// Bytes in all.
    pub closed spec fn size(&self) -> u64 {
        self.layout.total_size
    }

    /// The hashes of the pieces, one after the other.
    pub closed spec fn hash_bytes(&self) -> Seq<u8> {
        self.hashes@
    }

    /// What never changes while a torrent runs.
    pub closed spec fn same_torrent(&self, other: &HotTorrent) -> bool {
        &&& self.id == other.id
        &&& self.infohash == other.infohash
        &&& self.name == other.name
        &&& self.piece_count == other.piece_count
        &&& self.layout == other.layout
        &&& self.hashes == other.hashes
        &&& self.wanted == other.wanted
    }

    /// The same torrent but for the claims on its pieces.
    pub closed spec fn same_but_claims(&self, other: &HotTorrent) -> bool {
        &&& self.same_torrent(other)
        &&& self.have == other.have
        &&& self.avail == other.avail
    }

    /// What a torrent keeps of another, as seen through its other functions.
    pub proof fn same_torrent_facts(&self, other: &HotTorrent)
        requires
            self.same_torrent(other) || self.same_but_claims(other),
        ensures
            self.same_torrent(other),
            self.id == other.id,
            self.infohash == other.infohash,
            self.name == other.name,
            self.piece_count == other.piece_count,
            self.spec_layout() == other.spec_layout(),
            self.spec_piece_length() == other.spec_piece_length(),
            self.size() == other.size(),
            self.hash_bytes() == other.hash_bytes(),
            forall|i: u32| #[trigger] self.wants(i) == other.wants(i),
            forall|i: u32| #[trigger] self.piece_len(i) == other.piece_len(i),
            self.same_but_claims(other) ==> self.bits() == other.bits() && (forall|i: u32|
                #[trigger] self.has(i) == other.has(i)) && (forall|i: u32| #[trigger]
                self.availability(i) == other.availability(i)),
    {
    }

    /// Being the same torrent goes in steps.
    pub proof fn same_in_steps(&self, mid: &HotTorrent, other: &HotTorrent)
        ensures
            self.same_torrent(self),
            self.same_but_claims(self),
            self.same_but_claims(mid) ==> self.same_torrent(mid),
            self.same_torrent(mid) && mid.same_torrent(other) ==> self.same_torrent(other),
            self.same_but_claims(mid) && mid.same_but_claims(other) ==> self.same_but_claims(
                other,
            ),
    {
    }

    /// A torrent of which no piece is on disk.
    pub fn new_empty(
        id: i64,
        infohash: [u8; 20],
        name: String,
        layout: StorageLayout,
        hashes: Vec<u8>,
    ) -> (t: HotTorrent)
        ensures
            t.wf(),
            t.id == id,
            t.infohash == infohash,
            t.name == name,
            t.spec_layout() == layout,
            t.piece_count == layout.piece_count,
            t.spec_piece_length() == layout.piece_length,
            t.size() == layout.total_size,
            t.hash_bytes() == hashes@,
            forall|i: u32| !(#[trigger] t.has(i)),
            forall|i: u32| !(#[trigger] t.is_claimed(i)),
            forall|i: u32| #[trigger] t.availability(i) == 0,
            forall|i: u32| #[trigger]
                t.wants(i) == (i < layout.piece_count && piece_is_wanted(
                    layout.files@,
                    layout.piece_length,
                    i as int,
                )),
            forall|i: u32| #[trigger]
                t.piece_len(i) == piece_len_at(layout.piece_length, layout.total_size, i as int),
    {
        let n: u32 = layout.piece_count;
        let wanted: Vec<bool> = layout.wanted_pieces();
        HotTorrent {
            id,
            infohash,
            name,
            piece_count: n,
            layout,
            hashes,
            have: empty_bitfield(n),
            wanted,
            avail: vec![0u32; n as usize],
            claimed: vec![false; n as usize],
        }
    }

    /// Give a file another priority: from now on the pieces of wanted files are wanted.
    pub fn set_file_priority(&mut self, file: u32, priority: i32)
        requires
            old(self).wf(),
        ensures
            final(self).wf(),
            final(self).id == old(self).id,
            final(self).infohash == old(self).infohash,
            final(self).name == old(self).name,
            final(self).piece_count == old(self).piece_count,
            final(self).hash_bytes() == old(self).hash_bytes(),
            final(self).bits() == old(self).bits(),
            forall|i: u32| #[trigger] final(self).is_claimed(i) == old(self).is_claimed(i),
            forall|i: u32| #[trigger] final(self).availability(i) == old(self).availability(i),
            final(self).spec_layout() == (StorageLayout {
                files: final(self).spec_layout().files,
                ..old(self).spec_layout()
            }),
            final(self).spec_layout().files@ == with_priority(
                old(self).spec_layout().files@,
                file as int,
                priority,
            ),
            forall|i: u32| #[trigger]
                final(self).wants(i) == (i < old(self).piece_count && piece_is_wanted(
                    final(self).spec_layout().files@,
                    old(self).spec_piece_length(),
                    i as int,
                )),
    {
        if (file as usize) < self.layout.files.len() {
            self.layout.files[file as usize].priority = priority;
        }
        self.wanted = self.layout.wanted_pieces();
    }

    /// The layout of the torrent's bytes.
    pub fn layout(&self) -> (r: &StorageLayout)
        requires
            self.wf(),
        ensures
            *r == self.spec_layout(),
            r.piece_count == self.piece_count,
            r.piece_length == self.spec_piece_length(),
            r.total_size == self.size(),
            forall|i: u32| #[trigger]
                self.piece_len(i) == piece_len_at(r.piece_length, r.total_size, i as int),
    {
        &self.layout
    }

    /// Whether a piece is on disk.
    pub fn has_piece(&self, index: u32) -> (r: bool)
        ensures
            r == self.has(index),
    {
        index < self.piece_count && bitfield_get(self.have.as_slice(), index)
    }

    /// Whether a piece is wanted.
    pub fn wants_piece(&self, index: u32) -> (r: bool)
        requires
            self.wf(),
        ensures
            r == self.wants(index),
    {
        index < self.piece_count && self.wanted[index as usize]
    }

    /// Whether a peer is fetching a piece.
    pub fn piece_is_claimed(&self, index: u32) -> (r: bool)
        requires
            self.wf(),
        ensures
            r == self.is_claimed(index),
    {
        index < self.piece_count && self.claimed[index as usize]
    }

    /// How many peers have a piece.
    pub fn piece_availability(&self, index: u32) -> (n: u32)
        requires
            self.wf(),
        ensures
            n == self.availability(index),
    {
        if index < self.piece_count {
            self.avail[index as usize]
        } else {
            0
        }
    }

    /// Length of a piece.
    pub fn piece_len_of(&self, index: u32) -> (n: u32)
        requires
            self.wf(),
            index < self.piece_count,
        ensures
            n == self.piece_len(index),
    {
        match self.layout.piece_size(index) {
            Ok(n) => n,
            Err(_) => 0,
        }
    }

    /// Only pieces of the torrent are wanted, on disk, or claimed.
    pub proof fn wanted_is_in_range(&self, i: u32)
        ensures
            self.wants(i) || self.has(i) || self.is_claimed(i) ==> i < self.piece_count,
            0 <= self.piece_len(i) <= self.spec_piece_length(),
    {
    }

    /// Number of pieces on disk.
    pub fn have_count(&self) -> (n: u32)
        requires
            self.wf(),
        ensures
            n == count_bits(self.bits(), self.piece_count as int),
    {
        count_have_bits(self.have.as_slice(), self.piece_count)
    }

    /// How many of the first `n` pieces a peer is fetching.
    pub open spec fn claims_among(&self, n: int) -> nat
        decreases n,
    {
        if n <= 0 {
            0
        } else {
            self.claims_among(n - 1) + if self.is_claimed((n - 1) as u32) {
                1
            } else {
                0nat
            }
        }
    }

    /// How many pieces peers are fetching.
    pub fn in_flight_count(&self) -> (n: u32)
        requires
            self.wf(),
        ensures
            n == self.claims_among(self.piece_count as int),
    {
        let mut n: u32 = 0;
        let mut i: u32 = 0;
        while i < self.piece_count
            invariant
                self.wf(),
                i <= self.piece_count,
                n <= i,
                n == self.claims_among(i as int),
            decreases self.piece_count - i,
        {
            if self.piece_is_claimed(i) {
                n += 1;
            }
            i += 1;
        }
        n
    }

    /// The pieces on disk, as a bitfield.
    pub fn bitfield_snapshot(&self) -> (bf: Vec<u8>)
        requires
            self.wf(),
        ensures
            bf@ == self.bits(),
            bf@.len() == bytes_for(self.piece_count as int),
    {
        copy_range(self.have.as_slice(), 0, self.have.len())
    }

    /// Every wanted piece is on disk.
    pub open spec fn complete(&self) -> bool {
        forall|i: u32| #[trigger] self.wants(i) ==> self.has(i)
    }

    /// Whether every wanted piece is on disk.
    pub fn is_download_complete(&self) -> (r: bool)
        requires
            self.wf(),
        ensures
            r == self.complete(),
    {
        let mut i: u32 = 0;
        while i < self.piece_count
            invariant
                self.wf(),
                i <= self.piece_count,
                forall|j: u32| j < i && #[trigger] self.wants(j) ==> self.has(j),
            decreases self.piece_count - i,
        {
            if self.wants_piece(i) && !self.has_piece(i) {
                assert(self.wants(i) && !self.has(i));
                return false;
            }
            i += 1;
        }
        true
    }

    /// Whether every piece is on disk, wanted or not.
    pub fn is_complete(&self) -> (r: bool)
        requires
            self.wf(),
        ensures
            r == (forall|i: u32| i < self.piece_count ==> #[trigger] self.has(i)),
    {
        let mut i: u32 = 0;
        while i < self.piece_count
            invariant
                self.wf(),
                i <= self.piece_count,
                forall|j: u32| j < i ==> #[trigger] self.has(j),
            decreases self.piece_count - i,
        {
            if !self.has_piece(i) {
                assert(!self.has(i));
                return false;
            }
            i += 1;
        }
        true
    }

    /// The hash that a piece must have, where the torrent names one.
    pub open spec fn expected_hash(&self, index: u32) -> Option<Seq<u8>> {
        if 20 * index + 20 <= self.hash_bytes().len() {
            Some(self.hash_bytes().subrange(20 * index as int, 20 * index + 20))
        } else {
            None
        }
    }

    /// The hash that a piece must have.
    pub fn piece_hash(&self, index: u32) -> (r: Result<Vec<u8>>)
        ensures
            r matches Ok(h) ==> self.expected_hash(index) == Some(h@),
            r matches Err(e) ==> self.expected_hash(index) is None && e is Msg && e.text()
                == "piece index out of range"@,
    {
        let n: usize = self.hashes.len();
        if index as usize >= n / 20 {
            return Err(Error::msg("piece index out of range"));
        }
        let at: usize = index as usize * 20;
        Ok(copy_range(self.hashes.as_slice(), at, at + 20))
    }

    /// Each piece has the twenty bytes of its place in the list of hashes, and no other piece
    /// has a hash.
    pub proof fn hashes_stand_in_the_order_of_pieces(&self, index: u32, k: int)
        requires
            0 <= k < 20,
        ensures
            self.expected_hash(index) is Some <==> index < self.hash_bytes().len() / 20,
            self.expected_hash(index) matches Some(h) ==> h.len() == 20 && h[k]
                == self.hash_bytes()[20 * index + k],
    {
    }

    /// A torrent is complete exactly while no wanted piece is missing.
    pub proof fn a_missing_piece_keeps_it_incomplete(&self, i: u32)
        ensures
            self.wants(i) && !self.has(i) ==> !self.complete(),
            (forall|j: u32| j < self.piece_count ==> #[trigger] self.has(j)) ==> self.complete(),
            (forall|j: u32| !(#[trigger] self.wants(j))) ==> self.complete(),
    {
        if forall|j: u32| j < self.piece_count ==> #[trigger] self.has(j) {
            assert forall|j: u32| #[trigger] self.wants(j) implies self.has(j) by {
                self.wanted_is_in_range(j);
            }
        }
    }

    /// One more piece on disk is as many more bytes as it is long, and one more claim is one
    /// more piece that is fetched.
    pub proof fn counts_go_up_by_one_piece(&self, after: &HotTorrent, k: u32, n: int)
        requires
            k < n <= self.piece_count,
            after.piece_count == self.piece_count,
            after.spec_layout() == self.spec_layout(),
        ensures
            !self.has(k) && (forall|i: u32| #[trigger]
                after.has(i) == (self.has(i) || i == k)) ==> after.bytes_had(n) == self.bytes_had(n)
                + self.piece_len(k),
            !self.is_claimed(k) && (forall|i: u32| #[trigger]
                after.is_claimed(i) == (self.is_claimed(i) || i == k)) ==> after.claims_among(n)
                == self.claims_among(n) + 1,
    {
        if !self.has(k) && (forall|i: u32| #[trigger]
            after.has(i) == (self.has(i) || i == k)) {
            self.one_more_had(after, k, n);
        }
        if !self.is_claimed(k) && (forall|i: u32| #[trigger]
            after.is_claimed(i) == (self.is_claimed(i) || i == k)) {
            self.one_more_claimed(after, k, n);
        }
    }

    proof fn one_more_had(&self, after: &HotTorrent, k: u32, n: int)
        requires
            0 <= n <= self.piece_count,
            after.spec_layout() == self.spec_layout(),
            !self.has(k),
            forall|i: u32| #[trigger] after.has(i) == (self.has(i) || i == k),
        ensures
            after.bytes_had(n) == self.bytes_had(n) + if k < n {
                self.piece_len(k)
            } else {
                0
            },
        decreases n,
    {
        if n > 0 {
            self.one_more_had(after, k, n - 1);
            let last = (n - 1) as u32;
            assert(last as int == n - 1);
            assert(after.has(last) == (self.has(last) || last == k));
        }
    }

    proof fn one_more_claimed(&self, after: &HotTorrent, k: u32, n: int)
        requires
            0 <= n <= self.piece_count,
            !self.is_claimed(k),
            forall|i: u32| #[trigger] after.is_claimed(i) == (self.is_claimed(i) || i == k),
        ensures
            after.claims_among(n) == self.claims_among(n) + if k < n {
                1int
            } else {
                0
            },
        decreases n,
    {
        if n > 0 {
            self.one_more_claimed(after, k, n - 1);
            let last = (n - 1) as u32;
            assert(last as int == n - 1);
            assert(after.is_claimed(last) == (self.is_claimed(last) || last == k));
        }
    }

    /// A piece is on disk now; nobody fetches it any longer.
    pub fn mark_have(&mut self, index: u32)
        requires
            old(self).wf(),
        ensures
            final(self).wf(),
            final(self).same_torrent(old(self)),
            forall|i: u32| #[trigger]
                final(self).has(i) == (old(self).has(i) || (i == index && i
                    < old(self).piece_count)),
            forall|i: u32| #[trigger]
                final(self).is_claimed(i) == (old(self).is_claimed(i) && i != index),
            forall|i: u32| #[trigger] final(self).availability(i) == old(self).availability(i),
    {
        if index < self.piece_count {
            let set: bool = bitfield_set(&mut self.have, index);
            self.claimed.set(index as usize, false);
        }
    }

    /// Take a piece for fetching. Outside endgame only one peer may.
    pub fn try_claim_piece(&mut self, index: u32, endgame: bool) -> (r: bool)
        requires
            old(self).wf(),
        ensures
            final(self).wf(),
            final(self).same_but_claims(old(self)),
            r == (index < old(self).piece_count && (endgame || !old(self).is_claimed(index))),
            forall|i: u32| #[trigger]
                final(self).is_claimed(i) == (old(self).is_claimed(i) || (r && i == index)),
    {
        if index >= self.piece_count {
            return false;
        }
        if !endgame && self.claimed[index as usize] {
            return false;
        }
        self.claimed.set(index as usize, true);
        true
    }

    /// A piece is no longer fetched.
    pub fn release_piece_claim(&mut self, index: u32)
        requires
            old(self).wf(),
        ensures
            final(self).wf(),
            final(self).same_but_claims(old(self)),
            forall|i: u32| #[trigger]
                final(self).is_claimed(i) == (old(self).is_claimed(i) && i != index),
    {
        if index < self.piece_count {
            self.claimed.set(index as usize, false);
        }
    }

    /// One more peer has a piece.
    pub fn avail_inc(&mut self, index: u32)
        requires
            old(self).wf(),
        ensures
            final(self).wf(),
            final(self).same_but_avail(old(self)),
            forall|i: u32| #[trigger]
                final(self).availability(i) == if i == index && i < old(self).piece_count && old(
                    self,
                ).availability(i) < u32::MAX {
                    (old(self).availability(i) + 1) as u32
                } else {
                    old(self).availability(i)
                },
    {
        if index < self.piece_count {
            let n: u32 = self.avail[index as usize];
            if n < u32::MAX {
                self.avail.set(index as usize, n + 1);
            }
        }
    }

    /// One peer less has a piece.
    pub fn avail_dec(&mut self, index: u32)
        requires
            old(self).wf(),
        ensures
            final(self).wf(),
            final(self).same_but_avail(old(self)),
            forall|i: u32| #[trigger]
                final(self).availability(i) == if i == index && old(self).availability(i) > 0 {
                    (old(self).availability(i) - 1) as u32
                } else {
                    old(self).availability(i)
                },
    {
        if index < self.piece_count {
            let n: u32 = self.avail[index as usize];
            if n > 0 {
                self.avail.set(index as usize, n - 1);
            }
        }
    }

    /// The same torrent but for the peers that have its pieces.
    pub closed spec fn same_but_avail(&self, other: &HotTorrent) -> bool {
        &&& self.same_torrent(other)
        &&& self.have == other.have
        &&& self.claimed == other.claimed
    }

    /// What a torrent with other peers keeps.
    pub proof fn same_but_avail_facts(&self, mid: &HotTorrent, other: &HotTorrent)
        ensures
            self.same_but_avail(self),
            self.same_but_avail(mid) && mid.same_but_avail(other) ==> self.same_but_avail(other),
            self.same_but_avail(other) ==> self.same_torrent(other) && self.bits() == other.bits()
                && (forall|i: u32| #[trigger] self.has(i) == other.has(i)) && (forall|i: u32|
                #[trigger] self.is_claimed(i) == other.is_claimed(i)),
    {
    }

    /// Bytes on disk: the lengths of the first `n` pieces that are there.
    pub open spec fn bytes_had(&self, n: int) -> int
        decreases n,
    {
        if n <= 0 {
            0
        } else {
            self.bytes_had(n - 1) + if self.has((n - 1) as u32) {
                self.piece_len((n - 1) as u32)
            } else {
                0
            }
        }
    }

    /// Bytes on disk stay within the torrent's size.
    pub proof fn bytes_had_bound(&self, n: int)
        requires
            0 <= n <= u32::MAX + 1,
        ensures
            0 <= self.bytes_had(n) <= self.size(),
            self.bytes_had(n) <= n * self.spec_piece_length(),
        decreases n,
    {
        if n > 0 {
            self.bytes_had_bound(n - 1);
            vstd::arithmetic::mul::lemma_mul_is_distributive_sub_other_way(
                self.spec_piece_length() as int,
                n,
                1,
            );
            assert(((n - 1) as u32) as int == n - 1);
        }
    }

    /// Bytes on disk.
    pub fn completed_bytes(&self) -> (b: u64)
        requires
            self.wf(),
        ensures
            b == self.bytes_had(self.piece_count as int),
            b <= self.size(),
    {
        let mut b: u64 = 0;
        let mut i: u32 = 0;
        while i < self.piece_count
            invariant
                self.wf(),
                i <= self.piece_count,
                b == self.bytes_had(i as int),
                b <= self.size(),
            decreases self.piece_count - i,
        {
            proof {
                self.bytes_had_bound(i + 1);
            }
            if self.has_piece(i) {
                if let Ok(n) = self.layout.piece_size(i) {
                    b = b + n as u64;
                }
            }
            i += 1;
        }
        proof {
            self.bytes_had_bound(i as int);
        }
        b
    }

    /// Bytes that are missing, of wanted pieces and of others.
    pub fn left_bytes(&self) -> (b: u64)
        requires
            self.wf(),
        ensures
            b == self.size() - self.bytes_had(self.piece_count as int),
    {
        self.layout.total_size - self.completed_bytes()
    }

    /// The pieces make up the whole torrent, and none of them is empty.
    pub open spec fn pieces_fit(&self) -> bool {
        &&& self.piece_count * self.spec_piece_length() >= self.size()
        &&& forall|i: u32| i < self.piece_count ==> #[trigger] self.piece_len(i) > 0
    }

    /// Nothing is left exactly where every piece is on disk.
    pub proof fn complete_means_nothing_left(&self)
        requires
            self.wf(),
            self.pieces_fit(),
        ensures
            (forall|i: u32| i < self.piece_count ==> #[trigger] self.has(i)) <==> self.size()
                - self.bytes_had(self.piece_count as int) == 0,
    {
        self.all_had_upto(self.piece_count as int);
    }

    proof fn all_had_upto(&self, n: int)
        requires
            0 <= n <= self.piece_count,
            forall|i: u32| i < self.piece_count ==> #[trigger] self.piece_len(i) > 0,
        ensures
            ({
                let upto = if n * self.spec_piece_length() < self.size() {
                    n * self.spec_piece_length()
                } else {
                    self.size() as int
                };
                &&& self.bytes_had(n) <= upto
                &&& (forall|i: u32| i < n ==> #[trigger] self.has(i)) <==> self.bytes_had(n)
                    == upto
            }),
        decreases n,
    {
        let plen = self.spec_piece_length() as int;
        if n == 0 {
            vstd::arithmetic::mul::lemma_mul_basics(plen);
            assert(n * plen == 0 * plen);
        } else {
            self.all_had_upto(n - 1);
            let k = (n - 1) as u32;
            assert(k as int == n - 1);
            vstd::arithmetic::mul::lemma_mul_is_distributive_sub_other_way(plen, n, 1);
            assert(self.piece_len(k) > 0);
            let below = forall|i: u32| i < n - 1 ==> #[trigger] self.has(i);
            assert((forall|i: u32| i < n ==> #[trigger] self.has(i)) == (below && self.has(k))) by {
                if below && self.has(k) {
                    assert forall|i: u32| i < n implies #[trigger] self.has(i) by {
                        if i != k {
                            assert(i < n - 1);
                        }
                    }
                }
            }
        }
    }
}

/// Which pieces of a peer are counted in the torrent's availability.
#[derive(Debug)]
pub struct PeerAvailability {
    counted: Vec<u8>,
}

impl PeerAvailability {
    /// One bit per piece of the torrent.
    pub closed spec fn wf(&self, t: &HotTorrent) -> bool {
        self.counted@.len() == bytes_for(t.piece_count as int)
    }

    /// Whether a piece of the peer is counted.
    pub closed spec fn counts(&self, i: u32) -> bool {
        bit(self.counted@, i as int)
    }

    /// Validity depends on the number of pieces alone.
    pub proof fn wf_of_same(&self, a: &HotTorrent, b: &HotTorrent)
        requires
            a.piece_count == b.piece_count,
        ensures
            self.wf(a) == self.wf(b),
    {
    }

    /// No piece of the peer is counted yet.
    pub fn new(t: &HotTorrent) -> (a: PeerAvailability)
        ensures
            a.wf(t),
            forall|i: u32| !(#[trigger] a.counts(i)),
    {
        PeerAvailability { counted: empty_bitfield(t.piece_count) }
    }

    /// The peer has a piece: it is counted once.
    pub fn on_have(&mut self, t: &mut HotTorrent, index: u32)
        requires
            old(t).wf(),
            old(self).wf(old(t)),
        ensures
            final(t).wf(),
            final(self).wf(final(t)),
            final(t).same_but_avail(old(t)),
            forall|i: u32| #[trigger]
                final(self).counts(i) == (old(self).counts(i) || (i == index && i
                    < old(t).piece_count)),
            forall|i: u32| #[trigger]
                final(t).availability(i) == counted_up(
                    old(t).availability(i),
                    i == index && i < old(t).piece_count && !old(self).counts(i),
                ),
    {
        let ghost t0 = *t;
        proof {
            t0.same_but_avail_facts(&t0, &t0);
        }
        if index >= t.piece_count || bitfield_get(self.counted.as_slice(), index) {
            return;
        }
        let set: bool = bitfield_set(&mut self.counted, index);
        assert(set);
        t.avail_inc(index);
    }

    /// The peer has exactly the pieces of `bf`: those it lost are counted down, those it
    /// gained are counted up.
    pub fn on_bitfield(&mut self, t: &mut HotTorrent, bf: &[u8])
        requires
            old(t).wf(),
            old(self).wf(old(t)),
        ensures
            final(t).wf(),
            final(self).wf(final(t)),
            final(t).same_but_avail(old(t)),
            forall|i: u32| #[trigger]
                final(self).counts(i) == (i < old(t).piece_count && bit(bf@, i as int)),
            forall|i: u32| #[trigger]
                final(t).availability(i) == recounted(
                    old(t).availability(i),
                    i < old(t).piece_count && old(self).counts(i),
                    i < old(t).piece_count && bit(bf@, i as int),
                ),
    {
        let n: u32 = t.piece_count;
        let mut now: Vec<u8> = empty_bitfield(n);
        let mut i: u32 = 0;
        let ghost t0 = *t;
        proof {
            t0.same_but_avail_facts(&t0, &t0);
        }
        while i < n
            invariant
                i <= n,
                n == t0.piece_count,
                n == t.piece_count,
                t0 == *old(t),
                t.wf(),
                t.same_but_avail(&t0),
                self.counted@ == old(self).counted@,
                self.counted@.len() == bytes_for(n as int),
                now@.len() == bytes_for(n as int),
                forall|j: u32| #[trigger]
                    bit(now@, j as int) == (j < i && bit(bf@, j as int)),
                forall|j: u32| #[trigger]
                    t.availability(j) == recounted(
                        t0.availability(j),
                        j < i && bit(self.counted@, j as int),
                        j < i && bit(bf@, j as int),
                    ),
            decreases n - i,
        {
            let was: bool = bitfield_get(self.counted.as_slice(), i);
            let now_has: bool = bitfield_get(bf, i);
            let ghost t1 = *t;
            let ghost now1 = now@;
            if now_has {
                let set: bool = bitfield_set(&mut now, i);
                assert(set);
            }
            if now_has && !was {
                t.avail_inc(i);
            } else if was && !now_has {
                t.avail_dec(i);
            } else {
                proof {
                    t1.same_but_avail_facts(&t1, &t1);
                }
            }
            proof {
                t.same_but_avail_facts(&t1, &t0);
                t.same_torrent_facts(&t0);
                assert forall|j: u32| #[trigger]
                    t.availability(j) == recounted(
                        t0.availability(j),
                        j < i + 1 && bit(self.counted@, j as int),
                        j < i + 1 && bit(bf@, j as int),
                    ) by {
                    assert(t1.availability(j) == recounted(
                        t0.availability(j),
                        j < i && bit(self.counted@, j as int),
                        j < i && bit(bf@, j as int),
                    ));
                }
                assert forall|j: u32| #[trigger]
                    bit(now@, j as int) == (j < i + 1 && bit(bf@, j as int)) by {
                    assert(bit(now1, j as int) == (j < i && bit(bf@, j as int)));
                }
            }
            i += 1;
        }
        self.counted = now;
    }

    /// The peer is gone: none of its pieces is counted any longer.
    pub fn leave(&mut self, t: &mut HotTorrent)
        requires
            old(t).wf(),
            old(self).wf(old(t)),
        ensures
            final(t).wf(),
            final(self).wf(final(t)),
            final(t).same_but_avail(old(t)),
            forall|i: u32| !(#[trigger] final(self).counts(i)),
            forall|i: u32| #[trigger]
                final(t).availability(i) == recounted(
                    old(t).availability(i),
                    i < old(t).piece_count && old(self).counts(i),
                    false,
                ),
    {
        let none: Vec<u8> = empty_bitfield(t.piece_count);
        self.on_bitfield(t, none.as_slice());
    }
}

/// A count with one more where `more`, clipped at the largest number.
pub open spec fn counted_up(n: u32, more: bool) -> u32 {
    if more && n < u32::MAX {
        (n + 1) as u32
    } else {
        n
    }
}

/// A count after one peer went from `was` to `now_has`.
pub open spec fn recounted(n: u32, was: bool, now_has: bool) -> u32 {
    if now_has && !was {
        counted_up(n, true)
    } else if was && !now_has && n > 0 {
        (n - 1) as u32
    } else {
        n
    }
}

/// A peer is counted once for a piece that it has: one more when it gets the piece, one less
/// when it loses it, no change where it had it before or has it not.
pub proof fn each_peer_counts_once(n: u32)
    requires
        n < u32::MAX,
    ensures
        recounted(n, false, true) == n + 1,
        recounted((n + 1) as u32, true, false) == n,
        recounted(n, true, true) == n,
        recounted(n, false, false) == n,
        counted_up(n, true) == n + 1,
        counted_up(n, false) == n,
        recounted(0, true, false) == 0,
        counted_up(u32::MAX, true) == u32::MAX,
{
}

/// A peer that comes and goes leaves a count as it was, below the largest number.
pub proof fn a_visit_leaves_no_trace(n: u32, now_has: bool)
    requires
        n < u32::MAX,
    ensures
        recounted(recounted(n, false, now_has), now_has, false) == n,
{
}

/// A file wants a piece where it is wanted itself and shares a byte with it.
pub proof fn files_want_the_pieces_they_lie_in(f: FileLayout, piece_length: u32, index: int, b: int)
    requires
        f.priority > 0,
        piece_length > 0,
        f.offset <= b < f.offset + f.size,
    ensures
        index * piece_length <= b < (index + 1) * piece_length ==> file_wants(
            f,
            piece_length,
            index,
        ),
        file_wants(f, piece_length, index) ==> index * piece_length < f.offset + f.size && f.offset
            < (index + 1) * piece_length,
        larger(index, b) >= index && larger(index, b) >= b && (larger(index, b) == index || larger(
            index,
            b,
        ) == b),
{
}

/// Each piece that a peer is fetching is counted once.
pub proof fn each_claim_counts_once(t: &HotTorrent, n: int)
    requires
        0 <= n < u32::MAX,
    ensures
        t.claims_among(0) == 0,
        t.is_claimed(n as u32) ==> t.claims_among(n + 1) == t.claims_among(n) + 1,
        !t.is_claimed(n as u32) ==> t.claims_among(n + 1) == t.claims_among(n),
{
}

/// A file that is not wanted, or is empty, wants no piece.
pub proof fn other_files_want_nothing(f: FileLayout, piece_length: u32, index: int)
    ensures
        f.priority <= 0 || f.size == 0 ==> !file_wants(f, piece_length, index),
{
}

} // verus!
