//! Files prepared for retrieval: loading, and word chunking with overlap.

use vstd::prelude::*;
use crate::text::{chars_of, join, join_with, split_words, string_from, views, words};

verus! {

/// The kinds of file the retrieval pipeline reads.
#[derive(Debug, Clone, Copy, PartialEq, Eq, Structural)]
pub enum RagProcessableFileType {
    Text,
    Markdown,
    Pdf,
}

/// A file found on disk, with what is known of it before it is read.
#[derive(Debug)]
pub struct RagProcessableFile {
    /// The file's path, as text.
    pub path: String,
    pub file_type: RagProcessableFileType,
    pub internal_id: String,
    pub original_name: String,
    pub file_description: Option<String>,
    pub tags: Option<Vec<String>>,
}

/// A file whose text has been read.
#[derive(Debug)]
pub struct LoadedFile {
    pub file_type: RagProcessableFileType,
    pub content: String,
    pub original_file_description: Option<String>,
    pub syntetic_file_description: Option<String>,
    pub internal_id: String,
    pub tags: Option<Vec<String>>,
}

/// A piece of a file's text with its place in the file.
#[derive(Debug)]
pub struct Chunk {
    pub seq_num: i32,
    pub text: String,
}

/// A file cut into chunks, keeping the file's metadata.
#[derive(Debug)]
pub struct ChunkedFile<T> {
    pub file_type: RagProcessableFileType,
    pub chunks: Vec<T>,
    pub internal_id: String,
    pub original_file_description: Option<String>,
    pub syntetic_file_description: Option<String>,
    pub tags: Option<Vec<String>>,
}

/// How a file is cut into chunks.
pub enum ChunkingStrategy {
    /// Windows of the given number of words, consecutive windows sharing the given number of words.
    Word(i32, i32),
}

/// The loaded form of a file, given the text read from it: the file's type,
/// id, tags and description are kept, and no synthetic description is set yet.
pub open spec fn loaded(file: RagProcessableFile, content: Seq<char>, r: LoadedFile) -> bool {
    &&& r.file_type == file.file_type
    &&& r.content@ == content
    &&& r.internal_id == file.internal_id
    &&& r.tags == file.tags
    &&& r.original_file_description == file.file_description
    &&& r.syntetic_file_description is None
}

/// Builds the loaded file from the text that was read from `file`.
pub fn load_file(file: RagProcessableFile, content: String) -> (r: LoadedFile)
    ensures
        loaded(file, content@, r),
{
    LoadedFile {
        file_type: file.file_type,
        content,
        original_file_description: file.file_description,
        syntetic_file_description: None,
        internal_id: file.internal_id,
        tags: file.tags,
    }
}

/// The step between the starts of consecutive windows: `size - overlap`, or 0 when the overlap is not smaller.
pub open spec fn window_step(size: nat, overlap: nat) -> nat {
    if size > overlap {
        (size - overlap) as nat
    } else {
        0
    }
}

/// The number of windows that cover `len` words.
pub open spec fn window_count(len: nat, size: nat, step: nat, n: nat) -> bool {
    if len == 0 {
        n == 0
    } else {
        &&& n >= 1
        &&& (n - 1) * step + size >= len
        &&& n >= 2 ==> (n - 2) * step + size < len
    }
}

/// Chunking ends: either one window takes every word, or windows advance.
pub open spec fn chunking_ends(len: nat, size: nat, overlap: nat) -> bool {
    len <= size || window_step(size, overlap) > 0
}

/// Word windows leave no word out: every word lies in some window.
pub proof fn lemma_windows_cover(len: nat, size: nat, overlap: nat, n: nat, i: nat)
    requires
        chunking_ends(len, size, overlap),
        window_count(len, size, window_step(size, overlap), n),
        i < len,
    ensures
        exists|k: nat| k < n && #[trigger] (k * window_step(size, overlap)) <= i
            && i < k * window_step(size, overlap) + size,
{
    let step = window_step(size, overlap);
    if step == 0 {
        assert(len <= size);
        assert(0 * step == 0);
        assert(0 < n);
    } else {
        assert(step <= size);
        let q: nat = i / step;
        assert(q * step <= i) by (nonlinear_arith)
            requires q == i / step, step > 0;
        assert(i < q * step + step) by (nonlinear_arith)
            requires q == i / step, step > 0;
        if q < n {
            assert(q * step <= i && i < q * step + size);
        } else {
            let k: nat = (n - 1) as nat;
            assert(k * step <= q * step) by (nonlinear_arith)
                requires k < q;
            assert(k * step <= i && i < k * step + size);
        }
    }
}

/// The text of window `k`: words `k*step` up to `k*step + size` (or the end), joined by spaces.
pub open spec fn window_text(ws: Seq<Seq<char>>, size: nat, step: nat, k: nat) -> Seq<char> {
    let start: int = (k * step) as int;
    let end: int = if start + size < ws.len() { start + size } else { ws.len() as int };
    join(ws.subrange(start, end), " "@)
}

/// The chunks of `content` under word windows of `size` with `overlap`.
pub open spec fn word_chunks(content: Seq<char>, size: nat, overlap: nat, chunks: Seq<Chunk>) -> bool {
    let ws = words(content);
    let step = window_step(size, overlap);
    &&& window_count(ws.len(), size, step, chunks.len())
    &&& forall|k: int| 0 <= k < chunks.len() ==> (#[trigger] chunks[k]).seq_num == k
        && chunks[k].text@ == window_text(ws, size, step, k as nat)
}

/// Cuts a loaded file into windows of `chunk_size` words, consecutive windows
/// sharing `overlap` words. Both numbers are read as `usize`, as the cast `as
/// usize` reads them. Requires that the windows advance (the cutting would
/// never end otherwise) and that the chunk numbers fit an `i32`.
pub fn simple_word_chunking(file: LoadedFile, chunk_size: &i32, overlap: &i32) -> (r: ChunkedFile<Chunk>)
    requires
        chunking_ends(words(file.content@).len(), (*chunk_size as usize) as nat, (*overlap as usize) as nat),
        words(file.content@).len() <= i32::MAX,
    ensures
        word_chunks(file.content@, (*chunk_size as usize) as nat, (*overlap as usize) as nat, r.chunks@),
        r.file_type == file.file_type,
        r.internal_id == file.internal_id,
        r.tags == file.tags,
        r.original_file_description == file.original_file_description,
        r.syntetic_file_description == file.syntetic_file_description,
{
    let size: usize = *chunk_size as usize;
    let ov: usize = *overlap as usize;
    let content = chars_of(file.content.as_str());
    let ws = split_words(&content);
    let ghost wv = views(ws@);
    let step: usize = if size > ov { size - ov } else { 0 };
    let mut chunks: Vec<Chunk> = Vec::new();
    let mut start: usize = 0;
    let mut id: i32 = 0;
    if ws.len() > 0 {
        loop
            invariant_except_break
                0 <= id,
                chunks.len() == id,
                start == id * step,
                start < ws.len(),
                id >= 1 ==> (id - 1) * step + size < ws.len(),
            invariant
                wv == views(ws@),
                wv == words(file.content@),
                step == window_step(size as nat, ov as nat),
                chunking_ends(wv.len(), size as nat, ov as nat),
                wv.len() <= i32::MAX,
                forall|k: int| 0 <= k < chunks.len() ==> (#[trigger] chunks@[k]).seq_num == k
                    && chunks@[k].text@ == window_text(wv, size as nat, step as nat, k as nat),
            ensures
                window_count(wv.len(), size as nat, step as nat, chunks.len() as nat),
            decreases ws.len() - start,
        {
            let end: usize = if size < ws.len() - start { start + size } else { ws.len() };
            let mut piece: Vec<Vec<char>> = Vec::new();
            let mut j: usize = start;
            while j < end
                invariant
                    start <= j <= end <= ws.len(),
                    wv == views(ws@),
                    views(piece@) == wv.subrange(start as int, j as int),
                decreases end - j,
            {
                let w = crate::text::slice_of(&ws[j], 0, ws[j].len());
                let ghost pv = piece@;
                piece.push(w);
                j = j + 1;
                proof {
                    assert(ws@[j - 1]@.subrange(0, ws@[j - 1]@.len() as int) =~= ws@[j - 1]@);
                    assert(views(piece@) =~= views(pv).push(w@));
                    assert(views(piece@) =~= wv.subrange(start as int, j as int));
                }
            }
            let text = join_with(&piece, &[' ']);
            proof {
                assert([' ']@ =~= " "@) by {
                    reveal_strlit(" ");
                }
                assert(text@ == window_text(wv, size as nat, step as nat, id as nat));
            }
            let ghost old_chunks = chunks@;
            chunks.push(Chunk { seq_num: id, text: string_from(text.as_slice()) });
            proof {
                assert forall|k: int| 0 <= k < chunks.len() implies (#[trigger] chunks@[k]).seq_num == k
                    && chunks@[k].text@ == window_text(wv, size as nat, step as nat, k as nat) by {
                    if k < id {
                        assert(chunks@[k] == old_chunks[k]);
                    }
                }
            }
            if end >= ws.len() {
                proof {
                    assert(id * step + size >= ws.len());
                    assert(window_count(wv.len(), size as nat, step as nat, chunks.len() as nat));
                }
                break;
            }
            proof {
                assert(step > 0);
                assert((id + 1) * step == id * step + step) by (nonlinear_arith);
                assert(step <= size);
                assert(id + 1 <= ws.len()) by (nonlinear_arith)
                    requires id * step + size < ws.len(), step > 0, id >= 0;
            }
            start = start + step;
            id = id + 1;
            if start >= ws.len() {
                proof {
                    assert(start + size >= ws.len());
                    assert(false) by (nonlinear_arith)
                        requires start == id * step, (id - 1) * step + size < ws.len(), step <= size, start >= ws.len(), id >= 1;
                }
                break;
            }
        }
    } else {
        proof {
            assert(window_count(wv.len(), size as nat, step as nat, 0));
        }
    }
    ChunkedFile {
        file_type: file.file_type,
        chunks,
        internal_id: file.internal_id,
        original_file_description: file.original_file_description,
        syntetic_file_description: file.syntetic_file_description,
        tags: file.tags,
    }
}

/// Cuts a loaded file into chunks by the given strategy.
pub fn chunk(file: LoadedFile, strategy: ChunkingStrategy) -> (r: ChunkedFile<Chunk>)
    requires
        match strategy {
            ChunkingStrategy::Word(size, overlap) => chunking_ends(words(file.content@).len(),
                (size as usize) as nat, (overlap as usize) as nat) && words(file.content@).len() <= i32::MAX,
        },
    ensures
        match strategy {
            ChunkingStrategy::Word(size, overlap) => word_chunks(file.content@, (size as usize) as nat,
                (overlap as usize) as nat, r.chunks@),
        },
        r.file_type == file.file_type,
        r.internal_id == file.internal_id,
{
    match &strategy {
        ChunkingStrategy::Word(size, overlap) => simple_word_chunking(file, size, overlap),
    }
}

/// The file with its chunks replaced (by their question-augmented form, for
/// one), its metadata kept.
pub fn replace_chunks<T, U>(file: ChunkedFile<T>, chunks: Vec<U>) -> (r: ChunkedFile<U>)
    ensures
        r.chunks == chunks,
        r.file_type == file.file_type,
        r.internal_id == file.internal_id,
        r.tags == file.tags,
        r.original_file_description == file.original_file_description,
        r.syntetic_file_description == file.syntetic_file_description,
{
    ChunkedFile {
        file_type: file.file_type,
        chunks,
        internal_id: file.internal_id,
        original_file_description: file.original_file_description,
        syntetic_file_description: file.syntetic_file_description,
        tags: file.tags,
    }
}

} // verus!
