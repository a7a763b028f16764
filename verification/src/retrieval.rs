//! Retrieval records: question-augmented chunks and the points made of them,
//! search hits read back from the vector store and rendered for the model,
//! duplicate hits, and the files a document folder offers.

use vstd::prelude::*;
use crate::chunking::{Chunk, RagProcessableFile, RagProcessableFileType};
use crate::question::{default_model, default_system_prompt, Question, QuestionView};
use crate::text::{
    chars_of, copy_chars, join, join_with, lowercase, push_all, push_str, replace, replace_all,
    same_chars, split, split_by, string_from, to_lowercase, trim, trimmed, views,
};

verus! {

/// A question to the document collection and how many passages to return.
#[derive(Debug, Clone)]
pub struct StructRequest {
    pub question: String,
    pub k: u64,
}

/* ------------------------------------------------------------------ */
/*  Identifiers                                                         */
/* ------------------------------------------------------------------ */

/// A lower-case hexadecimal digit.
pub open spec fn is_hex_lower(c: char) -> bool {
    ('0' <= c && c <= '9') || ('a' <= c && c <= 'f')
}

/// A version-4 UUID written out: 36 characters, hyphens after the 8th,
/// 12th, 16th and 20th hexadecimal digit, lower-case digits, the version digit
/// `4` and a variant digit of `8`, `9`, `a` or `b`.
pub open spec fn is_uuid_v4_text(s: Seq<char>) -> bool {
    &&& s.len() == 36
    &&& forall|i: int| 0 <= i < 36 ==> if i == 8 || i == 13 || i == 18 || i == 23 {
        #[trigger] s[i] == '-'
    } else {
        is_hex_lower(s[i])
    }
    &&& s[14] == '4'
    &&& (s[19] == '8' || s[19] == '9' || s[19] == 'a' || s[19] == 'b')
}

/// A fresh random identifier: `uuid::Uuid::new_v4` written out with its
/// `Display`, the hyphenated lower-case form. Which identifier comes out is
/// left open; only its form is claimed.
#[verifier::external_body]
fn fresh_uuid() -> (r: String)
    ensures
        is_uuid_v4_text(r@),
{
    uuid::Uuid::new_v4().to_string()
}

/* ------------------------------------------------------------------ */
/*  Question-augmented chunks                                           */
/* ------------------------------------------------------------------ */

/// A chunk with the questions it answers and, once computed, one embedding
/// per question.
#[derive(Debug)]
pub struct HypeChunk<E> {
    pub seq_num: i32,
    pub text: String,
    pub questions: Vec<String>,
    pub embedding_vector: Option<Vec<E>>,
}

/// A point ready for the vector store: one question's embedding with the
/// chunk it belongs to.
#[derive(Debug)]
pub struct EmbeddedChunk<E> {
    pub embedding_vector: E,
    pub id: String,
    pub doc_id: String,
    pub doc_seq_num: i32,
    pub doc_summary: String,
    pub content: String,
    /// The question the embedding was made from.
    pub additional_data: String,
}

/// Why a chunk could not be made into points.
#[derive(Debug, Clone, Copy, PartialEq, Eq, Structural)]
pub enum HypeError {
    /// The chunk has no embeddings yet.
    NoEmbeddings,
    /// The chunk has not one embedding per question.
    CountMismatch,
    /// No id unlike the others came out of `u64::MAX` draws of a random UUID.
    NoFreshIds,
}

impl HypeError {
    /// The message for the error.
    pub fn message(&self) -> (r: String)
        ensures
            r@ == match self {
                HypeError::NoEmbeddings => "No embedding vectors on hype chunk"@,
                HypeError::CountMismatch => "Number of questions and embeddings don't match on hypechunk"@,
                HypeError::NoFreshIds => "Could not draw distinct ids for the points of the hypechunk"@,
            },
    {
        match self {
            HypeError::NoEmbeddings => String::from_str("No embedding vectors on hype chunk"),
            HypeError::CountMismatch => String::from_str("Number of questions and embeddings don't match on hypechunk"),
            HypeError::NoFreshIds => String::from_str("Could not draw distinct ids for the points of the hypechunk"),
        }
    }
}

/// No two of the texts are the same.
pub open spec fn distinct_texts(s: Seq<String>) -> bool {
    forall|i: int, j: int| 0 <= i < j < s.len() ==> (#[trigger] s[i])@ != (#[trigger] s[j])@
}

/// Whether `s` is among `v`.
fn holds_text(v: &Vec<String>, s: &String) -> (b: bool)
    ensures
        b == exists|k: int| 0 <= k < v.len() && (#[trigger] v@[k])@ == s@,
{
    let t = chars_of(s.as_str());
    let mut i: usize = 0;
    while i < v.len()
        invariant
            i <= v.len(),
            t@ == s@,
            forall|k: int| 0 <= k < i ==> (#[trigger] v@[k])@ != s@,
        decreases v.len() - i,
    {
        if same_chars(&chars_of(v[i].as_str()), &t) {
            return true;
        }
        i = i + 1;
    }
    false
}

impl<E> HypeChunk<E> {
    /// The chunk with no questions and no embeddings yet.
    pub fn from_chunk(c: &Chunk) -> (r: HypeChunk<E>)
        ensures
            r.seq_num == c.seq_num,
            r.text@ == c.text@,
            r.questions@.len() == 0,
            r.embedding_vector is None,
    {
        HypeChunk { seq_num: c.seq_num, text: c.text.clone(), questions: Vec::new(), embedding_vector: None }
    }

    /// Replaces the questions.
    pub fn set_questions(self, questions: Vec<String>) -> (r: HypeChunk<E>)
        ensures
            r.seq_num == self.seq_num,
            r.text == self.text,
            r.questions == questions,
            r.embedding_vector == self.embedding_vector,
    {
        HypeChunk { questions, ..self }
    }

    /// Sets the embeddings, one per question.
    pub fn set_embedding_vectors(&mut self, embedding_vector: Vec<E>)
        ensures
            final(self).seq_num == old(self).seq_num,
            final(self).text == old(self).text,
            final(self).questions == old(self).questions,
            final(self).embedding_vector == Some(embedding_vector),
    {
        self.embedding_vector = Some(embedding_vector);
    }

    /// The points of the chunk, one per question, with the given ids: each
    /// carries its question's embedding, the document id, the chunk's place
    /// and text, the document summary (empty when there is none) and the
    /// question.
    pub fn prepare_for_upload_with_ids(self, parent_doc: String, doc_summary: Option<String>, ids: Vec<String>) -> (r: Result<Vec<EmbeddedChunk<E>>, HypeError>)
        requires
            ids.len() >= self.questions.len(),
            distinct_texts(ids@),
        ensures
            match self.embedding_vector {
                None => r == Err::<Vec<EmbeddedChunk<E>>, HypeError>(HypeError::NoEmbeddings),
                Some(vs) => if vs.len() != self.questions.len() {
                    r == Err::<Vec<EmbeddedChunk<E>>, HypeError>(HypeError::CountMismatch)
                } else {
                    r matches Ok(pts) && pts.len() == self.questions.len()
                        && forall|i: int| 0 <= i < pts.len() ==> {
                            let p = #[trigger] pts@[i];
                            &&& p.embedding_vector == vs@[i]
                            &&& p.id@ == ids@[i]@
                            &&& p.doc_id@ == parent_doc@
                            &&& p.doc_seq_num == self.seq_num
                            &&& p.content@ == self.text@
                            &&& p.additional_data@ == self.questions@[i]@
                            &&& p.doc_summary@ == match doc_summary {
                                Some(s) => s@,
                                None => Seq::<char>::empty(),
                            }
                        }
                        && forall|i: int, j: int| 0 <= i < j < pts.len() ==> (#[trigger] pts@[i]).id@ != (#[trigger] pts@[j]).id@
                },
            },
    {
        let HypeChunk { seq_num, text, questions, embedding_vector } = self;
        let vectors = match embedding_vector {
            Some(v) => v,
            None => {
                return Err(HypeError::NoEmbeddings);
            },
        };
        if questions.len() != vectors.len() {
            return Err(HypeError::CountMismatch);
        }
        let summary = match doc_summary {
            Some(s) => s,
            None => String::new(),
        };
        let ghost vs = vectors@;
        let mut vectors = vectors;
        let mut out: Vec<EmbeddedChunk<E>> = Vec::new();
        let n = questions.len();
        let mut rev: Vec<E> = Vec::new();
        while vectors.len() > 0
            invariant
                vectors.len() + rev.len() == n,
                n == vs.len(),
                forall|i: int| 0 <= i < vectors.len() ==> vectors@[i] == vs[i],
                forall|j: int| 0 <= j < rev.len() ==> rev@[j] == vs[n - 1 - j],
            decreases vectors.len(),
        {
            let v = vectors.pop().unwrap();
            rev.push(v);
        }
        let mut i: usize = 0;
        while i < n
            invariant
                i <= n == questions.len() == vs.len(),
                rev.len() == n - i,
                ids.len() >= n,
                forall|j: int| 0 <= j < rev.len() ==> rev@[j] == vs[n - 1 - j],
                out.len() == i,
                forall|k: int| 0 <= k < i ==> {
                    let p = #[trigger] out@[k];
                    &&& p.embedding_vector == vs[k]
                    &&& p.id@ == ids@[k]@
                    &&& p.doc_id@ == parent_doc@
                    &&& p.doc_seq_num == seq_num
                    &&& p.content@ == text@
                    &&& p.additional_data@ == questions@[k]@
                    &&& p.doc_summary@ == summary@
                },
            decreases n - i,
        {
            let v = rev.pop().unwrap();
            let p = EmbeddedChunk {
                embedding_vector: v,
                id: ids[i].clone(),
                doc_id: parent_doc.clone(),
                doc_seq_num: seq_num,
                doc_summary: summary.clone(),
                content: text.clone(),
                additional_data: questions[i].clone(),
            };
            out.push(p);
            i = i + 1;
        }
        proof {
            assert forall|a: int, b: int| 0 <= a < b < out.len() implies (#[trigger] out@[a]).id@ != (#[trigger] out@[b]).id@ by {
                assert(out@[a].id@ == ids@[a]@);
                assert(out@[b].id@ == ids@[b]@);
            }
        }
        Ok(out)
    }

    /// The points of the chunk, one per question, each with a fresh random
    /// version-4 UUID as id, no two the same: an id that repeats an earlier
    /// one is drawn again. `NoFreshIds` only if `u64::MAX` draws never gave a
    /// new one, which cannot happen with fewer than two questions: the first
    /// id drawn has none to repeat.
    pub fn prepare_for_upload(self, parent_doc: String, doc_summary: Option<String>) -> (r: Result<Vec<EmbeddedChunk<E>>, HypeError>)
        ensures
            r == Err::<Vec<EmbeddedChunk<E>>, HypeError>(HypeError::NoFreshIds) ==> self.questions.len() >= 2,
            match self.embedding_vector {
                None => r == Err::<Vec<EmbeddedChunk<E>>, HypeError>(HypeError::NoEmbeddings),
                Some(vs) => if vs.len() != self.questions.len() {
                    r == Err::<Vec<EmbeddedChunk<E>>, HypeError>(HypeError::CountMismatch)
                } else {
                    r == Err::<Vec<EmbeddedChunk<E>>, HypeError>(HypeError::NoFreshIds) || (r matches Ok(pts)
                        && pts.len() == self.questions.len()
                        && (forall|i: int| 0 <= i < pts.len() ==> {
                            let p = #[trigger] pts@[i];
                            &&& p.embedding_vector == vs@[i]
                            &&& is_uuid_v4_text(p.id@)
                            &&& p.doc_id@ == parent_doc@
                            &&& p.doc_seq_num == self.seq_num
                            &&& p.content@ == self.text@
                            &&& p.additional_data@ == self.questions@[i]@
                            &&& p.doc_summary@ == match doc_summary {
                                Some(s) => s@,
                                None => Seq::<char>::empty(),
                            }
                        })
                        && forall|i: int, j: int| 0 <= i < j < pts.len() ==> (#[trigger] pts@[i]).id@ != (#[trigger] pts@[j]).id@)
                },
            },
    {
        match &self.embedding_vector {
            None => {
                return Err(HypeError::NoEmbeddings);
            },
            Some(v) => {
                if v.len() != self.questions.len() {
                    return Err(HypeError::CountMismatch);
                }
            },
        }
        let mut ids: Vec<String> = Vec::new();
        let n = self.questions.len();
        let mut budget: u64 = u64::MAX;
        while ids.len() < n
            invariant
                ids.len() <= n,
                n == self.questions.len(),
                self.embedding_vector matches Some(v) && v.len() == self.questions.len(),
                forall|k: int| 0 <= k < ids.len() ==> is_uuid_v4_text(#[trigger] ids@[k]@),
                distinct_texts(ids@),
                ids.len() == 0 ==> budget == u64::MAX,
            decreases budget,
        {
            if budget == 0 {
                return Err(HypeError::NoFreshIds);
            }
            budget = budget - 1;
            let id = fresh_uuid();
            if !holds_text(&ids, &id) {
                let ghost before = ids@;
                ids.push(id);
                proof {
                    assert forall|i: int, j: int| 0 <= i < j < ids@.len() implies (#[trigger] ids@[i])@ != (#[trigger] ids@[j])@ by {
                        if j == before.len() {
                            assert(ids@[i] == before[i]);
                        } else {
                            assert(ids@[i] == before[i]);
                            assert(ids@[j] == before[j]);
                        }
                    }
                }
            }
        }
        self.prepare_for_upload_with_ids(parent_doc, doc_summary, ids)
    }
}

/// What a chunk contributes to its file's points: for each question, in
/// order, its embedding, the chunk's place and text, and the question;
/// nothing when the chunk has no embeddings or not one per question.
pub open spec fn chunk_points<E>(c: HypeChunk<E>) -> Seq<(E, i32, Seq<char>, Seq<char>)> {
    match c.embedding_vector {
        Some(vs) => if vs.len() == c.questions.len() {
            Seq::new(vs.len() as nat, |i: int| (vs@[i], c.seq_num, c.text@, c.questions@[i]@))
        } else {
            Seq::empty()
        },
        None => Seq::empty(),
    }
}

/// The points of a file's chunks, chunk after chunk.
pub open spec fn file_points<E>(cs: Seq<HypeChunk<E>>) -> Seq<(E, i32, Seq<char>, Seq<char>)>
    decreases cs.len(),
{
    if cs.len() == 0 {
        Seq::empty()
    } else {
        file_points(cs.drop_last()) + chunk_points(cs.last())
    }
}

/// The summary a point carries: the description, or nothing.
pub open spec fn summary_text(description: Option<String>) -> Seq<char> {
    match description {
        Some(s) => s@,
        None => Seq::<char>::empty(),
    }
}

/// The points of an embedded file: the points of each chunk in order, each
/// with a fresh random id, the file's id as document id and its description
/// (empty when there is none) as summary; chunks that cannot be made into
/// points are skipped. `NoFreshIds` when a chunk's ids could not be drawn
/// distinct, which only a chunk of two points or more can meet: a file whose
/// chunks give at most one point each is always made into points.
#[verifier::loop_isolation(false)]
pub fn prepare_for_upload<E>(chunks: Vec<HypeChunk<E>>, internal_id: String, description: Option<String>) -> (res: Result<Vec<EmbeddedChunk<E>>, HypeError>)
    ensures
        res is Err ==> res == Err::<Vec<EmbeddedChunk<E>>, HypeError>(HypeError::NoFreshIds)
            && exists|k: int| 0 <= k < chunks@.len() && (#[trigger] chunk_points(chunks@[k])).len() >= 2,
        res matches Ok(r) ==> r.len() == file_points(chunks@).len(),
        res matches Ok(r) ==> forall|i: int| 0 <= i < r.len() ==> {
            let p = #[trigger] r@[i];
            let d = file_points(chunks@)[i];
            &&& p.embedding_vector == d.0
            &&& p.doc_seq_num == d.1
            &&& p.content@ == d.2
            &&& p.additional_data@ == d.3
            &&& p.doc_id@ == internal_id@
            &&& p.doc_summary@ == summary_text(description)
            &&& is_uuid_v4_text(p.id@)
        },
{
    let ghost cs = chunks@;
    let n = chunks.len();
    let mut chunks = chunks;
    let mut rev: Vec<HypeChunk<E>> = Vec::new();
    while chunks.len() > 0
        invariant
            chunks.len() + rev.len() == n,
            n == cs.len(),
            forall|i: int| 0 <= i < chunks.len() ==> chunks@[i] == cs[i],
            forall|j: int| 0 <= j < rev.len() ==> rev@[j] == cs[n - 1 - j],
        decreases chunks.len(),
    {
        let c = chunks.pop().unwrap();
        rev.push(c);
    }
    let mut out: Vec<EmbeddedChunk<E>> = Vec::new();
    let mut k: usize = 0;
    while k < n
        invariant
            k <= n == cs.len(),
            rev.len() == n - k,
            forall|j: int| 0 <= j < rev.len() ==> rev@[j] == cs[n - 1 - j],
            out.len() == file_points(cs.take(k as int)).len(),
            forall|i: int| 0 <= i < out.len() ==> {
                let p = #[trigger] out@[i];
                let d = file_points(cs.take(k as int))[i];
                &&& p.embedding_vector == d.0
                &&& p.doc_seq_num == d.1
                &&& p.content@ == d.2
                &&& p.additional_data@ == d.3
                &&& p.doc_id@ == internal_id@
                &&& p.doc_summary@ == summary_text(description)
                &&& is_uuid_v4_text(p.id@)
            },
        decreases n - k,
    {
        let c = rev.pop().unwrap();
        let ghost c0 = c;
        assert(c0 == cs[k as int]);
        assert(cs.take(k + 1).drop_last() =~= cs.take(k as int));
        let ghost before = file_points(cs.take(k as int));
        let ghost added = chunk_points(c0);
        assert(file_points(cs.take(k + 1)) == before + added);
        let d = match &description {
            Some(s) => Some(s.clone()),
            None => None,
        };
        match c.prepare_for_upload(internal_id.clone(), d) {
            Ok(pts) => {
                let mut pts = pts;
                proof {
                    assert(added.len() == pts.len());
                    assert forall|i: int| 0 <= i < pts.len() implies {
                        let p = #[trigger] pts@[i];
                        let e = added[i];
                        &&& p.embedding_vector == e.0
                        &&& p.doc_seq_num == e.1
                        &&& p.content@ == e.2
                        &&& p.additional_data@ == e.3
                        &&& p.doc_id@ == internal_id@
                        &&& p.doc_summary@ == summary_text(description)
                        &&& is_uuid_v4_text(p.id@)
                    } by {}
                }
                let ghost old_out = out@;
                let ghost new_pts = pts@;
                out.append(&mut pts);
                proof {
                    assert forall|i: int| 0 <= i < out.len() implies {
                        let p = #[trigger] out@[i];
                        let e = file_points(cs.take(k + 1))[i];
                        &&& p.embedding_vector == e.0
                        &&& p.doc_seq_num == e.1
                        &&& p.content@ == e.2
                        &&& p.additional_data@ == e.3
                        &&& p.doc_id@ == internal_id@
                        &&& p.doc_summary@ == summary_text(description)
                        &&& is_uuid_v4_text(p.id@)
                    } by {
                        if i < old_out.len() {
                            assert(out@[i] == old_out[i]);
                        } else {
                            assert(out@[i] == new_pts[i - old_out.len()]);
                        }
                    }
                }
            },
            Err(e) => {
                if e == HypeError::NoFreshIds {
                    proof {
                        assert(chunk_points(cs[k as int]).len() >= 2);
                    }
                    return Err(HypeError::NoFreshIds);
                }
                assert(added =~= Seq::<(E, i32, Seq<char>, Seq<char>)>::empty());
                assert(file_points(cs.take(k + 1)) =~= before);
            },
        }
        k = k + 1;
    }
    assert(cs.take(n as int) =~= cs);
    Ok(out)
}

/* ------------------------------------------------------------------ */
/*  Question lines                                                      */
/* ------------------------------------------------------------------ */

/// The list markers stripped from the start of a generated question:
/// bullets, numbers, letters and roman numerals with their punctuation.
pub const LIST_MARKER_PATTERN: &'static str = r"^\s*[\-\*]|\s*\d+\.\s*|\s*[a-zA-Z]\)\s*|\s*\(\d+\)\s*|\s*\([a-zA-Z]\)\s*|\s*\([ivxlcdm]+\)\s*";

/// Whether `regex::RegexBuilder` builds a regex from the pattern with the given case folding.
pub uninterp spec fn regex_builds(pattern: Seq<char>, case_insensitive: bool) -> bool;

/// What `regex::Regex::replace` makes of `text` with `rep` for the regex built from the pattern.
pub uninterp spec fn regex_replaced(pattern: Seq<char>, case_insensitive: bool, text: Seq<char>, rep: Seq<char>) -> Seq<char>;

/// Builds a regex with `regex::RegexBuilder` (case folding as asked) and
/// replaces its first match in `text` by `rep` with `Regex::replace`; `None`
/// when the pattern does not build.
#[verifier::external_body]
fn regex_replace_first(pattern: &str, case_insensitive: bool, text: &[char], rep: &str) -> (r: Option<Vec<char>>)
    ensures
        r is Some <==> regex_builds(pattern@, case_insensitive),
        r matches Some(v) ==> v@ == regex_replaced(pattern@, case_insensitive, text@, rep@),
{
    let text: String = text.iter().collect();
    let re = regex::RegexBuilder::new(pattern).case_insensitive(case_insensitive).build().ok()?;
    Some(re.replace(&text, rep).chars().collect())
}

/// The questions in a generated answer: each line with its list marker
/// removed and trimmed, the empty ones dropped.
pub open spec fn question_lines_of(lines: Seq<Seq<char>>) -> Seq<Seq<char>>
    decreases lines.len(),
{
    if lines.len() == 0 {
        Seq::empty()
    } else {
        let r = question_lines_of(lines.drop_last());
        let q = trim(regex_replaced(LIST_MARKER_PATTERN@, true, lines.last(), ""@));
        if q.len() > 0 {
            r.push(q)
        } else {
            r
        }
    }
}

/// The questions of a generated answer, split at newlines.
pub open spec fn question_lines(text: Seq<char>) -> Seq<Seq<char>> {
    question_lines_of(split(text, "\n"@))
}

/// Reads the questions out of a generated answer; `None` when the list
/// marker pattern does not build.
pub fn clean_questions(text: &str) -> (r: Option<Vec<String>>)
    ensures
        r is Some <==> regex_builds(LIST_MARKER_PATTERN@, true),
        r matches Some(v) ==> v@.map_values(|s: String| s@) == question_lines(text@),
{
    let t = chars_of(text);
    let nl = chars_of("\n");
    proof {
        reveal_strlit("\n");
    }
    let lines = split_by(&t, nl.as_slice());
    if regex_replace_first(LIST_MARKER_PATTERN, true, &[], "").is_none() {
        return None;
    }
    let mut out: Vec<String> = Vec::new();
    let mut i: usize = 0;
    proof {
        assert(views(lines@).take(0) =~= Seq::<Seq<char>>::empty());
        assert(out@.map_values(|s: String| s@) =~= Seq::<Seq<char>>::empty());
    }
    while i < lines.len()
        invariant
            i <= lines.len(),
            regex_builds(LIST_MARKER_PATTERN@, true),
            out@.map_values(|s: String| s@) == question_lines_of(views(lines@).take(i as int)),
        decreases lines.len() - i,
    {
        proof {
            assert(views(lines@).take(i + 1).drop_last() =~= views(lines@).take(i as int));
            assert(views(lines@).take(i + 1).last() == lines@[i as int]@);
        }
        let stripped = match regex_replace_first(LIST_MARKER_PATTERN, true, lines[i].as_slice(), "") {
            Some(v) => v,
            None => {
                return None;
            },
        };
        let q = trimmed(&stripped);
        if q.len() > 0 {
            let ghost before = out@;
            let s = string_from(q.as_slice());
            out.push(s);
            proof {
                assert(out@.map_values(|s: String| s@) =~= before.map_values(|s: String| s@).push(q@));
            }
        }
        i = i + 1;
    }
    proof {
        assert(views(lines@).take(lines.len() as int) =~= views(lines@));
    }
    Some(out)
}

/// Pairs each chunk with the questions generated for it (the answer at the
/// same position); `None` when the list marker pattern does not build.
pub fn generate_hype_chunks<E>(chunks: &Vec<Chunk>, hype_questions: &Vec<String>) -> (r: Option<Vec<HypeChunk<E>>>)
    requires
        hype_questions.len() >= chunks.len(),
    ensures
        r is Some <==> regex_builds(LIST_MARKER_PATTERN@, true),
        r matches Some(hs) ==> hs.len() == chunks.len() && forall|i: int| 0 <= i < hs.len() ==> {
            let h = #[trigger] hs@[i];
            &&& h.seq_num == chunks@[i].seq_num
            &&& h.text@ == chunks@[i].text@
            &&& h.questions@.map_values(|s: String| s@) == question_lines(hype_questions@[i]@)
            &&& h.embedding_vector is None
        },
{
    if regex_replace_first(LIST_MARKER_PATTERN, true, &[], "").is_none() {
        return None;
    }
    let mut out: Vec<HypeChunk<E>> = Vec::new();
    let mut i: usize = 0;
    while i < chunks.len()
        invariant
            i <= chunks.len() <= hype_questions.len(),
            regex_builds(LIST_MARKER_PATTERN@, true),
            out.len() == i,
            forall|k: int| 0 <= k < i ==> {
                let h = #[trigger] out@[k];
                &&& h.seq_num == chunks@[k].seq_num
                &&& h.text@ == chunks@[k].text@
                &&& h.questions@.map_values(|s: String| s@) == question_lines(hype_questions@[k]@)
                &&& h.embedding_vector is None
            },
        decreases chunks.len() - i,
    {
        let qs = match clean_questions(hype_questions[i].as_str()) {
            Some(q) => q,
            None => {
                return None;
            },
        };
        let h: HypeChunk<E> = HypeChunk::from_chunk(&chunks[i]).set_questions(qs);
        out.push(h);
        i = i + 1;
    }
    Some(out)
}

/* ------------------------------------------------------------------ */
/*  Search hits                                                         */
/* ------------------------------------------------------------------ */

/// A payload value of a search hit, as far as the hits are read.
#[derive(Debug, Clone)]
pub enum PayloadValue {
    Str(String),
    Int(i64),
    /// A list, with its string items (other items as `None`).
    List(Vec<Option<String>>),
    Other,
}

/// The value stored under `key`: the first entry with that key.
pub open spec fn payload_get(p: Seq<(String, PayloadValue)>, key: Seq<char>) -> Option<PayloadValue>
    decreases p.len(),
{
    if p.len() == 0 {
        None
    } else if p[0].0@ == key {
        Some(p[0].1)
    } else {
        payload_get(p.drop_first(), key)
    }
}

fn payload_lookup<'a>(p: &'a Vec<(String, PayloadValue)>, key: &str) -> (r: Option<&'a PayloadValue>)
    ensures
        match r {
            Some(v) => payload_get(p@, key@) == Some(*v),
            None => payload_get(p@, key@) is None,
        },
{
    let k = chars_of(key);
    let mut i: usize = 0;
    proof {
        assert(p@.skip(0) =~= p@);
    }
    while i < p.len()
        invariant
            i <= p.len(),
            k@ == key@,
            payload_get(p@, key@) == payload_get(p@.skip(i as int), key@),
        decreases p.len() - i,
    {
        proof {
            assert(p@.skip(i as int)[0] == p@[i as int]);
            assert(p@.skip(i as int).drop_first() =~= p@.skip(i + 1));
        }
        if same_chars(&chars_of(p[i].0.as_str()), &k) {
            return Some(&p[i].1);
        }
        i = i + 1;
    }
    None
}

/// The text under `key`, or `Unknown`.
pub open spec fn payload_text(p: Seq<(String, PayloadValue)>, key: Seq<char>) -> Seq<char> {
    match payload_get(p, key) {
        Some(PayloadValue::Str(s)) => s@,
        _ => "Unknown"@,
    }
}

fn text_or_unknown(p: &Vec<(String, PayloadValue)>, key: &str) -> (r: String)
    ensures
        r@ == payload_text(p@, key@),
{
    match payload_lookup(p, key) {
        Some(PayloadValue::Str(s)) => s.clone(),
        _ => String::from_str("Unknown"),
    }
}

/// The string items of a list, in order.
pub open spec fn string_items(items: Seq<Option<String>>) -> Seq<Seq<char>>
    decreases items.len(),
{
    if items.len() == 0 {
        Seq::empty()
    } else {
        let r = string_items(items.drop_last());
        match items.last() {
            Some(s) => r.push(s@),
            None => r,
        }
    }
}

/// The non-empty trimmed pieces of a comma separated text.
pub open spec fn comma_items(pieces: Seq<Seq<char>>) -> Seq<Seq<char>>
    decreases pieces.len(),
{
    if pieces.len() == 0 {
        Seq::empty()
    } else {
        let r = comma_items(pieces.drop_last());
        let t = trim(pieces.last());
        if t.len() > 0 {
            r.push(t)
        } else {
            r
        }
    }
}

/// A hit's keywords: the strings of a list, or the pieces of a comma
/// separated text, or none.
pub open spec fn keywords_of(p: Seq<(String, PayloadValue)>) -> Seq<Seq<char>> {
    match payload_get(p, "keywords"@) {
        Some(PayloadValue::List(items)) => string_items(items@),
        Some(PayloadValue::Str(s)) => comma_items(split(s@, ","@)),
        _ => Seq::empty(),
    }
}

/// A hit of the FAQ collection.
#[derive(Debug, Clone)]
pub struct FaqHit {
    pub id: String,
    pub thread_id: String,
    pub question: String,
    pub answer: String,
    pub keywords: Vec<String>,
    pub classification: String,
}

/// The shown form of a hit's id, or `Unknown` when it has none.
pub open spec fn id_or_unknown(id: Option<String>) -> Seq<char> {
    match id {
        Some(d) => d@,
        None => "Unknown"@,
    }
}

fn keywords_from(p: &Vec<(String, PayloadValue)>) -> (r: Vec<String>)
    ensures
        r@.map_values(|s: String| s@) == keywords_of(p@),
{
    let mut r: Vec<String> = Vec::new();
    proof {
        assert(r@.map_values(|s: String| s@) =~= Seq::<Seq<char>>::empty());
    }
    match payload_lookup(p, "keywords") {
        Some(PayloadValue::List(items)) => {
            let mut i: usize = 0;
            proof {
                assert(items@.take(0) =~= Seq::<Option<String>>::empty());
            }
            while i < items.len()
                invariant
                    i <= items.len(),
                    r@.map_values(|s: String| s@) == string_items(items@.take(i as int)),
                decreases items.len() - i,
            {
                proof {
                    assert(items@.take(i + 1).drop_last() =~= items@.take(i as int));
                }
                match &items[i] {
                    Some(s) => {
                        let ghost before = r@;
                        r.push(s.clone());
                        proof {
                            assert(r@.map_values(|s: String| s@) =~= before.map_values(|s: String| s@).push(s@));
                        }
                    },
                    None => {},
                }
                i = i + 1;
            }
            proof {
                assert(items@.take(items.len() as int) =~= items@);
            }
            r
        },
        Some(PayloadValue::Str(s)) => {
            let c = chars_of(s.as_str());
            let comma = chars_of(",");
            proof {
                reveal_strlit(",");
            }
            let pieces = split_by(&c, comma.as_slice());
            let mut i: usize = 0;
            proof {
                assert(views(pieces@).take(0) =~= Seq::<Seq<char>>::empty());
            }
            while i < pieces.len()
                invariant
                    i <= pieces.len(),
                    r@.map_values(|s: String| s@) == comma_items(views(pieces@).take(i as int)),
                decreases pieces.len() - i,
            {
                proof {
                    assert(views(pieces@).take(i + 1).drop_last() =~= views(pieces@).take(i as int));
                    assert(views(pieces@).take(i + 1).last() == pieces@[i as int]@);
                }
                let t = trimmed(&pieces[i]);
                if t.len() > 0 {
                    let ghost before = r@;
                    r.push(string_from(t.as_slice()));
                    proof {
                        assert(r@.map_values(|s: String| s@) =~= before.map_values(|s: String| s@).push(t@));
                    }
                }
                i = i + 1;
            }
            proof {
                assert(views(pieces@).take(pieces.len() as int) =~= views(pieces@));
            }
            r
        },
        _ => r,
    }
}

impl FaqHit {
    /// Reads a FAQ hit from its shown id and its payload; a missing text
    /// field reads as `Unknown`.
    pub fn from_payload(id: Option<String>, payload: &Vec<(String, PayloadValue)>) -> (h: FaqHit)
        ensures
            h.id@ == id_or_unknown(id),
            h.thread_id@ == payload_text(payload@, "thread_id"@),
            h.question@ == payload_text(payload@, "question"@),
            h.answer@ == payload_text(payload@, "answer"@),
            h.classification@ == payload_text(payload@, "classification"@),
            h.keywords@.map_values(|s: String| s@) == keywords_of(payload@),
    {
        FaqHit {
            id: match id {
                Some(d) => d,
                None => String::from_str("Unknown"),
            },
            thread_id: text_or_unknown(payload, "thread_id"),
            question: text_or_unknown(payload, "question"),
            answer: text_or_unknown(payload, "answer"),
            keywords: keywords_from(payload),
            classification: text_or_unknown(payload, "classification"),
        }
    }

    /// The hit as the model reads it, with its score as shown.
    pub fn render(&self, score: &str) -> (r: String)
        ensures
            r@ == "\n---\n\nScore: "@ + score@ + "\n\nKeywords: "@
                + (if self.keywords@.len() == 0 {
                    "(none)"@
                } else {
                    join(self.keywords@.map_values(|s: String| s@), ", "@)
                }) + "\n\nQuestion:\n"@ + self.question@ + "\n\nAnswer:\n"@ + self.answer@ + "\n\n---\n"@,
    {
        let mut out: Vec<char> = Vec::new();
        push_str(&mut out, "\n---\n\nScore: ");
        push_str(&mut out, score);
        push_str(&mut out, "\n\nKeywords: ");
        if self.keywords.len() == 0 {
            push_str(&mut out, "(none)");
        } else {
            let mut parts: Vec<Vec<char>> = Vec::new();
            let mut i: usize = 0;
            while i < self.keywords.len()
                invariant
                    i <= self.keywords.len(),
                    views(parts@) == self.keywords@.map_values(|s: String| s@).take(i as int),
                decreases self.keywords.len() - i,
            {
                let ghost before = parts@;
                let c = chars_of(self.keywords[i].as_str());
                parts.push(c);
                proof {
                    assert(views(parts@) =~= views(before).push(self.keywords@[i as int]@));
                    assert(self.keywords@.map_values(|s: String| s@).take(i + 1)
                        =~= self.keywords@.map_values(|s: String| s@).take(i as int).push(self.keywords@[i as int]@));
                }
                i = i + 1;
            }
            proof {
                assert(self.keywords@.map_values(|s: String| s@).take(self.keywords.len() as int)
                    =~= self.keywords@.map_values(|s: String| s@));
            }
            let j = join_with(&parts, chars_of(", ").as_slice());
            push_all(&mut out, j.as_slice());
        }
        push_str(&mut out, "\n\nQuestion:\n");
        push_str(&mut out, self.question.as_str());
        push_str(&mut out, "\n\nAnswer:\n");
        push_str(&mut out, self.answer.as_str());
        push_str(&mut out, "\n\n---\n");
        string_from(out.as_slice())
    }
}

/// A hit of the rules collection.
#[derive(Debug, Clone)]
pub struct RulesHit {
    pub id: String,
    pub question: String,
    pub document_id: String,
    pub chunk: String,
    pub seq_num: i32,
    pub document_name: String,
}

/// A hit's place in its document: the integer under `seq_num` cut to 32
/// bits, or -1.
pub open spec fn seq_num_of(p: Seq<(String, PayloadValue)>) -> i32 {
    match payload_get(p, "seq_num"@) {
        Some(PayloadValue::Int(n)) => n as i32,
        _ => -1i32,
    }
}

/// The document a hit comes from, as a path: underscores become slashes and
/// `.md` is dropped; `Unknown` when the payload does not name it.
pub open spec fn document_name_of(p: Seq<(String, PayloadValue)>) -> Seq<char> {
    match payload_get(p, "document_name"@) {
        Some(PayloadValue::Str(s)) => replace(replace(s@, "_"@, "/"@), ".md"@, ""@),
        _ => "Unknown"@,
    }
}

#[verifier::truncate]
fn low_bits(n: i64) -> (r: i32)
    ensures
        r == n as i32,
{
    n as i32
}

impl RulesHit {
    /// Reads a rules hit from its shown id and its payload.
    pub fn from_payload(id: Option<String>, payload: &Vec<(String, PayloadValue)>) -> (h: RulesHit)
        ensures
            h.id@ == id_or_unknown(id),
            h.question@ == payload_text(payload@, "question"@),
            h.document_id@ == payload_text(payload@, "document_id"@),
            h.chunk@ == payload_text(payload@, "chunk"@),
            h.seq_num == seq_num_of(payload@),
            h.document_name@ == document_name_of(payload@),
    {
        let seq_num: i32 = match payload_lookup(payload, "seq_num") {
            Some(PayloadValue::Int(n)) => low_bits(*n),
            _ => -1,
        };
        let document_name = match payload_lookup(payload, "document_name") {
            Some(PayloadValue::Str(s)) => {
                let c = chars_of(s.as_str());
                proof {
                    reveal_strlit("_");
                    reveal_strlit(".md");
                }
                let a = replace_all(&c, chars_of("_").as_slice(), chars_of("/").as_slice());
                let b = replace_all(&a, chars_of(".md").as_slice(), chars_of("").as_slice());
                string_from(b.as_slice())
            },
            _ => String::from_str("Unknown"),
        };
        RulesHit {
            id: match id {
                Some(d) => d,
                None => String::from_str("Unknown"),
            },
            question: text_or_unknown(payload, "question"),
            document_id: text_or_unknown(payload, "document_id"),
            chunk: text_or_unknown(payload, "chunk"),
            seq_num,
            document_name,
        }
    }

    /// The hit as the model reads it: its source and passage.
    pub fn render(&self) -> (r: String)
        ensures
            r@ == "\n            ---\n            Source: "@ + self.document_name@ + "\n\n            Passage content: \n            \n            "@ + self.chunk@ + "\n            \n            ---\n\n            "@,
    {
        let mut out: Vec<char> = Vec::new();
        push_str(&mut out, "\n            ---\n            Source: ");
        push_str(&mut out, self.document_name.as_str());
        push_str(&mut out, "\n\n            Passage content: \n            \n            ");
        push_str(&mut out, self.chunk.as_str());
        push_str(&mut out, "\n            \n            ---\n\n            ");
        string_from(out.as_slice())
    }
}

/* ------------------------------------------------------------------ */
/*  Duplicate hits                                                      */
/* ------------------------------------------------------------------ */

/// Position `i` holds the first occurrence of its key.
pub open spec fn first_occurrence(keys: Seq<(String, i32)>, i: int) -> bool {
    forall|j: int| 0 <= j < i ==> !(#[trigger] keys[j].0@ == keys[i].0@ && keys[j].1 == keys[i].1)
}

/// The positions that hold the first occurrence of their key, in order.
pub open spec fn first_positions(keys: Seq<(String, i32)>, hi: int) -> Seq<int>
    decreases hi,
{
    if hi <= 0 {
        Seq::empty()
    } else if first_occurrence(keys, hi - 1) {
        first_positions(keys, hi - 1).push(hi - 1)
    } else {
        first_positions(keys, hi - 1)
    }
}

/// Positions `i` and `j` hold the same (document id, sequence number).
pub open spec fn same_key(keys: Seq<(String, i32)>, i: int, j: int) -> bool {
    keys[i].0@ == keys[j].0@ && keys[i].1 == keys[j].1
}

proof fn lemma_first_positions_shape(keys: Seq<(String, i32)>, hi: int)
    requires
        0 <= hi <= keys.len(),
    ensures
        forall|m: int| 0 <= m < first_positions(keys, hi).len() ==> 0 <= #[trigger] first_positions(keys, hi)[m] < hi,
        forall|m: int| 0 <= m < first_positions(keys, hi).len() ==> first_occurrence(keys, #[trigger] first_positions(keys, hi)[m]),
        forall|a: int, b: int| 0 <= a < b < first_positions(keys, hi).len() ==> first_positions(keys, hi)[a] < first_positions(keys, hi)[b],
        forall|i: int| 0 <= i < hi && first_occurrence(keys, i) ==> #[trigger] first_positions(keys, hi).contains(i),
    decreases hi,
{
    if hi > 0 {
        lemma_first_positions_shape(keys, hi - 1);
        let prev = first_positions(keys, hi - 1);
        if first_occurrence(keys, hi - 1) {
            let cur = prev.push(hi - 1);
            assert forall|i: int| 0 <= i < hi && first_occurrence(keys, i) implies #[trigger] cur.contains(i) by {
                if i < hi - 1 {
                    assert(prev.contains(i));
                    let m = choose|m: int| 0 <= m < prev.len() && prev[m] == i;
                    assert(cur[m] == i);
                } else {
                    assert(cur[prev.len() as int] == i);
                }
            }
        }
    }
}

/// Some kept position holds the key of position `i`.
pub open spec fn key_kept(keys: Seq<(String, i32)>, i: int) -> bool {
    exists|m: int| 0 <= m < first_positions(keys, keys.len() as int).len()
        && #[trigger] same_key(keys, first_positions(keys, keys.len() as int)[m], i)
}

proof fn lemma_key_covered(keys: Seq<(String, i32)>, i: int)
    requires
        0 <= i < keys.len(),
    ensures
        key_kept(keys, i),
    decreases i,
{
    let ps = first_positions(keys, keys.len() as int);
    lemma_first_positions_shape(keys, keys.len() as int);
    if first_occurrence(keys, i) {
        assert(ps.contains(i));
        let m = choose|m: int| 0 <= m < ps.len() && ps[m] == i;
        assert(same_key(keys, ps[m], i));
    } else {
        let j = choose|j: int| 0 <= j < i && #[trigger] keys[j].0@ == keys[i].0@ && keys[j].1 == keys[i].1;
        lemma_key_covered(keys, j);
        let m = choose|m: int| 0 <= m < ps.len() && #[trigger] same_key(keys, ps[m], j);
        assert(same_key(keys, ps[m], i));
    }
}

/// Deduplication keeps exactly one hit per (document id, sequence number):
/// the kept hits have distinct keys, each is the first hit with its key, and
/// every key of the input is kept.
pub proof fn lemma_dedup_one_per_key(keys: Seq<(String, i32)>)
    ensures
        forall|a: int, b: int| 0 <= a < b < first_positions(keys, keys.len() as int).len()
            ==> !same_key(keys, first_positions(keys, keys.len() as int)[a], first_positions(keys, keys.len() as int)[b]),
        forall|m: int| 0 <= m < first_positions(keys, keys.len() as int).len()
            ==> first_occurrence(keys, #[trigger] first_positions(keys, keys.len() as int)[m]),
        forall|i: int| 0 <= i < keys.len() ==> #[trigger] key_kept(keys, i),
{
    let ps = first_positions(keys, keys.len() as int);
    lemma_first_positions_shape(keys, keys.len() as int);
    assert forall|a: int, b: int| 0 <= a < b < ps.len() implies !same_key(keys, ps[a], ps[b]) by {
        assert(ps[a] < ps[b]);
        assert(first_occurrence(keys, ps[b]));
        if same_key(keys, ps[a], ps[b]) {
            assert(keys[ps[a]].0@ == keys[ps[b]].0@ && keys[ps[a]].1 == keys[ps[b]].1);
        }
    }
    assert forall|i: int| 0 <= i < keys.len() implies #[trigger] key_kept(keys, i) by {
        lemma_key_covered(keys, i);
    }
}

/// Deduplicates hits by document and place: the positions of the hits to
/// keep, each the first with its (document id, sequence number).
pub fn dedup(keys: &Vec<(String, i32)>) -> (r: Vec<usize>)
    ensures
        r@.map_values(|i: usize| i as int) == first_positions(keys@, keys@.len() as int),
{
    let mut r: Vec<usize> = Vec::new();
    let mut i: usize = 0;
    proof {
        assert(r@.map_values(|i: usize| i as int) =~= Seq::<int>::empty());
    }
    while i < keys.len()
        invariant
            i <= keys.len(),
            r@.map_values(|i: usize| i as int) == first_positions(keys@, i as int),
        decreases keys.len() - i,
    {
        let ki = chars_of(keys[i].0.as_str());
        let mut j: usize = 0;
        let mut seen = false;
        while j < i && !seen
            invariant
                j <= i < keys.len(),
                ki@ == keys@[i as int].0@,
                seen ==> j < i && keys@[j as int].0@ == keys@[i as int].0@ && keys@[j as int].1 == keys@[i as int].1,
                !seen ==> forall|m: int| 0 <= m < j ==> !(#[trigger] keys@[m].0@ == keys@[i as int].0@ && keys@[m].1 == keys@[i as int].1),
            decreases i - j, if seen { 0int } else { 1int },
        {
            if keys[j].1 == keys[i].1 && same_chars(&chars_of(keys[j].0.as_str()), &ki) {
                seen = true;
            } else {
                j = j + 1;
            }
        }
        if !seen {
            let ghost before = r@;
            r.push(i);
            proof {
                assert(first_occurrence(keys@, i as int));
                assert(r@.map_values(|i: usize| i as int) =~= before.map_values(|i: usize| i as int).push(i as int));
            }
        } else {
            proof {
                assert(!first_occurrence(keys@, i as int)) by {
                    assert(keys@[j as int].0@ == keys@[i as int].0@ && keys@[j as int].1 == keys@[i as int].1);
                }
            }
        }
        i = i + 1;
    }
    r
}

/* ------------------------------------------------------------------ */
/*  Files of a document folder                                          */
/* ------------------------------------------------------------------ */

/// Index of the last `.` in `s` before position `hi`, or -1.
pub open spec fn last_dot(s: Seq<char>, hi: int) -> int
    decreases hi,
{
    if hi <= 0 {
        -1
    } else if s[hi - 1] == '.' {
        hi - 1
    } else {
        last_dot(s, hi - 1)
    }
}

/// `Path::extension` of a file name: what follows the last dot, unless the
/// name has no dot, starts with its only dot, or is `..`.
pub open spec fn extension_of(name: Seq<char>) -> Option<Seq<char>> {
    let k = last_dot(name, name.len() as int);
    if name == ".."@ || k <= 0 {
        None
    } else {
        Some(name.skip(k + 1))
    }
}

/// The kind of file an extension marks, in any letter case.
pub open spec fn file_type_for(ext: Seq<char>) -> Option<RagProcessableFileType> {
    let l = lowercase(ext);
    if l == "txt"@ {
        Some(RagProcessableFileType::Text)
    } else if l == "md"@ {
        Some(RagProcessableFileType::Markdown)
    } else if l == "pdf"@ {
        Some(RagProcessableFileType::Pdf)
    } else {
        None
    }
}

/// The kind of file a name marks by its extension.
pub open spec fn file_type_of(name: Seq<char>) -> Option<RagProcessableFileType> {
    match extension_of(name) {
        Some(e) => file_type_for(e),
        None => None,
    }
}

/// Reads the kind of file from its name.
pub fn file_type_from_name(name: &str) -> (r: Option<RagProcessableFileType>)
    ensures
        r == file_type_of(name@),
{
    let c = chars_of(name);
    let mut k: usize = c.len();
    while k > 0 && c[k - 1] != '.'
        invariant
            k <= c.len(),
            last_dot(c@, c.len() as int) == last_dot(c@, k as int),
        decreases k,
    {
        k = k - 1;
    }
    if same_chars(&c, &chars_of("..")) || k <= 1 {
        return None;
    }
    let ext = crate::text::slice_of(&c, k, c.len());
    proof {
        assert(c@.subrange(k as int, c.len() as int) =~= c@.skip(k as int));
    }
    let l = to_lowercase(ext.as_slice());
    if same_chars(&l, &chars_of("txt")) {
        Some(RagProcessableFileType::Text)
    } else if same_chars(&l, &chars_of("md")) {
        Some(RagProcessableFileType::Markdown)
    } else if same_chars(&l, &chars_of("pdf")) {
        Some(RagProcessableFileType::Pdf)
    } else {
        None
    }
}

/// The record for a file found in a document folder, given an id for it:
/// `None` unless its extension marks a text, Markdown or PDF file. The file
/// is tagged with the name of its folder when that is not the top folder.
pub fn processable_file_with_id(path: String, file_name: String, parent_name: Option<String>, in_top_folder: bool, internal_id: String) -> (r: Option<RagProcessableFile>)
    ensures
        match r {
            None => file_type_of(file_name@) is None,
            Some(f) => {
                &&& file_type_of(file_name@) == Some(f.file_type)
                &&& f.path == path
                &&& f.original_name == file_name
                &&& f.internal_id == internal_id
                &&& f.file_description matches Some(d) && d@ == Seq::<char>::empty()
                &&& if !in_top_folder && parent_name is Some {
                    f.tags matches Some(t) && t@ == seq![parent_name->0]
                } else {
                    f.tags is None
                }
            },
        },
{
    let ft = match file_type_from_name(file_name.as_str()) {
        Some(t) => t,
        None => {
            return None;
        },
    };
    let tags: Option<Vec<String>> = if !in_top_folder {
        match parent_name {
            Some(n) => {
                let mut v: Vec<String> = Vec::new();
                v.push(n);
                Some(v)
            },
            None => None,
        }
    } else {
        None
    };
    Some(RagProcessableFile {
        path,
        file_type: ft,
        internal_id,
        original_name: file_name,
        file_description: Some(String::new()),
        tags,
    })
}

/// The record for a file found in a document folder, with a fresh random id.
pub fn processable_file(path: String, file_name: String, parent_name: Option<String>, in_top_folder: bool) -> (r: Option<RagProcessableFile>)
    ensures
        match r {
            None => file_type_of(file_name@) is None,
            Some(f) => {
                &&& file_type_of(file_name@) == Some(f.file_type)
                &&& f.path == path
                &&& f.original_name == file_name
                &&& is_uuid_v4_text(f.internal_id@)
                &&& f.file_description matches Some(d) && d@ == Seq::<char>::empty()
                &&& if !in_top_folder && parent_name is Some {
                    f.tags matches Some(t) && t@ == seq![parent_name->0]
                } else {
                    f.tags is None
                }
            },
        },
{
    let id = fresh_uuid();
    processable_file_with_id(path, file_name, parent_name, in_top_folder, id)
}

/* ------------------------------------------------------------------ */
/*  Asking the model for questions                                      */
/* ------------------------------------------------------------------ */

/// The question asked of the model for each chunk, before the document summary.
pub const HYPE_QUESTION_HEAD: &'static str = "/no_think You will be given a passage from a document, that talks about: ";

/// The question asked of the model for each chunk, after the document summary.
pub const HYPE_QUESTION_TAIL: &'static str = "\n Your task is to analyze the context text (passage) and generate essential questions that, when answered, capture the main points and core meaning of the text. The questions should be exhaustive and understandable without context. When possible, named entities should be referenced by their full name. However add questions that are diverse in topic. It is extremely important that you only answer with questions and each question should be written in its own line (separated by newline) with no prefix.And finally the answer to each question has to be found in the final context passage.";

/// The instructions sent with each chunk, before the chunk.
pub const HYPE_BODY_HEAD: &'static str = "\n            You will be given a chunk of text relating in some way to UP FAMNIT (University of Primorska - \\\n        Faculty of Mathematics, Natural Sciences, and Information Technologies). \n\n\n        Analyze the input text and generate all questions a student could ask that can be answered by the contents of the text. \n        It's important that the questions be exhaustive and understandable without context. \n        Named entities should always be referenced by their full name or short versions (like FAMNIT), but always referenced. \n        Only answer with questions, where each question should be written on its own line (separated by newline) with prefix: -. \n        It is especially important to generate only questions (many questions) when the text contains a table.\n        If a question regards a person, a study program, or a particular year, always state the full name/information \n        in the question, especially regarding study programs. Start with most obvious simple questions and slowly ramp up in complexity.\n        Make sure to exhaust all questions.\n\n\n\n        -------------- Example Output to follow after </think>: --------------\n        Who is Jernej Vičič?\n        What is Eduroam and who can use it?\n        What year is the class Applied Statistics offered?\n        Who teaches Programming III (3) course?\n        Who teaches Analysis III (3) – Functions of Many Variables course?\n        How many internally selected elective courses do I have to choose in second year of Computer Science Bachlors?\n        What courses are offered in the second year of computer science bachelor's?\n        How many elective courses can I select in the third year of bachelor's?\n        What is the typical class size for undergraduate courses in Computer Science?\n        How is the academic year structured (semesters, exams, etc.)?\n        Are there any student organizations or clubs related to Computer Science?\n        What kind of career support does UP FAMNIT offer to its students?\n        Is it possible to take an internship abroad during the Bachelor's program?\n        Where can I find a table of courses offered in the masters program of Bioinformatics?\n        Where can I find the official link to the master's thesis guidelines for Mathematical Sciences and Computer Science at UP FAMNIT?\n        Where can I find the procedure for submitting a master’s thesis at UP FAMNIT?\n        What are the requirements for obtaining a Bachelor’s degree in Computer Science at UP FAMNIT?\n        What are the accommodation options for students at UP FAMNIT?\n        What are the tuition fees for international students?\n        Is there any financial aid or scholarship opportunities available?\n        Is there a language requirement for international students?\n        What is the grading system used at UP FAMNIT?\n        How can I apply for a Bachelor’s program at UP FAMNIT?\n        What are the deadlines for applying to the Bachelor’s programs?\n        Is there an entrance exam for the Bachelor’s programs?\n\n\n\n        -------------- Text to ask about: START -------------- \n\n        ";

/// The instructions sent with each chunk, after the chunk.
pub const HYPE_BODY_TAIL: &'static str = "\n\n        -------------- Text to ask about: END -------------- \n\n\n        -------------- Additional notes: --------------\n        * Always state the full name/information (e.g. 2nd year bachlors Computer Science)\n        * Always adress the information itself and not the document\n        * Often will information be found in the document link (education/master/computer/science -> Computer Science Masters programm)\n        * If applicable always accompany the program with the year\n        * Only anser with a sequence of questions and no additional text. First Question should start with \"What...\"\n        * Speak in first persion (e.g. How many elective courses must I select in second year of Computer Science Bachlors)\n        * Only ask about the text in the \"Text to ask about\" block\n        * Exhaust all possible questions (the more the better)\n\n\n        -------------- Output: -------------- \n    \"\"\"\n    \n    system_msg = \"\"\"\n    /no_think \n    You are an AI that only answers in questions based on provided content \\\n    from UP FAMNIT (University of Primorska - Faculty of Mathematics, Natural Sciences, and \\\n    Information Technologies). Your task is to extract all possible questions from a given \\\n    text that a student might ask.\n            ";

/// The question asked of the model for each chunk of a document about `summary`.
pub open spec fn hype_question(summary: Seq<char>) -> Seq<char> {
    HYPE_QUESTION_HEAD@ + summary + HYPE_QUESTION_TAIL@
}

/// The instructions sent with a chunk shown as `chunk`.
pub open spec fn hype_body(chunk: Seq<char>) -> Seq<char> {
    HYPE_BODY_HEAD@ + chunk + HYPE_BODY_TAIL@
}

/// The requests that ask the model for the questions each chunk of a
/// document answers: one per chunk, in order, each asking about the
/// document's summary and sending the chunk, as shown in `chunks`, with the
/// instructions; the default system prompt and model.
pub fn generate_hype_prompt_questions(summary: String, chunks: &Vec<String>) -> (r: Vec<Question>)
    ensures
        r.len() == chunks.len(),
        forall|i: int| 0 <= i < r.len() ==> (#[trigger] r@[i])@ == (QuestionView {
            system_prompt: default_system_prompt(),
            question: hype_question(summary@),
            context: Seq::empty(),
            model: default_model(),
            body: Some(hype_body(chunks@[i]@)),
        }),
{
    let mut q: Vec<char> = Vec::new();
    push_str(&mut q, HYPE_QUESTION_HEAD);
    push_str(&mut q, summary.as_str());
    push_str(&mut q, HYPE_QUESTION_TAIL);
    let question = string_from(q.as_slice());
    let mut r: Vec<Question> = Vec::new();
    let mut i: usize = 0;
    while i < chunks.len()
        invariant
            i <= chunks.len(),
            question@ == hype_question(summary@),
            r.len() == i,
            forall|k: int| 0 <= k < i ==> (#[trigger] r@[k])@ == (QuestionView {
                system_prompt: default_system_prompt(),
                question: hype_question(summary@),
                context: Seq::empty(),
                model: default_model(),
                body: Some(hype_body(chunks@[k]@)),
            }),
        decreases chunks.len() - i,
    {
        let mut b: Vec<char> = Vec::new();
        push_str(&mut b, HYPE_BODY_HEAD);
        push_str(&mut b, chunks[i].as_str());
        push_str(&mut b, HYPE_BODY_TAIL);
        let body = string_from(b.as_slice());
        let qn = Question::new(question.clone()).set_body(body);
        r.push(qn);
        i = i + 1;
    }
    r
}

} // verus!
