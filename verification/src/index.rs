//! From scanned documents to the index: registration, then edge resolution.
//!
//! Phase one registers every scanned document, in order, assigning the
//! identifiers 1, 2, 3, ...  Phase two walks the documents again and resolves
//! each reference token, in first-seen order, to the identifier of the
//! document it names, emitting one edge per token.  The first token that
//! fails to resolve aborts the build with that token's error; no partial
//! index is returned.

use crate::digest::md5_of;
use crate::errors::{ResolveError, ScanError};
use crate::hex::hex_of;
use crate::registry::{match_count, matched_id, path_matches, resolution, Registry, RegisteredDoc};
use crate::scan::{
    all_tokens_valid, decoded_tokens, initial_state, scan_bytes, views_of, Scanner,
};
use vstd::prelude::*;

verus! {

/// A scanned markdown document: its path, its content fingerprint, and the
/// reference tokens extracted from it, in first-seen order with duplicates
/// preserved.
#[derive(Debug, Clone)]
pub struct MarkdownFile {
    pub path: String,
    pub hash: String,
    pub references: Vec<String>,
}

impl MarkdownFile {
    /// Scan a whole document held in memory.  The fingerprint and token list
    /// are those of the streaming scanner fed the same bytes (in any chunks).
    pub fn new(path: String, content: &[u8]) -> (r: Result<MarkdownFile, ScanError>)
        ensures
            ({
                let toks = scan_bytes(initial_state(), content@).tokens;
                &&& (r is Ok <==> all_tokens_valid(toks))
                &&& (r matches Ok(f) ==> {
                    &&& f.path == path
                    &&& f.hash@ == hex_of(md5_of(content@))
                    &&& views_of(f.references@) == decoded_tokens(toks)
                })
                &&& (r matches Err(e) ==> e == ScanError::TokenDecodeFailure)
            }),
    {
        let _n: usize = content.len();
        proof {
            assert(_n == content@.len());
        }
        let mut scanner = Scanner::new();
        scanner.push_chunk(content);
        proof {
            assert(Seq::<u8>::empty() + content@ =~= content@);
        }
        match scanner.finish() {
            Ok(out) => Ok(MarkdownFile {
                path,
                hash: out.fingerprint,
                references: out.references,
            }),
            Err(e) => Err(e),
        }
    }
}

/// A directed edge of the reference graph, from the referencing document to
/// the referenced one.
#[derive(Debug, Clone, Copy, PartialEq, Eq, Structural)]
pub struct Edge {
    pub src: i64,
    pub dst: i64,
}

/// A complete, self-consistent snapshot of the index: the registered
/// documents and every resolved edge.
#[derive(Debug)]
pub struct Index {
    pub documents: Vec<RegisteredDoc>,
    pub edges: Vec<Edge>,
}

/// The documents that registering `files`, in order, yields: the file at
/// position `i` gets identifier `i + 1`.
pub open spec fn registered_docs(files: Seq<MarkdownFile>) -> Seq<RegisteredDoc> {
    Seq::new(
        files.len(),
        |i: int|
            RegisteredDoc { id: (i + 1) as i64, path: files[i].path, hash: files[i].hash },
    )
}

/// The edges of one document's reference list, resolved left to right; the
/// first failing token decides the error.
pub open spec fn doc_edges(
    docs: Seq<RegisteredDoc>,
    src: i64,
    names: Seq<Seq<char>>,
) -> Result<Seq<Edge>, ResolveError>
    decreases names.len(),
{
    if names.len() == 0 {
        Ok(Seq::empty())
    } else {
        match resolution(docs, names[0]) {
            Ok(dst) => match doc_edges(docs, src, names.drop_first()) {
                Ok(rest) => Ok(seq![Edge { src, dst }] + rest),
                Err(e) => Err(e),
            },
            Err(e) => Err(e),
        }
    }
}

/// The edges of the documents from position `k` on, resolved in order.
pub open spec fn edges_from(
    docs: Seq<RegisteredDoc>,
    files: Seq<MarkdownFile>,
    k: int,
) -> Result<Seq<Edge>, ResolveError>
    decreases files.len() - k,
{
    if k < 0 || k >= files.len() {
        Ok(Seq::empty())
    } else {
        match doc_edges(docs, (k + 1) as i64, views_of(files[k].references@)) {
            Ok(es) => match edges_from(docs, files, k + 1) {
                Ok(rest) => Ok(es + rest),
                Err(e) => Err(e),
            },
            Err(e) => Err(e),
        }
    }
}

/// What building the index from `files` must yield: every document's every
/// token resolved against the registered set, or the first failure.
pub open spec fn built_edges(files: Seq<MarkdownFile>) -> Result<Seq<Edge>, ResolveError> {
    edges_from(registered_docs(files), files, 0)
}

/// Whether some registered document carries the identifier `id`.
pub open spec fn has_doc_with_id(docs: Seq<RegisteredDoc>, id: i64) -> bool {
    exists|i: int| 0 <= i < docs.len() && (#[trigger] docs[i]).id == id
}

proof fn lemma_matched_id_is_some_doc(docs: Seq<RegisteredDoc>, name: Seq<char>)
    requires
        match_count(docs, name) >= 1,
    ensures
        has_doc_with_id(docs, matched_id(docs, name)),
    decreases docs.len(),
{
    if path_matches(docs.last().path@, name) {
        assert(docs[docs.len() - 1].id == matched_id(docs, name));
    } else {
        lemma_matched_id_is_some_doc(docs.drop_last(), name);
        let i = choose|i: int|
            0 <= i < docs.drop_last().len() && docs.drop_last()[i].id == matched_id(
                docs.drop_last(),
                name,
            );
        assert(docs[i].id == matched_id(docs, name));
    }
}

proof fn lemma_doc_edges_endpoints(docs: Seq<RegisteredDoc>, src: i64, names: Seq<Seq<char>>)
    ensures
        doc_edges(docs, src, names) matches Ok(es) ==> forall|j: int|
            0 <= j < es.len() ==> (#[trigger] es[j]).src == src && has_doc_with_id(
                docs,
                es[j].dst,
            ),
    decreases names.len(),
{
    if names.len() == 0 {
    } else {
        match resolution(docs, names[0]) {
            Ok(dst) => {
                lemma_matched_id_is_some_doc(docs, names[0]);
                lemma_doc_edges_endpoints(docs, src, names.drop_first());
                match doc_edges(docs, src, names.drop_first()) {
                    Ok(rest) => {
                        let es = seq![Edge { src, dst }] + rest;
                        assert forall|j: int|
                            0 <= j < es.len() implies (#[trigger] es[j]).src == src
                            && has_doc_with_id(docs, es[j].dst) by {
                            if j > 0 {
                                assert(es[j] == rest[j - 1]);
                            }
                        }
                    },
                    Err(_) => {},
                }
            },
            Err(_) => {},
        }
    }
}

proof fn lemma_edges_from_endpoints(docs: Seq<RegisteredDoc>, files: Seq<MarkdownFile>, k: int)
    requires
        docs == registered_docs(files),
        files.len() < i64::MAX,
        0 <= k,
    ensures
        edges_from(docs, files, k) matches Ok(es) ==> forall|j: int|
            0 <= j < es.len() ==> has_doc_with_id(docs, (#[trigger] es[j]).src)
                && has_doc_with_id(docs, es[j].dst),
    decreases files.len() - k,
{
    if k >= files.len() {
    } else {
        let src = (k + 1) as i64;
        assert(docs[k].id == src);
        lemma_doc_edges_endpoints(docs, src, views_of(files[k].references@));
        lemma_edges_from_endpoints(docs, files, k + 1);
        match doc_edges(docs, src, views_of(files[k].references@)) {
            Ok(es0) => {
                match edges_from(docs, files, k + 1) {
                    Ok(rest) => {
                        let es = es0 + rest;
                        assert forall|j: int|
                            0 <= j < es.len() implies has_doc_with_id(
                            docs,
                            (#[trigger] es[j]).src,
                        ) && has_doc_with_id(docs, es[j].dst) by {
                            if j < es0.len() {
                                assert(es[j] == es0[j]);
                            } else {
                                assert(es[j] == rest[j - es0.len()]);
                            }
                        }
                    },
                    Err(_) => {},
                }
            },
            Err(_) => {},
        }
    }
}

/// Graph consistency: every edge of a successfully built index joins
/// documents that are registered in that same build — no edge dangles.
pub proof fn lemma_edges_endpoints_registered(files: Seq<MarkdownFile>)
    requires
        files.len() < i64::MAX,
    ensures
        built_edges(files) matches Ok(es) ==> forall|j: int|
            0 <= j < es.len() ==> has_doc_with_id(registered_docs(files), (#[trigger] es[j]).src)
                && has_doc_with_id(registered_docs(files), es[j].dst),
{
    lemma_edges_from_endpoints(registered_docs(files), files, 0);
}

/// Build the index: register all documents, then resolve all references.
///
/// On success the index holds exactly the registered documents and, for every
/// document and every one of its reference tokens in order, the edge from the
/// document to the token's unique referent.  The first token that resolves to
/// no document or to more than one aborts the build with that error.
#[verifier::loop_isolation(false)]
pub fn build_index(files: Vec<MarkdownFile>) -> (r: Result<Index, ResolveError>)
    requires
        files@.len() < i64::MAX,
    ensures
        r is Ok <==> built_edges(files@) is Ok,
        r matches Ok(ix) ==> {
            &&& ix.documents@ == registered_docs(files@)
            &&& built_edges(files@) == Ok::<Seq<Edge>, ResolveError>(ix.edges@)
        },
        r matches Err(e) ==> built_edges(files@) == Err::<Seq<Edge>, ResolveError>(e),
{
    let ghost orig = files@;
    let ghost docs = registered_docs(orig);
    let mut files = files;
    let mut reg = Registry::new();
    let mut pending: Vec<(i64, Vec<String>)> = Vec::new();
    let ghost mut i: int = 0;
    proof {
        assert(docs.take(0) =~= reg@);
    }
    while files.len() > 0
        invariant
            0 <= i <= orig.len(),
            files@ =~= orig.skip(i),
            files@.len() == orig.len() - i,
            reg.wf(),
            reg@ =~= docs.take(i),
            pending@.len() == i,
            forall|k: int|
                0 <= k < i ==> (#[trigger] pending@[k]).0 == k + 1 && pending@[k].1
                    == orig[k].references,
        decreases files@.len(),
    {
        let ghost pre = files@;
        let f = files.remove(0);
        proof {
            assert(pre.remove(0) =~= orig.skip(i + 1));
            assert(f == orig[i]);
        }
        let MarkdownFile { path, hash, references } = f;
        let id = reg.register(path, hash);
        pending.push((id, references));
        proof {
            assert(docs[i] == RegisteredDoc {
                id: (i + 1) as i64,
                path: orig[i].path,
                hash: orig[i].hash,
            });
            assert(reg@ =~= docs.take(i + 1));
            i = i + 1;
        }
    }
    proof {
        assert(docs.take(orig.len() as int) =~= docs);
        assert(reg@ == docs);
    }
    let mut edges: Vec<Edge> = Vec::new();
    let mut k: usize = 0;
    proof {
        match edges_from(docs, orig, 0) {
            Ok(rest) => {
                assert(edges@ + rest =~= rest);
            },
            Err(_) => {},
        }
    }
    while k < pending.len()
        invariant
            0 <= k <= pending@.len(),
            pending@.len() == orig.len(),
            reg.wf(),
            reg@ == docs,
            forall|t: int|
                0 <= t < orig.len() ==> (#[trigger] pending@[t]).0 == t + 1 && pending@[t].1
                    == orig[t].references,
            built_edges(orig) == (match edges_from(docs, orig, k as int) {
                Ok(rest) => Ok::<Seq<Edge>, ResolveError>(edges@ + rest),
                Err(e) => Err::<Seq<Edge>, ResolveError>(e),
            }),
        decreases pending@.len() - k,
    {
        let src = pending[k].0;
        let ghost names = views_of(orig[k as int].references@);
        let mut j: usize = 0;
        proof {
            assert(src == k + 1);
            assert(names.skip(0) =~= names);
            assert(views_of(pending@[k as int].1@) == names);
            assert(src as int == k as int + 1);
            assert(src == (k as int + 1) as i64);
            assert(edges_from(docs, orig, k as int) == (match doc_edges(docs, src, names) {
                Ok(es) => match edges_from(docs, orig, k as int + 1) {
                    Ok(rest) => Ok::<Seq<Edge>, ResolveError>(es + rest),
                    Err(e) => Err::<Seq<Edge>, ResolveError>(e),
                },
                Err(e) => Err::<Seq<Edge>, ResolveError>(e),
            }));
            match doc_edges(docs, src, names) {
                Ok(es) => {
                    match edges_from(docs, orig, k as int + 1) {
                        Ok(rest) => {
                            assert(edges@ + (es + rest) =~= edges@ + es + rest);
                        },
                        Err(_) => {},
                    }
                },
                Err(_) => {},
            }
        }
        while j < pending[k].1.len()
            invariant
                0 <= k < pending@.len(),
                0 <= j <= names.len(),
                pending@.len() == orig.len(),
                reg.wf(),
                reg@ == docs,
                src == k + 1,
                pending@[k as int].1 == orig[k as int].references,
                names == views_of(orig[k as int].references@),
                names.len() == pending@[k as int].1@.len(),
                built_edges(orig) == (match doc_edges(docs, src, names.skip(j as int)) {
                    Ok(drest) => match edges_from(docs, orig, k as int + 1) {
                        Ok(rest) => Ok::<Seq<Edge>, ResolveError>(edges@ + drest + rest),
                        Err(e) => Err::<Seq<Edge>, ResolveError>(e),
                    },
                    Err(e) => Err::<Seq<Edge>, ResolveError>(e),
                }),
            decreases names.len() - j,
        {
            let name = &pending[k].1[j];
            proof {
                assert(name@ == views_of(pending@[k as int].1@)[j as int]);
                assert(name@ == names[j as int]);
                assert(names.skip(j as int)[0] == names[j as int]);
                assert(names.skip(j as int).drop_first() =~= names.skip(j as int + 1));
            }
            match reg.resolve_name(name.as_str()) {
                Ok(dst) => {
                    let ghost pre_edges = edges@;
                    edges.push(Edge { src, dst });
                    proof {
                        match doc_edges(docs, src, names.skip(j as int + 1)) {
                            Ok(drest) => {
                                match edges_from(docs, orig, k as int + 1) {
                                    Ok(rest) => {
                                        assert(pre_edges + (seq![Edge { src, dst }] + drest)
                                            + rest =~= (edges@ + drest + rest));
                                    },
                                    Err(_) => {},
                                }
                            },
                            Err(_) => {},
                        }
                    }
                },
                Err(e) => {
                    return Err(e);
                },
            }
            j += 1;
        }
        proof {
            assert(names.skip(names.len() as int) =~= Seq::<Seq<char>>::empty());
            match edges_from(docs, orig, k as int + 1) {
                Ok(rest) => {
                    assert(edges@ + Seq::<Edge>::empty() + rest =~= edges@ + rest);
                },
                Err(_) => {},
            }
        }
        k += 1;
    }
    proof {
        assert(edges_from(docs, orig, orig.len() as int) == Ok::<Seq<Edge>, ResolveError>(
            Seq::<Edge>::empty(),
        ));
        assert(edges@ + Seq::<Edge>::empty() =~= edges@);
    }
    let documents = reg.into_documents();
    Ok(Index { documents, edges })
}

} // verus!
