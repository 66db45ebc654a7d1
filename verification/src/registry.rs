//! The document registry.
//!
//! Each scanned document is registered under a fresh identifier together with
//! its path and fingerprint.  A reference token names a document by the stem
//! of its path: token `name` matches a registered path that ends in
//! `/name.md`.  Resolution succeeds exactly when one registered document
//! matches; no match and more than one match are distinct errors.

use crate::errors::ResolveError;
use vstd::prelude::*;
use vstd::string::*;

verus! {

/// A registered document: its identifier, path and content fingerprint.
#[derive(Debug, Clone)]
pub struct RegisteredDoc {
    pub id: i64,
    pub path: String,
    pub hash: String,
}

/// The suffix a registered path must end with for a token `name` to match it:
/// a path separator, the name, and the markdown extension.
pub open spec fn name_suffix(name: Seq<char>) -> Seq<char> {
    seq!['/'] + name + seq!['.', 'm', 'd']
}

/// Whether the token `name` names the document at `path`.
pub open spec fn path_matches(path: Seq<char>, name: Seq<char>) -> bool {
    &&& path.len() >= name_suffix(name).len()
    &&& path.subrange(path.len() - name_suffix(name).len(), path.len() as int) == name_suffix(
        name,
    )
}

/// How many registered documents the token `name` matches.
pub open spec fn match_count(docs: Seq<RegisteredDoc>, name: Seq<char>) -> nat
    decreases docs.len(),
{
    if docs.len() == 0 {
        0
    } else {
        match_count(docs.drop_last(), name) + (if path_matches(docs.last().path@, name) {
            1nat
        } else {
            0nat
        })
    }
}

/// The identifier of the matching document; meaningful when exactly one
/// registered document matches.
pub open spec fn matched_id(docs: Seq<RegisteredDoc>, name: Seq<char>) -> i64
    decreases docs.len(),
{
    if docs.len() == 0 {
        0
    } else if path_matches(docs.last().path@, name) {
        docs.last().id
    } else {
        matched_id(docs.drop_last(), name)
    }
}

/// What resolving `name` against `docs` must yield: the unique match's
/// identifier, or the error naming why there is no unique match.
pub open spec fn resolution(docs: Seq<RegisteredDoc>, name: Seq<char>) -> Result<i64, ResolveError> {
    if match_count(docs, name) == 1 {
        Ok(matched_id(docs, name))
    } else if match_count(docs, name) == 0 {
        Err(ResolveError::ResolutionNotFound)
    } else {
        Err(ResolveError::ResolutionAmbiguous)
    }
}

proof fn lemma_match_count_snoc(docs: Seq<RegisteredDoc>, name: Seq<char>, i: int)
    requires
        0 <= i < docs.len(),
    ensures
        match_count(docs.take(i + 1), name) == match_count(docs.take(i), name) + (
        if path_matches(docs[i].path@, name) {
            1nat
        } else {
            0nat
        }),
{
    assert(docs.take(i + 1).drop_last() =~= docs.take(i));
    assert(docs.take(i + 1).last() == docs[i]);
}

proof fn lemma_match_count_mono(docs: Seq<RegisteredDoc>, name: Seq<char>, j: int)
    requires
        0 <= j <= docs.len(),
    ensures
        match_count(docs, name) >= match_count(docs.take(j), name),
    decreases docs.len() - j,
{
    if j == docs.len() {
        assert(docs.take(j) =~= docs);
    } else {
        lemma_match_count_snoc(docs, name, j);
        lemma_match_count_mono(docs, name, j + 1);
    }
}

proof fn lemma_match_count_lower(docs: Seq<RegisteredDoc>, name: Seq<char>, w: int)
    requires
        0 <= w < docs.len(),
        path_matches(docs[w].path@, name),
    ensures
        match_count(docs, name) >= 1,
    decreases docs.len(),
{
    if w == docs.len() - 1 {
        assert(docs.last() == docs[w]);
    } else {
        assert(docs.drop_last()[w] == docs[w]);
        lemma_match_count_lower(docs.drop_last(), name, w);
    }
}

proof fn lemma_unique_match(docs: Seq<RegisteredDoc>, name: Seq<char>, w: int)
    requires
        0 <= w < docs.len(),
        path_matches(docs[w].path@, name),
        match_count(docs, name) == 1,
    ensures
        matched_id(docs, name) == docs[w].id,
    decreases docs.len(),
{
    if path_matches(docs.last().path@, name) {
        if w < docs.len() - 1 {
            assert(docs.drop_last()[w] == docs[w]);
            lemma_match_count_lower(docs.drop_last(), name, w);
            assert(false);
        }
    } else {
        assert(w < docs.len() - 1);
        assert(docs.drop_last()[w] == docs[w]);
        lemma_unique_match(docs.drop_last(), name, w);
    }
}

/// Whether a string ends with the given suffix.
fn str_ends_with(hay: &str, suffix: &str) -> (r: bool)
    ensures
        r == (hay@.len() >= suffix@.len() && hay@.subrange(
            hay@.len() - suffix@.len(),
            hay@.len() as int,
        ) == suffix@),
{
    let hlen = hay.unicode_len();
    let slen = suffix.unicode_len();
    if hlen < slen {
        return false;
    }
    let tail = hay.substring_char(hlen - slen, hlen);
    let t = tail.to_owned();
    let s = suffix.to_owned();
    let r = t == s;
    proof {
        if hay@.subrange(hay@.len() - suffix@.len(), hay@.len() as int) == suffix@ {
            assert(t@ == s@);
        }
    }
    r
}

/// Whether a file name carries the markdown extension; only such files are
/// scanned into the index.
pub fn is_markdown_path(name: &str) -> (r: bool)
    ensures
        r == (name@.len() >= 3 && name@.subrange(name@.len() - 3, name@.len() as int) == seq![
            '.',
            'm',
            'd',
        ]),
{
    let r = str_ends_with(name, ".md");
    proof {
        reveal_strlit(".md");
        assert(".md"@ =~= seq!['.', 'm', 'd']);
    }
    r
}

/// The registry of documents scanned during one run.  Identifiers are
/// assigned in registration order, starting at 1; the registry only grows
/// while a run's scan phase lasts.
pub struct Registry {
    docs: Vec<RegisteredDoc>,
}

impl View for Registry {
    type V = Seq<RegisteredDoc>;

    closed spec fn view(&self) -> Seq<RegisteredDoc> {
        self.docs@
    }
}

impl Registry {
    /// Identifiers are exactly the registration positions, starting at 1.
    pub open spec fn wf(&self) -> bool {
        forall|i: int| 0 <= i < self@.len() ==> (#[trigger] self@[i].id) == i + 1
    }

    /// An empty registry.
    pub fn new() -> (r: Registry)
        ensures
            r.wf(),
            r@ == Seq::<RegisteredDoc>::empty(),
    {
        Registry { docs: Vec::new() }
    }

    /// Register a document, assigning it the next identifier.
    pub fn register(&mut self, path: String, hash: String) -> (id: i64)
        requires
            old(self).wf(),
            old(self)@.len() < i64::MAX,
        ensures
            final(self).wf(),
            final(self)@ == old(self)@.push(RegisteredDoc { id, path, hash }),
            id == old(self)@.len() + 1,
    {
        let n = self.docs.len();
        let id = (n as i64) + 1;
        self.docs.push(RegisteredDoc { id, path, hash });
        id
    }

    /// Hand out the registered documents, ending the registry's run.
    pub fn into_documents(self) -> (v: Vec<RegisteredDoc>)
        ensures
            v@ == self@,
    {
        self.docs
    }

    /// Resolve a reference token to the identifier of the document it names:
    /// the unique registered document whose path ends in `/name.md`.
    /// `ResolutionNotFound` is returned exactly when no document matches, and
    /// `ResolutionAmbiguous` exactly when more than one does.
    #[verifier::loop_isolation(false)]
    pub fn resolve_name(&self, name: &str) -> (r: Result<i64, ResolveError>)
        requires
            self.wf(),
        ensures
            r == resolution(self@, name@),
            r matches Ok(id) ==> match_count(self@, name@) == 1 && (exists|i: int|
                0 <= i < self@.len() && path_matches(#[trigger] self@[i].path@, name@)
                    && self@[i].id == id),
            r == Err::<i64, ResolveError>(ResolveError::ResolutionNotFound) <==> match_count(
                self@,
                name@,
            ) == 0,
            r == Err::<i64, ResolveError>(ResolveError::ResolutionAmbiguous) <==> match_count(
                self@,
                name@,
            ) >= 2,
    {
        let mut needle = String::new();
        needle.append("/");
        needle.append(name);
        needle.append(".md");
        proof {
            reveal_strlit("/");
            reveal_strlit(".md");
            assert(needle@ =~= name_suffix(name@));
        }
        let mut found: Option<i64> = None;
        let ghost mut widx: int = 0;
        let mut i: usize = 0;
        while i < self.docs.len()
            invariant
                i <= self@.len(),
                found is None ==> match_count(self@.take(i as int), name@) == 0,
                found matches Some(id) ==> {
                    &&& match_count(self@.take(i as int), name@) == 1
                    &&& 0 <= widx < i
                    &&& path_matches(self@[widx].path@, name@)
                    &&& self@[widx].id == id
                },
            decreases self@.len() - i,
        {
            let is_match = str_ends_with(self.docs[i].path.as_str(), needle.as_str());
            proof {
                lemma_match_count_snoc(self@, name@, i as int);
            }
            if is_match {
                if found.is_some() {
                    proof {
                        lemma_match_count_mono(self@, name@, i as int + 1);
                    }
                    return Err(ResolveError::ResolutionAmbiguous);
                }
                found = Some(self.docs[i].id);
                proof {
                    widx = i as int;
                }
            }
            i += 1;
        }
        proof {
            assert(self@.take(self@.len() as int) =~= self@);
        }
        match found {
            Some(id) => {
                proof {
                    lemma_unique_match(self@, name@, widx);
                }
                Ok(id)
            },
            None => Err(ResolveError::ResolutionNotFound),
        }
    }
}

} // verus!
