//! The fingerprint-and-scan engine.
//!
//! A document is consumed as a byte stream in chunks of any size.  The scanner
//! feeds every byte into a running MD5 accumulator and, at the same time, runs
//! a byte-level state machine that extracts reference tokens written between a
//! doubled open bracket `[[` and a doubled close bracket `]]`.  The carry-over
//! state (consecutive-delimiter counters and the partially collected token)
//! lives in the scanner, so a token that straddles a chunk boundary is
//! collected correctly; the token list and the fingerprint depend only on the
//! concatenation of the chunks, never on where they were cut.

use crate::digest::{md5_of, Md5};
use crate::errors::ScanError;
use crate::hex::{hex_of, to_hex};
use vstd::prelude::*;
use vstd::utf8::{decode_utf8, valid_utf8};

verus! {

/// ASCII `[`, the open-delimiter byte.
pub const OPEN_DELIM: u8 = 91;

/// ASCII `]`, the close-delimiter byte.
pub const CLOSE_DELIM: u8 = 93;

/// The carry-over state of the token scanner.
///
/// `opens` and `closes` count consecutive open- and close-delimiter bytes;
/// each is saturated at 3, since only the transition to exactly 2 matters and
/// any other byte resets the count.  While `in_token` holds, `pending` is the
/// text collected since the doubled open delimiter.  `tokens` is the list of
/// completed tokens, in first-seen order, duplicates preserved.
#[verifier::ext_equal]
pub struct ScanState {
    pub opens: nat,
    pub closes: nat,
    pub in_token: bool,
    pub pending: Seq<u8>,
    pub tokens: Seq<Seq<u8>>,
}

/// The scanner state before any byte has been read.
pub open spec fn initial_state() -> ScanState {
    ScanState {
        opens: 0,
        closes: 0,
        in_token: false,
        pending: Seq::empty(),
        tokens: Seq::empty(),
    }
}

/// The element-wise views of a sequence of viewable values.
pub open spec fn views_of<T: View>(ts: Seq<T>) -> Seq<T::V> {
    Seq::new(ts.len(), |i: int| ts[i]@)
}

/// One step of the token scanner.
///
/// An open delimiter raises the open count (saturated at 3) and resets the
/// close count; when the open count reaches exactly 2, a token starts
/// immediately after it, discarding any token text collected before.  A close
/// delimiter raises the close count and resets the open count; when the close
/// count reaches exactly 2 inside a token, the token is complete: everything
/// between the doubled delimiters (the collected text less the first close
/// delimiter) is appended to the token list.  Any other byte resets both
/// counts.  While a token is open, every byte that does not complete or
/// restart it is collected as token text.
pub open spec fn step(s: ScanState, b: u8) -> ScanState {
    if b == OPEN_DELIM {
        let o: nat = if s.opens < 3 {
            (s.opens + 1) as nat
        } else {
            3
        };
        if o == 2 {
            ScanState { opens: o, closes: 0, in_token: true, pending: Seq::empty(), ..s }
        } else {
            ScanState {
                opens: o,
                closes: 0,
                pending: if s.in_token {
                    s.pending.push(b)
                } else {
                    s.pending
                },
                ..s
            }
        }
    } else if b == CLOSE_DELIM {
        let c: nat = if s.closes < 3 {
            (s.closes + 1) as nat
        } else {
            3
        };
        if c == 2 && s.in_token {
            ScanState {
                opens: 0,
                closes: 0,
                in_token: false,
                pending: Seq::empty(),
                tokens: s.tokens.push(s.pending.drop_last()),
            }
        } else {
            ScanState {
                opens: 0,
                closes: c,
                pending: if s.in_token {
                    s.pending.push(b)
                } else {
                    s.pending
                },
                ..s
            }
        }
    } else {
        ScanState {
            opens: 0,
            closes: 0,
            pending: if s.in_token {
                s.pending.push(b)
            } else {
                s.pending
            },
            ..s
        }
    }
}

/// The scanner state after reading `bytes`, starting from `s`.
pub open spec fn scan_bytes(s: ScanState, bytes: Seq<u8>) -> ScanState
    decreases bytes.len(),
{
    if bytes.len() == 0 {
        s
    } else {
        scan_bytes(step(s, bytes[0]), bytes.drop_first())
    }
}

/// The scanner state after reading a sequence of chunks, one after the other.
pub open spec fn scan_chunks(s: ScanState, chunks: Seq<Seq<u8>>) -> ScanState
    decreases chunks.len(),
{
    if chunks.len() == 0 {
        s
    } else {
        scan_chunks(scan_bytes(s, chunks[0]), chunks.drop_first())
    }
}

/// Structural bounds that every reachable scanner state satisfies.
pub open spec fn state_inv(s: ScanState) -> bool {
    &&& s.opens <= 3
    &&& s.closes <= 3
    &&& (s.in_token && s.closes >= 1 ==> s.pending.len() >= 1)
}

proof fn lemma_step_inv(s: ScanState, b: u8)
    requires
        state_inv(s),
    ensures
        state_inv(step(s, b)),
{
}

proof fn lemma_scan_bytes_inv(s: ScanState, bytes: Seq<u8>)
    requires
        state_inv(s),
    ensures
        state_inv(scan_bytes(s, bytes)),
    decreases bytes.len(),
{
    if bytes.len() > 0 {
        lemma_step_inv(s, bytes[0]);
        lemma_scan_bytes_inv(step(s, bytes[0]), bytes.drop_first());
    }
}

proof fn lemma_scan_bytes_snoc(s: ScanState, bytes: Seq<u8>, x: u8)
    ensures
        scan_bytes(s, bytes.push(x)) == step(scan_bytes(s, bytes), x),
    decreases bytes.len(),
{
    reveal_with_fuel(scan_bytes, 3);
    assert(bytes.push(x)[0] == if bytes.len() == 0 {
        x
    } else {
        bytes[0]
    });
    if bytes.len() == 0 {
        assert(bytes.push(x).drop_first() =~= Seq::<u8>::empty());
    } else {
        assert(bytes.push(x).drop_first() =~= bytes.drop_first().push(x));
        lemma_scan_bytes_snoc(step(s, bytes[0]), bytes.drop_first(), x);
    }
}

/// Reading a concatenation is reading the parts one after the other.
pub proof fn lemma_scan_bytes_append(s: ScanState, a: Seq<u8>, b: Seq<u8>)
    ensures
        scan_bytes(s, a + b) == scan_bytes(scan_bytes(s, a), b),
    decreases a.len(),
{
    if a.len() == 0 {
        assert(a + b =~= b);
    } else {
        assert((a + b)[0] == a[0]);
        assert((a + b).drop_first() =~= a.drop_first() + b);
        lemma_scan_bytes_append(step(s, a[0]), a.drop_first(), b);
    }
}

/// Chunk-boundary invariance: scanning a byte sequence chunk by chunk, however
/// it is cut, leaves the scanner in the same state as scanning the whole
/// sequence at once.  Together with [`Scanner::push_chunk`], whose contract
/// speaks only of the concatenation of the bytes fed so far, this shows that
/// both the extracted token list and the fingerprint (a function of those
/// bytes alone) are independent of the chunking.
pub proof fn lemma_chunking_invariance(chunks: Seq<Seq<u8>>)
    ensures
        scan_chunks(initial_state(), chunks) == scan_bytes(initial_state(), chunks.flatten()),
{
    lemma_scan_chunks_flatten(initial_state(), chunks);
}

proof fn lemma_scan_chunks_flatten(s: ScanState, chunks: Seq<Seq<u8>>)
    ensures
        scan_chunks(s, chunks) == scan_bytes(s, chunks.flatten()),
    decreases chunks.len(),
{
    if chunks.len() == 0 {
        assert(chunks.flatten() =~= Seq::<u8>::empty());
    } else {
        assert(chunks.flatten() == chunks.first() + chunks.drop_first().flatten());
        lemma_scan_bytes_append(s, chunks.first(), chunks.drop_first().flatten());
        lemma_scan_chunks_flatten(scan_bytes(s, chunks[0]), chunks.drop_first());
        assert(chunks.first() == chunks[0]);
    }
}

/// Whether every collected token is valid UTF-8.
pub open spec fn all_tokens_valid(toks: Seq<Seq<u8>>) -> bool {
    forall|j: int| 0 <= j < toks.len() ==> valid_utf8(#[trigger] toks[j])
}

/// The collected tokens, decoded from UTF-8.
pub open spec fn decoded_tokens(toks: Seq<Seq<u8>>) -> Seq<Seq<char>> {
    Seq::new(toks.len(), |j: int| decode_utf8(toks[j]))
}

/// What a completed scan yields: the fingerprint (the MD5 digest of the whole
/// byte stream, rendered as lowercase hexadecimal) and the reference tokens in
/// first-seen order.
#[derive(Debug)]
pub struct ScanOutput {
    pub fingerprint: String,
    pub references: Vec<String>,
}

/// Relies on `alloc::string::String::from_utf8`: succeeds exactly on valid
/// UTF-8, yielding the string those bytes encode.
#[verifier::external_body]
fn string_from_utf8(v: Vec<u8>) -> (r: Option<String>)
    ensures
        r is Some <==> valid_utf8(v@),
        r matches Some(s) ==> s@ == decode_utf8(v@),
{
    match String::from_utf8(v) {
        Ok(s) => Some(s),
        Err(_) => None,
    }
}

/// The resumable scanner: a running digest plus the token state machine.
pub struct Scanner {
    md5: Md5,
    opens: u8,
    closes: u8,
    in_token: bool,
    pending: Vec<u8>,
    tokens: Vec<Vec<u8>>,
}

impl Scanner {
    /// The bytes fed to the scanner so far.
    pub closed spec fn bytes(&self) -> Seq<u8> {
        self.md5.bytes()
    }

    /// The scanner's token state, abstracted.
    pub closed spec fn state(&self) -> ScanState {
        ScanState {
            opens: self.opens as nat,
            closes: self.closes as nat,
            in_token: self.in_token,
            pending: self.pending@,
            tokens: views_of(self.tokens@),
        }
    }

    /// The scanner's token state is exactly the state machine run over the
    /// bytes fed so far.
    pub closed spec fn wf(&self) -> bool {
        self.state() == scan_bytes(initial_state(), self.bytes())
    }

    /// A scanner that has read nothing.
    pub fn new() -> (r: Scanner)
        ensures
            r.wf(),
            r.bytes() == Seq::<u8>::empty(),
    {
        let r = Scanner {
            md5: Md5::new(),
            opens: 0,
            closes: 0,
            in_token: false,
            pending: Vec::new(),
            tokens: Vec::new(),
        };
        proof {
            assert(r.state() =~= initial_state());
        }
        r
    }

    /// Feed one chunk of the document.  The chunk size carries no meaning:
    /// only the concatenation of everything fed matters.
    pub fn push_chunk(&mut self, chunk: &[u8])
        requires
            old(self).wf(),
            old(self).bytes().len() + chunk@.len() <= u64::MAX,
        ensures
            final(self).wf(),
            final(self).bytes() == old(self).bytes() + chunk@,
    {
        self.md5.update(chunk);
        let ghost base = old(self).bytes();
        proof {
            assert(base + chunk@.take(0) =~= base);
            lemma_scan_bytes_inv(initial_state(), base);
        }
        let mut i: usize = 0;
        while i < chunk.len()
            invariant
                i <= chunk@.len(),
                self.bytes() == base + chunk@,
                self.opens <= 3,
                self.closes <= 3,
                self.state() == scan_bytes(initial_state(), base + chunk@.take(i as int)),
            decreases chunk@.len() - i,
        {
            let ghost prev = self.state();
            let ghost prefix = base + chunk@.take(i as int);
            proof {
                lemma_scan_bytes_inv(initial_state(), prefix);
            }
            let b = chunk[i];
            if b == OPEN_DELIM {
                let o = if self.opens < 3 {
                    self.opens + 1
                } else {
                    3
                };
                self.closes = 0;
                if o == 2 {
                    self.opens = 2;
                    self.in_token = true;
                    self.pending.clear();
                } else {
                    self.opens = o;
                    if self.in_token {
                        self.pending.push(b);
                    }
                }
            } else if b == CLOSE_DELIM {
                let c = if self.closes < 3 {
                    self.closes + 1
                } else {
                    3
                };
                self.opens = 0;
                if c == 2 && self.in_token {
                    self.pending.pop();
                    let mut tok: Vec<u8> = Vec::new();
                    core::mem::swap(&mut tok, &mut self.pending);
                    self.tokens.push(tok);
                    self.closes = 0;
                    self.in_token = false;
                    proof {
                        assert(views_of(self.tokens@) =~= prev.tokens.push(
                            prev.pending.drop_last(),
                        ));
                    }
                } else {
                    self.closes = c;
                    if self.in_token {
                        self.pending.push(b);
                    }
                }
            } else {
                self.opens = 0;
                self.closes = 0;
                if self.in_token {
                    self.pending.push(b);
                }
            }
            proof {
                assert(self.state() =~= step(prev, b));
                lemma_step_inv(prev, b);
                lemma_scan_bytes_snoc(initial_state(), prefix, b);
                assert(prefix.push(b) =~= base + chunk@.take(i as int + 1));
            }
            i += 1;
        }
        proof {
            assert(base + chunk@.take(chunk@.len() as int) =~= base + chunk@);
        }
    }

    /// End of stream: finalize the digest and decode the collected tokens.
    ///
    /// A token still open (a doubled open delimiter never matched by a doubled
    /// close) is silently discarded.  If the bytes of any completed token are
    /// not valid UTF-8, the whole scan fails with a decode error.
    #[verifier::loop_isolation(false)]
    pub fn finish(self) -> (r: Result<ScanOutput, ScanError>)
        requires
            self.wf(),
        ensures
            ({
                let toks = scan_bytes(initial_state(), self.bytes()).tokens;
                &&& (r is Ok <==> all_tokens_valid(toks))
                &&& (r matches Ok(out) ==> {
                    &&& out.fingerprint@ == hex_of(md5_of(self.bytes()))
                    &&& views_of(out.references@) == decoded_tokens(toks)
                })
                &&& (r matches Err(e) ==> e == ScanError::TokenDecodeFailure)
            }),
    {
        let ghost toks = scan_bytes(initial_state(), self.bytes()).tokens;
        let Scanner { md5, opens: _, closes: _, in_token: _, pending: _, mut tokens } = self;
        let digest = md5.finish();
        let fingerprint = to_hex(&digest);
        let mut references: Vec<String> = Vec::new();
        let ghost mut k: int = 0;
        while tokens.len() > 0
            invariant
                0 <= k <= toks.len(),
                views_of(tokens@) =~= toks.skip(k),
                views_of(references@) =~= Seq::new(k as nat, |j: int| decode_utf8(toks[j])),
                forall|j: int| 0 <= j < k ==> valid_utf8(toks[j]),
                fingerprint@ == hex_of(md5_of(self.bytes())),
            decreases tokens@.len(),
        {
            let ghost pre = tokens@;
            proof {
                assert(views_of(pre).len() == pre.len());
                assert(toks.skip(k).len() == toks.len() - k);
                assert(k < toks.len());
                assert(views_of(pre)[0] == toks.skip(k)[0]);
                assert(toks.skip(k)[0] == toks[k]);
            }
            let tok = tokens.remove(0);
            proof {
                assert(tok@ == views_of(pre)[0]);
                assert(views_of(tokens@) =~= toks.skip(k + 1)) by {
                    assert(tokens@ == pre.remove(0));
                    assert(pre.remove(0) =~= pre.skip(1));
                    assert forall|j: int| 0 <= j < tokens@.len() implies views_of(tokens@)[j]
                        == toks.skip(k + 1)[j] by {
                        assert(tokens@.len() == pre.len() - 1);
                        assert(tokens@[j] == pre[j + 1]);
                        assert(views_of(pre)[j + 1] == pre[j + 1]@);
                        assert(views_of(pre)[j + 1] == toks.skip(k)[j + 1]);
                        assert(toks.skip(k)[j + 1] == toks[k + 1 + j]);
                        assert(toks.skip(k + 1)[j] == toks[k + 1 + j]);
                    }
                }
            }
            let ghost pre_refs = references@;
            match string_from_utf8(tok) {
                Some(s) => {
                    let ghost sv = s@;
                    proof {
                        assert(sv == decode_utf8(toks[k]));
                        assert(views_of(pre_refs).len() == pre_refs.len());
                        assert(pre_refs.len() == k);
                    }
                    references.push(s);
                    proof {
                        assert(references@ =~= pre_refs.push(references@[k]));
                        assert(references@[k]@ == sv);
                        assert forall|j: int| 0 <= j < k + 1 implies views_of(references@)[j]
                            == decode_utf8(toks[j]) by {
                            if j < k {
                                assert(views_of(pre_refs)[j] == decode_utf8(toks[j]));
                                assert(references@[j] == pre_refs[j]);
                            } else {
                                assert(references@[j]@ == decode_utf8(toks[k]));
                            }
                        }
                        assert(views_of(references@) =~= Seq::new(
                            (k + 1) as nat,
                            |j: int| decode_utf8(toks[j]),
                        ));
                    }
                },
                None => {
                    proof {
                        assert(0 <= k < toks.len());
                        assert(!valid_utf8(toks[k]));
                        assert(!all_tokens_valid(toks));
                    }
                    return Err(ScanError::TokenDecodeFailure);
                },
            }
            proof {
                k = k + 1;
            }
        }
        proof {
            assert(k == toks.len());
            assert(views_of(references@) =~= decoded_tokens(toks));
            assert(all_tokens_valid(toks));
        }
        Ok(ScanOutput { fingerprint, references })
    }
}

} // verus!
