use vstd::prelude::*;

verus! {

use vstd::arithmetic::div_mod::lemma_basic_div;

/// One contiguous run of the input's words, rendered with a single
/// space after every word (including the last).
#[derive(Debug, Clone, PartialEq, Eq)]
pub struct Chunk {
    /// Position of the chunk in splitting order; contiguous from zero.
    pub index: usize,
    /// The chunk text: each of its words followed by one space.
    pub text: Vec<u8>,
}

/// Why a text could not be split.
#[derive(Debug, Clone, Copy, PartialEq, Eq)]
pub enum SplitError {
    /// The text holds no words at all.
    NoWords,
    /// The requested chunk count is so large that the balanced
    /// chunk size rounds down to zero words.
    DegenerateChunkCount,
}

/// ASCII whitespace: the separators between words.
pub open spec fn is_space(b: u8) -> bool {
    b == 32 || b == 9 || b == 10 || b == 13 || b == 11 || b == 12
}

/// A byte sequence entirely free of whitespace.
pub open spec fn space_free(w: Seq<u8>) -> bool {
    forall|j: int| 0 <= j < w.len() ==> !is_space(#[trigger] w[j])
}

/// Every word is non-empty and free of whitespace.
pub open spec fn all_words_wf(ws: Seq<Seq<u8>>) -> bool {
    forall|i: int| 0 <= i < ws.len() ==> (#[trigger] ws[i]).len() > 0 && space_free(ws[i])
}

fn byte_is_space(b: u8) -> (r: bool)
    ensures
        r == is_space(b),
{
    b == 32 || b == 9 || b == 10 || b == 13 || b == 11 || b == 12
}

/// The words still to be read from `s`, with `cur` the bytes of a word
/// already accumulated.
pub open spec fn words_from(s: Seq<u8>, cur: Seq<u8>) -> Seq<Seq<u8>>
    decreases s.len(),
{
    if s.len() == 0 {
        if cur.len() == 0 {
            Seq::empty()
        } else {
            seq![cur]
        }
    } else if is_space(s[0]) {
        if cur.len() == 0 {
            words_from(s.drop_first(), cur)
        } else {
            seq![cur] + words_from(s.drop_first(), Seq::empty())
        }
    } else {
        words_from(s.drop_first(), cur.push(s[0]))
    }
}

/// The whitespace-delimited words of `s`, in order.
pub open spec fn words(s: Seq<u8>) -> Seq<Seq<u8>> {
    words_from(s, Seq::empty())
}

/// Words extracted from any text are non-empty and whitespace-free.
pub proof fn lemma_words_from_wf(s: Seq<u8>, cur: Seq<u8>)
    requires
        space_free(cur),
    ensures
        all_words_wf(words_from(s, cur)),
    decreases s.len(),
{
    if s.len() == 0 {
    } else if is_space(s[0]) {
        if cur.len() == 0 {
            lemma_words_from_wf(s.drop_first(), cur);
        } else {
            lemma_words_from_wf(s.drop_first(), Seq::empty());
            assert forall|i: int| 0 <= i < words_from(s, cur).len() implies (#[trigger] words_from(
                s,
                cur,
            )[i]).len() > 0 && space_free(words_from(s, cur)[i]) by {
                if i > 0 {
                    assert(words_from(s, cur)[i] == words_from(s.drop_first(), Seq::empty())[i
                        - 1]);
                }
            }
        }
    } else {
        assert(space_free(cur.push(s[0]))) by {
            assert forall|j: int| 0 <= j < cur.push(s[0]).len() implies !is_space(
                #[trigger] cur.push(s[0])[j],
            ) by {}
        }
        lemma_words_from_wf(s.drop_first(), cur.push(s[0]));
    }
}

/// There are never more words than bytes left plus the word in progress.
pub proof fn lemma_words_from_count(s: Seq<u8>, cur: Seq<u8>)
    ensures
        words_from(s, cur).len() <= s.len() + if cur.len() == 0 {
            0int
        } else {
            1int
        },
    decreases s.len(),
{
    if s.len() == 0 {
    } else if is_space(s[0]) {
        if cur.len() == 0 {
            lemma_words_from_count(s.drop_first(), cur);
        } else {
            lemma_words_from_count(s.drop_first(), Seq::empty());
        }
    } else {
        lemma_words_from_count(s.drop_first(), cur.push(s[0]));
    }
}

/// The whitespace-delimited words of `text`, each as its own byte
/// vector, in input order.
pub fn tokenize(text: &[u8]) -> (r: Vec<Vec<u8>>)
    ensures
        r.deep_view() == words(text@),
{
    let mut r: Vec<Vec<u8>> = Vec::new();
    let mut cur: Vec<u8> = Vec::new();
    let mut i: usize = 0;
    proof {
        assert(text@.skip(0) =~= text@);
        assert(r.deep_view() + words_from(text@, cur@) =~~= words_from(text@, cur@));
    }
    while i < text.len()
        invariant
            i <= text@.len(),
            words(text@) == r.deep_view() + words_from(text@.skip(i as int), cur@),
        decreases text@.len() - i,
    {
        let ghost prev_r = r.deep_view();
        let ghost prev_cur = cur@;
        let ghost rest = text@.skip(i as int);
        let b = text[i];
        proof {
            assert(rest[0] == text@[i as int]);
            assert(rest.drop_first() =~= text@.skip(i as int + 1));
        }
        if byte_is_space(b) {
            if cur.len() > 0 {
                r.push(cur);
                cur = Vec::new();
                proof {
                    assert(r.deep_view() =~~= prev_r.push(prev_cur));
                    assert(words_from(rest, prev_cur) == seq![prev_cur] + words_from(
                        rest.drop_first(),
                        cur@,
                    ));
                    assert(prev_r + (seq![prev_cur] + words_from(rest.drop_first(), cur@))
                        =~~= r.deep_view() + words_from(rest.drop_first(), cur@));
                }
            }
        } else {
            cur.push(b);
            proof {
                assert(cur@ == prev_cur.push(b));
            }
        }
        i = i + 1;
    }
    proof {
        assert(text@.skip(i as int) =~= Seq::<u8>::empty());
    }
    if cur.len() > 0 {
        let ghost prev_r = r.deep_view();
        let ghost prev_cur = cur@;
        r.push(cur);
        proof {
            assert(r.deep_view() =~~= prev_r.push(prev_cur));
            assert(prev_r + seq![prev_cur] =~= prev_r.push(prev_cur));
        }
    } else {
        proof {
            assert(r.deep_view() + Seq::<Seq<u8>>::empty() =~~= r.deep_view());
        }
    }
    r
}

/// Words per chunk: `round(word_count / n)`, rounding half away from
/// zero, computed exactly over the integers.
pub open spec fn chunk_size(word_count: nat, n: nat) -> nat
    recommends
        n >= 1,
{
    ((2 * word_count + n) / (2 * n)) as nat
}

/// The words grouped into chunks of `s` words each, in order, the last
/// group holding whatever remains.
pub open spec fn chunk_words(ws: Seq<Seq<u8>>, s: nat) -> Seq<Seq<Seq<u8>>>
    decreases ws.len(),
{
    if s == 0 || ws.len() == 0 {
        Seq::empty()
    } else if ws.len() <= s {
        seq![ws]
    } else {
        seq![ws.take(s as int)] + chunk_words(ws.skip(s as int), s)
    }
}

/// Every group but the last holds exactly `s` words; the last holds
/// whatever remains, between one word and `s`.
pub proof fn lemma_chunk_words_sizes(ws: Seq<Seq<u8>>, s: nat)
    requires
        1 <= s,
        ws.len() > 0,
    ensures
        chunk_words(ws, s).len() >= 1,
        forall|k: int|
            0 <= k < chunk_words(ws, s).len() - 1 ==> (#[trigger] chunk_words(ws, s)[k]).len()
                == s,
        1 <= chunk_words(ws, s).last().len() <= s,
    decreases ws.len(),
{
    if ws.len() <= s {
        assert(chunk_words(ws, s) == seq![ws]);
        assert(chunk_words(ws, s).last() == ws);
    } else {
        lemma_chunk_words_sizes(ws.skip(s as int), s);
        let groups = chunk_words(ws, s);
        let rest = chunk_words(ws.skip(s as int), s);
        assert(groups == seq![ws.take(s as int)] + rest);
        assert(groups.last() == rest.last());
        assert forall|k: int| 0 <= k < groups.len() - 1 implies (#[trigger] groups[k]).len()
            == s by {
            if k == 0 {
                assert(groups[0] == ws.take(s as int));
            } else {
                assert(groups[k] == rest[k - 1]);
            }
        }
    }
}

/// A chunk's text: every one of its words followed by a single space.
pub open spec fn text_of(ws: Seq<Seq<u8>>) -> Seq<u8>
    decreases ws.len(),
{
    if ws.len() == 0 {
        Seq::empty()
    } else {
        ws.first() + seq![32u8] + text_of(ws.drop_first())
    }
}

proof fn lemma_text_of_push(q: Seq<Seq<u8>>, w: Seq<u8>)
    ensures
        text_of(q.push(w)) == text_of(q) + w + seq![32u8],
    decreases q.len(),
{
    if q.len() == 0 {
        let e = Seq::<Seq<u8>>::empty();
        assert(q.push(w).drop_first() =~= e);
        assert(text_of(e) == Seq::<u8>::empty());
        assert(q.push(w).first() == w);
        assert(text_of(q.push(w)) == w + seq![32u8] + text_of(e));
        assert(text_of(q) == Seq::<u8>::empty());
        assert(w + seq![32u8] + Seq::<u8>::empty() =~= Seq::<u8>::empty() + w + seq![32u8]);
    } else {
        lemma_text_of_push(q.drop_first(), w);
        assert(q.push(w).drop_first() =~= q.drop_first().push(w));
        assert(q.push(w).first() == q.first());
        assert(text_of(q.push(w)) == q.first() + seq![32u8] + (text_of(q.drop_first()) + w
            + seq![32u8]));
        assert(text_of(q) == q.first() + seq![32u8] + text_of(q.drop_first()));
        assert(text_of(q.push(w)) =~= text_of(q) + w + seq![32u8]);
    }
}

/// The full result of splitting, as a function of the input alone:
/// the word groups whose texts are the returned chunks.
pub open spec fn split_groups(text: Seq<u8>, n: nat) -> Seq<Seq<Seq<u8>>> {
    chunk_words(words(text), chunk_size(words(text).len(), n))
}

/// Grouping words into chunks loses and reorders nothing: the groups
/// flatten back to the original word sequence.
pub proof fn lemma_chunk_words_flatten(ws: Seq<Seq<u8>>, s: nat)
    requires
        s >= 1,
    ensures
        chunk_words(ws, s).flatten() == ws,
    decreases ws.len(),
{
    if ws.len() == 0 {
        assert(chunk_words(ws, s).flatten() =~= ws);
    } else if ws.len() <= s {
        let c = chunk_words(ws, s);
        assert(c == seq![ws]);
        assert(c.first() == ws);
        assert(c.drop_first() =~= Seq::<Seq<Seq<u8>>>::empty());
        assert(Seq::<Seq<Seq<u8>>>::empty().flatten() == Seq::<Seq<u8>>::empty());
        assert(c.flatten() =~= ws);
    } else {
        lemma_chunk_words_flatten(ws.skip(s as int), s);
        let c = chunk_words(ws, s);
        assert(c == seq![ws.take(s as int)] + chunk_words(ws.skip(s as int), s));
        assert(c.first() == ws.take(s as int));
        assert(c.drop_first() =~= chunk_words(ws.skip(s as int), s));
        assert(c.flatten() == ws.take(s as int) + ws.skip(s as int));
        assert(ws.take(s as int) + ws.skip(s as int) =~= ws);
    }
}

/// Every group made by `chunk_words` holds only well-formed words.
pub proof fn lemma_chunk_words_wf(ws: Seq<Seq<u8>>, s: nat)
    requires
        s >= 1,
        all_words_wf(ws),
    ensures
        forall|k: int|
            0 <= k < chunk_words(ws, s).len() ==> all_words_wf(#[trigger] chunk_words(ws, s)[k]),
    decreases ws.len(),
{
    if ws.len() == 0 {
    } else if ws.len() <= s {
        assert(chunk_words(ws, s)[0] == ws);
    } else {
        assert(all_words_wf(ws.skip(s as int))) by {
            assert forall|i: int| 0 <= i < ws.skip(s as int).len() implies (#[trigger] ws.skip(
                s as int,
            )[i]).len() > 0 && space_free(ws.skip(s as int)[i]) by {
                assert(ws.skip(s as int)[i] == ws[s + i]);
            }
        }
        lemma_chunk_words_wf(ws.skip(s as int), s);
        let c = chunk_words(ws, s);
        assert forall|k: int| 0 <= k < c.len() implies all_words_wf(#[trigger] c[k]) by {
            if k == 0 {
                assert(c[0] == ws.take(s as int));
                assert forall|i: int| 0 <= i < ws.take(s as int).len() implies (#[trigger] ws.take(
                    s as int,
                )[i]).len() > 0 && space_free(ws.take(s as int)[i]) by {
                    assert(ws.take(s as int)[i] == ws[i]);
                }
            } else {
                assert(c[k] == chunk_words(ws.skip(s as int), s)[k - 1]);
            }
        }
    }
}

/// Reading a whitespace-free word off the front of a text moves it
/// whole into the accumulated word.
proof fn lemma_words_from_through_word(w: Seq<u8>, rest: Seq<u8>, cur: Seq<u8>)
    requires
        space_free(w),
    ensures
        words_from(w + rest, cur) == words_from(rest, cur + w),
    decreases w.len(),
{
    if w.len() == 0 {
        assert(w + rest =~= rest);
        assert(cur + w =~= cur);
    } else {
        assert((w + rest)[0] == w[0]);
        assert(!is_space(w[0]));
        assert((w + rest).drop_first() =~= w.drop_first() + rest);
        assert(space_free(w.drop_first())) by {
            assert forall|j: int| 0 <= j < w.drop_first().len() implies !is_space(
                #[trigger] w.drop_first()[j],
            ) by {
                assert(w.drop_first()[j] == w[j + 1]);
            }
        }
        lemma_words_from_through_word(w.drop_first(), rest, cur.push(w[0]));
        assert(cur.push(w[0]) + w.drop_first() =~= cur + w);
    }
}

/// Tokenizing a rendered chunk text gives back exactly its words.
pub proof fn lemma_words_text_of(q: Seq<Seq<u8>>)
    requires
        all_words_wf(q),
    ensures
        words(text_of(q)) == q,
    decreases q.len(),
{
    if q.len() == 0 {
    } else {
        let w = q.first();
        let rest = seq![32u8] + text_of(q.drop_first());
        assert(text_of(q) =~= w + rest);
        lemma_words_from_through_word(w, rest, Seq::empty());
        assert(Seq::<u8>::empty() + w =~= w);
        assert(rest[0] == 32);
        assert(is_space(rest[0]));
        assert(w.len() > 0);
        assert(rest.drop_first() =~= text_of(q.drop_first()));
        assert(words_from(rest, w) == seq![w] + words_from(text_of(q.drop_first()), Seq::empty()));
        assert(all_words_wf(q.drop_first())) by {
            assert forall|i: int| 0 <= i < q.drop_first().len() implies (#[trigger] q.drop_first(
            )[i]).len() > 0 && space_free(q.drop_first()[i]) by {
                assert(q.drop_first()[i] == q[i + 1]);
            }
        }
        lemma_words_text_of(q.drop_first());
        assert(seq![w] + q.drop_first() =~= q);
    }
}

/// The words of the returned chunk texts, in chunk order, are exactly
/// the words of the input text: splitting loses, changes and reorders
/// nothing.
pub proof fn lemma_split_preserves_words(text: Seq<u8>, n: nat)
    requires
        1 <= n,
        chunk_size(words(text).len(), n) >= 1,
    ensures
        split_groups(text, n).map_values(|g: Seq<Seq<u8>>| words(text_of(g))).flatten() == words(
            text,
        ),
{
    let ws = words(text);
    let s = chunk_size(ws.len(), n);
    let groups = split_groups(text, n);
    lemma_words_from_wf(text, Seq::empty());
    lemma_chunk_words_wf(ws, s);
    let mapped = groups.map_values(|g: Seq<Seq<u8>>| words(text_of(g)));
    assert forall|k: int| 0 <= k < groups.len() implies #[trigger] mapped[k] == groups[k] by {
        lemma_words_text_of(groups[k]);
    }
    assert(mapped =~= groups);
    lemma_chunk_words_flatten(ws, s);
}

/// What splitting returns for `text` and `n`: one chunk per word
/// group, indexed contiguously from zero, holding the group's rendered
/// text. A function of the input alone.
pub open spec fn chunks_match(cs: Seq<Chunk>, text: Seq<u8>, n: nat) -> bool {
    let groups = split_groups(text, n);
    &&& cs.len() == groups.len()
    &&& forall|k: int|
        0 <= k < groups.len() ==> (#[trigger] cs[k]).index == k && cs[k].text@ == text_of(
            groups[k],
        )
}

/// Splitting is deterministic: any two chunk sequences splitting the
/// same text into the same count are identical, index by index and
/// byte by byte.
pub proof fn lemma_split_deterministic(text: Seq<u8>, n: nat, c1: Seq<Chunk>, c2: Seq<Chunk>)
    requires
        chunks_match(c1, text, n),
        chunks_match(c2, text, n),
    ensures
        c1.len() == c2.len(),
        forall|k: int|
            0 <= k < c1.len() ==> (#[trigger] c1[k]).index == c2[k].index && c1[k].text@
                == c2[k].text@,
{
}

/// Appends `w` and a single space to `out`.
fn push_word(out: &mut Vec<u8>, w: &Vec<u8>)
    ensures
        final (out)@ == old(out)@ + w@ + seq![32u8],
{
    let mut j: usize = 0;
    proof {
        assert(out@ + w@.subrange(0, 0) =~= out@);
    }
    while j < w.len()
        invariant
            j <= w@.len(),
            out@ == old(out)@ + w@.subrange(0, j as int),
        decreases w@.len() - j,
    {
        out.push(w[j]);
        proof {
            assert(w@.subrange(0, j as int + 1) =~= w@.subrange(0, j as int).push(w@[j as int]));
            assert(old(out)@ + w@.subrange(0, j as int + 1) =~= (old(out)@ + w@.subrange(
                0,
                j as int,
            )).push(w@[j as int]));
        }
        j = j + 1;
    }
    proof {
        assert(w@.subrange(0, w@.len() as int) =~= w@);
    }
    out.push(32);
    proof {
        assert(old(out)@ + w@ + seq![32u8] =~= (old(out)@ + w@).push(32u8));
    }
}

/// Splits `text` into `n` balanced chunks of whole words.
///
/// The target chunk size is `round(W / n)` for word count `W`; a chunk
/// is closed each time it reaches that many words, and any words left
/// over at the end form a final, possibly shorter, chunk (possibly an
/// `n+1`-th one). Texts without words are rejected, as is an `n` so
/// large that the target size rounds down to zero.
pub fn split(text: &[u8], n: usize) -> (r: Result<Vec<Chunk>, SplitError>)
    requires
        1 <= n <= usize::MAX / 4,
        text@.len() <= usize::MAX / 4,
    ensures
        words(text@).len() == 0 ==> r == Result::<Vec<Chunk>, SplitError>::Err(
            SplitError::NoWords,
        ),
        words(text@).len() > 0 && chunk_size(words(text@).len(), n as nat) == 0 ==> r
            == Result::<Vec<Chunk>, SplitError>::Err(SplitError::DegenerateChunkCount),
        chunk_size(words(text@).len(), n as nat) >= 1 ==> (r matches Ok(cs) && chunks_match(
            cs@,
            text@,
            n as nat,
        )),
{
    let ws = tokenize(text);
    proof {
        lemma_words_from_count(text@, Seq::empty());
    }
    let w_count = ws.len();
    if w_count == 0 {
        proof {
            lemma_basic_div(n as int, 2 * n as int);
            assert(chunk_size(0, n as nat) == 0);
        }
        return Err(SplitError::NoWords);
    }
    let s = (2 * w_count + n) / (2 * n);
    if s == 0 {
        return Err(SplitError::DegenerateChunkCount);
    }
    let ghost wseq = ws.deep_view();
    let ghost groups = chunk_words(wseq, s as nat);
    let mut chunks: Vec<Chunk> = Vec::new();
    let mut cur_text: Vec<u8> = Vec::new();
    let mut cur_count: usize = 0;
    let mut i: usize = 0;
    proof {
        assert(wseq.skip(0) =~= wseq);
        assert(groups.skip(0) =~= groups);
        assert(wseq.subrange(0, 0) =~= Seq::<Seq<u8>>::empty());
        assert(text_of(Seq::<Seq<u8>>::empty()) == Seq::<u8>::empty());
        assert(chunks@.len() == 0);
    }
    while i < ws.len()
        invariant
            1 <= s,
            cur_count < s,
            cur_count <= i <= wseq.len(),
            wseq == ws.deep_view(),
            groups == chunk_words(wseq, s as nat),
            i - cur_count == chunks@.len() * s,
            chunks@.len() <= groups.len(),
            groups.skip(chunks@.len() as int) == chunk_words(
                wseq.skip(i - cur_count),
                s as nat,
            ),
            cur_text@ == text_of(wseq.subrange(i - cur_count, i as int)),
            forall|k: int|
                0 <= k < chunks@.len() ==> (#[trigger] chunks@[k]).index == k
                    && chunks@[k].text@ == text_of(groups[k]),
        decreases wseq.len() - i,
    {
        let ghost chunk_start = i - cur_count;
        push_word(&mut cur_text, &ws[i]);
        proof {
            assert(wseq[i as int] =~~= ws@[i as int]@);
            assert(wseq.subrange(chunk_start, i as int + 1) =~= wseq.subrange(
                chunk_start,
                i as int,
            ).push(wseq[i as int]));
            lemma_text_of_push(wseq.subrange(chunk_start, i as int), wseq[i as int]);
        }
        cur_count = cur_count + 1;
        i = i + 1;
        if cur_count == s {
            let idx = chunks.len();
            proof {
                let m = chunks@.len() as int;
                let tail = wseq.skip(chunk_start);
                assert(tail.len() == wseq.len() - chunk_start);
                assert(groups.skip(m).len() == groups.len() - m);
                if tail.len() <= s as int {
                    assert(chunk_words(tail, s as nat) == seq![tail]);
                    assert(groups.skip(m).len() == 1);
                    assert(m < groups.len());
                    assert(groups.len() == m + 1);
                    assert(groups.skip(m)[0] == tail);
                    assert(groups[m] == tail);
                    assert(tail =~= wseq.subrange(chunk_start, i as int));
                    assert(wseq.skip(i as int) =~= Seq::<Seq<u8>>::empty());
                    assert(chunk_words(wseq.skip(i as int), s as nat)
                        =~= Seq::<Seq<Seq<u8>>>::empty());
                    assert(groups.skip(m + 1) =~= Seq::<Seq<Seq<u8>>>::empty());
                } else {
                    assert(chunk_words(tail, s as nat) == seq![tail.take(s as int)]
                        + chunk_words(tail.skip(s as int), s as nat));
                    assert(m < groups.len());
                    assert(groups.skip(m)[0] == tail.take(s as int));
                    assert(groups[m] == tail.take(s as int));
                    assert(tail.take(s as int) =~= wseq.subrange(chunk_start, i as int));
                    assert(tail.skip(s as int) =~= wseq.skip(i as int));
                    assert(groups.skip(m + 1) =~= groups.skip(m).skip(1));
                    assert(groups.skip(m).skip(1) =~= chunk_words(tail.skip(s as int), s as nat));
                    assert(groups.skip(m + 1) =~= chunk_words(wseq.skip(i as int), s as nat));
                }
                assert((m + 1) * s == m * s + s) by (nonlinear_arith);
            }
            chunks.push(Chunk { index: idx, text: cur_text });
            cur_text = Vec::new();
            cur_count = 0;
            proof {
                assert(wseq.subrange(i as int, i as int) =~= Seq::<Seq<u8>>::empty());
            }
        }
    }
    if cur_count > 0 {
        let idx = chunks.len();
        proof {
            let m = chunks@.len() as int;
            let chunk_start = i - cur_count;
            let tail = wseq.skip(chunk_start as int);
            assert(tail.len() == cur_count);
            assert(chunk_words(tail, s as nat) == seq![tail]);
            assert(groups.skip(m).len() == groups.len() - m);
            assert(m < groups.len());
            assert(groups.skip(m)[0] == tail);
            assert(groups[m] == tail);
            assert(tail =~= wseq.subrange(chunk_start as int, i as int));
            assert(groups.skip(m) =~= seq![tail]);
            assert(groups.len() == m + 1);
        }
        chunks.push(Chunk { index: idx, text: cur_text });
    } else {
        proof {
            let m = chunks@.len() as int;
            assert(wseq.skip(i - cur_count) =~= Seq::<Seq<u8>>::empty());
            assert(groups.skip(m) =~= Seq::<Seq<Seq<u8>>>::empty());
            assert(groups.len() == m);
        }
    }
    Ok(chunks)
}

} // verus!
