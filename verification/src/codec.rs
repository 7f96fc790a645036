use vstd::prelude::*;

use vstd::slice::slice_subrange;
use vstd::slice::slice_to_vec;

verus! {

// The peer file is a JSON array of plain strings: `[` and `]` around zero or
// more double-quoted strings separated by commas, with space, tab, carriage
// return or newline allowed around every token. A plain string holds any
// bytes except the quote (34) and the backslash (92): escape sequences are
// not part of this format, and address text never needs them.

pub open spec fn is_json_ws(b: u8) -> bool {
    b == 32 || b == 9 || b == 10 || b == 13
}

/// Number of whitespace bytes running from index `i`.
pub open spec fn ws_len(s: Seq<u8>, i: int) -> nat
    decreases s.len() - i,
{
    if i < 0 || i >= s.len() || !is_json_ws(s[i]) {
        0
    } else {
        1 + ws_len(s, i + 1)
    }
}

/// Length of plain string content running from index `i` up to a closing
/// quote; `None` when the quote never comes or a backslash stands first.
pub open spec fn content_len(s: Seq<u8>, i: int) -> Option<nat>
    decreases s.len() - i,
{
    if i < 0 || i >= s.len() || s[i] == 92 {
        None
    } else if s[i] == 34 {
        Some(0)
    } else {
        match content_len(s, i + 1) {
            None => None,
            Some(l) => Some(1 + l),
        }
    }
}

/// The strings of a non-empty array body whose first element starts exactly
/// at `i`, which must continue `"content" (ws , ws "content")* ws ] ws` to
/// the very end of `s`; `None` when it does not.
pub open spec fn elements(s: Seq<u8>, i: int) -> Option<Seq<Seq<u8>>>
    decreases s.len() - i,
{
    if i < 0 || i >= s.len() || s[i] != 34 {
        None
    } else {
        match content_len(s, i + 1) {
            None => None,
            Some(l) => {
                let w = s.subrange(i + 1, i + 1 + l);
                let e = i + 1 + l + 1;
                let k = e + ws_len(s, e);
                if k < s.len() && s[k] == 44 {
                    let j = k + 1 + ws_len(s, k + 1);
                    if j >= s.len() {
                        None
                    } else {
                        match elements(s, j) {
                            None => None,
                            Some(rest) => Some(seq![w] + rest),
                        }
                    }
                } else if k < s.len() && s[k] == 93 {
                    if k + 1 + ws_len(s, k + 1) == s.len() {
                        Some(seq![w])
                    } else {
                        None
                    }
                } else {
                    None
                }
            },
        }
    }
}

/// The strings held by a peer-file document, or `None` when the document is
/// not an array of plain strings.
pub open spec fn json_strings(s: Seq<u8>) -> Option<Seq<Seq<u8>>> {
    let i = ws_len(s, 0) as int;
    if i < s.len() && s[i] == 91 {
        let k = i + 1 + ws_len(s, i + 1);
        if k < s.len() && s[k] == 93 {
            if k + 1 + ws_len(s, k + 1) == s.len() {
                Some(Seq::empty())
            } else {
                None
            }
        } else {
            elements(s, k)
        }
    } else {
        None
    }
}

/// A string token: quotes around the content.
pub open spec fn quoted(w: Seq<u8>) -> Seq<u8> {
    seq![34u8] + w + seq![34u8]
}

/// The body of the document this library writes: the string tokens joined by
/// single commas, with no whitespace.
pub open spec fn body_of(words: Seq<Seq<u8>>) -> Seq<u8>
    decreases words.len(),
{
    if words.len() == 0 {
        Seq::empty()
    } else if words.len() == 1 {
        quoted(words[0])
    } else {
        quoted(words[0]) + seq![44u8] + body_of(words.drop_first())
    }
}

/// The document this library writes for a row of words.
pub open spec fn json_doc_of(words: Seq<Seq<u8>>) -> Seq<u8> {
    seq![91u8] + body_of(words) + seq![93u8]
}

/// A word that needs no escaping inside a string token.
pub open spec fn plain_word(w: Seq<u8>) -> bool {
    forall|t: int| 0 <= t < w.len() ==> w[t] != 34 && w[t] != 92
}

/// The views of a row of byte vectors.
pub open spec fn views_of(s: Seq<Vec<u8>>) -> Seq<Seq<u8>> {
    s.map_values(|v: Vec<u8>| v@)
}

/// Index just past the whitespace run at `i`.
fn ws_skip(s: &[u8], i: usize) -> (j: usize)
    requires
        i <= s@.len(),
    ensures
        i <= j <= s@.len(),
        j as int == i + ws_len(s@, i as int),
{
    let n = s.len();
    let mut k = i;
    while k < n && (s[k] == 32 || s[k] == 9 || s[k] == 10 || s[k] == 13)
        invariant
            i <= k <= n,
            n == s@.len(),
            i + ws_len(s@, i as int) == k + ws_len(s@, k as int),
        decreases n - k,
    {
        proof {
            assert(ws_len(s@, k as int) == 1 + ws_len(s@, k as int + 1));
        }
        k = k + 1;
    }
    proof {
        assert(ws_len(s@, k as int) == 0);
    }
    k
}

/// Length of the plain string content at `i`, per `content_len`.
fn scan_content(s: &[u8], i: usize) -> (r: Option<usize>)
    requires
        i <= s@.len(),
    ensures
        match r {
            Some(l) => content_len(s@, i as int) == Some(l as nat) && i + l < s@.len() && s@[i
                + l] == 34,
            None => content_len(s@, i as int) is None,
        },
{
    let n = s.len();
    let mut k = i;
    loop
        invariant
            i <= k <= n,
            n == s@.len(),
            content_len(s@, i as int) == (match content_len(s@, k as int) {
                None => None::<nat>,
                Some(l) => Some(((k - i) + l) as nat),
            }),
        decreases n - k,
    {
        if k >= n {
            return None;
        }
        let b = s[k];
        if b == 92 {
            return None;
        }
        if b == 34 {
            proof {
                assert(content_len(s@, k as int) == Some(0nat));
            }
            return Some(k - i);
        }
        proof {
            assert(content_len(s@, k as int) == (match content_len(s@, k as int + 1) {
                None => None::<nat>,
                Some(l) => Some((1 + l) as nat),
            }));
        }
        k = k + 1;
    }
}

/// Parses the elements of a non-empty array starting at `i`, appending each
/// decoded string to `out`; per `elements`.
fn parse_elements(s: &[u8], i: usize, out: &mut Vec<Vec<u8>>) -> (ok: bool)
    requires
        i <= s@.len(),
    ensures
        match elements(s@, i as int) {
            Some(es) => ok && views_of(final(out)@) == views_of(old(out)@) + es,
            None => !ok,
        },
    decreases s@.len() - i,
{
    let n = s.len();
    if i >= n || s[i] != 34 {
        return false;
    }
    let lo = match scan_content(s, i + 1) {
        None => {
            return false;
        },
        Some(l) => l,
    };
    let ghost w = s@.subrange(i + 1, i + 1 + lo);
    let e = i + 1 + lo + 1;
    let k = ws_skip(s, e);
    if k < n && s[k] == 44 {
        let j = ws_skip(s, k + 1);
        if j >= n {
            return false;
        }
        let word = slice_to_vec(slice_subrange(s, i + 1, i + 1 + lo));
        out.push(word);
        let ghost mid = out@;
        proof {
            assert(views_of(mid) =~= views_of(old(out)@).push(w));
        }
        let ok = parse_elements(s, j, out);
        proof {
            if elements(s@, j as int) is Some {
                let rest = elements(s@, j as int).unwrap();
                assert(elements(s@, i as int) == Some(seq![w] + rest));
                assert(views_of(old(out)@).push(w) + rest =~= views_of(old(out)@) + (seq![w]
                    + rest));
            }
        }
        ok
    } else if k < n && s[k] == 93 {
        let t = ws_skip(s, k + 1);
        if t == n {
            let word = slice_to_vec(slice_subrange(s, i + 1, i + 1 + lo));
            out.push(word);
            proof {
                assert(elements(s@, i as int) == Some(seq![w]));
                assert(views_of(out@) =~= views_of(old(out)@) + seq![w]);
            }
            true
        } else {
            false
        }
    } else {
        false
    }
}

/// Parses a peer-file document into its strings; `None` when the document is
/// not an array of plain strings.
pub fn parse_json_strings(s: &[u8]) -> (r: Option<Vec<Vec<u8>>>)
    ensures
        match json_strings(s@) {
            Some(es) => r is Some && views_of(r.unwrap()@) == es,
            None => r is None,
        },
{
    let n = s.len();
    let i = ws_skip(s, 0);
    if i < n && s[i] == 91 {
        let k = ws_skip(s, i + 1);
        if k < n && s[k] == 93 {
            let t = ws_skip(s, k + 1);
            if t == n {
                let out: Vec<Vec<u8>> = Vec::new();
                proof {
                    assert(views_of(out@) =~= Seq::<Seq<u8>>::empty());
                }
                Some(out)
            } else {
                None
            }
        } else {
            let mut out: Vec<Vec<u8>> = Vec::new();
            let ghost before = out@;
            if parse_elements(s, k, &mut out) {
                proof {
                    let es = elements(s@, k as int).unwrap();
                    assert(views_of(before) =~= Seq::<Seq<u8>>::empty());
                    assert(views_of(before) + es =~= es);
                }
                Some(out)
            } else {
                None
            }
        }
    } else {
        None
    }
}

/// `body_of` grown by one word at the back.
proof fn lemma_body_snoc(words: Seq<Seq<u8>>, w: Seq<u8>)
    ensures
        body_of(words.push(w)) == if words.len() == 0 {
            quoted(w)
        } else {
            body_of(words) + seq![44u8] + quoted(w)
        },
    decreases words.len(),
{
    if words.len() == 0 {
        assert(words.push(w)[0] == w);
    } else {
        assert(words.push(w).drop_first() =~= words.drop_first().push(w));
        lemma_body_snoc(words.drop_first(), w);
        assert(words.push(w)[0] == words[0]);
        if words.len() > 1 {
            assert(quoted(words[0]) + seq![44u8] + (body_of(words.drop_first()) + seq![44u8]
                + quoted(w)) =~= (quoted(words[0]) + seq![44u8] + body_of(words.drop_first()))
                + seq![44u8] + quoted(w));
        }
    }
}

/// Serializes a row of words as the peer-file document.
pub fn write_json(words: &Vec<Vec<u8>>) -> (r: Vec<u8>)
    ensures
        r@ == json_doc_of(views_of(words@)),
{
    let ghost ws = views_of(words@);
    let n = words.len();
    let mut out: Vec<u8> = Vec::new();
    out.push(91);
    let mut k: usize = 0;
    while k < n
        invariant
            0 <= k <= n,
            n == words@.len(),
            ws == views_of(words@),
            out@ == seq![91u8] + body_of(ws.take(k as int)),
        decreases n - k,
    {
        let ghost prior = out@;
        if k > 0 {
            out.push(44);
        }
        out.push(34);
        let mut text = slice_to_vec(words[k].as_slice());
        out.append(&mut text);
        out.push(34);
        proof {
            assert(ws.take(k as int + 1) =~= ws.take(k as int).push(ws[k as int]));
            lemma_body_snoc(ws.take(k as int), ws[k as int]);
            assert(ws[k as int] == words@[k as int]@);
            assert(out@ =~= seq![91u8] + body_of(ws.take(k as int + 1)));
        }
        k = k + 1;
    }
    out.push(93);
    proof {
        assert(ws.take(n as int) =~= ws);
        assert(out@ =~= json_doc_of(ws));
    }
    out
}

/// Plain string content scans to its closing quote.
proof fn lemma_content_len_run(s: Seq<u8>, i: int, j: int)
    requires
        0 <= i <= j < s.len(),
        forall|t: int| i <= t < j ==> s[t] != 34 && s[t] != 92,
        s[j] == 34,
    ensures
        content_len(s, i) == Some((j - i) as nat),
    decreases j - i,
{
    if i < j {
        lemma_content_len_run(s, i + 1, j);
    }
}

/// A document this library writes parses back to exactly the words that
/// went in, provided every word is plain.
proof fn lemma_elements_doc(s: Seq<u8>, i: int, words: Seq<Seq<u8>>)
    requires
        0 <= i,
        words.len() >= 1,
        forall|t: int| 0 <= t < words.len() ==> plain_word(#[trigger] words[t]),
        s.len() == i + body_of(words).len() + 1,
        s.subrange(i, s.len() as int) == body_of(words) + seq![93u8],
    ensures
        elements(s, i) == Some(words),
    decreases words.len(),
{
    let w0 = words[0];
    let body = body_of(words);
    let tail = s.subrange(i, s.len() as int);
    let lw = w0.len() as int;
    assert(plain_word(w0));
    assert(tail.len() == body.len() + 1);
    // The first token: a quote, the word, a quote.
    assert forall|t: int| 0 <= t < quoted(w0).len() implies s[i + t] == quoted(w0)[t] by {
        assert(body[t] == quoted(w0)[t]) by {
            if words.len() > 1 {
                assert(body == quoted(w0) + seq![44u8] + body_of(words.drop_first()));
            }
        }
        assert(tail[t] == body[t]);
        assert(tail[t] == s[i + t]);
    }
    assert(quoted(w0)[0] == 34);
    assert(s[i] == 34);
    assert forall|t: int| i + 1 <= t < i + 1 + lw implies s[t] != 34 && s[t] != 92 by {
        assert(quoted(w0)[t - i] == w0[t - i - 1]);
        assert(s[t] == quoted(w0)[t - i]);
    }
    assert(quoted(w0)[1 + lw] == 34);
    assert(s[i + 1 + lw] == 34);
    lemma_content_len_run(s, i + 1, i + 1 + lw);
    assert(s.subrange(i + 1, i + 1 + lw) =~= w0) by {
        assert forall|t: int| 0 <= t < lw implies s.subrange(i + 1, i + 1 + lw)[t] == w0[t] by {
            assert(s[i + 1 + t] == quoted(w0)[1 + t]);
            assert(quoted(w0)[1 + t] == w0[t]);
        }
    }
    let e = i + 1 + lw + 1;
    if words.len() == 1 {
        assert(body == quoted(w0));
        assert(tail[e - i] == 93);
        assert(s[e] == 93);
        assert(!is_json_ws(s[e]));
        assert(ws_len(s, e) == 0);
        assert(e + 1 == s.len());
        assert(ws_len(s, e + 1) == 0);
        assert(elements(s, i) == Some(seq![s.subrange(i + 1, i + 1 + lw)]));
        assert(seq![w0] =~= words);
    } else {
        let rest = words.drop_first();
        assert(body == quoted(w0) + seq![44u8] + body_of(rest));
        assert(body[e - i] == 44);
        assert(tail[e - i] == body[e - i]);
        assert(s[e] == tail[e - i]);
        assert(!is_json_ws(s[e]));
        assert(ws_len(s, e) == 0);
        let j = e + 1;
        assert(body_of(rest)[0] == 34 && body_of(rest).len() >= 1) by {
            if rest.len() == 1 {
                assert(body_of(rest) == quoted(rest[0]));
            } else {
                assert(body_of(rest) == quoted(rest[0]) + seq![44u8] + body_of(rest.drop_first()));
            }
            assert(quoted(rest[0])[0] == 34);
        }
        assert(body[j - i] == body_of(rest)[0]);
        assert(tail[j - i] == body[j - i]);
        assert(s[j] == tail[j - i]);
        assert(!is_json_ws(s[j]));
        assert(ws_len(s, j) == 0);
        assert(s.subrange(j, s.len() as int) =~= body_of(rest) + seq![93u8]) by {
            assert forall|t: int| 0 <= t < s.len() - j implies s.subrange(j, s.len() as int)[t]
                == (body_of(rest) + seq![93u8])[t] by {
                assert(s.subrange(j, s.len() as int)[t] == s[j + t]);
                assert(s[j + t] == tail[j - i + t]);
                assert(tail[j - i + t] == (body + seq![93u8])[j - i + t]);
                if t < body_of(rest).len() {
                    assert(body[j - i + t] == body_of(rest)[t]);
                }
            }
        }
        assert(forall|t: int| 0 <= t < rest.len() ==> plain_word(#[trigger] rest[t])) by {
            assert(forall|t: int| 0 <= t < rest.len() ==> rest[t] == words[t + 1]);
        }
        lemma_elements_doc(s, j, rest);
        assert(elements(s, i) == Some(seq![s.subrange(i + 1, i + 1 + lw)] + rest));
        assert(seq![w0] + rest =~= words);
    }
}

/// Round trip at the document level: parsing a document this library wrote
/// yields exactly the words that were written.
pub proof fn lemma_json_round_trip(words: Seq<Seq<u8>>)
    requires
        forall|t: int| 0 <= t < words.len() ==> plain_word(#[trigger] words[t]),
    ensures
        json_strings(json_doc_of(words)) == Some(words),
{
    let s = json_doc_of(words);
    assert(s[0] == 91);
    assert(!is_json_ws(s[0]));
    assert(ws_len(s, 0) == 0);
    if words.len() == 0 {
        assert(body_of(words) == Seq::<u8>::empty());
        assert(s.len() == 2);
        assert(s[1] == 93);
        assert(!is_json_ws(s[1]));
        assert(ws_len(s, 1) == 0);
        assert(ws_len(s, 2) == 0);
        assert(json_strings(s) == Some(Seq::<Seq<u8>>::empty()));
        assert(Seq::<Seq<u8>>::empty() =~= words);
    } else {
        assert(body_of(words)[0] == 34) by {
            if words.len() == 1 {
                assert(body_of(words) == quoted(words[0]));
            } else {
                assert(body_of(words) == quoted(words[0]) + seq![44u8] + body_of(
                    words.drop_first(),
                ));
            }
        }
        assert(s[1] == body_of(words)[0]);
        assert(!is_json_ws(s[1]));
        assert(ws_len(s, 1) == 0);
        assert(s[1] != 93);
        assert(s.subrange(1, s.len() as int) =~= body_of(words) + seq![93u8]);
        lemma_elements_doc(s, 1, words);
    }
}

} // verus!
