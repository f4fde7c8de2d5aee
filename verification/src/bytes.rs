//! Byte-level helpers for the wire parser: locating separators, splitting
//! head lines, tokenizing the start line, whitespace trimming, and the
//! permissive byte-to-text decoding at the boundary.
use vstd::prelude::*;
use vstd::slice::slice_index_get;
use vstd::slice::slice_subrange;
use vstd::slice::slice_to_vec;

verus! {

pub const CR: u8 = 13;
pub const LF: u8 = 10;

/// ASCII whitespace, as trimmed from head edges and header values.
pub open spec fn is_ws(b: u8) -> bool {
    b == 32 || b == 9 || b == 13 || b == 10
}

/// A carriage return and line feed stand at position `k`.
pub open spec fn crlf_at(s: Seq<u8>, k: int) -> bool {
    s[k] == CR && s[k + 1] == LF
}

/// The four-byte head terminator stands at position `k`.
pub open spec fn crlf2_at(s: Seq<u8>, k: int) -> bool {
    s[k] == CR && s[k + 1] == LF && s[k + 2] == CR && s[k + 3] == LF
}

/// The first position of a line break, or -1.
pub open spec fn find_crlf(s: Seq<u8>) -> int
    decreases s.len(),
{
    if s.len() < 2 {
        -1
    } else if crlf_at(s, 0) {
        0
    } else {
        let r = find_crlf(s.skip(1));
        if r == -1 {
            -1
        } else {
            r + 1
        }
    }
}

/// The first position of the head terminator, or -1.
pub open spec fn find_crlf2(s: Seq<u8>) -> int
    decreases s.len(),
{
    if s.len() < 4 {
        -1
    } else if crlf2_at(s, 0) {
        0
    } else {
        let r = find_crlf2(s.skip(1));
        if r == -1 {
            -1
        } else {
            r + 1
        }
    }
}

/// The first position of byte `b`, or -1.
pub open spec fn find_byte(s: Seq<u8>, b: u8) -> int
    decreases s.len(),
{
    if s.len() == 0 {
        -1
    } else if s[0] == b {
        0
    } else {
        let r = find_byte(s.skip(1), b);
        if r == -1 {
            -1
        } else {
            r + 1
        }
    }
}

pub proof fn lemma_find_crlf(s: Seq<u8>)
    ensures
        find_crlf(s) == -1 ==> forall|k: int| 0 <= k && k + 2 <= s.len() ==> !crlf_at(s, k),
        find_crlf(s) != -1 ==> {
            &&& 0 <= find_crlf(s)
            &&& find_crlf(s) + 2 <= s.len()
            &&& crlf_at(s, find_crlf(s))
            &&& forall|k: int| 0 <= k < find_crlf(s) ==> !crlf_at(s, k)
        },
    decreases s.len(),
{
    if s.len() < 2 {
    } else if crlf_at(s, 0) {
    } else {
        lemma_find_crlf(s.skip(1));
        let t = s.skip(1);
        if find_crlf(s) == -1 {
            assert forall|k: int| 0 <= k && k + 2 <= s.len() implies !crlf_at(s, k) by {
                if k > 0 {
                    assert(!crlf_at(t, k - 1));
                    assert(t[k - 1] == s[k] && t[k] == s[k + 1]);
                }
            }
        } else {
            let f = find_crlf(t);
            assert(t[f] == s[f + 1] && t[f + 1] == s[f + 2]);
            assert forall|k: int| 0 <= k < find_crlf(s) implies !crlf_at(s, k) by {
                if k > 0 {
                    assert(!crlf_at(t, k - 1));
                    assert(t[k - 1] == s[k] && t[k] == s[k + 1]);
                }
            }
        }
    }
}

pub proof fn lemma_find_crlf2(s: Seq<u8>)
    ensures
        find_crlf2(s) == -1 ==> forall|k: int| 0 <= k && k + 4 <= s.len() ==> !crlf2_at(s, k),
        find_crlf2(s) != -1 ==> {
            &&& 0 <= find_crlf2(s)
            &&& find_crlf2(s) + 4 <= s.len()
            &&& crlf2_at(s, find_crlf2(s))
            &&& forall|k: int| 0 <= k < find_crlf2(s) ==> !crlf2_at(s, k)
        },
    decreases s.len(),
{
    if s.len() < 4 {
    } else if crlf2_at(s, 0) {
    } else {
        lemma_find_crlf2(s.skip(1));
        let t = s.skip(1);
        if find_crlf2(s) == -1 {
            assert forall|k: int| 0 <= k && k + 4 <= s.len() implies !crlf2_at(s, k) by {
                if k > 0 {
                    assert(!crlf2_at(t, k - 1));
                    assert(t[k - 1] == s[k] && t[k] == s[k + 1] && t[k + 1] == s[k + 2] && t[k + 2] == s[k + 3]);
                }
            }
        } else {
            let f = find_crlf2(t);
            assert(t[f] == s[f + 1] && t[f + 1] == s[f + 2] && t[f + 2] == s[f + 3] && t[f + 3] == s[f + 4]);
            assert forall|k: int| 0 <= k < find_crlf2(s) implies !crlf2_at(s, k) by {
                if k > 0 {
                    assert(!crlf2_at(t, k - 1));
                    assert(t[k - 1] == s[k] && t[k] == s[k + 1] && t[k + 1] == s[k + 2] && t[k + 2] == s[k + 3]);
                }
            }
        }
    }
}

pub proof fn lemma_find_byte(s: Seq<u8>, b: u8)
    ensures
        find_byte(s, b) == -1 ==> forall|k: int| 0 <= k < s.len() ==> s[k] != b,
        find_byte(s, b) != -1 ==> {
            &&& 0 <= find_byte(s, b)
            &&& find_byte(s, b) < s.len()
            &&& s[find_byte(s, b)] == b
            &&& forall|k: int| 0 <= k < find_byte(s, b) ==> s[k] != b
        },
    decreases s.len(),
{
    if s.len() == 0 {
    } else if s[0] == b {
    } else {
        lemma_find_byte(s.skip(1), b);
        let t = s.skip(1);
        if find_byte(s, b) == -1 {
            assert forall|k: int| 0 <= k < s.len() implies s[k] != b by {
                if k > 0 {
                    assert(t[k - 1] == s[k]);
                }
            }
        } else {
            let f = find_byte(t, b);
            assert(t[f] == s[f + 1]);
            assert forall|k: int| 0 <= k < find_byte(s, b) implies s[k] != b by {
                if k > 0 {
                    assert(t[k - 1] == s[k]);
                }
            }
        }
    }
}

/// The lines of the head: the pieces between line breaks, in order.
pub open spec fn split_crlf(s: Seq<u8>) -> Seq<Seq<u8>>
    decreases s.len(),
{
    let f = find_crlf(s);
    if f < 0 || f + 2 > s.len() {
        seq![s]
    } else {
        seq![s.take(f)] + split_crlf(s.skip(f + 2))
    }
}

/// Splits a byte string at every line break, keeping empty pieces.
pub fn split_crlf_vec(s: &[u8]) -> (r: Vec<Vec<u8>>)
    ensures
        r.deep_view() == split_crlf(s@),
        r.deep_view().len() >= 1,
{
    let n = s.len();
    let mut segs: Vec<Vec<u8>> = Vec::new();
    let mut seg_start: usize = 0;
    let mut i: usize = 0;
    proof {
        assert(s@.skip(0) =~= s@);
        assert(segs.deep_view() =~= Seq::<Seq<u8>>::empty());
    }
    while i < n
        invariant
            0 <= seg_start <= i <= n,
            n == s@.len(),
            forall|k: int| seg_start <= k < i && k + 2 <= n ==> !crlf_at(s@, k),
            split_crlf(s@) == segs.deep_view() + split_crlf(s@.skip(seg_start as int)),
        decreases n - i,
    {
        let has_crlf = i + 1 < n && *slice_index_get(s, i) == 13 && *slice_index_get(s, i + 1) == 10;
        if has_crlf {
            let piece = slice_to_vec(slice_subrange(s, seg_start, i));
            let ghost old_deep = segs.deep_view();
            proof {
                let tail = s@.skip(seg_start as int);
                lemma_find_crlf(tail);
                assert(forall|k: int| 0 <= k && k + 2 <= tail.len() ==> crlf_at(tail, k) == crlf_at(s@, k + seg_start));
                assert(crlf_at(tail, i - seg_start));
                assert(find_crlf(tail) == i - seg_start) by {
                    if find_crlf(tail) == -1 {
                        assert(!crlf_at(tail, i - seg_start));
                    } else if find_crlf(tail) < i - seg_start {
                        assert(crlf_at(s@, find_crlf(tail) + seg_start));
                    } else if find_crlf(tail) > i - seg_start {
                        assert(!crlf_at(tail, i - seg_start));
                    }
                }
                assert(tail.take(i - seg_start) =~= s@.subrange(seg_start as int, i as int));
                assert(tail.skip(i - seg_start + 2) =~= s@.skip(i + 2));
                assert(split_crlf(tail) == seq![s@.subrange(seg_start as int, i as int)] + split_crlf(s@.skip(i + 2)));
                assert(piece@ == s@.subrange(seg_start as int, i as int));
            }
            segs.push(piece);
            proof {
                assert(segs.deep_view() =~~= old_deep.push(s@.subrange(seg_start as int, i as int)));
                assert(segs.deep_view() + split_crlf(s@.skip(i + 2))
                    =~= (old_deep + (seq![s@.subrange(seg_start as int, i as int)] + split_crlf(s@.skip(i + 2)))));
            }
            i += 2;
            seg_start = i;
        } else {
            i += 1;
        }
    }
    let piece = slice_to_vec(slice_subrange(s, seg_start, n));
    let ghost old_deep = segs.deep_view();
    proof {
        let tail = s@.skip(seg_start as int);
        lemma_find_crlf(tail);
        assert(forall|k: int| 0 <= k && k + 2 <= tail.len() ==> crlf_at(tail, k) == crlf_at(s@, k + seg_start));
        assert(find_crlf(tail) == -1) by {
            if find_crlf(tail) != -1 {
                assert(crlf_at(s@, find_crlf(tail) + seg_start));
            }
        }
        assert(split_crlf(tail) == seq![tail]);
        assert(piece@ == tail) by {
            assert(tail =~= s@.subrange(seg_start as int, n as int));
        }
    }
    segs.push(piece);
    proof {
        assert(segs.deep_view() =~~= old_deep.push(s@.skip(seg_start as int)));
        assert(segs.deep_view() =~= old_deep + seq![s@.skip(seg_start as int)]);
    }
    segs
}

/// The whitespace-separated words of a byte string, in order.
pub open spec fn tokens_of(s: Seq<u8>) -> Seq<Seq<u8>>
    decreases s.len(),
{
    if s.len() == 0 {
        Seq::empty()
    } else if is_ws(s.last()) {
        tokens_of(s.drop_last())
    } else if s.len() == 1 {
        seq![s]
    } else if is_ws(s[s.len() - 2]) {
        tokens_of(s.drop_last()).push(seq![s.last()])
    } else {
        let r = tokens_of(s.drop_last());
        r.update(r.len() - 1, r.last().push(s.last()))
    }
}

/// Splits a byte string into its whitespace-separated words.
pub fn split_ws(s: &[u8]) -> (r: Vec<Vec<u8>>)
    ensures
        r.deep_view() == tokens_of(s@),
{
    let n = s.len();
    let mut toks: Vec<Vec<u8>> = Vec::new();
    let mut word_start: usize = 0;
    let mut in_word: bool = false;
    let mut i: usize = 0;
    proof {
        assert(s@.take(0) =~= Seq::<u8>::empty());
        assert(toks.deep_view() =~= Seq::<Seq<u8>>::empty());
    }
    while i < n
        invariant
            0 <= i <= n,
            n == s@.len(),
            in_word <==> (i > 0 && !is_ws(s@[i - 1])),
            in_word ==> {
                &&& 0 <= word_start < i
                &&& tokens_of(s@.take(i as int)) == toks.deep_view().push(s@.subrange(word_start as int, i as int))
                &&& forall|k: int| word_start <= k < i ==> !is_ws(s@[k])
            },
            !in_word ==> tokens_of(s@.take(i as int)) == toks.deep_view(),
        decreases n - i,
    {
        let ghost pre = s@.take(i as int);
        let ghost pre1 = s@.take(i + 1);
        let ghost cur = s@.subrange(word_start as int, i as int);
        proof {
            assert(pre1.drop_last() =~= pre);
            assert(pre1.last() == s@[i as int]);
            if i > 0 {
                assert(pre1[i - 1] == s@[i - 1]);
            }
        }
        let c = *slice_index_get(s, i);
        if c == 32 || c == 9 || c == 13 || c == 10 {
            if in_word {
                let piece = slice_to_vec(slice_subrange(s, word_start, i));
                let ghost old_deep = toks.deep_view();
                toks.push(piece);
                proof {
                    assert(toks.deep_view() =~~= old_deep.push(cur));
                    assert(tokens_of(pre1) == toks.deep_view());
                }
            }
            in_word = false;
        } else {
            if !in_word {
                word_start = i;
                in_word = true;
                proof {
                    assert(seq![s@[i as int]] =~= s@.subrange(i as int, i + 1));
                    if i == 0 {
                        assert(pre1 =~= s@.subrange(0, 1));
                        assert(tokens_of(pre1) == seq![pre1]);
                        assert(toks.deep_view().push(s@.subrange(0, 1)) =~= seq![pre1]);
                    } else {
                        assert(is_ws(pre1[i - 1]));
                        assert(tokens_of(pre1) == tokens_of(pre).push(seq![pre1.last()]));
                    }
                }
            } else {
                proof {
                    let d = toks.deep_view();
                    let r = tokens_of(pre);
                    assert(!is_ws(pre1[i - 1]));
                    assert(tokens_of(pre1) == r.update(r.len() - 1, r.last().push(pre1.last())));
                    assert(r == d.push(cur));
                    assert(r.last() == cur);
                    assert(r.update(r.len() - 1, cur.push(s@[i as int])) =~= d.push(cur.push(s@[i as int])));
                    assert(cur.push(s@[i as int]) =~= s@.subrange(word_start as int, i + 1));
                }
            }
        }
        i += 1;
    }
    proof {
        assert(s@.take(n as int) =~= s@);
    }
    if in_word {
        let piece = slice_to_vec(slice_subrange(s, word_start, n));
        let ghost old_deep = toks.deep_view();
        toks.push(piece);
        proof {
            assert(toks.deep_view() =~~= old_deep.push(s@.subrange(word_start as int, n as int)));
        }
    }
    toks
}

/// `s` with every leading whitespace byte removed.
pub open spec fn trim_start_ws(s: Seq<u8>) -> Seq<u8>
    decreases s.len(),
{
    if s.len() > 0 && is_ws(s[0]) {
        trim_start_ws(s.skip(1))
    } else {
        s
    }
}

/// `s` with every trailing whitespace byte removed.
pub open spec fn trim_end_ws(s: Seq<u8>) -> Seq<u8>
    decreases s.len(),
{
    if s.len() > 0 && is_ws(s.last()) {
        trim_end_ws(s.drop_last())
    } else {
        s
    }
}

/// `s` with whitespace removed from both ends.
pub open spec fn trim_ws_seq(s: Seq<u8>) -> Seq<u8> {
    trim_start_ws(trim_end_ws(s))
}

/// Removes ASCII whitespace from both ends of a byte string.
pub fn trim_ws(s: &[u8]) -> (r: Vec<u8>)
    ensures
        r@ == trim_ws_seq(s@),
{
    let n = s.len();
    let mut end: usize = n;
    proof {
        assert(s@.subrange(0, n as int) =~= s@);
    }
    loop
        invariant
            0 <= end <= n,
            n == s@.len(),
            trim_end_ws(s@) == trim_end_ws(s@.subrange(0, end as int)),
        ensures
            0 <= end <= n,
            trim_end_ws(s@) == s@.subrange(0, end as int),
        decreases end,
    {
        if end == 0 {
            proof {
                assert(s@.subrange(0, 0) =~= Seq::<u8>::empty());
            }
            break;
        }
        let c = *slice_index_get(s, end - 1);
        if c == 32 || c == 9 || c == 13 || c == 10 {
            proof {
                assert(s@.subrange(0, end as int).drop_last() =~= s@.subrange(0, end - 1));
            }
            end -= 1;
        } else {
            proof {
                assert(s@.subrange(0, end as int).last() == s@[end - 1]);
            }
            break;
        }
    }
    let ghost trimmed = s@.subrange(0, end as int);
    proof {
        assert(trim_end_ws(s@) == trimmed);
    }
    let mut start: usize = 0;
    loop
        invariant
            0 <= start <= end <= n,
            n == s@.len(),
            trim_end_ws(s@) == trimmed,
            trimmed == s@.subrange(0, end as int),
            trim_start_ws(trimmed) == trim_start_ws(s@.subrange(start as int, end as int)),
        ensures
            0 <= start <= end,
            trim_start_ws(trimmed) == s@.subrange(start as int, end as int),
        decreases end - start,
    {
        if start == end {
            proof {
                assert(s@.subrange(start as int, end as int) =~= Seq::<u8>::empty());
            }
            break;
        }
        let c = *slice_index_get(s, start);
        if c == 32 || c == 9 || c == 13 || c == 10 {
            proof {
                assert(s@.subrange(start as int, end as int).skip(1) =~= s@.subrange(start + 1, end as int));
            }
            start += 1;
        } else {
            proof {
                assert(s@.subrange(start as int, end as int)[0] == s@[start as int]);
            }
            break;
        }
    }
    let r = slice_to_vec(slice_subrange(s, start, end));
    proof {
        assert(r@ == trim_start_ws(trim_end_ws(s@)));
    }
    r
}

/// Splits a header line at its first colon: the bytes before it and the
/// bytes after it. A line without a colon yields nothing.
pub fn split_colon(line: &[u8]) -> (r: Option<(Vec<u8>, Vec<u8>)>)
    ensures
        match r {
            Some(kv) => {
                &&& find_byte(line@, 58) >= 0
                &&& kv.0@ == line@.take(find_byte(line@, 58))
                &&& kv.1@ == line@.skip(find_byte(line@, 58) + 1)
            },
            None => find_byte(line@, 58) == -1,
        },
{
    let n = line.len();
    let mut i: usize = 0;
    while i < n
        invariant
            0 <= i <= n,
            n == line@.len(),
            forall|k: int| 0 <= k < i ==> line@[k] != 58,
        decreases n - i,
    {
        if *slice_index_get(line, i) == 58 {
            proof {
                lemma_find_byte(line@, 58);
                if find_byte(line@, 58) == -1 {
                    assert(line@[i as int] != 58);
                }
                assert(find_byte(line@, 58) == i);
            }
            let key = slice_to_vec(slice_subrange(line, 0, i));
            let value = slice_to_vec(slice_subrange(line, i + 1, n));
            proof {
                assert(key@ =~= line@.take(i as int));
                assert(value@ =~= line@.skip(i + 1));
            }
            return Some((key, value));
        }
        i += 1;
    }
    proof {
        lemma_find_byte(line@, 58);
        if find_byte(line@, 58) != -1 {
            assert(line@[find_byte(line@, 58)] == 58);
        }
    }
    None
}

/// The text that permissive decoding yields for a byte string; it depends on
/// the bytes alone.
pub uninterp spec fn lossy_of(bytes: Seq<u8>) -> Seq<char>;

/// Relies on String::from_utf8_lossy: decodes bytes as UTF-8, replacing
/// invalid sequences, and yields nothing for no bytes.
#[verifier::external_body]
pub fn bytes_to_string_lossy(bytes: &[u8]) -> (r: String)
    ensures
        r@ == lossy_of(bytes@),
        bytes@.len() == 0 ==> r@.len() == 0,
{
    String::from_utf8_lossy(bytes).into_owned()
}

} // verus!
